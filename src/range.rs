//! Dimension algebra and reversible multidimensional range transformations.
//!
//! A range is a list of dimensions, outermost first. Splitting a dimension of
//! size `n` by a tile size `t` gives the quotient dimension (which tile) and
//! the remainder dimension (where in the tile). The remainder is subordinate
//! to its quotient: its extent depends on which tile is walked, so it may
//! never be ordered before that quotient.
use vstd::prelude::*;

verus! {

/// A dimension size, as an expression.
#[derive(Debug)]
pub enum DimMath {
    /// a dimension of the input
    Input(usize),
    /// a fixed size
    Const(usize),
    /// the number of tiles of the given size in a dimension
    Div(Box<DimMath>, usize),
    /// the position within a tile of the given size
    Rem(Box<DimMath>, usize),
}

impl DimMath {
    /// Whether the two expressions are the same.
    pub fn same(&self, other: &DimMath) -> (r: bool)
        ensures
            r == (*self == *other),
        decreases self,
    {
        match (self, other) {
            (DimMath::Input(a), DimMath::Input(b)) => *a == *b,
            (DimMath::Const(a), DimMath::Const(b)) => *a == *b,
            (DimMath::Div(x, a), DimMath::Div(y, b)) => *a == *b && (**x).same(&**y),
            (DimMath::Rem(x, a), DimMath::Rem(y, b)) => *a == *b && (**x).same(&**y),
            _ => false,
        }
    }
}

impl Clone for DimMath {
    fn clone(&self) -> (r: Self)
        ensures
            r == *self,
        decreases self,
    {
        match self {
            DimMath::Input(a) => DimMath::Input(*a),
            DimMath::Const(a) => DimMath::Const(*a),
            DimMath::Div(x, a) => DimMath::Div(Box::new((**x).clone()), *a),
            DimMath::Rem(x, a) => DimMath::Rem(Box::new((**x).clone()), *a),
        }
    }
}

/// `a` is the remainder dimension that belongs to quotient dimension `b`.
pub open spec fn subordinate(a: DimMath, b: DimMath) -> bool {
    match (a, b) {
        (DimMath::Rem(x, t), DimMath::Div(y, u)) => x == y && t == u,
        _ => false,
    }
}

/// No remainder dimension comes before its quotient dimension.
pub open spec fn ordered_ok(s: Seq<DimMath>) -> bool {
    forall|i: int, j: int| 0 <= i < j < s.len() ==> !subordinate(#[trigger] s[i], #[trigger] s[j])
}

/// A range transformation, built from the unit range by steps.
#[derive(Debug)]
pub enum RangeMath {
    /// the zero-dimensional unit range
    Nil,
    /// cartesian product: a dimension put in front of a range
    Mul(DimMath, Box<RangeMath>),
    /// the range without the dimension at the position
    Slice(Box<RangeMath>, usize),
    /// the range with a dimension added at the position
    Stack(Box<RangeMath>, usize, DimMath),
    /// the dimension at the position split by the tile size into its
    /// quotient and, right after it, its remainder
    SplitDim(Box<RangeMath>, usize, usize),
    /// the quotient at the position merged with the remainder after it, of
    /// the same dimension and the same nonzero tile size
    MergeDim(Box<RangeMath>, usize),
    /// the range with the dimensions at the two positions exchanged
    Swapping(Box<RangeMath>, usize, usize),
}

/// The dimensions after splitting dimension `p` of `s` by tile size `t`.
pub open spec fn split_dims(s: Seq<DimMath>, p: int, t: usize) -> Seq<DimMath> {
    s.subrange(0, p) + seq![DimMath::Div(Box::new(s[p]), t), DimMath::Rem(Box::new(s[p]), t)] + s.subrange(
        p + 1,
        s.len() as int,
    )
}

/// The dimensions after merging dimensions `p` and `p + 1` of `s` into `e`.
pub open spec fn merge_dims(s: Seq<DimMath>, p: int, e: DimMath) -> Seq<DimMath> {
    s.subrange(0, p) + seq![e] + s.subrange(p + 2, s.len() as int)
}

/// The dimensions a step produces from the dimensions `s` of the range it
/// applies to, before the ordering check; `None` where the step does not apply.
pub open spec fn step_dims(r: RangeMath, s: Seq<DimMath>) -> Option<Seq<DimMath>> {
    match r {
        RangeMath::Nil => Some(Seq::empty()),
        RangeMath::Mul(d, _) => Some(seq![d] + s),
        RangeMath::Slice(_, p) => if p < s.len() {
            Some(s.remove(p as int))
        } else {
            None
        },
        RangeMath::Stack(_, p, d) => if p <= s.len() {
            Some(s.insert(p as int, d))
        } else {
            None
        },
        RangeMath::SplitDim(_, p, t) => if p < s.len() && t > 0 {
            Some(split_dims(s, p as int, t))
        } else {
            None
        },
        RangeMath::MergeDim(_, p) => if p + 1 < s.len() {
            match (s[p as int], s[p + 1]) {
                (DimMath::Div(x, t), DimMath::Rem(y, u)) => if x == y && t == u && t > 0 {
                    Some(merge_dims(s, p as int, *x))
                } else {
                    None
                },
                _ => None,
            }
        } else {
            None
        },
        RangeMath::Swapping(_, a, b) => if a < s.len() && b < s.len() {
            Some(s.update(a as int, s[b as int]).update(b as int, s[a as int]))
        } else {
            None
        },
    }
}

/// The dimensions of a range, outermost first; `None` where a step does not
/// apply or would order a remainder before its quotient.
pub open spec fn range_dims(r: RangeMath) -> Option<Seq<DimMath>>
    decreases r,
{
    let inner = match r {
        RangeMath::Nil => Some(Seq::empty()),
        RangeMath::Mul(_, x) => range_dims(*x),
        RangeMath::Slice(x, _) => range_dims(*x),
        RangeMath::Stack(x, _, _) => range_dims(*x),
        RangeMath::SplitDim(x, _, _) => range_dims(*x),
        RangeMath::MergeDim(x, _) => range_dims(*x),
        RangeMath::Swapping(x, _, _) => range_dims(*x),
    };
    match inner {
        None => None,
        Some(s) => match step_dims(r, s) {
            Some(d) => if ordered_ok(d) {
                Some(d)
            } else {
                None
            },
            None => None,
        },
    }
}

/// Copies a list of dimensions.
fn copy_dims(s: &[DimMath]) -> (r: Vec<DimMath>)
    ensures
        r@ == s@,
{
    let mut r: Vec<DimMath> = Vec::new();
    let mut i: usize = 0;
    while i < s.len()
        invariant
            i <= s@.len(),
            r@ == s@.take(i as int),
        decreases s@.len() - i,
    {
        r.push(s[i].clone());
        i = i + 1;
        assert(r@ =~= s@.take(i as int));
    }
    assert(s@.take(i as int) =~= s@);
    r
}

/// Whether no remainder dimension of `s` comes before its quotient.
fn check_order(s: &[DimMath]) -> (r: bool)
    ensures
        r == ordered_ok(s@),
{
    let mut j: usize = 0;
    while j < s.len()
        invariant
            j <= s@.len(),
            forall|a: int, b: int| 0 <= a < b < j ==> !subordinate(#[trigger] s@[a], #[trigger] s@[b]),
        decreases s@.len() - j,
    {
        let mut i: usize = 0;
        while i < j
            invariant
                i <= j < s@.len(),
                forall|a: int, b: int| 0 <= a < b < j ==> !subordinate(#[trigger] s@[a], #[trigger] s@[b]),
                forall|a: int| 0 <= a < i ==> !subordinate(#[trigger] s@[a], s@[j as int]),
            decreases j - i,
        {
            let sub = match (&s[i], &s[j]) {
                (DimMath::Rem(x, t), DimMath::Div(y, u)) => *t == *u && (**x).same(&**y),
                _ => false,
            };
            if sub {
                return false;
            }
            i = i + 1;
        }
        j = j + 1;
    }
    true
}

impl RangeMath {
    /// The dimensions of the range (see `range_dims`).
    pub fn dims(&self) -> (r: Option<Vec<DimMath>>)
        ensures
            match range_dims(*self) {
                Some(s) => r matches Some(v) && v@ == s,
                None => r is None,
            },
        decreases self,
    {
        let inner = match self {
            RangeMath::Nil => Some(Vec::new()),
            RangeMath::Mul(_, x) => (**x).dims(),
            RangeMath::Slice(x, _) => (**x).dims(),
            RangeMath::Stack(x, _, _) => (**x).dims(),
            RangeMath::SplitDim(x, _, _) => (**x).dims(),
            RangeMath::MergeDim(x, _) => (**x).dims(),
            RangeMath::Swapping(x, _, _) => (**x).dims(),
        };
        let s = match inner {
            None => {
                return None;
            },
            Some(s) => s,
        };
        let d = match self.step(s) {
            None => {
                return None;
            },
            Some(d) => d,
        };
        if check_order(d.as_slice()) {
            Some(d)
        } else {
            None
        }
    }

    /// Applies the outermost step of `self` to dimensions `s`.
    fn step(&self, s: Vec<DimMath>) -> (r: Option<Vec<DimMath>>)
        ensures
            match step_dims(*self, s@) {
                Some(d) => r matches Some(v) && v@ == d,
                None => r is None,
            },
    {
        let mut s = s;
        match self {
            RangeMath::Nil => Some(Vec::new()),
            RangeMath::Mul(d, _) => {
                let mut v: Vec<DimMath> = Vec::new();
                v.push(d.clone());
                let mut rest = s;
                v.append(&mut rest);
                Some(v)
            },
            RangeMath::Slice(_, p) => {
                if *p < s.len() {
                    s.remove(*p);
                    Some(s)
                } else {
                    None
                }
            },
            RangeMath::Stack(_, p, d) => {
                if *p <= s.len() {
                    s.insert(*p, d.clone());
                    Some(s)
                } else {
                    None
                }
            },
            RangeMath::SplitDim(_, p, t) => {
                if *p < s.len() && *t > 0 {
                    let p = *p;
                    let mut v = copy_dims(&s.as_slice()[0..p]);
                    v.push(DimMath::Div(Box::new(s[p].clone()), *t));
                    v.push(DimMath::Rem(Box::new(s[p].clone()), *t));
                    let mut rest = copy_dims(&s.as_slice()[p + 1..s.len()]);
                    v.append(&mut rest);
                    assert(v@ =~= split_dims(s@, p as int, *t));
                    Some(v)
                } else {
                    None
                }
            },
            RangeMath::MergeDim(_, p) => {
                if *p < s.len() && s.len() - *p >= 2 {
                    let p = *p;
                    let e = match (&s[p], &s[p + 1]) {
                        (DimMath::Div(x, t), DimMath::Rem(y, u)) => {
                            if *t == *u && *t > 0 && (**x).same(&**y) {
                                Some((**x).clone())
                            } else {
                                None
                            }
                        },
                        _ => None,
                    };
                    match e {
                        Some(e) => {
                            let mut v = copy_dims(&s.as_slice()[0..p]);
                            v.push(e);
                            let mut rest = copy_dims(&s.as_slice()[p + 2..s.len()]);
                            v.append(&mut rest);
                            assert(v@ =~= merge_dims(s@, p as int, v@[p as int]));
                            Some(v)
                        },
                        None => None,
                    }
                } else {
                    None
                }
            },
            RangeMath::Swapping(_, a, b) => {
                if *a < s.len() && *b < s.len() {
                    let da = s[*a].clone();
                    let db = s[*b].clone();
                    s.set(*a, db);
                    s.set(*b, da);
                    Some(s)
                } else {
                    None
                }
            },
        }
    }
}

/// Splitting a dimension and merging its two parts back gives the
/// dimensions one started from.
pub proof fn lemma_split_merge(r: RangeMath, p: usize, t: usize)
    requires
        range_dims(RangeMath::SplitDim(Box::new(r), p, t)) is Some,
    ensures
        range_dims(RangeMath::MergeDim(Box::new(RangeMath::SplitDim(Box::new(r), p, t)), p)) == range_dims(
            r,
        ),
{
    let s = range_dims(r)->0;
    let sp = split_dims(s, p as int, t);
    assert(range_dims(RangeMath::SplitDim(Box::new(r), p, t)) == Some(sp));
    assert(sp[p as int] == DimMath::Div(Box::new(s[p as int]), t));
    assert(sp[p + 1] == DimMath::Rem(Box::new(s[p as int]), t));
    assert(merge_dims(sp, p as int, s[p as int]) =~= s);
}

/// The range that the outermost step of `r` applies to.
pub open spec fn inner(r: RangeMath) -> RangeMath {
    match r {
        RangeMath::Nil => RangeMath::Nil,
        RangeMath::Mul(_, x) => *x,
        RangeMath::Slice(x, _) => *x,
        RangeMath::Stack(x, _, _) => *x,
        RangeMath::SplitDim(x, _, _) => *x,
        RangeMath::MergeDim(x, _) => *x,
        RangeMath::Swapping(x, _, _) => *x,
    }
}

impl RangeMath {
    /// Appends to a valid range the step that undoes its outermost step: a
    /// product is sliced, a slice restacked, a stack sliced, a split merged,
    /// a merge split, a swap swapped back. The result has the dimensions of
    /// the range the outermost step applied to.
    pub fn undo(self) -> (r: RangeMath)
        requires
            range_dims(self) is Some,
        ensures
            range_dims(r) == range_dims(inner(self)),
    {
        let ghost whole = self;
        match self {
            RangeMath::Nil => RangeMath::Nil,
            RangeMath::Mul(d, x) => {
                let ghost s = range_dims(*x)->0;
                let r = RangeMath::Slice(Box::new(RangeMath::Mul(d, x)), 0);
                proof {
                    assert((seq![d] + s).remove(0) =~= s);
                }
                r
            },
            RangeMath::Slice(x, p) => {
                // the inner range is valid, as `self` is
                let s = match (*x).dims() {
                    Some(s) => s,
                    None => {
                        return RangeMath::Nil;
                    },
                };
                let d = s[p].clone();
                let r = RangeMath::Stack(Box::new(RangeMath::Slice(x, p)), p, d);
                proof {
                    assert(s@.remove(p as int).insert(p as int, s@[p as int]) =~= s@);
                }
                r
            },
            RangeMath::Stack(x, p, d) => {
                let ghost s = range_dims(*x)->0;
                let ghost dd = d;
                let r = RangeMath::Slice(Box::new(RangeMath::Stack(x, p, d)), p);
                proof {
                    assert(s.insert(p as int, dd).remove(p as int) =~= s);
                }
                r
            },
            RangeMath::SplitDim(x, p, t) => {
                let ghost xx = *x;
                let r = RangeMath::MergeDim(Box::new(RangeMath::SplitDim(x, p, t)), p);
                proof {
                    lemma_split_merge(xx, p, t);
                }
                r
            },
            RangeMath::MergeDim(x, p) => {
                // the inner range is valid, and holds a quotient at `p`, as
                // `self` is valid
                let s = match (*x).dims() {
                    Some(s) => s,
                    None => {
                        return RangeMath::Nil;
                    },
                };
                let t = match &s[p] {
                    DimMath::Div(_, t) => *t,
                    _ => 0,
                };
                let ghost e = match s@[p as int] {
                    DimMath::Div(e, _) => *e,
                    _ => s@[p as int],
                };
                let r = RangeMath::SplitDim(Box::new(RangeMath::MergeDim(x, p)), p, t);
                proof {
                    let m = merge_dims(s@, p as int, e);
                    assert(range_dims(whole) == Some(m));
                    assert(m[p as int] == e);
                    assert(split_dims(m, p as int, t) =~= s@);
                }
                r
            },
            RangeMath::Swapping(x, a, b) => {
                let ghost s = range_dims(*x)->0;
                let r = RangeMath::Swapping(Box::new(RangeMath::Swapping(x, a, b)), a, b);
                proof {
                    let w = s.update(a as int, s[b as int]).update(b as int, s[a as int]);
                    assert(w.update(a as int, w[b as int]).update(b as int, w[a as int]) =~= s);
                }
                r
            },
        }
    }
}

} // verus!
