//! The graph intermediate representation.
//!
//! Every node lives in an arena of the context and is addressed by its
//! position. An expression, once its free variables (which are always
//! indices) are abstracted away, stands for a tensor. Its attribute says in
//! which order those indices are walked (`index`, outermost first), how each
//! dimension is stored (`store`), and which worker group computes it.
//!
//! When an ordering mismatches the ordering a downstream operator asks for,
//! the storage of the expression must grow so that the consumer can read it
//! in its own order.
use vstd::prelude::*;
use crate::svec::IdxOrder;

verus! {

/// Index reference: a position in the context's index table.
#[derive(Debug, Clone, Copy, PartialEq, Eq, PartialOrd, Ord, Structural)]
pub struct IRef(pub usize);

/// Index arithmetic.
#[derive(Debug, Clone, Copy, PartialEq, Eq, Structural)]
pub enum Idx {
    Const(usize),
    Variable(usize),
    Div(IRef, IRef),
    Rem(IRef, IRef),
    Mul(IRef, IRef),
}

/// Expression reference: a position in the context's operator table.
#[derive(Debug, Clone, Copy, PartialEq, Eq, Structural)]
pub struct XRef(pub usize);

/// Expressions that are scalar in form. Once the free variables (which are
/// always indices) are abstracted away, an expression stands for a tensor.
#[derive(Debug, Clone, Copy, PartialEq, Eq, Structural)]
#[allow(inconsistent_fields)]
pub enum Expr {
    Bin { op: BinOp, lhs: XRef, rhs: XRef },
    Uni { op: UniOp, rhs: XRef },
    Gen { op: NilOp },
    Red { op: RedOp, idx: usize, init: XRef, expr: XRef },
}

/// Binary operators.
#[derive(Debug, Clone, Copy, PartialEq, Eq, Structural)]
pub enum BinOp {
    // basic arithmetic
    Add,
    Mul,
    Sub,
    Div,
    Rem,
    // tuple and conditional projection
    Tup,
    PjC,
}

/// Unary operators.
#[derive(Debug, Clone, Copy, PartialEq, Eq, Structural)]
pub enum UniOp {
    // left and right projection of a tuple
    PjL,
    PjR,
    // negation: arithmetic on numbers, bitwise on booleans
    Neg,
    // conversion to another primitive type
    Cast(Type),
}

/// Nullary operators.
#[derive(Debug, Clone, Copy, PartialEq, Eq, Structural)]
pub enum NilOp {
    Input(usize),
    Const(usize),
    Index(IRef),
}

/// Reduction operators.
#[derive(Debug, Clone, Copy, PartialEq, Eq, Structural)]
pub enum RedOp {
    Add,
    Mul,
    Max,
    Min,
}

/// Type reference: a position in the context's type table.
#[derive(Debug, Clone, Copy, PartialEq, Eq, Structural)]
pub struct TRef(pub usize);

/// A type marker.
#[derive(Debug, Clone, Copy, PartialEq, Eq, Structural)]
pub enum Type {
    F32,
    F64,
    I32,
    I64,
    Bool,
    Sized(XRef),
    Tuple(TRef, TRef),
}

pub open spec fn arith_type(t: Type) -> bool {
    match t {
        Type::F32 | Type::F64 | Type::I32 | Type::I64 | Type::Sized(_) => true,
        _ => false,
    }
}

pub open spec fn integer_type(t: Type) -> bool {
    match t {
        Type::I32 | Type::I64 | Type::Sized(_) => true,
        _ => false,
    }
}

pub open spec fn primitive_type(t: Type) -> bool {
    arith_type(t) || t == Type::Bool
}

impl Type {
    pub fn is_arith(&self) -> (r: bool)
        ensures
            r == arith_type(*self),
    {
        match self {
            Type::F32 | Type::F64 | Type::I32 | Type::I64 | Type::Sized(_) => true,
            _ => false,
        }
    }

    pub fn is_integer(&self) -> (r: bool)
        ensures
            r == integer_type(*self),
    {
        match self {
            Type::I32 | Type::I64 | Type::Sized(_) => true,
            _ => false,
        }
    }

    pub fn is_primitive(&self) -> (r: bool)
        ensures
            r == primitive_type(*self),
    {
        self.is_arith() || *self == Type::Bool
    }
}

/// Type equality: structural, except that the components of tuples are
/// compared by resolving their references in `tg`, at most `depth` deep.
pub open spec fn same_type(tg: Seq<Type>, s: Type, t: Type, depth: nat) -> bool
    decreases depth,
{
    match (s, t) {
        (Type::Tuple(a, b), Type::Tuple(c, d)) => depth > 0 && same_type(
            tg,
            tg[a.0 as int],
            tg[c.0 as int],
            (depth - 1) as nat,
        ) && same_type(tg, tg[b.0 as int], tg[d.0 as int], (depth - 1) as nat),
        _ => s == t,
    }
}

/// The type of a binary operation on operands of types `tl` and `tr`, or
/// `None` where the operation is ill-typed.
pub open spec fn bin_type(tg: Seq<Type>, op: BinOp, tl: TRef, tr: TRef) -> Option<Type> {
    let l = tg[tl.0 as int];
    let r = tg[tr.0 as int];
    match op {
        BinOp::Add | BinOp::Mul | BinOp::Sub | BinOp::Div => if arith_type(l) && l == r {
            Some(l)
        } else {
            None
        },
        BinOp::Rem => if integer_type(l) && l == r {
            Some(l)
        } else {
            None
        },
        BinOp::Tup => Some(Type::Tuple(tl, tr)),
        BinOp::PjC => match r {
            Type::Tuple(a, b) => if l == Type::Bool && same_type(
                tg,
                tg[a.0 as int],
                tg[b.0 as int],
                tg.len(),
            ) {
                Some(tg[a.0 as int])
            } else {
                None
            },
            _ => None,
        },
    }
}

/// The type of a unary operation on an operand of type `t`, or `None` where
/// the operation is ill-typed.
pub open spec fn uni_type(tg: Seq<Type>, op: UniOp, t: TRef) -> Option<Type> {
    let x = tg[t.0 as int];
    match op {
        UniOp::PjL => match x {
            Type::Tuple(a, _) => Some(tg[a.0 as int]),
            _ => None,
        },
        UniOp::PjR => match x {
            Type::Tuple(_, b) => Some(tg[b.0 as int]),
            _ => None,
        },
        UniOp::Neg => if primitive_type(x) {
            Some(x)
        } else {
            None
        },
        UniOp::Cast(c) => if primitive_type(x) && primitive_type(c) {
            Some(c)
        } else {
            None
        },
    }
}

/// Memory reference: a position in the lowered memory IR.
pub struct MRef(pub usize);

/// An address handed out by a worker group.
pub struct Addr(pub usize);

/// The lowered memory IR.
pub enum MemIR {
    // integer (usually) calculation
    Calc(XRef),
    // load something from an array with given offset
    Load(Addr, MRef),
    // append the result of an expression
    Append(Addr, MRef),
    // allocate an extendable array with given size
    Alloca(XRef),
    // abort an operation or make the cost estimation explode
    Revert,
}

/// A physical layout for a tensor, with declared costs for its accesses.
pub trait StorageFormat {
    /// Initializes a tensor of the given shape and type; returns the
    /// allocation requests.
    fn init(&self, shape: &[XRef], ty: Type) -> (&[XRef], Type);

    /// Writes an element at the given position.
    fn rand_write(&self, index: &[XRef], value: XRef) -> MRef;

    /// Cost of a write at the given position.
    fn rand_write_cost(&self, index: &[XRef], value: XRef) -> MRef;

    /// Creates a write cursor at the given position.
    fn iter_write_init(&self, index: &[XRef]) -> MRef;

    /// Writes a value at the cursor and moves it on; the cursor comes from
    /// `iter_write_init` or from this method.
    fn iter_write_next(&self, cursor: MRef, index: &[XRef], value: XRef) -> MRef;

    /// The cost of one sequential write step, fixed for the format.
    fn iter_write_cost(&self) -> usize;

    /// Reads the element at the given position.
    fn rand_read(&self, index: &[XRef]) -> MRef;

    /// Cost of a read at the given position.
    fn rand_read_cost(&self, index: &[XRef]) -> MRef;

    /// Creates a read cursor over the stored tensor from the given position on.
    fn iter_read_init(&self, index: &[XRef]) -> MRef;

    /// Reads at the cursor and moves it on; the cursor comes from
    /// `iter_read_init` or from this method. Returns the coordinate, the next
    /// cursor and the value.
    fn iter_read_next(&self, cursor: MRef) -> (&[MRef], MRef, MRef);

    /// The cost of one sequential read step, fixed for the format.
    fn iter_read_cost(&self) -> usize;
}

/// A set of workers tied to a physical backend.
pub trait WorkerGroup {
    /// Reserves room for a dense tensor computed by `op`; returns its address.
    fn allocate(&self, op: XRef, ty: Type) -> Addr;

    /// Computational capacity of the group.
    fn capacity(&self) -> usize;

    /// Whether the two groups have a worker in common.
    fn shares_worker(&self, other: &Self) -> bool;
}

/// Supplies the default worker group and storage format.
pub trait Backend {
    type Format: StorageFormat;

    type Group: WorkerGroup;

    /// The default worker group.
    fn wg_default(&self) -> &Self::Group;

    /// The default storage format.
    fn sf_default(&self) -> &Self::Format;
}

/// In which order two operators run.
#[derive(Debug, Clone, Copy, PartialEq, Eq, Structural)]
pub enum Order {
    /// They share no worker and may run at the same time.
    Together,
    /// The first runs before the second.
    FirstBefore,
    /// The second runs before the first.
    SecondBefore,
}

/// Operators on worker groups that share a worker may not run at the same
/// time; the one with the larger sequence number runs first.
pub open spec fn order_of(first: nat, second: nat, overlapping: bool) -> Order {
    if !overlapping {
        Order::Together
    } else if first > second {
        Order::FirstBefore
    } else {
        Order::SecondBefore
    }
}

/// Orders two operators with distinct sequence numbers by the scheduling
/// rule (see `order_of`), given whether their worker groups share a worker.
pub fn order_by_seqnr(first: usize, second: usize, overlapping: bool) -> (r: Order)
    requires
        first != second,
    ensures
        r == order_of(first as nat, second as nat, overlapping),
{
    if !overlapping {
        Order::Together
    } else if first > second {
        Order::FirstBefore
    } else {
        Order::SecondBefore
    }
}

/// Scheduling and layout metadata of an expression.
#[derive(Debug)]
pub struct Attr<'a, F, G> {
    /// Construction order, used to break execution conflicts.
    pub seqnr: usize,
    /// The loop nest under which the expression is evaluated, outermost first.
    pub index: IdxOrder,
    /// One storage format per index dimension.
    pub store: Vec<&'a F>,
    /// The worker group that computes the expression.
    pub group: &'a G,
}

impl<'a, F, G> Attr<'a, F, G> {
    /// The index ordering, outermost first.
    pub fn order(&self) -> (r: &[IRef])
        ensures
            r@ == self.index@,
    {
        self.index.as_slice()
    }

    /// Replaces the index ordering by another of the same length; the
    /// storage formats stay, one per index.
    pub fn set_index(&mut self, idx: &[IRef])
        requires
            idx@.len() == old(self).index@.len(),
        ensures
            final(self).index@ == idx@,
            final(self).seqnr == old(self).seqnr,
            final(self).store == old(self).store,
            final(self).group == old(self).group,
    {
        self.index = IdxOrder::from_slice(idx);
    }
}

/// Each reference is smaller than every one after it.
pub open spec fn strictly_sorted(s: Seq<IRef>) -> bool {
    forall|i: int, j: int| 0 <= i < j < s.len() ==> s[i].0 < s[j].0
}

/// The merge of two index orderings: walk both from the front, always take
/// the smaller head, and take a head shared by both once.
pub open spec fn merged(l: Seq<IRef>, r: Seq<IRef>) -> Seq<IRef>
    decreases l.len() + r.len(),
{
    if l.len() == 0 {
        r
    } else if r.len() == 0 {
        l
    } else if l[0].0 < r[0].0 {
        seq![l[0]] + merged(l.drop_first(), r)
    } else if r[0].0 < l[0].0 {
        seq![r[0]] + merged(l, r.drop_first())
    } else {
        seq![r[0]] + merged(l.drop_first(), r.drop_first())
    }
}

/// Merges two index orderings into one (see `merged`).
pub fn imerge(lhs: &[IRef], rhs: &[IRef]) -> (x: IdxOrder)
    ensures
        x@ == merged(lhs@, rhs@),
{
    let mut x = IdxOrder::new();
    let mut i: usize = 0;
    let mut j: usize = 0;
    assert(lhs@.subrange(0, lhs@.len() as int) =~= lhs@);
    assert(rhs@.subrange(0, rhs@.len() as int) =~= rhs@);
    while i < lhs.len() && j < rhs.len()
        invariant
            i <= lhs@.len(),
            j <= rhs@.len(),
            x@ + merged(lhs@.subrange(i as int, lhs@.len() as int), rhs@.subrange(j as int, rhs@.len() as int))
                == merged(lhs@, rhs@),
        decreases lhs@.len() - i + rhs@.len() - j,
    {
        let ghost ls = lhs@.subrange(i as int, lhs@.len() as int);
        let ghost rs = rhs@.subrange(j as int, rhs@.len() as int);
        assert(ls.drop_first() =~= lhs@.subrange(i + 1, lhs@.len() as int));
        assert(rs.drop_first() =~= rhs@.subrange(j + 1, rhs@.len() as int));
        let l = lhs[i];
        let r = rhs[j];
        let ghost before = x@;
        if l.0 < r.0 {
            x.push(l);
            i = i + 1;
            assert(x@ + merged(ls.drop_first(), rs) =~= before + merged(ls, rs));
        } else if l.0 > r.0 {
            x.push(r);
            j = j + 1;
            assert(x@ + merged(ls, rs.drop_first()) =~= before + merged(ls, rs));
        } else {
            x.push(r);
            i = i + 1;
            j = j + 1;
            assert(x@ + merged(ls.drop_first(), rs.drop_first()) =~= before + merged(ls, rs));
        }
    }
    while i < lhs.len()
        invariant
            i <= lhs@.len(),
            j <= rhs@.len(),
            i == lhs@.len() || j == rhs@.len(),
            x@ + merged(lhs@.subrange(i as int, lhs@.len() as int), rhs@.subrange(j as int, rhs@.len() as int))
                == merged(lhs@, rhs@),
        decreases lhs@.len() - i,
    {
        let ghost ls = lhs@.subrange(i as int, lhs@.len() as int);
        let ghost rs = rhs@.subrange(j as int, rhs@.len() as int);
        assert(rs.len() == 0);
        let ghost before = x@;
        x.push(lhs[i]);
        i = i + 1;
        assert(merged(lhs@.subrange(i as int, lhs@.len() as int), rs) =~= lhs@.subrange(i as int, lhs@.len() as int));
        assert(x@ + merged(lhs@.subrange(i as int, lhs@.len() as int), rs) =~= before + merged(ls, rs));
    }
    while j < rhs.len()
        invariant
            i == lhs@.len(),
            j <= rhs@.len(),
            x@ + merged(lhs@.subrange(i as int, lhs@.len() as int), rhs@.subrange(j as int, rhs@.len() as int))
                == merged(lhs@, rhs@),
        decreases rhs@.len() - j,
    {
        let ghost ls = lhs@.subrange(i as int, lhs@.len() as int);
        let ghost rs = rhs@.subrange(j as int, rhs@.len() as int);
        assert(ls.len() == 0);
        let ghost before = x@;
        x.push(rhs[j]);
        j = j + 1;
        assert(x@ + merged(ls, rhs@.subrange(j as int, rhs@.len() as int)) =~= before + merged(ls, rs));
    }
    assert(merged(lhs@.subrange(i as int, lhs@.len() as int), rhs@.subrange(j as int, rhs@.len() as int)) =~= Seq::<IRef>::empty());
    assert(x@ =~= merged(lhs@, rhs@));
    x
}

/// A reference is in a sequence with a given head exactly when it is the
/// head or in the rest.
proof fn lemma_cons_contains(h: IRef, m: Seq<IRef>, v: IRef)
    ensures
        (seq![h] + m).contains(v) <==> (h == v || m.contains(v)),
{
    let s = seq![h] + m;
    if m.contains(v) {
        let k = choose|k: int| 0 <= k < m.len() && m[k] == v;
        assert(s[k + 1] == v);
    }
    if h == v {
        assert(s[0] == v);
    }
    if s.contains(v) {
        let k = choose|k: int| 0 <= k < s.len() && s[k] == v;
        if k > 0 {
            assert(m[k - 1] == v);
        }
    }
}

/// A reference is in a merge exactly when it is in one of the two orderings.
proof fn lemma_merged_contains(l: Seq<IRef>, r: Seq<IRef>, v: IRef)
    ensures
        merged(l, r).contains(v) <==> (l.contains(v) || r.contains(v)),
    decreases l.len() + r.len(),
{
    if l.len() != 0 && r.len() != 0 {
        assert(l =~= seq![l[0]] + l.drop_first());
        assert(r =~= seq![r[0]] + r.drop_first());
        lemma_cons_contains(l[0], l.drop_first(), v);
        lemma_cons_contains(r[0], r.drop_first(), v);
        if l[0].0 < r[0].0 {
            lemma_merged_contains(l.drop_first(), r, v);
            lemma_cons_contains(l[0], merged(l.drop_first(), r), v);
        } else if r[0].0 < l[0].0 {
            lemma_merged_contains(l, r.drop_first(), v);
            lemma_cons_contains(r[0], merged(l, r.drop_first()), v);
        } else {
            lemma_merged_contains(l.drop_first(), r.drop_first(), v);
            lemma_cons_contains(r[0], merged(l.drop_first(), r.drop_first()), v);
        }
    }
}

/// Merging two strictly increasing index orderings gives a strictly
/// increasing ordering, hence one without duplicates, that holds exactly the
/// references of both.
pub proof fn lemma_imerge_sorted_union(a: Seq<IRef>, b: Seq<IRef>)
    requires
        strictly_sorted(a),
        strictly_sorted(b),
    ensures
        strictly_sorted(merged(a, b)),
        merged(a, b).no_duplicates(),
        merged(a, b).to_set() == a.to_set().union(b.to_set()),
    decreases a.len() + b.len(),
{
    if a.len() != 0 && b.len() != 0 {
        let (h, ta, tb) = if a[0].0 < b[0].0 {
            (a[0], a.drop_first(), b)
        } else if b[0].0 < a[0].0 {
            (b[0], a, b.drop_first())
        } else {
            (b[0], a.drop_first(), b.drop_first())
        };
        lemma_imerge_sorted_union(ta, tb);
        let m = merged(ta, tb);
        assert(merged(a, b) == seq![h] + m);
        assert forall|k: int| 0 <= k < m.len() implies h.0 < #[trigger] m[k].0 by {
            assert(m.contains(m[k]));
            lemma_merged_contains(ta, tb, m[k]);
            if ta.contains(m[k]) {
                let t = choose|t: int| 0 <= t < ta.len() && ta[t] == m[k];
                assert(ta[t].0 > h.0);
            } else {
                let t = choose|t: int| 0 <= t < tb.len() && tb[t] == m[k];
                assert(tb[t].0 > h.0);
            }
        }
        assert(strictly_sorted(merged(a, b))) by {
            assert forall|i: int, j: int| 0 <= i < j < merged(a, b).len() implies
                merged(a, b)[i].0 < merged(a, b)[j].0 by {
                if i == 0 {
                    assert(merged(a, b)[j] == m[j - 1]);
                } else {
                    assert(merged(a, b)[i] == m[i - 1]);
                    assert(merged(a, b)[j] == m[j - 1]);
                }
            }
        }
    }
    assert(merged(a, b).no_duplicates());
    assert forall|v: IRef| merged(a, b).to_set().contains(v) <==> a.to_set().union(b.to_set()).contains(v) by {
        lemma_merged_contains(a, b, v);
    }
    assert(merged(a, b).to_set() =~= a.to_set().union(b.to_set()));
}

/// The length of the common prefix of `a` and `b`, counted on from position
/// `i` as if they agreed before it.
pub open spec fn agree_from(a: Seq<IRef>, b: Seq<IRef>, i: nat) -> nat
    decreases a.len() - i,
{
    if i < a.len() && i < b.len() && a[i as int] == b[i as int] {
        agree_from(a, b, i + 1)
    } else {
        i
    }
}

/// The length of the longest common prefix of two orderings.
pub open spec fn common_prefix(a: Seq<IRef>, b: Seq<IRef>) -> nat {
    agree_from(a, b, 0)
}

/// The length of the prefix of `ix` that every ordering of `ys` shares.
pub open spec fn shared_prefix(ix: Seq<IRef>, ys: Seq<Seq<IRef>>) -> nat
    decreases ys.len(),
{
    if ys.len() == 0 {
        ix.len()
    } else {
        let p = shared_prefix(ix, ys.drop_last());
        let q = common_prefix(ix, ys.last());
        if q < p {
            q
        } else {
            p
        }
    }
}

/// The part of ordering `ix` that must be materialized so that consumers
/// with orderings `ys` can each read it in their own order.
pub open spec fn materialized(ix: Seq<IRef>, ys: Seq<Seq<IRef>>) -> Seq<IRef> {
    ix.subrange(shared_prefix(ix, ys) as int, ix.len() as int)
}

/// The index nodes that express the product of the extents of `s`, folded
/// from the left, when they are appended to an index table of length `base`.
/// The empty product is the constant one.
pub open spec fn product_nodes(base: nat, s: Seq<IRef>) -> Seq<Idx> {
    if s.len() == 0 {
        seq![Idx::Const(1)]
    } else {
        Seq::new(
            (s.len() - 1) as nat,
            |k: int|
                Idx::Mul(
                    if k == 0 {
                        s[0]
                    } else {
                        IRef((base + k - 1) as usize)
                    },
                    s[k + 1],
                ),
        )
    }
}

/// The reference to the product of the extents of `s` (see `product_nodes`).
pub open spec fn product_ref(base: nat, s: Seq<IRef>) -> IRef {
    if s.len() == 0 {
        IRef(base as usize)
    } else if s.len() == 1 {
        s[0]
    } else {
        IRef((base + s.len() - 2) as usize)
    }
}

proof fn lemma_agree_from_at_least(a: Seq<IRef>, b: Seq<IRef>, i: nat)
    ensures
        agree_from(a, b, i) >= i,
    decreases a.len() - i,
{
    if i < a.len() && i < b.len() && a[i as int] == b[i as int] {
        lemma_agree_from_at_least(a, b, i + 1);
    }
}

proof fn lemma_shared_prefix_bound(ix: Seq<IRef>, ys: Seq<Seq<IRef>>)
    ensures
        shared_prefix(ix, ys) <= ix.len(),
    decreases ys.len(),
{
    if ys.len() > 0 {
        lemma_shared_prefix_bound(ix, ys.drop_last());
    }
}

/// Adding a consumer never shrinks the part of an expression that must be
/// materialized; a consumer whose ordering leaves the shared prefix earlier
/// than all others makes everything from that point on materialized.
pub proof fn lemma_mcost_monotone(ix: Seq<IRef>, ys: Seq<Seq<IRef>>, y: Seq<IRef>)
    ensures
        materialized(ix, ys.push(y)).len() >= materialized(ix, ys).len(),
        common_prefix(ix, y) < shared_prefix(ix, ys) ==> materialized(ix, ys.push(y)) == ix.subrange(
            common_prefix(ix, y) as int,
            ix.len() as int,
        ),
{
    assert(ys.push(y).drop_last() =~= ys);
    lemma_shared_prefix_bound(ix, ys);
    lemma_shared_prefix_bound(ix, ys.push(y));
}

/// The compilation context: it owns every node, and all links between
/// nodes are positions in its tables.
pub struct Ctxt<'a, B: Backend> {
    /// input list
    pub inputs: Vec<(TRef, Attr<'a, B::Format, B::Group>)>,
    /// graph of indices
    pub idx_graph: Vec<Idx>,
    /// graph of operators
    pub ops_graph: Vec<(TRef, Expr, Attr<'a, B::Format, B::Group>)>,
    /// type table
    pub typ_graph: Vec<Type>,
    pub ret_value: Vec<XRef>,
    /// for each expression, the expressions that consume it
    pub fwd_links: Vec<Vec<XRef>>,
    /// buffer for the memory IR
    pub buf_memir: Vec<MemIR>,
    pub backend: &'a B,
    /// the backend's default storage format, asked for once
    pub default_format: &'a B::Format,
    /// the backend's default worker group, asked for once
    pub default_group: &'a B::Group,
}

impl<'a, B: Backend> Ctxt<'a, B> {
    /// `self` uses the same backend and defaults as `old`.
    pub open spec fn same_backend(&self, old: &Self) -> bool {
        &&& self.backend == old.backend
        &&& self.default_format == old.default_format
        &&& self.default_group == old.default_group
    }

    /// The type references inside `t` lead into the type table.
    pub open spec fn type_closed(&self, t: Type) -> bool {
        match t {
            Type::Tuple(a, b) => a.0 < self.typ_graph@.len() && b.0 < self.typ_graph@.len(),
            _ => true,
        }
    }

    pub open spec fn node_ok(&self, k: int) -> bool {
        let node = self.ops_graph@[k];
        &&& node.0.0 < self.typ_graph@.len()
        &&& node.2.seqnr == k
        &&& node.2.store@.len() == node.2.index@.len()
        &&& match node.1 {
            Expr::Bin { lhs, rhs, .. } => lhs.0 < k && rhs.0 < k,
            Expr::Uni { rhs, .. } => rhs.0 < k,
            Expr::Red { init, expr, .. } => init.0 < k && expr.0 < k,
            Expr::Gen { .. } => true,
        }
    }

    /// Well-formedness: every reference leads to a node of the right table,
    /// operands come before the operators that use them, each sequence
    /// number is the node's position, each attribute has one storage format
    /// per index, and there is one list of consumers per expression.
    pub open spec fn wf(&self) -> bool {
        &&& self.fwd_links@.len() == self.ops_graph@.len()
        &&& forall|k: int| 0 <= k < self.ops_graph@.len() ==> #[trigger] self.node_ok(k)
        &&& forall|k: int|
            0 <= k < self.typ_graph@.len() ==> #[trigger] self.type_closed(self.typ_graph@[k])
        &&& forall|k: int, m: int|
            0 <= k < self.fwd_links@.len() && 0 <= m < self.fwd_links@[k]@.len()
                ==> (#[trigger] self.fwd_links@[k]@[m]).0 < self.ops_graph@.len()
    }

    pub open spec fn index_of(&self, x: XRef) -> Seq<IRef> {
        self.ops_graph@[x.0 as int].2.index@
    }

    pub open spec fn links(&self, x: XRef) -> Seq<XRef> {
        self.fwd_links@[x.0 as int]@
    }

    /// The index orderings of the consumers of `x`.
    pub open spec fn consumer_orders(&self, x: XRef) -> Seq<Seq<IRef>> {
        Seq::new(self.links(x).len(), |m: int| self.index_of(self.links(x)[m]))
    }

    /// The attribute a new node gets: its sequence number and ordering, the
    /// backend's default format for each index, and the default group.
    pub open spec fn fresh_attr(
        &self,
        a: Attr<'a, B::Format, B::Group>,
        seqnr: int,
        index: Seq<IRef>,
    ) -> bool {
        &&& a.seqnr == seqnr
        &&& a.index@ == index
        &&& a.store@.len() == index.len()
        &&& forall|i: int| 0 <= i < index.len() ==> #[trigger] a.store@[i] == self.default_format
        &&& a.group == self.default_group
    }

    /// `self` is `old` with one node appended: expression `e` of type `t`,
    /// with a fresh attribute over ordering `index` and no consumers yet.
    pub open spec fn appended(&self, old: &Self, e: Expr, t: Type, index: Seq<IRef>) -> bool {
        let k = old.ops_graph@.len() as int;
        &&& self.typ_graph@ == old.typ_graph@.push(t)
        &&& self.ops_graph@.len() == k + 1
        &&& self.ops_graph@.subrange(0, k) == old.ops_graph@
        &&& self.ops_graph@[k].0 == TRef(old.typ_graph@.len() as usize)
        &&& self.ops_graph@[k].1 == e
        &&& self.fresh_attr(self.ops_graph@[k].2, k, index)
        &&& self.fwd_links@.len() == k + 1
        &&& self.fwd_links@[k]@ == Seq::<XRef>::empty()
        &&& forall|j: int| 0 <= j < k ==> #[trigger] self.fwd_links@[j] == old.fwd_links@[j]
        &&& self.idx_graph@ == old.idx_graph@
        &&& self.ret_value@ == old.ret_value@
        &&& self.same_backend(old)
    }

    pub fn new(backend: &'a B) -> (c: Self)
        ensures
            c.wf(),
            c.backend == backend,
            c.inputs@.len() == 0,
            c.idx_graph@.len() == 0,
            c.ops_graph@.len() == 0,
            c.typ_graph@.len() == 0,
            c.ret_value@.len() == 0,
            c.fwd_links@.len() == 0,
    {
        Ctxt {
            inputs: Vec::new(),
            idx_graph: Vec::new(),
            ops_graph: Vec::new(),
            typ_graph: Vec::new(),
            ret_value: Vec::new(),
            fwd_links: Vec::new(),
            buf_memir: Vec::new(),
            backend,
            default_format: backend.sf_default(),
            default_group: backend.wg_default(),
        }
    }

    /// Dereferences an expression.
    pub fn xderef(&self, xref: XRef) -> (r: &(TRef, Expr, Attr<'a, B::Format, B::Group>))
        requires
            xref.0 < self.ops_graph@.len(),
        ensures
            *r == self.ops_graph@[xref.0 as int],
    {
        &self.ops_graph[xref.0]
    }

    /// Dereferences a type.
    pub fn tderef(&self, tref: TRef) -> (r: &Type)
        requires
            tref.0 < self.typ_graph@.len(),
        ensures
            *r == self.typ_graph@[tref.0 as int],
    {
        &self.typ_graph[tref.0]
    }

    /// The consumers of an expression.
    pub fn xfwd_links(&self, xref: XRef) -> (r: &Vec<XRef>)
        requires
            xref.0 < self.fwd_links@.len(),
        ensures
            r@ == self.links(xref),
    {
        &self.fwd_links[xref.0]
    }

    /// The consumers of an expression, to change in place.
    pub fn xfwd_links_mut(&mut self, xref: XRef) -> (r: &mut Vec<XRef>)
        requires
            xref.0 < old(self).fwd_links@.len(),
        ensures
            r@ == old(self).links(xref),
            final(self).fwd_links@ == old(self).fwd_links@.update(xref.0 as int, *final(r)),
            final(self).ops_graph@ == old(self).ops_graph@,
            final(self).typ_graph@ == old(self).typ_graph@,
            final(self).idx_graph@ == old(self).idx_graph@,
            final(self).ret_value@ == old(self).ret_value@,
            final(self).inputs@ == old(self).inputs@,
            final(self).same_backend(old(self)),
    {
        &mut self.fwd_links[xref.0]
    }

    /// Emits an expression as an output.
    pub fn emit(&mut self, x: XRef)
        requires
            old(self).wf(),
        ensures
            final(self).wf(),
            final(self).ret_value@ == old(self).ret_value@.push(x),
            final(self).ops_graph@ == old(self).ops_graph@,
            final(self).typ_graph@ == old(self).typ_graph@,
            final(self).idx_graph@ == old(self).idx_graph@,
            final(self).fwd_links@ == old(self).fwd_links@,
            final(self).inputs@ == old(self).inputs@,
            final(self).same_backend(old(self)),
    {
        let ghost before = *self;
        self.ret_value.push(x);
        proof {
            Self::lemma_wf_frame(&before, self);
        }
    }

    /// Adds a fresh index variable and returns its reference.
    pub fn index(&mut self) -> (r: IRef)
        requires
            old(self).wf(),
        ensures
            final(self).wf(),
            r.0 == old(self).idx_graph@.len(),
            final(self).idx_graph@ == old(self).idx_graph@.push(Idx::Variable(r.0)),
            final(self).ops_graph@ == old(self).ops_graph@,
            final(self).typ_graph@ == old(self).typ_graph@,
            final(self).fwd_links@ == old(self).fwd_links@,
            final(self).ret_value@ == old(self).ret_value@,
            final(self).inputs@ == old(self).inputs@,
            final(self).same_backend(old(self)),
    {
        let ghost before = *self;
        let k = self.idx_graph.len();
        self.idx_graph.push(Idx::Variable(k));
        proof {
            Self::lemma_wf_frame(&before, self);
        }
        IRef(k)
    }

    /// Compares two types as `same_type` does.
    pub fn types_equal(&self, s: &Type, t: &Type, depth: usize) -> (r: bool)
        requires
            self.wf(),
            self.type_closed(*s),
            self.type_closed(*t),
        ensures
            r == same_type(self.typ_graph@, *s, *t, depth as nat),
        decreases depth,
    {
        match (s, t) {
            (Type::Tuple(a, b), Type::Tuple(c, d)) => {
                if depth == 0 {
                    return false;
                }
                let ta = self.typ_graph[a.0];
                let tb = self.typ_graph[b.0];
                let tc = self.typ_graph[c.0];
                let td = self.typ_graph[d.0];
                proof {
                    assert(self.type_closed(self.typ_graph@[a.0 as int]));
                    assert(self.type_closed(self.typ_graph@[b.0 as int]));
                    assert(self.type_closed(self.typ_graph@[c.0 as int]));
                    assert(self.type_closed(self.typ_graph@[d.0 as int]));
                }
                self.types_equal(&ta, &tc, depth - 1) && self.types_equal(&tb, &td, depth - 1)
            },
            _ => *s == *t,
        }
    }

    /// Appends a typed node with a fresh attribute and no consumers.
    fn append(&mut self, t: Type, e: Expr, index: IdxOrder) -> (x: XRef)
        requires
            old(self).wf(),
            old(self).type_closed(t),
            old(self).node_ok_for(e, old(self).ops_graph@.len() as int),
        ensures
            x.0 == old(self).ops_graph@.len(),
            final(self).appended(old(self), e, t, index@),
            final(self).inputs@ == old(self).inputs@,
            final(self).wf(),
    {
        let seqnr = self.ops_graph.len();
        let a = self.default_attr(seqnr, index);
        self.typ_graph.push(t);
        let tref = TRef(self.typ_graph.len() - 1);
        self.ops_graph.push((tref, e, a));
        self.fwd_links.push(Vec::new());
        let x = XRef(self.ops_graph.len() - 1);
        proof {
            let k = seqnr as int;
            assert(self.ops_graph@.subrange(0, k) =~= old(self).ops_graph@);
            assert forall|j: int| 0 <= j < self.ops_graph@.len() implies #[trigger] self.node_ok(j) by {
                if j < k {
                    assert(old(self).node_ok(j));
                }
            }
            assert forall|j: int| 0 <= j < self.typ_graph@.len() implies #[trigger] self.type_closed(
                self.typ_graph@[j],
            ) by {
                if j < self.typ_graph@.len() - 1 {
                    assert(old(self).type_closed(old(self).typ_graph@[j]));
                }
            }
            assert forall|j: int, m: int|
                0 <= j < self.fwd_links@.len() && 0 <= m < self.fwd_links@[j]@.len() implies (
            #[trigger] self.fwd_links@[j]@[m]).0 < self.ops_graph@.len() by {
                if j < k {
                    assert(old(self).fwd_links@[j]@[m] == self.fwd_links@[j]@[m]);
                }
            }
        }
        x
    }

    /// The operands of `e` come before position `k`.
    pub open spec fn node_ok_for(&self, e: Expr, k: int) -> bool {
        match e {
            Expr::Bin { lhs, rhs, .. } => lhs.0 < k && rhs.0 < k,
            Expr::Uni { rhs, .. } => rhs.0 < k,
            Expr::Red { init, expr, .. } => init.0 < k && expr.0 < k,
            Expr::Gen { .. } => true,
        }
    }

    /// Records `x` as a consumer of `y`.
    fn link(&mut self, y: XRef, x: XRef)
        requires
            old(self).wf(),
            y.0 < old(self).ops_graph@.len(),
            x.0 < old(self).ops_graph@.len(),
        ensures
            final(self).wf(),
            final(self).fwd_links@.len() == old(self).fwd_links@.len(),
            forall|k: int|
                0 <= k < old(self).fwd_links@.len() && k != y.0 ==> #[trigger] final(self).fwd_links@[k]@
                    == old(self).fwd_links@[k]@,
            final(self).fwd_links@[y.0 as int]@ == old(self).fwd_links@[y.0 as int]@.push(x),
            final(self).ops_graph@ == old(self).ops_graph@,
            final(self).typ_graph@ == old(self).typ_graph@,
            final(self).idx_graph@ == old(self).idx_graph@,
            final(self).ret_value@ == old(self).ret_value@,
            final(self).inputs@ == old(self).inputs@,
            final(self).same_backend(old(self)),
    {
        self.fwd_links[y.0].push(x);
        proof {
            assert forall|j: int, m: int|
                0 <= j < self.fwd_links@.len() && 0 <= m < self.fwd_links@[j]@.len() implies (
            #[trigger] self.fwd_links@[j]@[m]).0 < self.ops_graph@.len() by {
                if j != y.0 || m < old(self).fwd_links@[j]@.len() {
                    assert(old(self).fwd_links@[j]@[m] == self.fwd_links@[j]@[m]);
                }
            }
            assert forall|j: int| 0 <= j < self.ops_graph@.len() implies #[trigger] self.node_ok(j) by {
                assert(old(self).node_ok(j));
            }
            assert forall|j: int| 0 <= j < self.typ_graph@.len() implies #[trigger] self.type_closed(
                self.typ_graph@[j],
            ) by {
                assert(old(self).type_closed(old(self).typ_graph@[j]));
            }
        }
    }

    /// Adds an input with the given type and index ordering.
    pub fn input(&mut self, typ: Type, idx: &[IRef]) -> (x: XRef)
        requires
            old(self).wf(),
            old(self).type_closed(typ),
        ensures
            final(self).wf(),
            x.0 == old(self).ops_graph@.len(),
            final(self).appended(
                old(self),
                Expr::Gen { op: NilOp::Input(old(self).inputs@.len() as usize) },
                typ,
                idx@,
            ),
            final(self).inputs@.len() == old(self).inputs@.len() + 1,
            final(self).inputs@.subrange(0, old(self).inputs@.len() as int) == old(self).inputs@,
            final(self).inputs@.last().0 == final(self).ops_graph@[x.0 as int].0,
            final(self).fresh_attr(final(self).inputs@.last().1, x.0 as int, idx@),
    {
        let aref = self.inputs.len();
        let seqnr = self.ops_graph.len();
        let copy = self.default_attr(seqnr, IdxOrder::from_slice(idx));
        let x = self.append(typ, Expr::Gen { op: NilOp::Input(aref) }, IdxOrder::from_slice(idx));
        let tref = self.ops_graph[x.0].0;
        let ghost mid = *self;
        self.inputs.push((tref, copy));
        proof {
            assert(self.inputs@.subrange(0, aref as int) =~= old(self).inputs@);
            assert forall|j: int| 0 <= j < self.ops_graph@.len() implies #[trigger] self.node_ok(j) by {
                assert(mid.node_ok(j));
            }
            assert forall|j: int| 0 <= j < self.typ_graph@.len() implies #[trigger] self.type_closed(
                self.typ_graph@[j],
            ) by {
                assert(mid.type_closed(mid.typ_graph@[j]));
            }
        }
        x
    }

    /// Adds a binary operator. Fails, handing back the rejected expression,
    /// when the operands' types do not fit the operator (see `bin_type`);
    /// the context is then left as it was.
    pub fn bin(&mut self, op: BinOp, lhs: XRef, rhs: XRef) -> (r: Result<XRef, Expr>)
        requires
            old(self).wf(),
            lhs.0 < old(self).ops_graph@.len(),
            rhs.0 < old(self).ops_graph@.len(),
        ensures
            final(self).wf(),
            ({
                let tg = old(self).typ_graph@;
                let tl = old(self).ops_graph@[lhs.0 as int].0;
                let tr = old(self).ops_graph@[rhs.0 as int].0;
                let e = Expr::Bin { op, lhs, rhs };
                match bin_type(tg, op, tl, tr) {
                    None => r == Err::<XRef, Expr>(e) && *final(self) == *old(self),
                    Some(t) => {
                        &&& r == Ok::<XRef, Expr>(XRef(old(self).ops_graph@.len() as usize))
                        &&& final(self).linked(old(self), e, t, merged(old(self).index_of(lhs), old(self).index_of(rhs)), lhs, rhs)
                    },
                }
            }),
    {
        let tref_l = self.ops_graph[lhs.0].0;
        let tref_r = self.ops_graph[rhs.0].0;
        proof {
            assert(self.node_ok(lhs.0 as int));
            assert(self.node_ok(rhs.0 as int));
        }
        let type_l = self.typ_graph[tref_l.0];
        let type_r = self.typ_graph[tref_r.0];
        proof {
            assert(self.type_closed(self.typ_graph@[tref_l.0 as int]));
            assert(self.type_closed(self.typ_graph@[tref_r.0 as int]));
        }
        let x = Expr::Bin { op, lhs, rhs };
        let t = match op {
            BinOp::Add | BinOp::Div | BinOp::Mul | BinOp::Sub => {
                if !type_l.is_arith() || type_l != type_r {
                    return Err(x);
                }
                type_l
            },
            BinOp::Rem => {
                if !type_l.is_integer() || type_l != type_r {
                    return Err(x);
                }
                type_l
            },
            BinOp::Tup => Type::Tuple(tref_l, tref_r),
            BinOp::PjC => {
                if type_l != Type::Bool {
                    return Err(x);
                }
                match type_r {
                    Type::Tuple(a, b) => {
                        let ta = self.typ_graph[a.0];
                        let tb = self.typ_graph[b.0];
                        proof {
                            assert(self.type_closed(self.typ_graph@[a.0 as int]));
                            assert(self.type_closed(self.typ_graph@[b.0 as int]));
                        }
                        if !self.types_equal(&ta, &tb, self.typ_graph.len()) {
                            return Err(x);
                        }
                        ta
                    },
                    _ => {
                        return Err(x);
                    },
                }
            },
        };
        let i = imerge(self.ops_graph[lhs.0].2.index.as_slice(), self.ops_graph[rhs.0].2.index.as_slice());
        let xr = self.append(t, x, i);
        let ghost mid1 = *self;
        self.link(lhs, xr);
        self.link(rhs, xr);
        proof {
            let k = xr.0 as int;
            assert(self.ops_graph@[k].2 == mid1.ops_graph@[k].2);
            assert(self.fresh_attr(self.ops_graph@[k].2, k, merged(old(self).index_of(lhs), old(self).index_of(rhs))));
            assert(self.fwd_links@[k]@ == Seq::<XRef>::empty());
            assert forall|j: int| 0 <= j < k implies #[trigger] self.fwd_links@[j]@ == old(self).fwd_links@[j]@ + (if j == lhs.0 {
                seq![xr]
            } else {
                Seq::empty()
            }) + (if j == rhs.0 {
                seq![xr]
            } else {
                Seq::empty()
            }) by {
                assert(mid1.fwd_links@[j]@ == old(self).fwd_links@[j]@);
            }
            assert(bin_type(old(self).typ_graph@, op, tref_l, tref_r) == Some(t));
            assert(self.linked(old(self), x, t, merged(old(self).index_of(lhs), old(self).index_of(rhs)), lhs, rhs));
        }
        Ok(xr)
    }

    /// `self` is `old` with node `e` of type `t` over ordering `index`
    /// appended, and recorded as a consumer of `lhs` and then of `rhs`.
    pub open spec fn linked(&self, old: &Self, e: Expr, t: Type, index: Seq<IRef>, lhs: XRef, rhs: XRef) -> bool {
        let k = old.ops_graph@.len() as int;
        let x = XRef(k as usize);
        &&& self.typ_graph@ == old.typ_graph@.push(t)
        &&& self.ops_graph@.len() == k + 1
        &&& self.ops_graph@.subrange(0, k) == old.ops_graph@
        &&& self.ops_graph@[k].0 == TRef(old.typ_graph@.len() as usize)
        &&& self.ops_graph@[k].1 == e
        &&& self.fresh_attr(self.ops_graph@[k].2, k, index)
        &&& self.fwd_links@.len() == k + 1
        &&& self.fwd_links@[k]@ == Seq::<XRef>::empty()
        &&& forall|j: int|
            0 <= j < k ==> #[trigger] self.fwd_links@[j]@ == old.fwd_links@[j]@ + (if j == lhs.0 {
                seq![x]
            } else {
                Seq::empty()
            }) + (if j == rhs.0 {
                seq![x]
            } else {
                Seq::empty()
            })
        &&& self.idx_graph@ == old.idx_graph@
        &&& self.ret_value@ == old.ret_value@
        &&& self.inputs@ == old.inputs@
        &&& self.same_backend(old)
    }

    /// Well-formedness depends only on the operator, type and consumer tables.
    proof fn lemma_wf_frame(a: &Self, b: &Self)
        requires
            a.wf(),
            a.ops_graph@ == b.ops_graph@,
            a.typ_graph@ == b.typ_graph@,
            a.fwd_links@ == b.fwd_links@,
        ensures
            b.wf(),
    {
        assert forall|j: int| 0 <= j < b.ops_graph@.len() implies #[trigger] b.node_ok(j) by {
            assert(a.node_ok(j));
        }
        assert forall|j: int| 0 <= j < b.typ_graph@.len() implies #[trigger] b.type_closed(b.typ_graph@[j]) by {
            assert(a.type_closed(a.typ_graph@[j]));
        }
    }

    /// `self` is `old` with node `e` of type `t` over ordering `index`
    /// appended and recorded as a consumer of `src`.
    pub open spec fn mapped(&self, old: &Self, e: Expr, t: Type, index: Seq<IRef>, src: XRef) -> bool {
        let k = old.ops_graph@.len() as int;
        let x = XRef(k as usize);
        &&& self.typ_graph@ == old.typ_graph@.push(t)
        &&& self.ops_graph@.len() == k + 1
        &&& self.ops_graph@.subrange(0, k) == old.ops_graph@
        &&& self.ops_graph@[k].0 == TRef(old.typ_graph@.len() as usize)
        &&& self.ops_graph@[k].1 == e
        &&& self.fresh_attr(self.ops_graph@[k].2, k, index)
        &&& self.fwd_links@.len() == k + 1
        &&& self.fwd_links@[k]@ == Seq::<XRef>::empty()
        &&& forall|j: int|
            0 <= j < k ==> #[trigger] self.fwd_links@[j]@ == old.fwd_links@[j]@ + (if j == src.0 {
                seq![x]
            } else {
                Seq::empty()
            })
        &&& self.idx_graph@ == old.idx_graph@
        &&& self.ret_value@ == old.ret_value@
        &&& self.inputs@ == old.inputs@
        &&& self.same_backend(old)
    }

    /// Adds a unary operator over the operand's own index ordering. Fails,
    /// handing back the rejected expression, when the operand's type does
    /// not fit the operator (see `uni_type`); the context is then left as it
    /// was.
    pub fn map(&mut self, op: UniOp, rhs: XRef) -> (r: Result<XRef, Expr>)
        requires
            old(self).wf(),
            rhs.0 < old(self).ops_graph@.len(),
        ensures
            final(self).wf(),
            ({
                let tg = old(self).typ_graph@;
                let e = Expr::Uni { op, rhs };
                match uni_type(tg, op, old(self).ops_graph@[rhs.0 as int].0) {
                    None => r == Err::<XRef, Expr>(e) && *final(self) == *old(self),
                    Some(t) => {
                        &&& r == Ok::<XRef, Expr>(XRef(old(self).ops_graph@.len() as usize))
                        &&& final(self).mapped(old(self), e, t, old(self).index_of(rhs), rhs)
                    },
                }
            }),
    {
        let tref = self.ops_graph[rhs.0].0;
        proof {
            assert(self.node_ok(rhs.0 as int));
        }
        let ty = self.typ_graph[tref.0];
        proof {
            assert(self.type_closed(self.typ_graph@[tref.0 as int]));
        }
        let x = Expr::Uni { op, rhs };
        let t = match op {
            UniOp::PjL => match ty {
                Type::Tuple(a, _) => {
                    proof {
                        assert(self.type_closed(self.typ_graph@[a.0 as int]));
                    }
                    self.typ_graph[a.0]
                },
                _ => {
                    return Err(x);
                },
            },
            UniOp::PjR => match ty {
                Type::Tuple(_, b) => {
                    proof {
                        assert(self.type_closed(self.typ_graph@[b.0 as int]));
                    }
                    self.typ_graph[b.0]
                },
                _ => {
                    return Err(x);
                },
            },
            UniOp::Neg => {
                if !ty.is_primitive() {
                    return Err(x);
                }
                ty
            },
            UniOp::Cast(c) => {
                if !ty.is_primitive() || !c.is_primitive() {
                    return Err(x);
                }
                c
            },
        };
        let i = IdxOrder::from_slice(self.ops_graph[rhs.0].2.index.as_slice());
        let xr = self.append(t, x, i);
        let ghost mid1 = *self;
        self.link(rhs, xr);
        proof {
            let k = xr.0 as int;
            assert(self.ops_graph@[k].2 == mid1.ops_graph@[k].2);
            assert forall|j: int| 0 <= j < k implies #[trigger] self.fwd_links@[j]@ == old(self).fwd_links@[j]@ + (if j == rhs.0 {
                seq![xr]
            } else {
                Seq::empty()
            }) by {
                assert(mid1.fwd_links@[j]@ == old(self).fwd_links@[j]@);
            }
        }
        Ok(xr)
    }

    /// Estimates the storage an expression needs so that each consumer can
    /// read it in its own index order. The indices that every consumer walks
    /// in the expression's own order, from the outermost on, are streamed;
    /// the rest (`materialized`) must be stored, and the product of their
    /// extents is appended to the index table as a left fold of `Mul` nodes
    /// (the constant one when nothing needs storing). Returns the reference
    /// to that product.
    pub fn mcost(&mut self, x: XRef) -> (r: IRef)
        requires
            old(self).wf(),
            x.0 < old(self).ops_graph@.len(),
        ensures
            final(self).wf(),
            ({
                let s = materialized(old(self).index_of(x), old(self).consumer_orders(x));
                let base = old(self).idx_graph@.len();
                &&& r == product_ref(base, s)
                &&& final(self).idx_graph@ == old(self).idx_graph@ + product_nodes(base, s)
            }),
            final(self).ops_graph@ == old(self).ops_graph@,
            final(self).typ_graph@ == old(self).typ_graph@,
            final(self).fwd_links@ == old(self).fwd_links@,
            final(self).ret_value@ == old(self).ret_value@,
            final(self).inputs@ == old(self).inputs@,
            final(self).same_backend(old(self)),
    {
        let ghost ys = self.consumer_orders(x);
        let ghost old_idx = self.idx_graph@;
        let ix: &[IRef] = self.ops_graph[x.0].2.index.as_slice();
        let n_links = self.fwd_links[x.0].len();
        let mut len_prefix: usize = ix.len();
        let mut k: usize = 0;
        assert(ys.take(0) =~= Seq::<Seq<IRef>>::empty());
        while k < n_links
            invariant
                self.wf(),
                x.0 < self.ops_graph@.len(),
                k <= n_links,
                n_links == self.links(x).len(),
                ys == self.consumer_orders(x),
                ix@ == self.index_of(x),
                len_prefix == shared_prefix(ix@, ys.take(k as int)),
                len_prefix <= ix@.len(),
            decreases n_links - k,
        {
            let y = self.fwd_links[x.0][k];
            let iy: &[IRef] = self.ops_graph[y.0].2.index.as_slice();
            let mut i: usize = 0;
            while i < len_prefix && i < iy.len() && ix[i] == iy[i]
                invariant
                    i <= len_prefix,
                    len_prefix <= ix@.len(),
                    agree_from(ix@, iy@, 0) == agree_from(ix@, iy@, i as nat),
                decreases len_prefix - i,
            {
                i = i + 1;
            }
            proof {
                lemma_agree_from_at_least(ix@, iy@, i as nat);
                assert(ys.take(k + 1).drop_last() =~= ys.take(k as int));
                assert(ys.take(k + 1).last() == iy@);
            }
            len_prefix = i;
            k = k + 1;
        }
        assert(ys.take(n_links as int) =~= ys);
        let mut suffix: Vec<IRef> = Vec::new();
        let mut j: usize = len_prefix;
        while j < ix.len()
            invariant
                len_prefix <= j <= ix@.len(),
                suffix@ == ix@.subrange(len_prefix as int, j as int),
            decreases ix@.len() - j,
        {
            suffix.push(ix[j]);
            j = j + 1;
        }
        let ghost s = suffix@;
        let ghost frozen = *self;
        assert(s == materialized(self.index_of(x), ys));
        let base = self.idx_graph.len();
        if suffix.len() == 0 {
            self.idx_graph.push(Idx::Const(1));
            proof {
                Self::lemma_wf_frame(&frozen, self);
                assert(product_nodes(base as nat, s) =~= seq![Idx::Const(1)]);
            }
            return IRef(self.idx_graph.len() - 1);
        }
        let mut acc = suffix[0];
        let mut k: usize = 1;
        assert(product_nodes(base as nat, s).take(0) =~= Seq::<Idx>::empty());
        assert(s.take(1) =~= seq![s[0]]);
        while k < suffix.len()
            invariant
                1 <= k <= suffix@.len(),
                s == suffix@,
                base == old_idx.len(),
                self.idx_graph@ == old_idx + product_nodes(base as nat, s).take(k - 1),
                acc == product_ref(base as nat, s.take(k as int)),
                self.ops_graph@ == frozen.ops_graph@,
                self.typ_graph@ == frozen.typ_graph@,
                self.fwd_links@ == frozen.fwd_links@,
                self.ret_value@ == frozen.ret_value@,
                self.inputs@ == frozen.inputs@,
                self.same_backend(&frozen),
            decreases suffix@.len() - k,
        {
            proof {
                assert(product_nodes(base as nat, s)[k - 1] == Idx::Mul(acc, s[k as int]));
                assert(product_nodes(base as nat, s).take(k as int) =~= product_nodes(base as nat, s).take(k - 1).push(Idx::Mul(acc, s[k as int])));
            }
            self.idx_graph.push(Idx::Mul(acc, suffix[k]));
            acc = IRef(self.idx_graph.len() - 1);
            k = k + 1;
        }
        proof {
            Self::lemma_wf_frame(&frozen, self);
            assert(s.take(k as int) =~= s);
            assert(product_nodes(base as nat, s).take(k - 1) =~= product_nodes(base as nat, s));
        }
        acc
    }

    /// Orders two operators by the scheduling rule (see `order_of`), asking
    /// their worker groups whether they share a worker: either they run
    /// together, or the later-built one runs first.
    pub fn exec_order(&self, x: XRef, y: XRef) -> (r: Order)
        requires
            self.wf(),
            x.0 < self.ops_graph@.len(),
            y.0 < self.ops_graph@.len(),
            x != y,
        ensures
            r == Order::Together || r == order_of(
                self.ops_graph@[x.0 as int].2.seqnr as nat,
                self.ops_graph@[y.0 as int].2.seqnr as nat,
                true,
            ),
    {
        proof {
            assert(self.node_ok(x.0 as int));
            assert(self.node_ok(y.0 as int));
        }
        let ax = &self.ops_graph[x.0].2;
        let ay = &self.ops_graph[y.0].2;
        let overlapping = ax.group.shares_worker(ay.group);
        order_by_seqnr(ax.seqnr, ay.seqnr, overlapping)
    }

    /// Recording a binary operator never shrinks the part of any earlier
    /// expression that `mcost` finds must be materialized: the new node
    /// only adds consumers.
    pub proof fn lemma_bin_storage_monotone(
        c0: &Self,
        c1: &Self,
        e: Expr,
        t: Type,
        index: Seq<IRef>,
        lhs: XRef,
        rhs: XRef,
        x: XRef,
    )
        requires
            c0.wf(),
            x.0 < c0.ops_graph@.len(),
            c1.linked(c0, e, t, index, lhs, rhs),
        ensures
            materialized(c1.index_of(x), c1.consumer_orders(x)).len() >= materialized(
                c0.index_of(x),
                c0.consumer_orders(x),
            ).len(),
    {
        let k = c0.ops_graph@.len() as int;
        let nx = XRef(k as usize);
        assert(c1.ops_graph@[x.0 as int] == c1.ops_graph@.subrange(0, k)[x.0 as int]);
        let ys0 = c0.consumer_orders(x);
        let mid = if x.0 == lhs.0 {
            ys0.push(index)
        } else {
            ys0
        };
        let ys1 = if x.0 == rhs.0 {
            mid.push(index)
        } else {
            mid
        };
        let l0 = c0.links(x);
        let l1 = c1.links(x);
        assert(l1 == l0 + (if x.0 == lhs.0 {
            seq![nx]
        } else {
            Seq::empty()
        }) + (if x.0 == rhs.0 {
            seq![nx]
        } else {
            Seq::empty()
        }));
        assert forall|m: int| 0 <= m < l1.len() implies #[trigger] c1.index_of(l1[m]) == ys1[m] by {
            if m < l0.len() {
                assert(l1[m] == l0[m]);
                assert(l0[m].0 < k);
                assert(c1.ops_graph@[l0[m].0 as int] == c1.ops_graph@.subrange(0, k)[l0[m].0 as int]);
            } else {
                assert(l1[m] == nx);
            }
        }
        assert(c1.consumer_orders(x) =~= ys1);
        assert(c1.index_of(x) == c0.index_of(x));
        lemma_mcost_monotone(c0.index_of(x), ys0, index);
        lemma_mcost_monotone(c0.index_of(x), mid, index);
    }

    /// A fresh attribute for a node at position `seqnr` over `index`.
    fn default_attr(&self, seqnr: usize, index: IdxOrder) -> (a: Attr<'a, B::Format, B::Group>)
        ensures
            self.fresh_attr(a, seqnr as int, index@),
    {
        let n = index.as_slice().len();
        let mut store: Vec<&'a B::Format> = Vec::new();
        let mut i: usize = 0;
        while i < n
            invariant
                i <= n,
                n == index@.len(),
                store@.len() == i,
                forall|j: int| 0 <= j < i ==> #[trigger] store@[j] == self.default_format,
            decreases n - i,
        {
            store.push(self.default_format);
            i = i + 1;
        }
        Attr { seqnr, index, store, group: self.default_group }
    }
}


} // verus!
