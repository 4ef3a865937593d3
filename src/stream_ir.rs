//! The loop-level expression language that code generation consumes.
use vstd::prelude::*;

verus! {

/// A function with `N` bound arguments: the numeric tags by which `Bind`
/// refers to them in the body.
#[derive(Debug)]
pub struct Lambda<const N: usize> {
    pub args: [usize; N],
    pub expr: Box<Expr>,
}

#[derive(Debug, Clone, Copy, PartialEq, Eq, Structural)]
pub enum ScalarBin {
    Add,
    Mul,
    Sub,
    Div,
    Rem,
}

#[derive(Debug, Clone, Copy, PartialEq, Eq, Structural)]
pub enum ScalarUni {
    Neg,
}

/// Types of the loop-level language.
#[derive(Debug)]
pub enum Type {
    /// an array of the element type
    Arr(Box<Type>),
    Tup(Box<Type>, Box<Type>),
    F32,
    F64,
    I32,
    I64,
}

impl Clone for Type {
    fn clone(&self) -> (r: Self)
        ensures
            r == *self,
        decreases self,
    {
        match self {
            Type::Arr(x) => Type::Arr(Box::new((**x).clone())),
            Type::Tup(x, y) => Type::Tup(Box::new((**x).clone()), Box::new((**y).clone())),
            Type::F32 => Type::F32,
            Type::F64 => Type::F64,
            Type::I32 => Type::I32,
            Type::I64 => Type::I64,
        }
    }
}

/// Expressions of the loop-level language; each carries its type last.
#[derive(Debug)]
pub enum Expr {
    ConstUsize(usize, Type),
    // tuples
    Tuple(Vec<Expr>, Type),
    ProjI(Box<Expr>, usize, Type),
    // indexing into an array
    Index(Box<Expr>, Box<Expr>, Type),
    // uninitialized array of the given dimensions
    Array(Vec<Expr>, Type),
    // data-parallel loop: dimensions, offsets, body, destination
    PForGather(Vec<Expr>, Vec<Expr>, Lambda<2>, Box<Expr>, Type),
    // sequential loop gathering into a destination
    IForGather(Vec<Expr>, Vec<Expr>, Lambda<2>, Box<Expr>, Type),
    // sequential loop folding into an accumulator from an initial value
    IForReduce(Vec<Expr>, Lambda<2>, Box<Expr>, Type),
    // binds a value in the body
    LetIn(Box<Expr>, Lambda<1>, Type),
    // a bound variable
    Bind(usize, Type),
    // scalar operators
    Bin(ScalarBin, Box<Expr>, Box<Expr>, Type),
    Uni(ScalarUni, Box<Expr>, Type),
}

/// The type an expression carries.
pub open spec fn type_of(e: Expr) -> Type {
    match e {
        Expr::ConstUsize(_, t) => t,
        Expr::Tuple(_, t) => t,
        Expr::ProjI(_, _, t) => t,
        Expr::Index(_, _, t) => t,
        Expr::Array(_, t) => t,
        Expr::PForGather(_, _, _, _, t) => t,
        Expr::IForGather(_, _, _, _, t) => t,
        Expr::IForReduce(_, _, _, t) => t,
        Expr::LetIn(_, _, t) => t,
        Expr::Bind(_, t) => t,
        Expr::Bin(_, _, _, t) => t,
        Expr::Uni(_, _, t) => t,
    }
}

/// Tags `args` may be bound over `scope`: none is bound already, and no
/// two are the same.
pub open spec fn fresh_tags(args: Seq<usize>, scope: Seq<usize>) -> bool {
    &&& args.no_duplicates()
    &&& forall|i: int| 0 <= i < args.len() ==> !scope.contains(#[trigger] args[i])
}

/// Every variable of `e` is bound, by an enclosing binder or by `scope`,
/// and no binder binds a tag that is bound already.
pub open spec fn well_bound(e: Expr, scope: Seq<usize>) -> bool
    decreases e,
{
    match e {
        Expr::ConstUsize(..) => true,
        Expr::Tuple(xs, _) => forall|i: int| 0 <= i < xs.len() ==> well_bound(#[trigger] xs[i], scope),
        Expr::ProjI(x, _, _) => well_bound(*x, scope),
        Expr::Index(x, y, _) => well_bound(*x, scope) && well_bound(*y, scope),
        Expr::Array(xs, _) => forall|i: int| 0 <= i < xs.len() ==> well_bound(#[trigger] xs[i], scope),
        Expr::PForGather(ds, os, lam, dst, _) => {
            &&& forall|i: int| 0 <= i < ds.len() ==> well_bound(#[trigger] ds[i], scope)
            &&& forall|i: int| 0 <= i < os.len() ==> well_bound(#[trigger] os[i], scope)
            &&& well_bound(*dst, scope)
            &&& fresh_tags(lam.args@, scope)
            &&& well_bound(*lam.expr, scope + lam.args@)
        },
        Expr::IForGather(ds, os, lam, dst, _) => {
            &&& forall|i: int| 0 <= i < ds.len() ==> well_bound(#[trigger] ds[i], scope)
            &&& forall|i: int| 0 <= i < os.len() ==> well_bound(#[trigger] os[i], scope)
            &&& well_bound(*dst, scope)
            &&& fresh_tags(lam.args@, scope)
            &&& well_bound(*lam.expr, scope + lam.args@)
        },
        Expr::IForReduce(ds, lam, init, _) => {
            &&& forall|i: int| 0 <= i < ds.len() ==> well_bound(#[trigger] ds[i], scope)
            &&& well_bound(*init, scope)
            &&& fresh_tags(lam.args@, scope)
            &&& well_bound(*lam.expr, scope + lam.args@)
        },
        Expr::LetIn(v, lam, _) => {
            &&& well_bound(*v, scope)
            &&& fresh_tags(lam.args@, scope)
            &&& well_bound(*lam.expr, scope + lam.args@)
        },
        Expr::Bind(i, _) => scope.contains(i),
        Expr::Bin(_, x, y, _) => well_bound(*x, scope) && well_bound(*y, scope),
        Expr::Uni(_, x, _) => well_bound(*x, scope),
    }
}

/// Whether tag `x` is bound in `scope`.
fn bound_in(scope: &Vec<usize>, x: usize) -> (r: bool)
    ensures
        r == scope@.contains(x),
{
    let mut i: usize = 0;
    while i < scope.len()
        invariant
            i <= scope@.len(),
            forall|j: int| 0 <= j < i ==> scope@[j] != x,
        decreases scope@.len() - i,
    {
        if scope[i] == x {
            return true;
        }
        i = i + 1;
    }
    false
}

/// Binds tags `args` over `scope` where they are fresh (see `fresh_tags`);
/// otherwise leaves `scope` as it is.
fn enter<const N: usize>(args: &[usize; N], scope: &mut Vec<usize>) -> (r: bool)
    ensures
        r == fresh_tags(args@, old(scope)@),
        r ==> final(scope)@ == old(scope)@ + args@,
        !r ==> final(scope)@ == old(scope)@,
{
    let mut i: usize = 0;
    while i < N
        invariant
            i <= N,
            args@.len() == N,
            args@.take(i as int).no_duplicates(),
            forall|j: int| 0 <= j < i ==> !scope@.contains(#[trigger] args@[j]),
        decreases N - i,
    {
        if bound_in(scope, args[i]) {
            return false;
        }
        let mut j: usize = 0;
        while j < i
            invariant
                j <= i < N,
                args@.len() == N,
                forall|k: int| 0 <= k < j ==> args@[k] != args@[i as int],
            decreases i - j,
        {
            if args[j] == args[i] {
                assert(!args@.no_duplicates());
                return false;
            }
            j = j + 1;
        }
        i = i + 1;
        assert(args@.take(i as int).no_duplicates()) by {
            assert forall|a: int, b: int| 0 <= a < b < i implies args@.take(i as int)[a] != args@.take(i as int)[b] by {
                if b < i - 1 {
                    assert(args@.take(i - 1)[a] == args@[a]);
                    assert(args@.take(i - 1)[b] == args@[b]);
                }
            }
        }
    }
    assert(args@.take(N as int) =~= args@);
    let mut k: usize = 0;
    let ghost start = scope@;
    while k < N
        invariant
            k <= N,
            args@.len() == N,
            scope@ == start + args@.take(k as int),
        decreases N - k,
    {
        scope.push(args[k]);
        k = k + 1;
        assert(scope@ =~= start + args@.take(k as int));
    }
    assert(scope@ =~= start + args@);
    true
}

impl Expr {
    /// Whether the expression is well bound over `scope` (see `well_bound`).
    fn check_in(&self, scope: &mut Vec<usize>) -> (r: bool)
        ensures
            r == well_bound(*self, old(scope)@),
            final(scope)@ == old(scope)@,
        decreases self,
    {
        match self {
            Expr::ConstUsize(..) => true,
            Expr::Tuple(xs, _) | Expr::Array(xs, _) => Self::check_all(xs, scope),
            Expr::ProjI(x, _, _) => (**x).check_in(scope),
            Expr::Index(x, y, _) => (**x).check_in(scope) && (**y).check_in(scope),
            Expr::PForGather(ds, os, lam, dst, _) | Expr::IForGather(ds, os, lam, dst, _) => {
                if !(Self::check_all(ds, scope) && Self::check_all(os, scope) && (**dst).check_in(scope)) {
                    return false;
                }
                let n = scope.len();
                if !enter(&lam.args, scope) {
                    return false;
                }
                let ok = (*lam.expr).check_in(scope);
                scope.truncate(n);
                assert(scope@ =~= old(scope)@);
                ok
            },
            Expr::IForReduce(ds, lam, init, _) => {
                if !(Self::check_all(ds, scope) && (**init).check_in(scope)) {
                    return false;
                }
                let n = scope.len();
                if !enter(&lam.args, scope) {
                    return false;
                }
                let ok = (*lam.expr).check_in(scope);
                scope.truncate(n);
                assert(scope@ =~= old(scope)@);
                ok
            },
            Expr::LetIn(v, lam, _) => {
                if !(**v).check_in(scope) {
                    return false;
                }
                let n = scope.len();
                if !enter(&lam.args, scope) {
                    return false;
                }
                let ok = (*lam.expr).check_in(scope);
                scope.truncate(n);
                assert(scope@ =~= old(scope)@);
                ok
            },
            Expr::Bind(i, _) => bound_in(scope, *i),
            Expr::Bin(_, x, y, _) => (**x).check_in(scope) && (**y).check_in(scope),
            Expr::Uni(_, x, _) => (**x).check_in(scope),
        }
    }

    /// Whether every element of `xs` is well bound over `scope`.
    fn check_all(xs: &Vec<Expr>, scope: &mut Vec<usize>) -> (r: bool)
        ensures
            r == (forall|i: int| 0 <= i < xs@.len() ==> well_bound(#[trigger] xs@[i], old(scope)@)),
            final(scope)@ == old(scope)@,
        decreases xs,
    {
        let mut i: usize = 0;
        while i < xs.len()
            invariant
                i <= xs@.len(),
                scope@ == old(scope)@,
                forall|j: int| 0 <= j < i ==> well_bound(#[trigger] xs@[j], old(scope)@),
            decreases xs@.len() - i,
        {
            proof {
                assert(decreases_to!(xs => xs@[i as int]));
            }
            if !xs[i].check_in(scope) {
                return false;
            }
            i = i + 1;
        }
        true
    }

    /// Whether every variable is bound, by an enclosing binder or as one of
    /// the inputs, and no binder binds a tag that is bound already (see
    /// `well_bound`).
    pub fn check_binds(&self, inputs: &[usize]) -> (r: bool)
        ensures
            r == well_bound(*self, inputs@),
    {
        let mut scope: Vec<usize> = Vec::new();
        let mut i: usize = 0;
        while i < inputs.len()
            invariant
                i <= inputs@.len(),
                scope@ == inputs@.take(i as int),
            decreases inputs@.len() - i,
        {
            scope.push(inputs[i]);
            i = i + 1;
            assert(scope@ =~= inputs@.take(i as int));
        }
        assert(inputs@.take(i as int) =~= inputs@);
        self.check_in(&mut scope)
    }

    /// The type of the expression.
    pub fn get_type(&self) -> (r: Type)
        ensures
            r == type_of(*self),
    {
        let t = match self {
            Expr::ConstUsize(_, t) => t,
            Expr::Tuple(_, t) => t,
            Expr::ProjI(_, _, t) => t,
            Expr::Index(_, _, t) => t,
            Expr::Array(_, t) => t,
            Expr::PForGather(_, _, _, _, t) => t,
            Expr::IForGather(_, _, _, _, t) => t,
            Expr::IForReduce(_, _, _, t) => t,
            Expr::LetIn(_, _, t) => t,
            Expr::Bind(_, t) => t,
            Expr::Bin(_, _, _, t) => t,
            Expr::Uni(_, _, t) => t,
        };
        t.clone()
    }
}

} // verus!
