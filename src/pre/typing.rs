use vstd::prelude::*;
use crate::svec::Dims;

verus! {

/// Element type of a tensor.
#[derive(Debug, PartialEq, Eq, Clone, Copy, Structural)]
pub enum DType {
    F32,
    F64,
}

/// A dimension: a symbolic variable or a fixed size.
#[derive(Debug, PartialEq, Eq, Clone, Copy, Structural)]
pub enum Dim {
    Var(usize),
    Fix(usize),
}

/// An ordered sequence of dimensions; its length is the tensor's rank.
#[derive(Debug, PartialEq, Eq)]
pub struct Shape(pub Dims);

impl View for Shape {
    type V = Seq<Dim>;

    open spec fn view(&self) -> Seq<Dim> {
        self.0@
    }
}

impl Clone for Shape {
    fn clone(&self) -> (r: Self)
        ensures
            r@ == self@,
    {
        Shape(Dims::from_slice(self.0.as_slice()))
    }
}

impl Shape {
    /// The shape without dimension `dim`; the other dimensions keep their order.
    pub fn remove(self, dim: usize) -> (r: Self)
        requires
            dim < self@.len(),
        ensures
            r@ == self@.remove(dim as int),
            r@.len() == self@.len() - 1,
            forall|i: int| 0 <= i < dim ==> r@[i] == self@[i],
            forall|i: int| dim <= i < r@.len() ==> r@[i] == self@[i + 1],
    {
        let mut s = self;
        s.0.remove(dim);
        s
    }

    /// The shape with a fixed dimension of size `n` inserted at `dim`.
    pub fn insert(self, dim: usize, n: usize) -> (r: Self)
        requires
            dim <= self@.len(),
        ensures
            r@ == self@.insert(dim as int, Dim::Fix(n)),
            r@.len() == self@.len() + 1,
    {
        let mut s = self;
        s.0.insert(dim, Dim::Fix(n));
        s
    }

    /// The number of dimensions.
    pub fn rank(&self) -> (r: usize)
        ensures
            r == self@.len(),
    {
        self.0.as_slice().len()
    }

    /// Whether the two shapes have the same dimensions in the same order.
    pub fn same(&self, other: &Shape) -> (r: bool)
        ensures
            r == (self@ == other@),
    {
        let a = self.0.as_slice();
        let b = other.0.as_slice();
        if a.len() != b.len() {
            return false;
        }
        let mut i: usize = 0;
        while i < a.len()
            invariant
                i <= a@.len(),
                a@.len() == b@.len(),
                a@ == self@,
                b@ == other@,
                forall|j: int| 0 <= j < i ==> a@[j] == b@[j],
            decreases a@.len() - i,
        {
            if a[i] != b[i] {
                return false;
            }
            i = i + 1;
        }
        assert(a@ =~= b@);
        true
    }
}

/// The fixed dimensions given by `x`, in order.
pub open spec fn dims_of(x: Seq<usize>) -> Seq<Dim> {
    Seq::new(x.len(), |i: int| Dim::Fix(x[i]))
}

/// A shape of fixed dimensions.
pub fn sh<const N: usize>(x: [usize; N]) -> (r: Shape)
    ensures
        r@ == dims_of(x@),
{
    let mut v: Vec<Dim> = Vec::new();
    let mut i: usize = 0;
    while i < N
        invariant
            i <= N,
            x@.len() == N,
            v@ == dims_of(x@.take(i as int)),
        decreases N - i,
    {
        v.push(Dim::Fix(x[i]));
        i = i + 1;
        assert(v@ =~= dims_of(x@.take(i as int)));
    }
    assert(x@.take(N as int) =~= x@);
    Shape(Dims::from_slice(v.as_slice()))
}

} // verus!
