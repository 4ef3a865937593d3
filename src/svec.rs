//! Small inline vectors from `smallvec`, each wrapped for one element type.
//! Verus cannot declare `SmallVec` itself (its `Array` bound is out of its
//! reach), so each vector is held in a private field of a type of this
//! crate, whose contents have a name and whose methods state what the
//! `SmallVec` method they call does to them.
use vstd::prelude::*;
use smallvec::SmallVec;
use crate::graph_ir::IRef;
use crate::pre::Dim;
use crate::ker::Predicate;

verus! {

/// An index ordering, held in a `smallvec::SmallVec` inline for up to five
/// references. Verus sees it only through `idx_order_items` and the methods
/// below.
#[verifier::external_body]
#[derive(Debug)]
pub struct IdxOrder {
    inner: SmallVec<[IRef; 5]>,
}

/// The references held by an index ordering, in order.
pub uninterp spec fn idx_order_items(v: IdxOrder) -> Seq<IRef>;

impl View for IdxOrder {
    type V = Seq<IRef>;

    open spec fn view(&self) -> Seq<IRef> {
        idx_order_items(*self)
    }
}

impl IdxOrder {
    /// Relies on `SmallVec::new`: the new vector is empty.
    #[verifier::external_body]
    pub(crate) fn new() -> (r: IdxOrder)
        ensures
            idx_order_items(r) == Seq::<IRef>::empty(),
    {
        IdxOrder { inner: SmallVec::new() }
    }

    /// Relies on `SmallVec::push`: the value is appended at the end.
    #[verifier::external_body]
    pub(crate) fn push(&mut self, x: IRef)
        ensures
            idx_order_items(*final(self)) == idx_order_items(*old(self)).push(x),
    {
        self.inner.push(x)
    }

    /// Relies on `SmallVec::from_slice`: the vector holds a copy of the slice.
    #[verifier::external_body]
    pub(crate) fn from_slice(s: &[IRef]) -> (r: IdxOrder)
        ensures
            idx_order_items(r) == s@,
    {
        IdxOrder { inner: SmallVec::from_slice(s) }
    }

    /// Relies on `SmallVec::as_slice`: the slice holds the elements in order.
    #[verifier::external_body]
    pub fn as_slice(&self) -> (r: &[IRef])
        ensures
            r@ == idx_order_items(*self),
    {
        self.inner.as_slice()
    }
}

} // verus!

verus! {

/// The dimensions of a shape, held in a `smallvec::SmallVec` inline for up
/// to two. Verus sees it only through `dims_items` and the methods below.
#[verifier::external_body]
#[derive(Debug, PartialEq, Eq)]
pub struct Dims {
    inner: SmallVec<[Dim; 2]>,
}

/// The dimensions held, in order.
pub uninterp spec fn dims_items(v: Dims) -> Seq<Dim>;

impl View for Dims {
    type V = Seq<Dim>;

    open spec fn view(&self) -> Seq<Dim> {
        dims_items(*self)
    }
}

impl Dims {
    /// Relies on `SmallVec::from_slice`: the vector holds a copy of the slice.
    #[verifier::external_body]
    pub(crate) fn from_slice(s: &[Dim]) -> (r: Dims)
        ensures
            dims_items(r) == s@,
    {
        Dims { inner: SmallVec::from_slice(s) }
    }

    /// Relies on `SmallVec::as_slice`: the slice holds the elements in order.
    #[verifier::external_body]
    pub fn as_slice(&self) -> (r: &[Dim])
        ensures
            r@ == dims_items(*self),
    {
        self.inner.as_slice()
    }

    /// Relies on `SmallVec::remove`, which panics when `index` is out of
    /// bounds: the element at `index` is taken out, the others keep their order.
    #[verifier::external_body]
    pub(crate) fn remove(&mut self, index: usize) -> (r: Dim)
        requires
            index < dims_items(*old(self)).len(),
        ensures
            r == dims_items(*old(self))[index as int],
            dims_items(*final(self)) == dims_items(*old(self)).remove(index as int),
    {
        self.inner.remove(index)
    }

    /// Relies on `SmallVec::insert`, which panics when `index` exceeds the
    /// length: the element is placed at `index`, the others keep their order.
    #[verifier::external_body]
    pub(crate) fn insert(&mut self, index: usize, element: Dim)
        requires
            index <= dims_items(*old(self)).len(),
        ensures
            dims_items(*final(self)) == dims_items(*old(self)).insert(index as int, element),
    {
        self.inner.insert(index, element)
    }
}

/// The operands of an operator, held in a `smallvec::SmallVec` inline for up
/// to two. Verus sees it only through `operands_items` and the methods below.
#[verifier::external_body]
#[derive(Debug)]
pub struct Operands {
    inner: SmallVec<[usize; 2]>,
}

/// The operand positions held, in order.
pub uninterp spec fn operands_items(v: Operands) -> Seq<usize>;

impl View for Operands {
    type V = Seq<usize>;

    open spec fn view(&self) -> Seq<usize> {
        operands_items(*self)
    }
}

impl Operands {
    /// Relies on `SmallVec::from_slice`: the vector holds a copy of the slice.
    #[verifier::external_body]
    pub(crate) fn from_slice(s: &[usize]) -> (r: Operands)
        ensures
            operands_items(r) == s@,
    {
        Operands { inner: SmallVec::from_slice(s) }
    }

    /// Relies on `SmallVec::as_slice`: the slice holds the elements in order.
    #[verifier::external_body]
    pub fn as_slice(&self) -> (r: &[usize])
        ensures
            r@ == operands_items(*self),
    {
        self.inner.as_slice()
    }
}

/// The consumers of a tensor, held in a `smallvec::SmallVec` inline for one.
/// Verus sees it only through `consumers_items` and the methods below.
#[verifier::external_body]
#[derive(Debug)]
pub struct Consumers {
    inner: SmallVec<[usize; 1]>,
}

/// The consumer positions held, in order.
pub uninterp spec fn consumers_items(v: Consumers) -> Seq<usize>;

impl View for Consumers {
    type V = Seq<usize>;

    open spec fn view(&self) -> Seq<usize> {
        consumers_items(*self)
    }
}

impl Consumers {
    /// Relies on `SmallVec::new`: the new vector is empty.
    #[verifier::external_body]
    pub(crate) fn new() -> (r: Consumers)
        ensures
            consumers_items(r) == Seq::<usize>::empty(),
    {
        Consumers { inner: SmallVec::new() }
    }

    /// Relies on `SmallVec::push`: the value is appended at the end.
    #[verifier::external_body]
    pub(crate) fn push(&mut self, x: usize)
        ensures
            consumers_items(*final(self)) == consumers_items(*old(self)).push(x),
    {
        self.inner.push(x)
    }

    /// Relies on `SmallVec::as_slice`: the slice holds the elements in order.
    #[verifier::external_body]
    pub fn as_slice(&self) -> (r: &[usize])
        ensures
            r@ == consumers_items(*self),
    {
        self.inner.as_slice()
    }
}

/// The layout predicates of a tensor, held in a `smallvec::SmallVec` inline
/// for one. Verus sees it only through `predicates_items` and the methods
/// below.
#[verifier::external_body]
#[derive(Debug)]
pub struct Predicates {
    inner: SmallVec<[Predicate; 1]>,
}

/// The predicates held, in order.
pub uninterp spec fn predicates_items(v: Predicates) -> Seq<Predicate>;

impl View for Predicates {
    type V = Seq<Predicate>;

    open spec fn view(&self) -> Seq<Predicate> {
        predicates_items(*self)
    }
}

impl Predicates {
    /// Relies on `SmallVec::new`: the new vector is empty.
    #[verifier::external_body]
    pub(crate) fn new() -> (r: Predicates)
        ensures
            predicates_items(r) == Seq::<Predicate>::empty(),
    {
        Predicates { inner: SmallVec::new() }
    }

    /// Relies on `SmallVec::push`: the value is appended at the end.
    #[verifier::external_body]
    pub(crate) fn push(&mut self, x: Predicate)
        ensures
            predicates_items(*final(self)) == predicates_items(*old(self)).push(x),
    {
        self.inner.push(x)
    }

    /// Relies on `SmallVec::as_slice`: the slice holds the elements in order.
    #[verifier::external_body]
    pub fn as_slice(&self) -> (r: &[Predicate])
        ensures
            r@ == predicates_items(*self),
    {
        self.inner.as_slice()
    }
}

} // verus!
