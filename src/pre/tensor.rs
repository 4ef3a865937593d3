use vstd::prelude::*;
use crate::svec::Operands;
use super::typing::{DType, Dim, Shape};
use super::prekernel::PreKernel;

verus! {

/// An operator of the flat graph; operands are positions in the graph.
#[derive(Debug, Clone, Copy, PartialEq, Eq, Structural)]
pub enum Op {
    Input,
    Add { lhs: usize, rhs: usize },
    Mul { lhs: usize, rhs: usize },
    Sum { oprand: usize, dim: usize },
    Prd { oprand: usize, dim: usize },
}

/// The operands of an operator, in order.
pub open spec fn upstream_of(op: Op) -> Seq<usize> {
    match op {
        Op::Input => seq![],
        Op::Add { lhs, rhs } => seq![lhs, rhs],
        Op::Mul { lhs, rhs } => seq![lhs, rhs],
        Op::Sum { oprand, .. } => seq![oprand],
        Op::Prd { oprand, .. } => seq![oprand],
    }
}

impl Op {
    /// The positions of the operator's operands.
    pub fn upstream(&self) -> (r: Operands)
        ensures
            r@ == upstream_of(*self),
    {
        match *self {
            Op::Input => Operands::from_slice(&[]),
            Op::Add { lhs, rhs } => Operands::from_slice(&[lhs, rhs]),
            Op::Mul { lhs, rhs } => Operands::from_slice(&[lhs, rhs]),
            Op::Sum { oprand, .. } => Operands::from_slice(&[oprand]),
            Op::Prd { oprand, .. } => Operands::from_slice(&[oprand]),
        }
    }
}

/// Why an operation could not be recorded.
#[derive(Debug, Clone, Copy, PartialEq, Eq, Structural)]
pub enum TensorError {
    /// The operands of a binary operation have different element types.
    DTypeMismatch,
    /// The operands of a binary operation have different shapes.
    ShapeMismatch,
    /// A reduction names a dimension the operand does not have.
    DimOutOfRange,
}

/// A handle to a tensor recorded in a graph: its position there, its shape
/// and its element type.
#[derive(Debug)]
pub struct TensorRef {
    pub id: usize,
    pub shape: Shape,
    pub dtype: DType,
}

impl Clone for TensorRef {
    fn clone(&self) -> (r: Self)
        ensures
            r.id == self.id,
            r.shape@ == self.shape@,
            r.dtype == self.dtype,
    {
        TensorRef { id: self.id, shape: self.shape.clone(), dtype: self.dtype }
    }
}

impl TensorRef {
    /// Records an element-wise binary operation: `mul` picks `Mul` over `Add`.
    fn binary(&self, pre: &mut PreKernel, rhs: &TensorRef, mul: bool) -> (r: Result<TensorRef, TensorError>)
        requires
            old(pre).wf(),
            old(pre).owns(*self),
            old(pre).owns(*rhs),
        ensures
            final(pre).wf(),
            ({
                let op = if mul {
                    Op::Mul { lhs: self.id, rhs: rhs.id }
                } else {
                    Op::Add { lhs: self.id, rhs: rhs.id }
                };
                old(pre).binary_outcome(*self, *rhs, op, r, *final(pre))
            }),
    {
        if self.dtype != rhs.dtype {
            return Err(TensorError::DTypeMismatch);
        }
        if !self.shape.same(&rhs.shape) {
            return Err(TensorError::ShapeMismatch);
        }
        let op = if mul {
            Op::Mul { lhs: self.id, rhs: rhs.id }
        } else {
            Op::Add { lhs: self.id, rhs: rhs.id }
        };
        let shape = self.shape.clone();
        let id = pre.push(op, self.dtype, shape);
        let t = TensorRef { id, shape: self.shape.clone(), dtype: self.dtype };
        proof {
            assert(pre@[id as int] == (op, self.dtype, self.shape@));
        }
        Ok(t)
    }

    /// Records `self + rhs`. Both operands must have the same element type
    /// and the same shape; otherwise nothing is recorded and the mismatch is
    /// reported, the element type first.
    pub fn add(&self, pre: &mut PreKernel, rhs: &TensorRef) -> (r: Result<TensorRef, TensorError>)
        requires
            old(pre).wf(),
            old(pre).owns(*self),
            old(pre).owns(*rhs),
        ensures
            final(pre).wf(),
            old(pre).binary_outcome(*self, *rhs, Op::Add { lhs: self.id, rhs: rhs.id }, r, *final(pre)),
    {
        self.binary(pre, rhs, false)
    }

    /// Records `self * rhs`, element-wise, under the same rules as `add`.
    pub fn mul(&self, pre: &mut PreKernel, rhs: &TensorRef) -> (r: Result<TensorRef, TensorError>)
        requires
            old(pre).wf(),
            old(pre).owns(*self),
            old(pre).owns(*rhs),
        ensures
            final(pre).wf(),
            old(pre).binary_outcome(*self, *rhs, Op::Mul { lhs: self.id, rhs: rhs.id }, r, *final(pre)),
    {
        self.binary(pre, rhs, true)
    }

    /// Records a reduction over dimension `dim`: `prd` picks `Prd` over `Sum`.
    fn reduce(&self, pre: &mut PreKernel, dim: usize, prd: bool) -> (r: Result<TensorRef, TensorError>)
        requires
            old(pre).wf(),
            old(pre).owns(*self),
        ensures
            final(pre).wf(),
            ({
                let op = if prd {
                    Op::Prd { oprand: self.id, dim }
                } else {
                    Op::Sum { oprand: self.id, dim }
                };
                old(pre).reduce_outcome(*self, dim, op, r, *final(pre))
            }),
    {
        if dim >= self.shape.rank() {
            return Err(TensorError::DimOutOfRange);
        }
        let op = if prd {
            Op::Prd { oprand: self.id, dim }
        } else {
            Op::Sum { oprand: self.id, dim }
        };
        let shape = self.shape.clone().remove(dim);
        let id = pre.push(op, self.dtype, shape.clone());
        Ok(TensorRef { id, shape, dtype: self.dtype })
    }

    /// Records the sum over dimension `dim`: the result has the operand's
    /// element type and its shape without that dimension. A dimension the
    /// operand does not have is reported and nothing is recorded.
    pub fn sum(&self, pre: &mut PreKernel, dim: usize) -> (r: Result<TensorRef, TensorError>)
        requires
            old(pre).wf(),
            old(pre).owns(*self),
        ensures
            final(pre).wf(),
            old(pre).reduce_outcome(*self, dim, Op::Sum { oprand: self.id, dim }, r, *final(pre)),
    {
        self.reduce(pre, dim, false)
    }

    /// Records the product over dimension `dim`, under the same rules as `sum`.
    pub fn prd(&self, pre: &mut PreKernel, dim: usize) -> (r: Result<TensorRef, TensorError>)
        requires
            old(pre).wf(),
            old(pre).owns(*self),
        ensures
            final(pre).wf(),
            old(pre).reduce_outcome(*self, dim, Op::Prd { oprand: self.id, dim }, r, *final(pre)),
    {
        self.reduce(pre, dim, true)
    }
}

} // verus!
