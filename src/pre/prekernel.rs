use vstd::prelude::*;
use super::typing::{DType, Dim, Shape};
use super::tensor::{Op, TensorRef, TensorError};

verus! {

/// A node of the flat graph fits after nodes `g`: its operands come before
/// it, and its element type and shape follow from theirs.
pub open spec fn fits(g: Seq<(Op, DType, Seq<Dim>)>, op: Op, dtype: DType, shape: Seq<Dim>) -> bool {
    let k = g.len();
    match op {
        Op::Input => true,
        Op::Add { lhs, rhs } => lhs < k && rhs < k && g[lhs as int].1 == dtype && g[rhs as int].1 == dtype
            && g[lhs as int].2 == shape && g[rhs as int].2 == shape,
        Op::Mul { lhs, rhs } => lhs < k && rhs < k && g[lhs as int].1 == dtype && g[rhs as int].1 == dtype
            && g[lhs as int].2 == shape && g[rhs as int].2 == shape,
        Op::Sum { oprand, dim } => oprand < k && dim < g[oprand as int].2.len() && g[oprand as int].1 == dtype
            && shape == g[oprand as int].2.remove(dim as int),
        Op::Prd { oprand, dim } => oprand < k && dim < g[oprand as int].2.len() && g[oprand as int].1 == dtype
            && shape == g[oprand as int].2.remove(dim as int),
    }
}

/// The graph that holds inputs of the given element types and shapes, in order.
pub open spec fn input_graph(inputs: Seq<(DType, Seq<Dim>)>) -> Seq<(Op, DType, Seq<Dim>)> {
    Seq::new(inputs.len(), |i: int| (Op::Input, inputs[i].0, inputs[i].1))
}

/// The element types and shapes of a list of inputs.
pub open spec fn input_views(inputs: Seq<(DType, Shape)>) -> Seq<(DType, Seq<Dim>)> {
    Seq::new(inputs.len(), |i: int| (inputs[i].0, inputs[i].1@))
}

/// The flat operator graph: one node per tensor ever created, append only.
#[derive(Debug)]
pub struct PreKernel {
    pub graph: Vec<(Op, DType, Shape)>,
}

impl View for PreKernel {
    type V = Seq<(Op, DType, Seq<Dim>)>;

    open spec fn view(&self) -> Seq<(Op, DType, Seq<Dim>)> {
        Seq::new(
            self.graph@.len(),
            |i: int| (self.graph@[i].0, self.graph@[i].1, self.graph@[i].2@),
        )
    }
}

impl PreKernel {
    /// Every node fits after the nodes before it.
    pub open spec fn wf(&self) -> bool {
        forall|k: int| 0 <= k < self@.len() ==> #[trigger] fits(self@.take(k), self@[k].0, self@[k].1, self@[k].2)
    }

    /// `t` describes a node of this graph.
    pub open spec fn owns(&self, t: TensorRef) -> bool {
        &&& t.id < self@.len()
        &&& self@[t.id as int].1 == t.dtype
        &&& self@[t.id as int].2 == t.shape@
    }

    /// What recording a binary operation `op` on `a` and `b` into this graph
    /// gives: `r` and the graph `after`.
    pub open spec fn binary_outcome(
        &self,
        a: TensorRef,
        b: TensorRef,
        op: Op,
        r: Result<TensorRef, TensorError>,
        after: PreKernel,
    ) -> bool {
        if a.dtype != b.dtype {
            r == Err::<TensorRef, TensorError>(TensorError::DTypeMismatch) && after@ == self@
        } else if a.shape@ != b.shape@ {
            r == Err::<TensorRef, TensorError>(TensorError::ShapeMismatch) && after@ == self@
        } else {
            &&& after@ == self@.push((op, a.dtype, a.shape@))
            &&& r matches Ok(t) && t.id == self@.len() && t.dtype == a.dtype && t.shape@ == a.shape@
                && after.owns(t)
        }
    }

    /// What recording reduction `op` of `a` over `dim` into this graph gives:
    /// `r` and the graph `after`.
    pub open spec fn reduce_outcome(
        &self,
        a: TensorRef,
        dim: usize,
        op: Op,
        r: Result<TensorRef, TensorError>,
        after: PreKernel,
    ) -> bool {
        if dim >= a.shape@.len() {
            r == Err::<TensorRef, TensorError>(TensorError::DimOutOfRange) && after@ == self@
        } else {
            &&& after@ == self@.push((op, a.dtype, a.shape@.remove(dim as int)))
            &&& r matches Ok(t) && t.id == self@.len() && t.dtype == a.dtype && t.shape@ == a.shape@.remove(
                dim as int,
            ) && t.shape@.len() == a.shape@.len() - 1 && after.owns(t)
        }
    }

    /// `g` holds the inputs as its first nodes, and `xs` are their handles.
    pub open spec fn records_inputs(g: PreKernel, xs: Seq<TensorRef>, inputs: Seq<(DType, Seq<Dim>)>) -> bool {
        &&& g.wf()
        &&& g@ == input_graph(inputs)
        &&& xs.len() == inputs.len()
        &&& forall|i: int| 0 <= i < xs.len() ==> #[trigger] xs[i].id == i && g.owns(xs[i])
    }

    /// Builds a graph by handing `f` a graph that holds the inputs, and a
    /// handle to each; `f` records its operations and hands the graph back.
    pub fn new<F: FnOnce(PreKernel, Vec<TensorRef>) -> PreKernel>(inputs: Vec<(DType, Shape)>, f: F) -> (r: Self)
        requires
            forall|g: PreKernel, xs: Vec<TensorRef>|
                Self::records_inputs(g, xs@, input_views(inputs@)) ==> #[trigger] f.requires((g, xs)),
        ensures
            exists|g: PreKernel, xs: Vec<TensorRef>|
                Self::records_inputs(g, xs@, input_views(inputs@)) && #[trigger] f.ensures((g, xs), r),
    {
        let (g, xs) = Self::with_inputs(&inputs);
        f(g, xs)
    }

    /// A graph that holds the inputs, in order, and a handle to each.
    pub fn with_inputs(inputs: &Vec<(DType, Shape)>) -> (r: (PreKernel, Vec<TensorRef>))
        ensures
            Self::records_inputs(r.0, r.1@, input_views(inputs@)),
    {
        let mut g = PreKernel::empty();
        let mut xs: Vec<TensorRef> = Vec::new();
        let mut i: usize = 0;
        while i < inputs.len()
            invariant
                i <= inputs@.len(),
                g.wf(),
                g@ == input_graph(input_views(inputs@).take(i as int)),
                xs@.len() == i,
                forall|j: int| 0 <= j < i ==> #[trigger] xs@[j].id == j && g.owns(xs@[j]),
            decreases inputs@.len() - i,
        {
            let dtype = inputs[i].0;
            let shape = inputs[i].1.clone();
            let ghost before = g;
            let id = g.push(Op::Input, dtype, shape);
            xs.push(TensorRef { id, shape: inputs[i].1.clone(), dtype });
            i = i + 1;
            proof {
                assert(g@ =~= input_graph(input_views(inputs@).take(i as int)));
                assert forall|j: int| 0 <= j < i implies #[trigger] xs@[j].id == j && g.owns(xs@[j]) by {
                    if j < i - 1 {
                        assert(before.owns(xs@[j]));
                        assert(g@[j] == before@[j]);
                    }
                }
            }
        }
        assert(input_views(inputs@).take(i as int) =~= input_views(inputs@));
        (g, xs)
    }

    /// Appends a node, which must fit after the nodes already there (see
    /// `fits`), and returns its position.
    pub fn push(&mut self, op: Op, dtype: DType, shape: Shape) -> (r: usize)
        requires
            old(self).wf(),
            fits(old(self)@, op, dtype, shape@),
        ensures
            final(self).wf(),
            r == old(self)@.len(),
            final(self)@ == old(self)@.push((op, dtype, shape@)),
    {
        let ghost sv = shape@;
        self.graph.push((op, dtype, shape));
        proof {
            assert(self@ =~= old(self)@.push((op, dtype, sv)));
            assert forall|k: int| 0 <= k < self@.len() implies #[trigger] fits(
                self@.take(k),
                self@[k].0,
                self@[k].1,
                self@[k].2,
            ) by {
                if k < old(self)@.len() {
                    assert(self@.take(k) =~= old(self)@.take(k));
                    assert(fits(old(self)@.take(k), old(self)@[k].0, old(self)@[k].1, old(self)@[k].2));
                } else {
                    assert(self@.take(k) =~= old(self)@);
                }
            }
        }
        self.graph.len() - 1
    }

    /// The number of nodes.
    pub fn len(&self) -> (r: usize)
        ensures
            r == self@.len(),
    {
        self.graph.len()
    }

    /// The node at position `i`: its operator, element type and shape.
    pub fn node(&self, i: usize) -> (r: &(Op, DType, Shape))
        requires
            i < self@.len(),
        ensures
            (r.0, r.1, r.2@) == self@[i as int],
    {
        &self.graph[i]
    }

    /// The empty graph.
    fn empty() -> (r: Self)
        ensures
            r@ == Seq::<(Op, DType, Seq<Dim>)>::empty(),
            r.wf(),
    {
        let r = Self { graph: Vec::new() };
        assert(r@ =~= Seq::<(Op, DType, Seq<Dim>)>::empty());
        r
    }
}

} // verus!
