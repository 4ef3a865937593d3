//! The kernel builder: a flat graph together with the links from each
//! tensor to the tensors that consume it, and per-tensor layout predicates.
use vstd::prelude::*;
use crate::pre::{PreKernel, Op, upstream_of};
use crate::svec::{Consumers, Predicates};

verus! {

/// A memory layout offered by a backend: memory units and the connections
/// between them.
pub struct Layout {
    /// size of each unit (or register)
    size: Vec<usize>,
    /// links to other units
    edge: Vec<Vec<(usize, usize)>>,
}

/// How a tensor is stored or computed, on its dimensions.
#[derive(Debug, Clone, Copy, PartialEq, Eq, Structural)]
pub enum Predicate {
    /// sparse on one dimension (like a CSR or CSC format)
    Sparse(usize),
    /// dense on all dimensions
    Dense,
}

/// The entries `i` that one operator at position `i` contributes to the
/// consumers of `j`: one for each of its operand slots `ups` that holds `j`.
pub open spec fn uses_of(ups: Seq<usize>, j: usize, i: usize) -> Seq<usize>
    decreases ups.len(),
{
    if ups.len() == 0 {
        Seq::empty()
    } else {
        uses_of(ups.drop_last(), j, i) + (if ups.last() == j {
            seq![i]
        } else {
            Seq::empty()
        })
    }
}

/// The consumers of `j` among the first `n` operators of `ops`, in order of
/// position, once for each operand slot that names `j`.
pub open spec fn consumers_in(ops: Seq<Op>, n: nat, j: usize) -> Seq<usize>
    decreases n,
{
    if n == 0 {
        Seq::empty()
    } else {
        consumers_in(ops, (n - 1) as nat, j) + uses_of(upstream_of(ops[n - 1]), j, (n - 1) as usize)
    }
}

/// The operators of a flat graph.
pub open spec fn ops_of(pre: PreKernel) -> Seq<Op> {
    Seq::new(pre@.len(), |k: int| pre@[k].0)
}

proof fn lemma_fits_operands(pre: PreKernel, i: int)
    requires
        pre.wf(),
        0 <= i < pre@.len(),
    ensures
        forall|t: int| 0 <= t < upstream_of(pre@[i].0).len() ==> #[trigger] upstream_of(pre@[i].0)[t] < i,
{
    assert(crate::pre::fits(pre@.take(i), pre@[i].0, pre@[i].1, pre@[i].2));
}

/// A kernel builder that optimizes a graph.
pub struct KernelBuilder {
    /// the graph worked on
    pub prekernel: PreKernel,
    /// additional predicates on each tensor
    pub predicate: Vec<Predicates>,
    /// for each tensor, the tensors that consume it
    pub fwd_links: Vec<Consumers>,
}

impl KernelBuilder {
    /// Wraps a recorded graph: each tensor gets the list of its consumers,
    /// in order of position (a consumer that uses it twice is listed
    /// twice), and no predicates.
    pub fn new(prekernel: PreKernel) -> (r: KernelBuilder)
        requires
            prekernel.wf(),
        ensures
            r.prekernel@ == prekernel@,
            r.fwd_links@.len() == prekernel@.len(),
            r.predicate@.len() == prekernel@.len(),
            forall|j: int|
                0 <= j < prekernel@.len() ==> #[trigger] r.fwd_links@[j]@ == consumers_in(
                    ops_of(prekernel),
                    prekernel@.len(),
                    j as usize,
                ),
            forall|j: int| 0 <= j < prekernel@.len() ==> #[trigger] r.predicate@[j]@ == Seq::<Predicate>::empty(),
    {
        let n = prekernel.len();
        let ghost ops = ops_of(prekernel);
        let mut fwd_links: Vec<Consumers> = Vec::new();
        let mut predicate: Vec<Predicates> = Vec::new();
        let mut i: usize = 0;
        while i < n
            invariant
                i <= n,
                fwd_links@.len() == i,
                predicate@.len() == i,
                forall|j: int| 0 <= j < i ==> #[trigger] fwd_links@[j]@ == Seq::<usize>::empty(),
                forall|j: int| 0 <= j < i ==> #[trigger] predicate@[j]@ == Seq::<Predicate>::empty(),
            decreases n - i,
        {
            fwd_links.push(Consumers::new());
            predicate.push(Predicates::new());
            i = i + 1;
        }
        let mut i: usize = 0;
        while i < n
            invariant
                i <= n,
                n == prekernel@.len(),
                ops == ops_of(prekernel),
                prekernel.wf(),
                fwd_links@.len() == n,
                forall|j: int| 0 <= j < n ==> #[trigger] fwd_links@[j]@ == consumers_in(ops, i as nat, j as usize),
            decreases n - i,
        {
            let ups = prekernel.node(i).0.upstream();
            let us = ups.as_slice();
            proof {
                lemma_fits_operands(prekernel, i as int);
                assert(us@ == upstream_of(prekernel@[i as int].0));
                assert forall|t: int| 0 <= t < us@.len() implies #[trigger] us@[t] < i by {
                    assert(upstream_of(prekernel@[i as int].0)[t] < i);
                }
                assert(us@.take(0) =~= Seq::<usize>::empty());
            }
            let mut s: usize = 0;
            while s < us.len()
                invariant
                    s <= us@.len(),
                    i < n,
                    n == prekernel@.len(),
                    ops == ops_of(prekernel),
                    us@ == upstream_of(ops[i as int]),
                    forall|t: int| 0 <= t < us@.len() ==> #[trigger] us@[t] < i,
                    fwd_links@.len() == n,
                    forall|j: int|
                        0 <= j < n ==> #[trigger] fwd_links@[j]@ == consumers_in(ops, i as nat, j as usize)
                            + uses_of(us@.take(s as int), j as usize, i),
                decreases us@.len() - s,
            {
                let j = us[s];
                proof {
                    assert(us@[s as int] < i);
                }
                let ghost prev = fwd_links@;
                fwd_links[j].push(i);
                s = s + 1;
                proof {
                    assert(us@.take(s as int).drop_last() =~= us@.take(s - 1));
                    assert forall|k: int| 0 <= k < n implies #[trigger] fwd_links@[k]@ == consumers_in(ops, i as nat, k as usize)
                        + uses_of(us@.take(s as int), k as usize, i) by {
                        assert(us@.take(s as int).last() == us@[s - 1]);
                        assert(prev[k]@ == consumers_in(ops, i as nat, k as usize) + uses_of(us@.take(s - 1), k as usize, i));
                        if k == j {
                            assert(fwd_links@[k]@ == prev[k]@.push(i));
                        } else {
                            assert(fwd_links@[k] == prev[k]);
                        }
                    }
                }
            }
            proof {
                assert(us@.take(s as int) =~= us@);
            }
            i = i + 1;
        }
        KernelBuilder { prekernel, predicate, fwd_links }
    }

    /// Attaches a layout predicate to tensor `t`.
    pub fn attach(&mut self, t: usize, p: Predicate)
        requires
            t < old(self).predicate@.len(),
        ensures
            final(self).predicate@.len() == old(self).predicate@.len(),
            final(self).predicate@[t as int]@ == old(self).predicate@[t as int]@.push(p),
            forall|j: int|
                0 <= j < old(self).predicate@.len() && j != t ==> #[trigger] final(self).predicate@[j]
                    == old(self).predicate@[j],
            final(self).prekernel@ == old(self).prekernel@,
            final(self).fwd_links@ == old(self).fwd_links@,
    {
        self.predicate[t].push(p);
    }

    /// The predicates attached to tensor `t`, in order of attachment.
    pub fn predicates(&self, t: usize) -> (r: &[Predicate])
        requires
            t < self.predicate@.len(),
        ensures
            r@ == self.predicate@[t as int]@,
    {
        self.predicate[t].as_slice()
    }

    /// The consumers of tensor `t` (see `new`).
    pub fn consumers(&self, t: usize) -> (r: &[usize])
        requires
            t < self.fwd_links@.len(),
        ensures
            r@ == self.fwd_links@[t as int]@,
    {
        self.fwd_links[t].as_slice()
    }
}

} // verus!
