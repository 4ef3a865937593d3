use tenspr::graph_ir::{
    imerge, order_by_seqnr, Addr, Backend, BinOp, Ctxt, Expr, IRef, Idx, MRef, NilOp, Order,
    StorageFormat, Type, UniOp, WorkerGroup, XRef,
};

fn refs(xs: &[usize]) -> Vec<IRef> {
    xs.iter().map(|&x| IRef(x)).collect()
}

#[derive(Debug)]
struct Dense;

impl StorageFormat for Dense {
    fn init(&self, _shape: &[XRef], ty: Type) -> (&[XRef], Type) {
        (&[], ty)
    }
    fn rand_write(&self, _index: &[XRef], _value: XRef) -> MRef {
        MRef(0)
    }
    fn rand_write_cost(&self, _index: &[XRef], _value: XRef) -> MRef {
        MRef(1)
    }
    fn iter_write_init(&self, _index: &[XRef]) -> MRef {
        MRef(2)
    }
    fn iter_write_next(&self, cursor: MRef, _index: &[XRef], _value: XRef) -> MRef {
        cursor
    }
    fn iter_write_cost(&self) -> usize {
        1
    }
    fn rand_read(&self, _index: &[XRef]) -> MRef {
        MRef(3)
    }
    fn rand_read_cost(&self, _index: &[XRef]) -> MRef {
        MRef(4)
    }
    fn iter_read_init(&self, _index: &[XRef]) -> MRef {
        MRef(5)
    }
    fn iter_read_next(&self, cursor: MRef) -> (&[MRef], MRef, MRef) {
        (&[], cursor, MRef(6))
    }
    fn iter_read_cost(&self) -> usize {
        1
    }
}

/// A worker group given by a bit mask of its workers.
#[derive(Debug)]
struct Workers(u64);

impl WorkerGroup for Workers {
    fn allocate(&self, op: XRef, _ty: Type) -> Addr {
        Addr(op.0)
    }
    fn capacity(&self) -> usize {
        self.0.count_ones() as usize
    }
    fn shares_worker(&self, other: &Self) -> bool {
        self.0 & other.0 != 0
    }
}

#[derive(Debug)]
struct Cpu {
    group: Workers,
    format: Dense,
}

impl Backend for Cpu {
    type Format = Dense;
    type Group = Workers;
    fn wg_default(&self) -> &Workers {
        &self.group
    }
    fn sf_default(&self) -> &Dense {
        &self.format
    }
}

fn cpu() -> Cpu {
    Cpu { group: Workers(0b11), format: Dense }
}

#[test]
fn imerge_sorted_runs() {
    let a = refs(&[1, 3, 5]);
    let b = refs(&[2, 3, 4]);
    let m = imerge(&a, &b);
    assert_eq!(m.as_slice(), refs(&[1, 2, 3, 4, 5]).as_slice());
}

#[test]
fn imerge_with_empty_side() {
    let a = refs(&[]);
    let b = refs(&[0, 7]);
    assert_eq!(imerge(&a, &b).as_slice(), refs(&[0, 7]).as_slice());
    assert_eq!(imerge(&b, &a).as_slice(), refs(&[0, 7]).as_slice());
    assert_eq!(imerge(&a, &a).as_slice(), refs(&[]).as_slice());
}

#[test]
fn imerge_equal_runs_collapse() {
    let a = refs(&[2, 4, 6]);
    assert_eq!(imerge(&a, &a).as_slice(), a.as_slice());
}

#[test]
fn input_gets_defaults() {
    let be = cpu();
    let mut c = Ctxt::new(&be);
    let x = c.input(Type::F32, &refs(&[0, 2]));
    let y = c.input(Type::I64, &refs(&[1]));
    assert_eq!(x, XRef(0));
    assert_eq!(y, XRef(1));
    assert_eq!(c.inputs.len(), 2);
    let (t, e, a) = c.xderef(y);
    assert_eq!(*c.tderef(*t), Type::I64);
    assert_eq!(*e, Expr::Gen { op: NilOp::Input(1) });
    assert_eq!(a.seqnr, 1);
    assert_eq!(a.order(), refs(&[1]).as_slice());
    assert_eq!(a.store.len(), 1);
    assert!(c.xfwd_links(x).is_empty());
}

#[test]
fn bin_merges_orderings() {
    let be = cpu();
    let mut c = Ctxt::new(&be);
    let x = c.input(Type::F32, &refs(&[1, 3]));
    let y = c.input(Type::F32, &refs(&[2, 3]));
    let z = c.bin(BinOp::Add, x, y).unwrap();
    assert_eq!(z, XRef(2));
    let (t, e, a) = c.xderef(z);
    assert_eq!(*c.tderef(*t), Type::F32);
    assert_eq!(*e, Expr::Bin { op: BinOp::Add, lhs: x, rhs: y });
    assert_eq!(a.order(), refs(&[1, 2, 3]).as_slice());
    assert_eq!(a.store.len(), 3);
    assert_eq!(a.seqnr, 2);
    assert_eq!(c.xfwd_links(x).as_slice(), &[z]);
    assert_eq!(c.xfwd_links(y).as_slice(), &[z]);
}

#[test]
fn bin_rejects_mismatched_types() {
    let be = cpu();
    let mut c = Ctxt::new(&be);
    let x = c.input(Type::F32, &refs(&[0]));
    let y = c.input(Type::I32, &refs(&[0]));
    let r = c.bin(BinOp::Mul, x, y);
    assert_eq!(r, Err(Expr::Bin { op: BinOp::Mul, lhs: x, rhs: y }));
    assert_eq!(c.ops_graph.len(), 2);
    assert_eq!(c.typ_graph.len(), 2);
    assert!(c.xfwd_links(x).is_empty());
}

#[test]
fn rem_needs_integers() {
    let be = cpu();
    let mut c = Ctxt::new(&be);
    let f = c.input(Type::F64, &refs(&[]));
    let i = c.input(Type::I64, &refs(&[]));
    assert!(c.bin(BinOp::Rem, f, f).is_err());
    let r = c.bin(BinOp::Rem, i, i).unwrap();
    assert_eq!(*c.tderef(c.xderef(r).0), Type::I64);
    assert_eq!(c.xfwd_links(i).as_slice(), &[r, r]);
}

#[test]
fn tuple_and_conditional_projection() {
    let be = cpu();
    let mut c = Ctxt::new(&be);
    let cond = c.input(Type::Bool, &refs(&[0]));
    let a = c.input(Type::F32, &refs(&[1]));
    let b = c.input(Type::F32, &refs(&[2]));
    let i = c.input(Type::I32, &refs(&[2]));
    let ab = c.bin(BinOp::Tup, a, b).unwrap();
    let ta = c.xderef(a).0;
    let tb = c.xderef(b).0;
    assert_eq!(*c.tderef(c.xderef(ab).0), Type::Tuple(ta, tb));
    let pick = c.bin(BinOp::PjC, cond, ab).unwrap();
    assert_eq!(*c.tderef(c.xderef(pick).0), Type::F32);
    assert_eq!(c.xderef(pick).2.order(), refs(&[0, 1, 2]).as_slice());
    let ai = c.bin(BinOp::Tup, a, i).unwrap();
    assert!(c.bin(BinOp::PjC, cond, ai).is_err());
    assert!(c.bin(BinOp::PjC, a, ab).is_err());
    assert!(c.bin(BinOp::PjC, cond, a).is_err());
}

#[test]
fn map_type_rules() {
    let be = cpu();
    let mut c = Ctxt::new(&be);
    let a = c.input(Type::F32, &refs(&[4, 1]));
    let b = c.input(Type::I32, &refs(&[]));
    let n = c.map(UniOp::Neg, a).unwrap();
    assert_eq!(*c.tderef(c.xderef(n).0), Type::F32);
    assert_eq!(c.xderef(n).2.order(), refs(&[4, 1]).as_slice());
    let k = c.map(UniOp::Cast(Type::I64), a).unwrap();
    assert_eq!(*c.tderef(c.xderef(k).0), Type::I64);
    let t = c.bin(BinOp::Tup, a, b).unwrap();
    let l = c.map(UniOp::PjL, t).unwrap();
    let r = c.map(UniOp::PjR, t).unwrap();
    assert_eq!(*c.tderef(c.xderef(l).0), Type::F32);
    assert_eq!(*c.tderef(c.xderef(r).0), Type::I32);
    assert_eq!(c.map(UniOp::PjL, a), Err(Expr::Uni { op: UniOp::PjL, rhs: a }));
    let tt = c.xderef(t).0;
    assert!(c.map(UniOp::Neg, t).is_err());
    assert!(c.map(UniOp::Cast(Type::Tuple(tt, tt)), a).is_err());
    assert_eq!(c.xfwd_links(a).as_slice(), &[n, k, t]);
}

#[test]
fn mcost_without_consumers_is_one() {
    let be = cpu();
    let mut c = Ctxt::new(&be);
    let x = c.input(Type::F32, &refs(&[0, 1]));
    let r = c.mcost(x);
    assert_eq!(r, IRef(0));
    assert_eq!(c.idx_graph, vec![Idx::Const(1)]);
}

#[test]
fn mcost_folds_the_diverging_suffix() {
    let be = cpu();
    let mut c = Ctxt::new(&be);
    for _ in 0..4 {
        c.index();
    }
    let x = c.input(Type::F32, &refs(&[0, 1, 2, 3]));
    let y = c.map(UniOp::Neg, x).unwrap();
    // the consumer walks the last three indices in another order
    c.ops_graph[y.0].2.set_index(&refs(&[0, 3, 2, 1]));
    let r = c.mcost(x);
    assert_eq!(c.idx_graph.len(), 6);
    assert_eq!(c.idx_graph[4], Idx::Mul(IRef(1), IRef(2)));
    assert_eq!(c.idx_graph[5], Idx::Mul(IRef(4), IRef(3)));
    assert_eq!(r, IRef(5));
}

#[test]
fn mcost_single_index_suffix() {
    let be = cpu();
    let mut c = Ctxt::new(&be);
    let x = c.input(Type::F32, &refs(&[0, 1]));
    let y = c.map(UniOp::Neg, x).unwrap();
    c.ops_graph[y.0].2.set_index(&refs(&[0, 5]));
    assert_eq!(c.mcost(x), IRef(1));
    assert!(c.idx_graph.is_empty());
}

#[test]
fn mcost_grows_with_an_earlier_diverging_consumer() {
    let be = cpu();
    let mut c = Ctxt::new(&be);
    let x = c.input(Type::F32, &refs(&[0, 1, 2]));
    let y = c.map(UniOp::Neg, x).unwrap();
    c.ops_graph[y.0].2.set_index(&refs(&[0, 1, 9]));
    // one consumer: only the last index needs storing
    assert_eq!(c.mcost(x), IRef(2));
    assert_eq!(c.idx_graph.len(), 0);
    let z = c.map(UniOp::Neg, x).unwrap();
    c.ops_graph[z.0].2.set_index(&refs(&[1, 0, 2]));
    // a consumer that diverges at once: all three indices need storing
    let r = c.mcost(x);
    assert_eq!(c.idx_graph, vec![Idx::Mul(IRef(0), IRef(1)), Idx::Mul(IRef(0), IRef(2))]);
    assert_eq!(r, IRef(1));
}

#[test]
fn index_adds_variables() {
    let be = cpu();
    let mut c = Ctxt::new(&be);
    assert_eq!(c.index(), IRef(0));
    assert_eq!(c.index(), IRef(1));
    assert_eq!(c.idx_graph, vec![Idx::Variable(0), Idx::Variable(1)]);
}

#[test]
fn emit_records_outputs() {
    let be = cpu();
    let mut c = Ctxt::new(&be);
    let x = c.input(Type::F32, &refs(&[]));
    c.emit(x);
    assert_eq!(c.ret_value, vec![x]);
}

#[test]
fn larger_seqnr_runs_first_on_shared_workers() {
    assert_eq!(order_by_seqnr(5, 9, true), Order::SecondBefore);
    assert_eq!(order_by_seqnr(9, 5, true), Order::FirstBefore);
    assert_eq!(order_by_seqnr(5, 9, false), Order::Together);
    let be = cpu();
    let mut c = Ctxt::new(&be);
    let xs: Vec<XRef> = (0..10).map(|_| c.input(Type::F32, &refs(&[]))).collect();
    assert_eq!(c.xderef(xs[5]).2.seqnr, 5);
    assert_eq!(c.xderef(xs[9]).2.seqnr, 9);
    assert_eq!(c.exec_order(xs[5], xs[9]), Order::SecondBefore);
    assert_eq!(c.exec_order(xs[9], xs[5]), Order::FirstBefore);
}

#[test]
fn disjoint_groups_run_together() {
    let be = Cpu { group: Workers(0), format: Dense };
    let mut c = Ctxt::new(&be);
    let x = c.input(Type::F32, &refs(&[]));
    let y = c.input(Type::F32, &refs(&[]));
    assert_eq!(c.exec_order(x, y), Order::Together);
}

#[test]
fn consumer_links_can_be_edited() {
    let be = cpu();
    let mut c = Ctxt::new(&be);
    let x = c.input(Type::F32, &refs(&[0]));
    let y = c.map(UniOp::Neg, x).unwrap();
    c.xfwd_links_mut(x).clear();
    assert!(c.xfwd_links(x).is_empty());
    c.xfwd_links_mut(x).push(y);
    assert_eq!(c.xfwd_links(x).as_slice(), &[y]);
}
