use tenspr::ker::{KernelBuilder, Predicate};
use tenspr::pre::{sh, DType, Dim, Op, PreKernel, TensorError};
use tenspr::pre::DType::F32;

#[test]
fn new_pre_kernel() {
    let x = PreKernel::new(vec![(F32, sh([10, 10])), (F32, sh([10, 10]))], |mut g, xs| {
        let ab = xs[0].mul(&mut g, &xs[1]).unwrap();
        ab.sum(&mut g, 0).unwrap();
        g
    });
    println!("{x:?}");
}

#[test]
fn mul_then_sum_graph() {
    let g = PreKernel::new(
        vec![(DType::F32, sh([10, 10])), (DType::F32, sh([10, 10]))],
        |mut g, xs| {
            let ab = xs[0].mul(&mut g, &xs[1]).unwrap();
            ab.sum(&mut g, 0).unwrap();
            g
        },
    );
    assert_eq!(g.len(), 4);
    assert_eq!(g.node(0).0, Op::Input);
    assert_eq!(g.node(1).0, Op::Input);
    assert_eq!(g.node(2).0, Op::Mul { lhs: 0, rhs: 1 });
    let (op, dtype, shape) = g.node(3);
    assert_eq!(*op, Op::Sum { oprand: 2, dim: 0 });
    assert_eq!(*dtype, DType::F32);
    assert_eq!(*shape, sh([10]));
    assert_eq!(shape.0.as_slice(), &[Dim::Fix(10)]);
}

#[test]
fn shape_mismatch_appends_nothing() {
    let (mut g, xs) = PreKernel::with_inputs(&vec![(DType::F32, sh([10, 10])), (DType::F32, sh([10, 5]))]);
    let r = xs[0].add(&mut g, &xs[1]);
    assert_eq!(r.unwrap_err(), TensorError::ShapeMismatch);
    assert_eq!(g.len(), 2);
}

#[test]
fn dtype_mismatch_appends_nothing() {
    let (mut g, xs) = PreKernel::with_inputs(&vec![(DType::F32, sh([3])), (DType::F64, sh([4]))]);
    assert_eq!(xs[0].mul(&mut g, &xs[1]).unwrap_err(), TensorError::DTypeMismatch);
    assert_eq!(g.len(), 2);
}

#[test]
fn add_keeps_shape_and_dtype() {
    let (mut g, xs) = PreKernel::with_inputs(&vec![(DType::F64, sh([2, 3])), (DType::F64, sh([2, 3]))]);
    let s = xs[0].add(&mut g, &xs[1]).unwrap();
    assert_eq!(s.id, 2);
    assert_eq!(s.dtype, DType::F64);
    assert_eq!(s.shape, sh([2, 3]));
    assert_eq!(g.node(2).0, Op::Add { lhs: 0, rhs: 1 });
}

#[test]
fn reduction_drops_one_dimension() {
    let (mut g, xs) = PreKernel::with_inputs(&vec![(DType::F32, sh([3, 4, 5]))]);
    let s = xs[0].sum(&mut g, 1).unwrap();
    assert_eq!(s.shape, sh([3, 5]));
    assert_eq!(s.dtype, DType::F32);
    let p = s.prd(&mut g, 1).unwrap();
    assert_eq!(p.shape, sh([3]));
    assert_eq!(g.node(2).0, Op::Prd { oprand: 1, dim: 1 });
    let q = p.sum(&mut g, 0).unwrap();
    assert_eq!(q.shape.rank(), 0);
    assert_eq!(q.sum(&mut g, 0).unwrap_err(), TensorError::DimOutOfRange);
    assert_eq!(g.len(), 4);
}

#[test]
fn shape_remove_and_insert() {
    let s = sh([7, 8, 9]);
    assert_eq!(s.clone().remove(0), sh([8, 9]));
    assert_eq!(s.clone().remove(2), sh([7, 8]));
    assert_eq!(s.clone().insert(1, 4), sh([7, 4, 8, 9]));
    assert_eq!(s.clone().insert(3, 1), sh([7, 8, 9, 1]));
    assert!(s.same(&sh([7, 8, 9])));
    assert!(!s.same(&sh([7, 8])));
    assert_eq!(sh([]).rank(), 0);
}

#[test]
fn upstream_lists_operands() {
    assert!(Op::Input.upstream().as_slice().is_empty());
    assert_eq!(Op::Add { lhs: 3, rhs: 1 }.upstream().as_slice(), &[3, 1]);
    assert_eq!(Op::Mul { lhs: 2, rhs: 2 }.upstream().as_slice(), &[2, 2]);
    assert_eq!(Op::Sum { oprand: 4, dim: 0 }.upstream().as_slice(), &[4]);
    assert_eq!(Op::Prd { oprand: 5, dim: 1 }.upstream().as_slice(), &[5]);
}

#[test]
fn kernel_builder_links_consumers() {
    let (mut g, xs) = PreKernel::with_inputs(&vec![(DType::F32, sh([4, 4])), (DType::F32, sh([4, 4]))]);
    let sq = xs[0].mul(&mut g, &xs[0]).unwrap();
    let s = sq.add(&mut g, &xs[1]).unwrap();
    s.sum(&mut g, 1).unwrap();
    let mut kb = KernelBuilder::new(g);
    assert_eq!(kb.consumers(0), &[2, 2]);
    assert_eq!(kb.consumers(1), &[3]);
    assert_eq!(kb.consumers(2), &[3]);
    assert_eq!(kb.consumers(3), &[4]);
    assert!(kb.consumers(4).is_empty());
    assert!(kb.predicates(2).is_empty());
    kb.attach(2, Predicate::Sparse(1));
    kb.attach(2, Predicate::Dense);
    assert_eq!(kb.predicates(2), &[Predicate::Sparse(1), Predicate::Dense]);
    assert!(kb.predicates(1).is_empty());
}
