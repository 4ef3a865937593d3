use tenspr::stream_ir::{Expr, Lambda, ScalarBin, ScalarUni, Type};
use tenspr::{name_from_digest, StreamIR};

#[test]
fn get_type_reads_the_carried_type() {
    let one = Expr::ConstUsize(1, Type::I64);
    assert!(matches!(one.get_type(), Type::I64));
    let arr = Type::Arr(Box::new(Type::F32));
    let e = Expr::Array(vec![Expr::ConstUsize(4, Type::I64)], arr.clone());
    assert!(matches!(e.get_type(), Type::Arr(t) if matches!(*t, Type::F32)));
    let sum = Expr::Bin(
        ScalarBin::Add,
        Box::new(Expr::Bind(0, Type::F64)),
        Box::new(Expr::Bind(1, Type::F64)),
        Type::F64,
    );
    assert!(matches!(sum.get_type(), Type::F64));
    let body = Expr::LetIn(
        Box::new(Expr::ConstUsize(2, Type::I32)),
        Lambda { args: [7], expr: Box::new(Expr::Bind(7, Type::I32)) },
        Type::Tup(Box::new(Type::I32), Box::new(Type::I32)),
    );
    assert!(matches!(body.get_type(), Type::Tup(..)));
}

#[test]
fn digest_name_drops_leading_zeros() {
    assert_eq!(name_from_digest(&[0x0a, 0xff, 0x00, 0x10]), "__aff010");
    assert_eq!(name_from_digest(&[]), "__");
}

#[test]
fn stream_ir_name_is_its_description_digest() {
    assert_eq!(StreamIR { vcount: 0 }.describe(), b"StreamIR { vcount: 0 }".to_vec());
    assert_eq!(StreamIR { vcount: 42 }.describe(), b"StreamIR { vcount: 42 }".to_vec());
    assert_eq!(
        StreamIR { vcount: 0 }.sha256(),
        "__45e52cd44f90bd8369961e6ae8b512f321d04a30f64ccffbe0d8feb898612f"
    );
    assert_eq!(
        StreamIR { vcount: 42 }.sha256(),
        "__4ac98227b568bb43a1974534368e784954f82351be1a73657bdd6abb38be710"
    );
}

fn bind(i: usize) -> Expr {
    Expr::Bind(i, Type::I64)
}

fn let_in(value: Expr, tag: usize, body: Expr) -> Expr {
    Expr::LetIn(Box::new(value), Lambda { args: [tag], expr: Box::new(body) }, Type::I64)
}

#[test]
fn bindings_resolve_to_inputs_or_binders() {
    let e = let_in(bind(0), 1, Expr::Bin(ScalarBin::Add, Box::new(bind(0)), Box::new(bind(1)), Type::I64));
    assert!(e.check_binds(&[0]));
    assert!(!e.check_binds(&[]));
    assert!(!bind(3).check_binds(&[0, 1, 2]));
    assert!(bind(2).check_binds(&[0, 1, 2]));
}

#[test]
fn binder_may_not_shadow() {
    let shadow = let_in(Expr::ConstUsize(1, Type::I64), 0, bind(0));
    assert!(!shadow.check_binds(&[0]));
    assert!(shadow.check_binds(&[5]));
    let nested = let_in(Expr::ConstUsize(1, Type::I64), 4, let_in(bind(4), 4, bind(4)));
    assert!(!nested.check_binds(&[]));
}

#[test]
fn loop_binders_need_distinct_tags() {
    let dims = vec![Expr::ConstUsize(8, Type::I64)];
    let offs = vec![Expr::ConstUsize(1, Type::I64)];
    let arr = Type::Arr(Box::new(Type::I64));
    let body = Expr::Uni(ScalarUni::Neg, Box::new(bind(11)), Type::I64);
    let ok = Expr::IForGather(
        dims,
        offs,
        Lambda { args: [10, 11], expr: Box::new(body) },
        Box::new(Expr::Bind(0, arr.clone())),
        arr.clone(),
    );
    assert!(ok.check_binds(&[0]));
    assert!(!ok.check_binds(&[0, 11]));
    let same = Expr::IForReduce(
        vec![Expr::ConstUsize(8, Type::I64)],
        Lambda { args: [3, 3], expr: Box::new(bind(3)) },
        Box::new(Expr::ConstUsize(0, Type::I64)),
        Type::I64,
    );
    assert!(!same.check_binds(&[]));
    let tuple = Expr::Tuple(vec![bind(0), Expr::ProjI(Box::new(bind(1)), 0, Type::I64)], Type::I64);
    assert!(tuple.check_binds(&[1, 0]));
    assert!(!tuple.check_binds(&[0]));
}
