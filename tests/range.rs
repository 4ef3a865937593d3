use tenspr::range::{DimMath, RangeMath};

fn input(k: usize) -> DimMath {
    DimMath::Input(k)
}

fn two_dims() -> RangeMath {
    RangeMath::Mul(input(0), Box::new(RangeMath::Mul(input(1), Box::new(RangeMath::Nil))))
}

#[test]
fn mul_prepends_dimensions() {
    assert_eq!(RangeMath::Nil.dims().unwrap().len(), 0);
    let d = two_dims().dims().unwrap();
    assert_eq!(d.len(), 2);
    assert!(d[0].same(&input(0)));
    assert!(d[1].same(&input(1)));
}

#[test]
fn split_then_merge_round_trip() {
    let split = RangeMath::SplitDim(Box::new(two_dims()), 1, 4);
    let d = split.dims().unwrap();
    assert_eq!(d.len(), 3);
    assert!(d[0].same(&input(0)));
    assert!(d[1].same(&DimMath::Div(Box::new(input(1)), 4)));
    assert!(d[2].same(&DimMath::Rem(Box::new(input(1)), 4)));
    let merged = RangeMath::MergeDim(Box::new(split), 1).dims().unwrap();
    let orig = two_dims().dims().unwrap();
    assert_eq!(merged.len(), orig.len());
    for i in 0..orig.len() {
        assert!(merged[i].same(&orig[i]));
    }
}

#[test]
fn split_needs_a_tile_and_a_dimension() {
    assert!(RangeMath::SplitDim(Box::new(two_dims()), 1, 0).dims().is_none());
    assert!(RangeMath::SplitDim(Box::new(two_dims()), 2, 4).dims().is_none());
}

#[test]
fn merge_needs_a_quotient_remainder_pair() {
    assert!(RangeMath::MergeDim(Box::new(two_dims()), 0).dims().is_none());
    let split = RangeMath::SplitDim(Box::new(two_dims()), 0, 3);
    assert!(RangeMath::MergeDim(Box::new(split), 1).dims().is_none());
}

#[test]
fn remainder_cannot_precede_its_quotient() {
    let split = RangeMath::SplitDim(Box::new(two_dims()), 0, 2);
    let swapped = RangeMath::Swapping(Box::new(split), 0, 1);
    assert!(swapped.dims().is_none());
    let split = RangeMath::SplitDim(Box::new(two_dims()), 0, 2);
    assert!(RangeMath::Swapping(Box::new(split), 0, 2).dims().is_none());
    let split = RangeMath::SplitDim(Box::new(two_dims()), 0, 2);
    let d = RangeMath::Swapping(Box::new(split), 1, 2).dims().unwrap();
    assert!(d[0].same(&DimMath::Div(Box::new(input(0)), 2)));
    assert!(d[1].same(&input(1)));
    assert!(d[2].same(&DimMath::Rem(Box::new(input(0)), 2)));
}

#[test]
fn slice_and_stack() {
    let sliced = RangeMath::Slice(Box::new(two_dims()), 0);
    let d = sliced.dims().unwrap();
    assert_eq!(d.len(), 1);
    assert!(d[0].same(&input(1)));
    let stacked = RangeMath::Stack(Box::new(sliced), 1, DimMath::Const(8));
    let d = stacked.dims().unwrap();
    assert_eq!(d.len(), 2);
    assert!(d[1].same(&DimMath::Const(8)));
    assert!(RangeMath::Slice(Box::new(RangeMath::Nil), 0).dims().is_none());
    assert!(RangeMath::Stack(Box::new(RangeMath::Nil), 1, DimMath::Const(1)).dims().is_none());
}

#[test]
fn swapping_exchanges_dimensions() {
    let d = RangeMath::Swapping(Box::new(two_dims()), 0, 1).dims().unwrap();
    assert!(d[0].same(&input(1)));
    assert!(d[1].same(&input(0)));
    assert!(RangeMath::Swapping(Box::new(two_dims()), 0, 2).dims().is_none());
}

#[test]
fn dim_math_equality_and_clone() {
    let a = DimMath::Rem(Box::new(DimMath::Div(Box::new(input(3)), 2)), 5);
    assert!(a.same(&a.clone()));
    assert!(!a.same(&DimMath::Rem(Box::new(DimMath::Div(Box::new(input(3)), 2)), 6)));
    assert!(!input(1).same(&DimMath::Const(1)));
}

fn same_dims(a: &[DimMath], b: &[DimMath]) -> bool {
    a.len() == b.len() && a.iter().zip(b).all(|(x, y)| x.same(y))
}

#[test]
fn undo_restores_the_inner_range() {
    let base = two_dims().dims().unwrap();
    let split = RangeMath::SplitDim(Box::new(two_dims()), 1, 4);
    assert!(same_dims(&split.undo().dims().unwrap(), &base));
    let split = RangeMath::SplitDim(Box::new(two_dims()), 0, 3);
    let split_dims = split.dims().unwrap();
    let merged = RangeMath::MergeDim(Box::new(split), 0);
    assert_eq!(merged.dims().unwrap().len(), 2);
    assert!(same_dims(&merged.undo().dims().unwrap(), &split_dims));
    let sliced = RangeMath::Slice(Box::new(two_dims()), 0);
    assert!(same_dims(&sliced.undo().dims().unwrap(), &base));
    let stacked = RangeMath::Stack(Box::new(two_dims()), 2, DimMath::Const(3));
    assert!(same_dims(&stacked.undo().dims().unwrap(), &base));
    let swapped = RangeMath::Swapping(Box::new(two_dims()), 0, 1);
    assert!(same_dims(&swapped.undo().dims().unwrap(), &base));
    let one = RangeMath::Mul(input(1), Box::new(RangeMath::Nil));
    let d = two_dims().undo().dims().unwrap();
    assert!(same_dims(&d, &one.dims().unwrap()));
    assert!(RangeMath::Nil.undo().dims().unwrap().is_empty());
}
