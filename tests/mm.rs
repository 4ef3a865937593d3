use tenspr::mm::{matmul, matmul_tiled, Expr};

fn square(offset: usize, n: usize) -> Vec<Vec<Expr>> {
    (0..n)
        .map(|i| (0..n).map(|j| Expr::Elem(i * 10 + j + offset)).collect::<Vec<_>>())
        .collect::<Vec<_>>()
}

#[test]
fn test_matmul_tiled() {
    let a = (0..5)
        .map(|i| (0..5).map(|j| Expr::Elem(i * 10 + j + 000)).collect::<Vec<_>>())
        .collect::<Vec<_>>();
    let b = (0..5)
        .map(|i| (0..5).map(|j| Expr::Elem(i * 10 + j + 100)).collect::<Vec<_>>())
        .collect::<Vec<_>>();
    for (i, row) in matmul(a.clone(), b.clone()).into_iter().enumerate() {
        for (j, col) in row.into_iter().enumerate() {
            println!("{i} {j} {}", col.render());
        }
    }
    println!("===================================");
    for (i, row) in matmul_tiled(a.clone(), b.clone()).into_iter().enumerate() {
        for (j, col) in row.into_iter().enumerate() {
            println!("{i} {j} {}", col.render());
        }
    }
}

#[test]
fn tiled_matches_plain() {
    for n in 0..6 {
        let a = square(0, n);
        let b = square(100, n);
        assert_eq!(matmul(a.clone(), b.clone()), matmul_tiled(a, b));
    }
}

#[test]
fn one_by_one_product() {
    let c = matmul(vec![vec![Expr::Elem(3)]], vec![vec![Expr::Elem(4)]]);
    let expected = Expr::Elem(0) + Expr::Elem(3) * Expr::Elem(4);
    assert_eq!(c, vec![vec![expected]]);
}

#[test]
fn rectangular_product_shape() {
    let a = vec![vec![Expr::Elem(1), Expr::Elem(2)]; 3];
    let b = vec![vec![Expr::Elem(5); 4]; 2];
    let c = matmul(a.clone(), b.clone());
    assert_eq!(c.len(), 3);
    assert!(c.iter().all(|r| r.len() == 4));
    let first = Expr::Elem(0) + Expr::Elem(1) * Expr::Elem(5) + Expr::Elem(2) * Expr::Elem(5);
    assert_eq!(c[2][3], first);
    assert_eq!(matmul_tiled(a, b), c);
}

#[test]
fn empty_right_factor() {
    let c = matmul(vec![vec![Expr::Elem(1)]; 2], vec![]);
    assert_eq!(c, vec![Vec::<Expr>::new(), Vec::new()]);
}

#[test]
fn render_pads_elements() {
    assert_eq!(Expr::Elem(7).render(), "0007");
    assert_eq!(Expr::Elem(42).render(), "0042");
    assert_eq!(Expr::Elem(100).render(), "0100");
    assert_eq!(Expr::Elem(12345).render(), "12345");
    let e = Expr::Elem(1) + Expr::Elem(2) * Expr::Elem(3);
    assert_eq!(e.render(), "{ 0001 + (0002 * 0003) }");
    let c = matmul(vec![vec![Expr::Elem(3)]], vec![vec![Expr::Elem(104)]]);
    assert_eq!(c[0][0].render(), "{ 0000 + (0003 * 0104) }");
}
