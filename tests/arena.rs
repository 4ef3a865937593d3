use tenspr::arena::{Arena, Slot};

#[test]
fn test_alloc() {
    let mut a = Arena::<(u8, bool), 1024>::new();
    let x = (0..20000).map(|_| [(); 20].map(|()| rand::random::<(u8, bool)>())).collect::<Vec<_>>();
    let y = (0..20000).map(|i| a.alloc_ext(x[i].to_vec())).collect::<Vec<_>>();
    for i in 0..20000 { assert!(x[i] == *a.get_ext(y[i])); }
}

#[test]
fn runs_fill_a_chunk_before_the_next() {
    let mut a = Arena::<u32, 4>::new();
    let s0 = a.alloc_ext(vec![1, 2, 3]);
    assert_eq!(s0, Slot { chunk: 0, start: 0, len: 3 });
    let s1 = a.alloc_one(4);
    assert_eq!(s1, Slot { chunk: 0, start: 3, len: 1 });
    let s2 = a.alloc_one(5);
    assert_eq!(s2, Slot { chunk: 1, start: 0, len: 1 });
    let s3 = a.alloc_ext(vec![6, 7, 8, 9]);
    assert_eq!(s3, Slot { chunk: 2, start: 0, len: 4 });
    let s4 = a.alloc_ext(vec![]);
    assert_eq!(s4, Slot { chunk: 2, start: 4, len: 0 });
    assert_eq!(a.get_ext(s0), &[1, 2, 3]);
    assert_eq!(*a.get(s1), 4);
    assert_eq!(*a.get(s2), 5);
    assert_eq!(a.get_ext(s3), &[6, 7, 8, 9]);
    assert!(a.get_ext(s4).is_empty());
}
