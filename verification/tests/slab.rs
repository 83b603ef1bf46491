use socket_server::slab::Slab;

#[test]
fn fresh_indices_rise() {
    let mut slab: Slab<u8, 3> = Slab::new();
    assert_eq!(slab.peek_index(), Some(0));
    assert_eq!(slab.add(10), Ok(0));
    assert_eq!(slab.add(11), Ok(1));
    assert_eq!(slab.add(12), Ok(2));
    assert_eq!(slab.len(), 3);
    assert_eq!(slab.peek_index(), None);
    assert_eq!(slab.add(13), Err(13));
    assert_eq!(slab.len(), 3);
}

#[test]
fn freed_index_is_reused_last_freed_first() {
    let mut slab: Slab<u8, 4> = Slab::new();
    for v in 0..4 {
        slab.add(v).unwrap();
    }
    assert_eq!(slab.remove(1), 1);
    assert_eq!(slab.remove(3), 3);
    assert!(!slab.contains(1));
    assert!(slab.contains(0) && slab.contains(2));
    assert_eq!(slab.len(), 2);
    assert_eq!(slab.add(30), Ok(3));
    assert_eq!(slab.add(10), Ok(1));
    assert_eq!(*slab.get(3), 30);
    assert_eq!(*slab.get(1), 10);
    assert_eq!(*slab.get(0), 0);
    assert_eq!(*slab.get(2), 2);
}

#[test]
fn get_mut_changes_in_place() {
    let mut slab: Slab<u8, 2> = Slab::new();
    slab.add(1).unwrap();
    *slab.get_mut(0) = 9;
    assert_eq!(*slab.get(0), 9);
    assert!(!slab.contains(1));
    assert!(!slab.contains(7));
}
