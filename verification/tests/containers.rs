use mcd::addressed_container::{AddressedContainer, SparseMap};

#[test]
fn sparse_map_sorts_and_dedups() {
    let m = SparseMap::new(vec![7, 3, 9, 3, 1]);
    assert_eq!(m.as_slice(), &[1, 3, 7, 9]);
    assert_eq!(m.len(), 4);
    assert_eq!(m.first_address(), Some(1));
    assert_eq!(m.last_address(), Some(9));
}

#[test]
fn sparse_map_round_trip() {
    let m = SparseMap::new_presorted(vec![2, 4, 8, 16]);
    for i in 0..4 {
        let a = m.get_sparse_address(i).unwrap();
        assert_eq!(m.get_dense_index(a), Some(i));
    }
    assert_eq!(m.get_dense_index(5), None);
    assert_eq!(m.get_sparse_address(4), None);
    assert!(!m.is_empty());
    assert!(SparseMap::new(vec![]).is_empty());
}

#[test]
fn container_slice_keeps_addresses() {
    let c = AddressedContainer::new(vec!['a', 'b', 'c', 'd'], SparseMap::new(vec![10, 12, 15, 20]));
    let s = c.slice(1, 3).unwrap();
    assert_eq!(s.len(), 2);
    assert_eq!(s.start_addr(), Some(12));
    assert_eq!(s.end_addr(), Some(15));
    assert_eq!(s.item_at_address(15), Some(&'c'));
    assert_eq!(s.item_at_address(10), None);
    assert!(c.slice(3, 2).is_none());
    assert!(c.slice(0, 5).is_none());
}

#[test]
fn container_lookups() {
    let c = AddressedContainer::new(vec![1u8, 2, 3], SparseMap::new(vec![0, 5, 9]));
    assert_eq!(c.addr_to_idx(5), Some(1));
    assert_eq!(c.idx_to_addr(2), Some(9));
    assert_eq!(c.addr_offset_by_idx(0, 2), Some(9));
    assert_eq!(c.addr_offset_by_idx(5, -1), Some(0));
    assert_eq!(c.addr_offset_by_idx(5, 2), None);
    assert_eq!(c.item_at_idx(1), Some(&2));
    assert_eq!(c.last(), Some(&3));
    let v = c.iter();
    assert_eq!(v.len(), 3);
    assert_eq!(v[2], (9, &3));
}
