use merkle_sync::{Cell, CellDataBuilder, CellRefsBuilder, Error, MAX_REF_COUNT};

#[test]
fn a_cell_is_named_by_its_hash() {
    let mut hash = [0u8; 32];
    hash[0] = 0xab;
    hash[31] = 0xcd;
    let cell = Cell::from_repr_hash(hash);
    assert_eq!(cell.repr_hash(), &hash);
    assert_eq!(cell, Cell::from_repr_hash(hash));
    assert_ne!(cell, Cell::from_repr_hash([0; 32]));
}

#[test]
fn a_cell_holds_four_references() {
    assert_eq!(MAX_REF_COUNT, 4);
}

#[test]
fn a_new_list_is_empty() {
    let refs = CellRefsBuilder::new();
    assert_eq!(refs.len(), 0);
    assert_eq!(refs.get(0), None);
    let refs = CellRefsBuilder::default();
    assert_eq!(refs.len(), 0);
}

#[test]
fn a_list_keeps_the_order_of_its_cells() {
    let mut refs = CellRefsBuilder::new();
    for n in 1..=3u8 {
        assert_eq!(refs.store_reference(Cell::from_repr_hash([n; 32])), Ok(()));
    }
    assert_eq!(refs.len(), 3);
    assert_eq!(refs.get(0), Some(Cell::from_repr_hash([1; 32])));
    assert_eq!(refs.get(1), Some(Cell::from_repr_hash([2; 32])));
    assert_eq!(refs.get(2), Some(Cell::from_repr_hash([3; 32])));
    assert_eq!(refs.get(3), None);
}

#[test]
fn a_full_list_refuses_a_fifth_cell() {
    let mut refs = CellRefsBuilder::new();
    for n in 1..=4u8 {
        assert_eq!(refs.store_reference(Cell::from_repr_hash([n; 32])), Ok(()));
    }
    assert_eq!(refs.len(), 4);
    assert_eq!(
        refs.store_reference(Cell::from_repr_hash([5; 32])),
        Err(Error::CellOverflow)
    );
    assert_eq!(refs.len(), 4);
    assert_eq!(refs.get(3), Some(Cell::from_repr_hash([4; 32])));
    assert_eq!(refs.get(4), None);
}

#[test]
fn a_payload_is_plain_data() {
    let data = CellDataBuilder { data: vec![0xff, 0x80], bit_len: 9 };
    let copy = data.clone();
    assert_eq!(data, copy);
    assert_eq!(copy.bit_len, 9);
    assert_eq!(copy.data, vec![0xff, 0x80]);
}
