use sonic::posting::{
    StorePosting, DENSE_TO_SPARSE, FORMAT_SPARSE_DELTA, FORMAT_SPARSE_RAW, SPARSE_TO_DENSE,
};

#[test]
fn it_maps_iids_at_shard_boundaries() {
    assert_eq!(StorePosting::shard(0), 0);
    assert_eq!(StorePosting::offset(0), 0);
    assert_eq!(StorePosting::shard(65_535), 0);
    assert_eq!(StorePosting::offset(65_535), u16::MAX);
    assert_eq!(StorePosting::shard(65_536), 1);
    assert_eq!(StorePosting::offset(65_536), 0);
    assert_eq!(StorePosting::iid(u16::MAX, u16::MAX), u32::MAX);
}

#[test]
fn it_round_trips_sparse_postings_in_descending_order() {
    let mut posting = StorePosting::default();
    assert!(posting.insert(7));
    assert!(posting.insert(1));
    assert!(!posting.insert(7));

    let encoded = posting.encode();
    assert_eq!(encoded, [FORMAT_SPARSE_DELTA, 1, 6]);
    let decoded = StorePosting::decode(&encoded).unwrap();
    assert_eq!(decoded.len(), 2);
    assert_eq!(decoded.offsets_desc(), [7, 1]);
    assert!(decoded.contains(1));
}

#[test]
fn it_round_trips_dense_postings_and_shrinks() {
    let mut posting = StorePosting::default();
    for offset in 0..SPARSE_TO_DENSE as u16 {
        assert!(posting.insert(offset));
    }
    assert!(posting.is_dense());

    let mut decoded = StorePosting::decode(&posting.encode()).unwrap();
    assert_eq!(decoded.len(), SPARSE_TO_DENSE);
    for offset in DENSE_TO_SPARSE as u16..SPARSE_TO_DENSE as u16 {
        assert!(decoded.remove(offset));
    }
    assert!(!decoded.is_dense());
    assert_eq!(StorePosting::decode(&decoded.encode()), Ok(decoded));
}

#[test]
fn it_rejects_invalid_sparse_postings() {
    assert!(StorePosting::decode(&[]).is_err());
    assert!(StorePosting::decode(&[FORMAT_SPARSE_RAW, 1]).is_err());
    assert!(StorePosting::decode(&[FORMAT_SPARSE_RAW, 1, 0, 1, 0]).is_err());
    assert!(StorePosting::decode(&[FORMAT_SPARSE_DELTA, 0x80]).is_err());
    assert!(StorePosting::decode(&[FORMAT_SPARSE_DELTA, 0xff, 0xff, 0x7f]).is_err());
}

#[test]
fn it_uses_raw_sparse_encoding_when_smaller() {
    let mut posting = StorePosting::default();
    posting.insert(u16::MAX);
    assert_eq!(posting.encode(), [FORMAT_SPARSE_RAW, 0xff, 0xff]);
}

#[test]
fn it_intersects_postings_in_descending_order() {
    let mut left = StorePosting::default();
    let mut right = StorePosting::default();
    for offset in [1, 7, 9, 20] {
        left.insert(offset);
    }
    for offset in [2, 7, 20, 30] {
        right.insert(offset);
    }
    assert_eq!(left.intersection_offsets_desc(&right), [20, 7]);
}

#[test]
fn it_unions_postings() {
    let mut left = StorePosting::default();
    let mut right = StorePosting::default();
    for offset in [1, 7, 9] {
        left.insert(offset);
    }
    for offset in [2, 7, 20] {
        right.insert(offset);
    }
    left.union_with(&right);
    assert_eq!(left.offsets_desc(), [20, 9, 7, 2, 1]);
}

#[test]
fn it_unions_into_dense_postings() {
    let mut dense = StorePosting::default();
    for offset in 0..SPARSE_TO_DENSE as u16 {
        dense.insert(offset);
    }
    let mut delta = StorePosting::default();
    delta.insert(10_000);
    dense.union_with(&delta);
    assert!(dense.is_dense());
    assert!(dense.contains(10_000));
    assert_eq!(dense.len(), SPARSE_TO_DENSE + 1);
}

#[test]
fn it_intersects_dense_and_sparse_postings() {
    let mut dense = StorePosting::default();
    for offset in 0..SPARSE_TO_DENSE as u16 {
        dense.insert(offset * 2);
    }
    let mut sparse = StorePosting::new();
    for offset in [3, 4, 8000, 9000] {
        sparse.insert(offset);
    }
    assert_eq!(dense.intersection_offsets_desc(&sparse), [8000, 4]);
    assert_eq!(sparse.intersection_offsets_desc(&dense), [8000, 4]);
}

#[test]
fn it_removes_and_empties_postings() {
    let mut posting = StorePosting::new();
    assert!(posting.is_empty());
    posting.insert(5);
    assert!(!posting.is_empty());
    assert!(!posting.remove(6));
    assert!(posting.remove(5));
    assert!(posting.is_empty());
    assert_eq!(posting.len(), 0);
    assert_eq!(StorePosting::decode(&posting.encode()), Ok(posting));
}

#[test]
fn it_holds_each_inserted_offset_once() {
    let mut posting = StorePosting::default();
    for offset in [3u16, 1, 3, 9, 1] {
        posting.insert(offset);
    }
    assert_eq!(posting.len(), 3);
    assert!(posting.contains(1) && posting.contains(3) && posting.contains(9));
    assert!(!posting.contains(2));

    let mut dense = StorePosting::default();
    for offset in 0..(SPARSE_TO_DENSE as u16) {
        dense.insert(offset);
        dense.insert(offset);
    }
    assert!(dense.is_dense());
    assert_eq!(dense.len(), SPARSE_TO_DENSE as usize);
    assert!(!dense.contains(SPARSE_TO_DENSE as u16));
}
