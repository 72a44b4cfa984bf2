use sonic::document::{
    max_option, StoreBulkResult, StoreDocument, StoreDuration, StoreFreshBatchTimings,
    StoreKVHealth, MAX_DOCUMENT_BYTES,
};

#[test]
fn it_round_trips_documents() {
    let document = StoreDocument::new(
        "message:1".to_string(),
        1_721_297_600_123,
        "Hello world".to_string(),
        br#"{"author":"alice"}"#.to_vec(),
    )
    .unwrap();
    assert_eq!(
        StoreDocument::decode(document.oid.clone(), &document.encode().unwrap()),
        Ok(document)
    );
}

#[test]
fn it_rejects_non_object_metadata_and_invalid_payloads() {
    assert!(StoreDocument::new("message:1".to_string(), 0, String::new(), b"[]".to_vec()).is_err());
    assert!(StoreDocument::decode("message:1".to_owned(), &[]).is_err());
    let oversized = StoreDocument::new(
        "message:1".to_string(),
        0,
        "x".repeat(MAX_DOCUMENT_BYTES),
        b"{}".to_vec(),
    )
    .unwrap();
    assert!(oversized.encode().is_err());
}

#[test]
fn it_frames_documents() {
    let document = StoreDocument::new("o".to_string(), 258, "hé".to_string(), b"{}".to_vec()).unwrap();
    let encoded = document.encode().unwrap();
    assert_eq!(
        encoded,
        vec![1, 2, 1, 0, 0, 0, 0, 0, 0, 3, 0, 0, 0, 2, 0, 0, 0, b'h', 0xc3, 0xa9, b'{', b'}']
    );
    assert_eq!(StoreDocument::encoded_lengths(&encoded), Ok((3, 2)));
    let mut wrong_version = encoded.clone();
    wrong_version[0] = 2;
    assert!(StoreDocument::encoded_lengths(&wrong_version).is_err());
    let mut truncated = encoded.clone();
    truncated.pop();
    assert!(StoreDocument::decode("o".to_string(), &truncated).is_err());
    let mut bad_text = encoded.clone();
    bad_text[18] = 0xff;
    assert!(StoreDocument::decode("o".to_string(), &bad_text).is_err());
    let largest = StoreDocument::new(
        "o".to_string(),
        0,
        "x".repeat(MAX_DOCUMENT_BYTES - 17 - 2),
        b"{}".to_vec(),
    )
    .unwrap();
    assert_eq!(largest.encode().unwrap().len(), MAX_DOCUMENT_BYTES);
}

#[test]
fn it_keeps_the_larger_health_report() {
    assert_eq!(max_option(Some(3), Some(5)), Some(5));
    assert_eq!(max_option(Some(7), None), Some(7));
    assert_eq!(max_option(None, Some(2)), Some(2));
    assert_eq!(max_option(None, None), None);
    let mut health = StoreKVHealth { index_l0_files: Some(4), write_stopped: None, ..Default::default() };
    let other = StoreKVHealth { index_l0_files: Some(2), write_stopped: Some(1), delayed_write_rate: Some(9), ..Default::default() };
    health.max_assign(&other);
    assert_eq!(health.index_l0_files, Some(4));
    assert_eq!(health.write_stopped, Some(1));
    assert_eq!(health.delayed_write_rate, Some(9));
    assert_eq!(health.postings_l0_files, None);
}

#[test]
fn it_adds_durations_and_timings() {
    let a = StoreDuration { secs: 1, nanos: 600_000_000 };
    let b = StoreDuration { secs: 2, nanos: 700_000_000 };
    assert_eq!(a.add(b), StoreDuration { secs: 4, nanos: 300_000_000 });
    assert_eq!(b.saturating_sub(a), StoreDuration { secs: 1, nanos: 100_000_000 });
    assert_eq!(a.saturating_sub(b), StoreDuration { secs: 0, nanos: 0 });
    assert_eq!(a.as_micros(), 1_600_000);
    let mut timings = StoreFreshBatchTimings::zero();
    let mut other = StoreFreshBatchTimings::zero();
    other.oid_reads = a;
    other.batch_put_count = 3;
    other.term_read_count = 2;
    timings.add_assign(&other);
    timings.add_assign(&other);
    assert_eq!(timings.oid_reads, StoreDuration { secs: 3, nanos: 200_000_000 });
    assert_eq!(timings.batch_put_count, 6);
    assert_eq!(timings.term_read_count, 4);
    assert_eq!(StoreBulkResult::default(), StoreBulkResult { written: 0, rejected: 0 });
}
