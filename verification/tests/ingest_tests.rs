use sonic::config::ConfigStoreFSTGraph;
use sonic::document::{StoreDocument, StoreDocumentRecord};
use sonic::fst_store::FstStore;
use sonic::graph::FstRepositoryConfig;
use sonic::ingest::{distinct_terms, group_by_bucket};

const GRAPH: ConfigStoreFSTGraph = ConfigStoreFSTGraph {
    consolidate_after: 180,
    max_size: 2048,
    max_words: 250000,
};

fn strings(ws: &[&str]) -> Vec<String> {
    ws.iter().map(|w| w.to_string()).collect()
}

fn record(bucket: &str, oid: &str, text: &str) -> StoreDocumentRecord {
    StoreDocumentRecord {
        bucket: bucket.to_string(),
        document: StoreDocument {
            oid: oid.to_string(),
            timestamp_ms: 1,
            text: text.to_string(),
            metadata: b"{}".to_vec(),
        },
    }
}

#[test]
fn it_groups_records_by_bucket_in_first_seen_order() {
    let records = vec![
        record("b2", "o1", "hello"),
        record("b1", "o2", "world"),
        record("b2", "o3", "again"),
        record("b3", "o4", "more"),
        record("b1", "o5", "last"),
    ];
    let entries: Vec<(String, StoreDocument)> =
        records.into_iter().map(|r| (r.bucket, r.document)).collect();
    let groups = group_by_bucket(entries);
    let shape: Vec<(String, Vec<String>)> = groups
        .iter()
        .map(|(b, docs)| (b.clone(), docs.iter().map(|d| d.oid.clone()).collect()))
        .collect();
    assert_eq!(
        shape,
        vec![
            ("b2".to_string(), strings(&["o1", "o3"])),
            ("b1".to_string(), strings(&["o2", "o5"])),
            ("b3".to_string(), strings(&["o4"])),
        ]
    );
}

#[test]
fn it_groups_nothing_into_no_group() {
    let groups = group_by_bucket(Vec::<(String, u32)>::new());
    assert!(groups.is_empty());
}

#[test]
fn it_keeps_each_term_once_in_order() {
    let terms = distinct_terms(strings(&["lorem", "ipsum", "lorem", "dolor", "ipsum"]));
    assert_eq!(terms, strings(&["lorem", "ipsum", "dolor"]));
    assert_eq!(distinct_terms(vec![]), Vec::<String>::new());
}

#[test]
fn it_applies_term_frequencies_to_the_graph() {
    let set = fst::Set::from_iter(["bravo", "charlie"].iter()).unwrap();
    let mut store = FstStore::new(set, FstRepositoryConfig::default());
    // A term no document holds any more is popped; any other is pushed.
    store.apply_term_frequencies(
        &vec![("bravo".to_string(), 0), ("delta".to_string(), 2), ("charlie".to_string(), 1)],
        &GRAPH,
    );
    assert!(store.should_consolidate());
    assert_eq!(store.pending_count(), 2);
    let outcome = store.consolidate(&GRAPH).unwrap();
    let rebuilt = FstStore::from_bytes(outcome.bytes, FstRepositoryConfig::default()).unwrap();
    assert_eq!(rebuilt.list_words(10, 0), Ok(strings(&["charlie", "delta"])));
}

#[test]
fn it_applies_no_frequency_as_no_change() {
    let set = fst::Set::from_iter(["bravo"].iter()).unwrap();
    let mut store = FstStore::new(set, FstRepositoryConfig::default());
    store.apply_term_frequencies(&vec![], &GRAPH);
    assert!(!store.should_consolidate());
    assert_eq!(store.pending_count(), 0);
}
