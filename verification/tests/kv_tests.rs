use std::collections::BTreeMap;

use sonic::executor::{count_bucket_from_store, count_bucket_objects, count_object_terms};
use sonic::config::ConfigStoreFSTGraph;
use sonic::fst_store::FstStore;
use sonic::graph::FstRepositoryConfig;
use sonic::iid::IidCounters;
use sonic::ingest::{pop_from_store, pop_object, push_object};
use sonic::lexer::{PreprocessorOutput, TokenKind, TokenSpan};
use sonic::item::{bucket, Bucket, StoreObjectOid, StoreTermHash};
use sonic::kv_batch::{KvWrite, KvWriteBatch, StoreKVActionReadWrite};
use sonic::kv_keys::{KvStoreKey, StoreMetaKey};
use sonic::merge::kv_merge_operator;
use sonic::item::StoreObjectIid;

/// A store in memory, to apply batches to.
struct MemStore {
    values: BTreeMap<Vec<u8>, Vec<u8>>,
}

impl MemStore {
    fn new() -> Self {
        MemStore { values: BTreeMap::new() }
    }

    fn write(&mut self, batch: KvWriteBatch) -> Result<(), ()> {
        for write in batch.writes() {
            match write {
                KvWrite::Put(k, v) => {
                    self.values.insert(k.clone(), v.clone());
                }
                KvWrite::Merge(k, v) => {
                    let existing = self.values.get(k).cloned();
                    match kv_merge_operator(k, existing.as_deref(), &[v.clone()]) {
                        Some(merged) => {
                            self.values.insert(k.clone(), merged);
                        }
                        None => return Err(()),
                    }
                }
                KvWrite::Delete(k) => {
                    self.values.remove(k);
                }
                KvWrite::DeleteRange(s, e) => {
                    let doomed: Vec<Vec<u8>> =
                        self.values.range(s.clone()..e.clone()).map(|(k, _)| k.clone()).collect();
                    for k in doomed {
                        self.values.remove(&k);
                    }
                }
            }
        }
        Ok(())
    }

    fn get(&self, key: &KvStoreKey) -> Option<&[u8]> {
        self.values.get(key.as_bytes()).map(|v| v.as_slice())
    }
}

fn b(name: &'static str) -> Bucket<'static> {
    Bucket::from_part(bucket(name))
}

fn oid(name: &'static str) -> StoreObjectOid<'static> {
    StoreObjectOid::from_part(bucket(name))
}

fn proceed_actions() {
    let mut store = MemStore::new();
    let bucket = b("b:test:3");
    let action = StoreKVActionReadWrite::new(bucket);
    let read = action.as_read_only();

    let meta_key = KvStoreKey::meta_to_value(&bucket, &StoreMetaKey::IIDIncr);
    assert_eq!(read.get_meta_to_value(StoreMetaKey::IIDIncr, store.get(&meta_key)), None);
    assert!({
        let mut batch = KvWriteBatch::new();
        action.set_meta_to_value(&mut batch, StoreMetaKey::IIDIncr, 1);
        store.write(batch).is_ok()
    });
    assert_eq!(read.get_meta_to_value(StoreMetaKey::IIDIncr, store.get(&meta_key)), Some(1));

    let term_key = KvStoreKey::term_to_iids(&bucket, StoreTermHash::new(1));
    assert!(read.get_term_to_iids(store.get(&term_key)).is_ok());
    assert!({
        let mut batch = KvWriteBatch::new();
        action.set_term_to_iids(&mut batch, StoreTermHash::new(1), &[0, 1, 2]);
        store.write(batch).is_ok()
    });
    assert_eq!(read.get_term_to_iids(store.get(&term_key)), Ok(Some(vec![0, 1, 2])));
    assert!({
        let mut batch = KvWriteBatch::new();
        action.delete_term_to_iids(&mut batch, StoreTermHash::new(1));
        store.write(batch).is_ok()
    });
    assert_eq!(read.get_term_to_iids(store.get(&term_key)), Ok(None));

    let oid_key = KvStoreKey::oid_to_iid(&bucket, oid("s"));
    assert!(read.get_oid_to_iid(store.get(&oid_key)).is_ok());
    assert!({
        let mut batch = KvWriteBatch::new();
        action.set_oid_to_iid(&mut batch, oid("s"), 4);
        store.write(batch).is_ok()
    });
    assert_eq!(read.get_oid_to_iid(store.get(&oid_key)), Ok(Some(4)));
    assert!({
        let mut batch = KvWriteBatch::new();
        action.delete_oid_to_iid(&mut batch, oid("s"));
        store.write(batch).is_ok()
    });
    assert_eq!(read.get_oid_to_iid(store.get(&oid_key)), Ok(None));

    let iid_oid_key = KvStoreKey::iid_to_oid(&bucket, StoreObjectIid::new(4));
    assert_eq!(read.get_iid_to_oid(store.get(&iid_oid_key)), None);
    assert!({
        let mut batch = KvWriteBatch::new();
        action.set_iid_to_oid(&mut batch, 4, oid("s"));
        store.write(batch).is_ok()
    });
    assert_eq!(read.get_iid_to_oid(store.get(&iid_oid_key)), Some("s".to_string()));
    assert!({
        let mut batch = KvWriteBatch::new();
        action.delete_iid_to_oid(&mut batch, 4);
        store.write(batch).is_ok()
    });

    let iid_terms_key = KvStoreKey::iid_to_terms(&bucket, StoreObjectIid::new(4));
    assert!(read.get_iid_to_terms(store.get(&iid_terms_key)).is_ok());
    assert!({
        let mut batch = KvWriteBatch::new();
        action.set_iid_to_terms(&mut batch, 4, &[45402]);
        store.write(batch).is_ok()
    });
    assert_eq!(read.get_iid_to_terms(store.get(&iid_terms_key)), Ok(Some(vec![45402])));
    assert!({
        let mut batch = KvWriteBatch::new();
        action.delete_iid_to_terms(&mut batch, 4);
        store.write(batch).is_ok()
    });
    assert_eq!(read.get_iid_to_terms(store.get(&iid_terms_key)), Ok(None));
}

#[test]
fn kv_it_proceeds_actions() {
    proceed_actions();
}

#[test]
fn mod_it_proceeds_actions() {
    proceed_actions();
}

#[test]
fn it_reads_values_as_the_store_holds_them() {
    let action = StoreKVActionReadWrite::new(b("b:1"));
    let read = action.as_read_only();
    assert_eq!(read.get_meta_to_value(StoreMetaKey::IIDIncr, Some(b"+42")), Some(42));
    assert_eq!(read.get_meta_to_value(StoreMetaKey::IIDIncr, Some(b"4294967295")), Some(u32::MAX));
    assert_eq!(read.get_meta_to_value(StoreMetaKey::IIDIncr, Some(b"4294967296")), None);
    assert_eq!(read.get_meta_to_value(StoreMetaKey::IIDIncr, Some(b"")), None);
    assert_eq!(read.get_meta_to_value(StoreMetaKey::IIDIncr, Some(b"+")), None);
    assert_eq!(read.get_meta_to_value(StoreMetaKey::IIDIncr, Some(b"1a")), None);
    assert_eq!(read.get_term_to_iids(Some(&[1, 0, 0])), Err(()));
    assert_eq!(read.get_term_to_iids(Some(&[])), Ok(Some(vec![])));
    assert_eq!(read.get_iid_to_terms(Some(&[])), Ok(None));
    assert_eq!(read.get_oid_to_iid(Some(&[1, 0, 0, 0, 0])), Err(()));
    assert_eq!(read.get_iid_to_oid(Some(&[0xff])), None);
}

#[test]
fn it_hands_out_iids_through_the_counter() {
    let mut store = MemStore::new();
    let bucket = b("b:1");
    let action = StoreKVActionReadWrite::new(bucket);
    let read = action.as_read_only();
    let mut counters = IidCounters::new();
    let meta_key = KvStoreKey::meta_to_value(&bucket, &StoreMetaKey::IIDIncr);
    assert_eq!(read.get_iid_incr(&counters, store.get(&meta_key)), Ok(None));

    let mut batch = KvWriteBatch::new();
    assert_eq!(action.get_new_iid(&mut counters, &mut batch), 0);
    assert_eq!(action.get_new_iid(&mut counters, &mut batch), 1);
    store.write(batch).unwrap();
    assert_eq!(read.get_iid_incr(&counters, None), Ok(Some(1)));
    // Read from the store when memory holds nothing.
    assert_eq!(read.get_iid_incr(&IidCounters::new(), store.get(&meta_key)), Ok(Some(1)));
    assert_eq!(read.get_iid_incr(&IidCounters::new(), Some(&[1, 2])), Err(()));
}

#[test]
fn it_flushes_an_object_out_of_its_terms() {
    let mut store = MemStore::new();
    let bucket = b("b:1");
    let action = StoreKVActionReadWrite::new(bucket);
    let read = action.as_read_only();

    let mut batch = KvWriteBatch::new();
    action.set_oid_to_iid(&mut batch, oid("o"), 7);
    action.set_iid_to_oid(&mut batch, 7, oid("o"));
    action.set_iid_to_terms(&mut batch, 7, &[10, 11, 12]);
    action.set_term_to_iids(&mut batch, StoreTermHash::new(10), &[7]);
    action.set_term_to_iids(&mut batch, StoreTermHash::new(11), &[3, 7, 5]);
    action.set_term_to_iids(&mut batch, StoreTermHash::new(12), &[3]);
    store.write(batch).unwrap();

    let key = |t: u32| KvStoreKey::term_to_iids(&bucket, StoreTermHash::new(t));
    let held: Vec<(u32, Option<Vec<u32>>)> = [10, 11, 12, 13]
        .iter()
        .map(|&t| (t, read.get_term_to_iids(store.get(&key(t))).unwrap()))
        .collect();
    let mut batch = KvWriteBatch::new();
    assert_eq!(action.batch_flush_bucket(&mut batch, 7, oid("o"), &held), 2);
    // Three deletions, then one write per term the store held.
    assert_eq!(batch.len(), 6);
    store.write(batch).unwrap();

    assert_eq!(read.get_term_to_iids(store.get(&key(10))), Ok(None));
    assert_eq!(read.get_term_to_iids(store.get(&key(11))), Ok(Some(vec![3, 5])));
    assert_eq!(read.get_term_to_iids(store.get(&key(12))), Ok(Some(vec![3])));
    let oid_key = KvStoreKey::oid_to_iid(&bucket, oid("o"));
    assert_eq!(read.get_oid_to_iid(store.get(&oid_key)), Ok(None));
}

#[test]
fn it_erases_every_key_of_a_bucket() {
    let mut store = MemStore::new();
    let bucket = b("b:1");
    let other = b("b:2");
    let action = StoreKVActionReadWrite::new(bucket);
    let keep = StoreKVActionReadWrite::new(other);

    let mut batch = KvWriteBatch::new();
    action.set_meta_to_value(&mut batch, StoreMetaKey::IIDIncr, 3);
    action.set_term_to_iids(&mut batch, StoreTermHash::new(u32::MAX), &[1]);
    action.set_oid_to_iid(&mut batch, oid("o"), 1);
    action.set_iid_to_oid(&mut batch, 0, oid("o"));
    action.set_iid_to_terms(&mut batch, 1, &[2]);
    keep.set_iid_to_terms(&mut batch, 1, &[2]);
    store.write(batch).unwrap();
    assert_eq!(store.values.len(), 6);

    let batches = action.batch_erase_bucket();
    assert_eq!(batches.len(), 5);
    for batch in batches {
        store.write(batch).unwrap();
    }
    assert_eq!(store.values.len(), 1);
}

#[test]
fn it_counts_object_terms_and_bucket_objects() {
    assert_eq!(count_object_terms(Some(4), Some(&vec![1, 2, 3])), 3);
    assert_eq!(count_object_terms(None, Some(&vec![1])), 0);
    assert_eq!(count_object_terms(Some(4), None), 0);
    assert_eq!(count_bucket_objects(None), Ok(0));
    assert_eq!(count_bucket_objects(Some(&[2, 0, 0, 0])), Ok(2));
    // A count below zero reads as none.
    assert_eq!(count_bucket_objects(Some(&[0xff, 0xff, 0xff, 0xff])), Ok(0));
    assert!(count_bucket_objects(Some(&[1, 2])).is_err());
}

#[test]
fn it_auto_increments_the_iid_counter() {
    let mut store = MemStore::new();
    let bucket = b("b:1");
    let action = StoreKVActionReadWrite::new(bucket);
    let read = action.as_read_only();
    let meta_key = KvStoreKey::meta_to_value(&bucket, &StoreMetaKey::IIDIncr);
    for expected in 0..3u32 {
        let current = read.get_meta_to_value(StoreMetaKey::IIDIncr, store.get(&meta_key));
        let mut batch = KvWriteBatch::new();
        assert_eq!(action.auto_increment_iid(current, &mut batch), expected);
        store.write(batch).unwrap();
    }
    assert_eq!(read.get_meta_to_value(StoreMetaKey::IIDIncr, store.get(&meta_key)), Some(2));
    assert_eq!(read.fetch_iid_incr(Some(&[7, 0, 0, 0])), Ok(Some(7)));
    assert_eq!(read.fetch_iid_incr(None), Ok(None));
}

const GRAPH: ConfigStoreFSTGraph = ConfigStoreFSTGraph {
    consolidate_after: 180,
    max_size: 2048,
    max_words: 250000,
};

fn spans_of(text: &str) -> Vec<TokenSpan> {
    let mut spans = Vec::new();
    let mut start = 0;
    for (index, word) in text.split(' ').enumerate() {
        spans.push(TokenSpan {
            start_original: start,
            end_original: start + word.len(),
            start_normalized: start,
            end_normalized: start + word.len(),
            kind: TokenKind::Normal,
            index,
        });
        start += word.len() + 1;
    }
    spans
}

#[test]
fn it_pushes_an_object_and_its_terms() {
    let mut store = MemStore::new();
    let bucket = b("b:1");
    let action = StoreKVActionReadWrite::new(bucket);
    let read = action.as_read_only();
    let mut counters = IidCounters::new();
    let mut graph = FstStore::new(fst::Set::from_iter(["world"].iter()).unwrap(), FstRepositoryConfig::default());
    let mut last = None;
    let text = "hello world hello";
    let input = PreprocessorOutput::new(text, text.to_string(), spans_of(text)).unwrap();

    let batch = push_object(&action, &mut counters, &mut graph, &GRAPH, oid("o:1"), &input, false, &mut last, None);
    // A new IID (counter, two links, one more object), one link per term,
    // then one per term hash.
    assert_eq!(batch.len(), 4 + 2 + 2);
    store.write(batch).unwrap();
    let count_key = KvStoreKey::meta_to_value(&bucket, &StoreMetaKey::ObjectCount);
    assert_eq!(count_bucket_objects(store.get(&count_key)), Ok(1));
    assert!(last.is_none());
    // Only "hello" is new to the graph.
    assert_eq!(graph.pending_count(), 1);
    assert!(graph.should_consolidate());

    let hello = KvStoreKey::term_to_iids(&bucket, StoreTermHash::from_term("hello"));
    let world = KvStoreKey::term_to_iids(&bucket, StoreTermHash::from_term("world"));
    assert_eq!(read.get_term_to_iids(store.get(&hello)), Ok(Some(vec![0])));
    assert_eq!(read.get_term_to_iids(store.get(&world)), Ok(Some(vec![0])));
    let oid_key = KvStoreKey::oid_to_iid(&bucket, oid("o:1"));
    assert_eq!(read.get_oid_to_iid(store.get(&oid_key)), Ok(Some(0)));
    let mut terms = read
        .get_iid_to_terms(store.get(&KvStoreKey::iid_to_terms(&bucket, StoreObjectIid::new(0))))
        .unwrap()
        .unwrap();
    terms.sort();
    let mut expected = vec![StoreTermHash::from_term("hello").into_inner(), StoreTermHash::from_term("world").into_inner()];
    expected.sort();
    assert_eq!(terms, expected);

    // The object is known: its IID is reused, nothing new is written for it.
    let again = PreprocessorOutput::new("again", "again".to_string(), spans_of("again")).unwrap();
    let batch = push_object(&action, &mut counters, &mut graph, &GRAPH, oid("o:1"), &again, false, &mut last, Some(0));
    assert_eq!(batch.len(), 1 + 1);
    store.write(batch).unwrap();
    assert_eq!(count_bucket_objects(store.get(&count_key)), Ok(1));
}

#[test]
fn it_pushes_objects_presumed_new() {
    let bucket = b("b:1");
    let action = StoreKVActionReadWrite::new(bucket);
    let mut counters = IidCounters::new();
    let mut graph = FstStore::new(fst::Set::from_iter(Vec::<&str>::new().iter()).unwrap(), FstRepositoryConfig::default());
    let mut last = None;
    let input = PreprocessorOutput::new("a b", "a b".to_string(), spans_of("a b")).unwrap();

    let batch = push_object(&action, &mut counters, &mut graph, &GRAPH, oid("o:1"), &input, true, &mut last, None);
    // A new IID, one link per term, then the whole list of term hashes.
    assert_eq!(batch.len(), 4 + 2 + 1);
    assert_eq!(last, Some(("o:1".to_string(), 0)));
    assert!(matches!(&batch.writes()[6], KvWrite::Put(_, v) if v.len() == 8));

    // The same object again: the IID is reused and not new.
    let batch = push_object(&action, &mut counters, &mut graph, &GRAPH, oid("o:1"), &input, true, &mut last, None);
    assert_eq!(batch.len(), 2 + 2);
    // Another object: the next IID.
    let batch = push_object(&action, &mut counters, &mut graph, &GRAPH, oid("o:2"), &input, true, &mut last, None);
    assert_eq!(batch.len(), 4 + 2 + 1);
    assert_eq!(last, Some(("o:2".to_string(), 1)));
}

#[test]
fn it_pops_terms_then_the_whole_object() {
    let mut store = MemStore::new();
    let bucket = b("b:1");
    let action = StoreKVActionReadWrite::new(bucket);
    let read = action.as_read_only();
    let mut counters = IidCounters::new();
    let mut graph = FstStore::new(fst::Set::from_iter(["hello", "world"].iter()).unwrap(), FstRepositoryConfig::default());
    let mut last = None;
    let text = "hello world";
    let input = PreprocessorOutput::new(text, text.to_string(), spans_of(text)).unwrap();
    let batch = push_object(&action, &mut counters, &mut graph, &GRAPH, oid("o:1"), &input, true, &mut last, None);
    store.write(batch).unwrap();
    let count_key = KvStoreKey::meta_to_value(&bucket, &StoreMetaKey::ObjectCount);
    assert_eq!(count_bucket_objects(store.get(&count_key)), Ok(1));

    let hello = StoreTermHash::from_term("hello").into_inner();
    let world = StoreTermHash::from_term("world").into_inner();
    let held_of = |store: &MemStore, hashes: &[u32]| -> Vec<(u32, Option<Vec<u32>>)> {
        hashes
            .iter()
            .map(|&h| {
                let key = KvStoreKey::term_to_iids(&bucket, StoreTermHash::new(h));
                (h, read.get_term_to_iids(store.get(&key)).unwrap())
            })
            .collect()
    };
    let terms_key = KvStoreKey::iid_to_terms(&bucket, StoreObjectIid::new(0));

    // Popping a word the object does not have changes nothing.
    let other = PreprocessorOutput::new("other", "other".to_string(), spans_of("other")).unwrap();
    let object_terms = read.get_iid_to_terms(store.get(&terms_key)).unwrap().unwrap();
    let (count, batch) = pop_object(&action, &mut graph, oid("o:1"), &other, 0, &object_terms, &held_of(&store, &[]));
    assert_eq!((count, batch.len()), (0, 0));

    // Popping one of its two words unlinks it, and pops the word from the graph.
    let pop = PreprocessorOutput::new("hello", "hello".to_string(), spans_of("hello")).unwrap();
    let (count, batch) =
        pop_object(&action, &mut graph, oid("o:1"), &pop, 0, &object_terms, &held_of(&store, &[hello]));
    assert_eq!(count, 1);
    assert_eq!(batch.len(), 2);
    store.write(batch).unwrap();
    // The object stays.
    assert_eq!(count_bucket_objects(store.get(&count_key)), Ok(1));
    assert_eq!(graph.pending_count(), 1);
    let key_of = |h: u32| KvStoreKey::term_to_iids(&bucket, StoreTermHash::new(h));
    assert_eq!(read.get_term_to_iids(store.get(&key_of(hello))), Ok(None));
    assert_eq!(read.get_iid_to_terms(store.get(&terms_key)), Ok(Some(vec![world])));

    // Popping its last word flushes the object.
    let object_terms = read.get_iid_to_terms(store.get(&terms_key)).unwrap().unwrap();
    let pop = PreprocessorOutput::new("world", "world".to_string(), spans_of("world")).unwrap();
    let (count, batch) =
        pop_object(&action, &mut graph, oid("o:1"), &pop, 0, &object_terms, &held_of(&store, &[world]));
    assert_eq!(count, 1);
    // Three deletions, one write per term, then one object fewer.
    assert_eq!(batch.len(), 3 + 1 + 1);
    store.write(batch).unwrap();
    assert_eq!(count_bucket_objects(store.get(&count_key)), Ok(0));
    assert_eq!(read.get_term_to_iids(store.get(&key_of(world))), Ok(None));
    assert_eq!(read.get_iid_to_terms(store.get(&terms_key)), Ok(None));
    let oid_key = KvStoreKey::oid_to_iid(&bucket, oid("o:1"));
    assert_eq!(read.get_oid_to_iid(store.get(&oid_key)), Ok(None));
}

#[test]
fn it_counts_buckets_from_the_store_answers() {
    assert_eq!(count_bucket_from_store(false, Err(())), Ok(0));
    assert_eq!(count_bucket_from_store(true, Err(())), Err(()));
    assert_eq!(count_bucket_from_store(true, Ok(None)), Ok(0));
    assert_eq!(count_bucket_from_store(true, Ok(Some(&[3, 0, 0, 0]))), Ok(3));
}

#[test]
fn it_pops_from_the_store_answers() {
    let mut store = MemStore::new();
    let bucket = b("b:1");
    let action = StoreKVActionReadWrite::new(bucket);
    let read = action.as_read_only();
    let mut counters = IidCounters::new();
    let mut graph = FstStore::new(fst::Set::from_iter(["hello"].iter()).unwrap(), FstRepositoryConfig::default());
    let mut last = None;
    let input = PreprocessorOutput::new("hello", "hello".to_string(), spans_of("hello")).unwrap();
    let batch = push_object(&action, &mut counters, &mut graph, &GRAPH, oid("o:1"), &input, false, &mut last, None);
    store.write(batch).unwrap();

    // No store, an unmapped name, or unreadable terms: nothing popped.
    let (count, batch) = pop_from_store(&action, &mut graph, oid("o:1"), &input, false, Ok(Some(0)), Ok(Some(vec![1])), &vec![]).unwrap();
    assert_eq!((count, batch.len()), (0, 0));
    let (count, batch) = pop_from_store(&action, &mut graph, oid("o:2"), &input, true, Ok(None), Err(()), &vec![]).unwrap();
    assert_eq!((count, batch.len()), (0, 0));
    let (count, batch) = pop_from_store(&action, &mut graph, oid("o:1"), &input, true, Ok(Some(0)), Err(()), &vec![]).unwrap();
    assert_eq!((count, batch.len()), (0, 0));
    // The name's mapping cannot be read: refused.
    assert!(pop_from_store(&action, &mut graph, oid("o:1"), &input, true, Err(()), Ok(None), &vec![]).is_err());

    // All answers in: the object is flushed.
    let oid_key = KvStoreKey::oid_to_iid(&bucket, oid("o:1"));
    let iid = read.get_oid_to_iid(store.get(&oid_key)).unwrap();
    let terms_key = KvStoreKey::iid_to_terms(&bucket, StoreObjectIid::new(0));
    let terms = read.get_iid_to_terms(store.get(&terms_key));
    let hello = StoreTermHash::from_term("hello").into_inner();
    let held = vec![(hello, read.get_term_to_iids(store.get(&KvStoreKey::term_to_iids(&bucket, StoreTermHash::new(hello)))).unwrap())];
    let (count, batch) = pop_from_store(&action, &mut graph, oid("o:1"), &input, true, Ok(iid), terms, &held).unwrap();
    assert_eq!(count, 1);
    store.write(batch).unwrap();
    let count_key = KvStoreKey::meta_to_value(&bucket, &StoreMetaKey::ObjectCount);
    assert_eq!(count_bucket_from_store(true, Ok(store.get(&count_key))), Ok(0));
    assert_eq!(read.get_oid_to_iid(store.get(&oid_key)), Ok(None));
}
