use sonic::backup::{restore_graph, split_backup_lines};
use sonic::fst_store::FstStore;
use sonic::graph::FstRepositoryConfig;

fn store_of(words: &[&str]) -> FstStore {
    FstStore::new(fst::Set::from_iter(words.iter()).unwrap(), FstRepositoryConfig::default())
}

#[test]
fn it_splits_backup_lines() {
    assert_eq!(split_backup_lines(b"a\nbc\r\nd"), vec![b"a".to_vec(), b"bc".to_vec(), b"d".to_vec()]);
    assert_eq!(split_backup_lines(b"a\n\nb\n"), vec![b"a".to_vec(), vec![], b"b".to_vec()]);
    assert!(split_backup_lines(b"").is_empty());
    // A carriage return not followed by a newline stays.
    assert_eq!(split_backup_lines(b"x\r"), vec![b"x\r".to_vec()]);
}

#[test]
fn it_backs_up_and_restores_a_graph() {
    let store = store_of(&["alpha", "bravo", "charlie"]);
    let backup = store.to_backup();
    assert_eq!(backup, b"alpha\nbravo\ncharlie\n".to_vec());
    let bytes = restore_graph(&backup).unwrap();
    let restored = FstStore::from_bytes(bytes, FstRepositoryConfig::default()).unwrap();
    assert_eq!(
        restored.list_words(10, 0),
        Ok(vec!["alpha".to_string(), "bravo".to_string(), "charlie".to_string()])
    );
    assert!(store_of(&[]).to_backup().is_empty());
}

#[test]
fn it_refuses_backups_out_of_order_or_not_utf8() {
    assert!(restore_graph(b"bravo\nalpha\n").is_none());
    assert!(restore_graph(b"alpha\n\xff\n").is_none());
    // A line equal to the one before adds nothing.
    let bytes = restore_graph(b"alpha\nalpha\nbravo").unwrap();
    let restored = FstStore::from_bytes(bytes, FstRepositoryConfig::default()).unwrap();
    assert_eq!(restored.cardinality(), 2);
    // An empty backup gives the empty graph.
    let bytes = restore_graph(b"").unwrap();
    let empty = FstStore::from_bytes(bytes, FstRepositoryConfig::default()).unwrap();
    assert_eq!(empty.cardinality(), 0);
}
