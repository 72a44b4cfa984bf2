use sonic::config::ConfigStoreFSTGraph;
use sonic::consolidate::Consolidation;
use sonic::executor::{
    plan_pop, term_after_unlink, unique_by, unique_hashes, unlink_iid, PopOutcome, UniqueBy,
};
use sonic::pending::{PendingAction, PendingWords};

const GRAPH: ConfigStoreFSTGraph = ConfigStoreFSTGraph {
    consolidate_after: 180,
    max_size: 2048,
    max_words: 250000,
};

fn words(ws: &[&str]) -> Vec<Vec<u8>> {
    ws.iter().map(|w| w.as_bytes().to_vec()).collect()
}

/// Runs a rebuild to its end, inserting every word handed out.
fn rebuild(old: &[&str], pending: &PendingWords, config: &ConfigStoreFSTGraph) -> (Vec<Vec<u8>>, Consolidation) {
    let mut run = Consolidation::new(words(old), pending);
    let mut out = Vec::new();
    let mut bytes = 0usize;
    while let Some(word) = run.next_word(pending, bytes, config) {
        bytes += word.len();
        out.push(word);
        run.record(true);
    }
    (out, run)
}

#[test]
fn it_takes_term_hashes_once_in_order() {
    assert_eq!(unique_hashes(&vec![5, 3, 5, 7, 3, 9]), vec![5, 3, 7, 9]);
    assert_eq!(unique_hashes(&vec![]), Vec::<u32>::new());
}

#[test]
fn it_plans_pops() {
    // Popping terms the object does not have changes nothing.
    let plan = plan_pop(&vec![1, 2, 3], &vec![4, 5]);
    assert_eq!(plan.count_popped, 0);
    assert!(matches!(plan.outcome, PopOutcome::Unchanged));

    // Popping every term of the object flushes it.
    let plan = plan_pop(&vec![1, 2, 2, 3], &vec![3, 2, 1, 9]);
    assert_eq!(plan.count_popped, 3);
    assert!(matches!(plan.outcome, PopOutcome::FlushObject));

    // Popping some terms unlinks them, in the popped text's order.
    let plan = plan_pop(&vec![1, 2, 3, 4, 2], &vec![4, 9, 2, 4]);
    assert_eq!(plan.count_popped, 2);
    match plan.outcome {
        PopOutcome::Unlink { unlink, remaining } => {
            assert_eq!(unlink, vec![4, 2]);
            assert_eq!(remaining, vec![1, 3]);
            // Partition: as many unlinked and kept as distinct object terms.
            assert_eq!(unlink.len() + remaining.len(), 4);
        }
        _ => panic!("unexpected outcome"),
    }

    // A term listed twice keeps the place of its last listing.
    let plan = plan_pop(&vec![1, 2, 1, 3], &vec![3]);
    assert_eq!(plan.count_popped, 1);
    match plan.outcome {
        PopOutcome::Unlink { unlink, remaining } => {
            assert_eq!(unlink, vec![3]);
            assert_eq!(remaining, vec![2, 1]);
        }
        _ => panic!("unexpected outcome"),
    }
}

#[test]
fn it_unlinks_an_iid() {
    assert_eq!(unlink_iid(&vec![7, 3, 7, 1], 7), vec![3, 1]);
    assert_eq!(unlink_iid(&vec![7], 7), Vec::<u32>::new());
    assert_eq!(unlink_iid(&vec![2, 4], 7), vec![2, 4]);
}

#[test]
fn it_pushes_and_pops_pending_words() {
    let mut pending = PendingWords::new();
    assert!(pending.is_empty());

    // A word absent from the graph is pushed once.
    assert!(pending.push_word("hello", false, 0, 0, &GRAPH));
    assert!(!pending.push_word("hello", false, 0, 0, &GRAPH));
    assert_eq!(pending.action(b"hello"), Some(PendingAction::Push));

    // A word already in the graph is not pushed.
    assert!(!pending.push_word("world", true, 0, 0, &GRAPH));
    assert_eq!(pending.action(b"world"), None);

    // Popping the pushed word voids the push.
    assert!(!pending.pop_word("hello", false));
    assert_eq!(pending.action(b"hello"), None);
    assert!(pending.is_empty());

    // A word of the graph is popped once; pushing it again voids the pop.
    assert!(pending.pop_word("world", true));
    assert!(!pending.pop_word("world", true));
    assert_eq!(pending.action(b"world"), Some(PendingAction::Pop));
    assert!(!pending.push_word("world", true, 0, 0, &GRAPH));
    assert_eq!(pending.action(b"world"), None);

    // Words over the length limit are refused.
    let long = "x".repeat(41);
    assert!(!pending.push_word(&long, false, 0, 0, &GRAPH));
    assert!(!pending.pop_word(&long, true));
    assert!(pending.is_empty());
}

#[test]
fn it_refuses_pushes_over_graph_limits() {
    let small = ConfigStoreFSTGraph { consolidate_after: 1, max_size: 1, max_words: 2 };
    let mut pending = PendingWords::new();
    // Graph over its byte limit.
    assert!(!pending.push_word("a", false, 1024, 0, &small));
    // Graph over its word limit.
    assert!(!pending.push_word("a", false, 0, 2, &small));
    // Too many words pending.
    assert!(pending.push_word("a", false, 0, 0, &small));
    assert!(pending.push_word("b", false, 0, 0, &small));
    assert!(!pending.push_word("c", false, 0, 0, &small));
    assert_eq!(pending.words_with(PendingAction::Push).len(), 2);
}

#[test]
fn it_rebuilds_graphs_in_order() {
    let mut pending = PendingWords::new();
    for w in ["delta", "alpha", "echo", "zulu"] {
        assert!(pending.push_word(w, false, 0, 0, &GRAPH));
    }
    assert!(pending.pop_word("charlie", true));
    let (out, run) = rebuild(&["bravo", "charlie", "foxtrot"], &pending, &GRAPH);
    assert_eq!(out, words(&["alpha", "bravo", "delta", "echo", "foxtrot", "zulu"]));
    assert_eq!(run.count_pushed(), 4);
    assert_eq!(run.count_moved(), 2);
    assert_eq!(run.count_popped(), 1);
    assert!(!run.is_stopped());
}

#[test]
fn it_stops_rebuilds_at_limits() {
    let limited = ConfigStoreFSTGraph { consolidate_after: 1, max_size: 2048, max_words: 3 };
    let mut pending = PendingWords::new();
    for w in ["b", "d"] {
        assert!(pending.push_word(w, false, 0, 0, &GRAPH));
    }
    assert!(pending.pop_word("a", true));
    let (out, run) = rebuild(&["a", "c", "e"], &pending, &limited);
    assert_eq!(out, words(&["b", "c", "d"]));
    assert_eq!(run.count_pushed(), 2);
    assert_eq!(run.count_moved(), 1);
    assert_eq!(run.count_popped(), 1);
    assert!(run.is_stopped());
}

#[test]
fn it_counts_only_inserted_words() {
    let mut pending = PendingWords::new();
    assert!(pending.push_word("b", false, 0, 0, &GRAPH));
    let mut run = Consolidation::new(words(&["a"]), &pending);
    assert_eq!(run.next_word(&pending, 0, &GRAPH), Some(b"a".to_vec()));
    run.record(false);
    assert_eq!(run.next_word(&pending, 0, &GRAPH), Some(b"b".to_vec()));
    run.record(true);
    assert_eq!(run.next_word(&pending, 0, &GRAPH), None);
    assert_eq!((run.count_pushed(), run.count_moved()), (1, 0));
}

#[test]
fn it_unlinks_objects_from_terms() {
    assert_eq!(term_after_unlink(&vec![4, 9, 4], 4), (true, Some(vec![9])));
    assert_eq!(term_after_unlink(&vec![4, 4], 4), (true, None));
    assert_eq!(term_after_unlink(&vec![1, 2], 4), (false, Some(vec![1, 2])));
    assert_eq!(term_after_unlink(&vec![], 4), (false, None));
}

#[test]
fn it_passes_the_first_item_of_each_key() {
    let mut unique = UniqueBy::new(4);
    assert!(unique.take_key(7));
    assert!(unique.take_key(3));
    assert!(!unique.take_key(7));
    let mut seen = unique.seen();
    seen.sort();
    assert_eq!(seen, vec![3, 7]);

    let (passed, unique) = unique_by(&vec![2, 2, 5, 2, 1]);
    assert_eq!(passed, vec![2, 5, 1]);
    let mut seen = unique.seen();
    seen.sort();
    assert_eq!(seen, vec![1, 2, 5]);
}
