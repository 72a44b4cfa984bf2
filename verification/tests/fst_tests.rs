use sonic::config::ConfigStoreFSTGraph;
use sonic::consolidate::consolidate_graph;
use sonic::fst_store::FstStore;
use sonic::graph::FstRepositoryConfig;
use sonic::lexer::{PreprocessorOutput, TokenKind, TokenSpan};
use sonic::pending::{PendingAction, PendingWords};

const GRAPH: ConfigStoreFSTGraph = ConfigStoreFSTGraph {
    consolidate_after: 180,
    max_size: 2048,
    max_words: 250000,
};

fn store_of(words: &[&str]) -> FstStore {
    let set = fst::Set::from_iter(words.iter()).unwrap();
    FstStore::new(set, FstRepositoryConfig::default())
}

fn strings(ws: &[&str]) -> Vec<String> {
    ws.iter().map(|w| w.to_string()).collect()
}

#[test]
fn mod_it_proceeds_primitives() {
    let store = store_of(&[]);
    assert!(store.lookup_typos("valerien", 1).is_some());
}

#[test]
fn it_looks_up_typos() {
    let store = store_of(&["valerian", "valerio", "zebra"]);
    let found = store.lookup_typos("valerien", 1).unwrap();
    assert_eq!(found, vec![("valerian".to_string(), 1)]);
    let found = store.lookup_typos("valerien", 2).unwrap();
    assert_eq!(found, vec![("valerian".to_string(), 2), ("valerio".to_string(), 2)]);

    let off = FstRepositoryConfig { prefix_matching_enabled: true, fuzzy_matching_enabled: false };
    let set = fst::Set::from_iter(["valerian"].iter()).unwrap();
    assert!(FstStore::new(set, off).lookup_typos("valerien", 1).is_none());
}

#[test]
fn it_lists_and_counts_words() {
    let store = store_of(&["a", "b", "c", "d"]);
    assert_eq!(store.cardinality(), 4);
    assert_eq!(store.list_words(2, 1), Ok(strings(&["b", "c"])));
    assert_eq!(store.list_words(10, 3), Ok(strings(&["d"])));
    assert_eq!(store.list_words(10, 9), Ok(vec![]));
}

#[test]
fn it_pushes_and_pops_against_the_graph() {
    let mut store = store_of(&["bravo"]);
    assert!(!store.should_consolidate());
    // Already in the graph: not pushed.
    assert!(!store.push_word("bravo", &GRAPH));
    assert!(!store.should_consolidate());
    // Not in the graph: not popped.
    assert!(!store.pop_word("alpha"));
    assert!(store.push_word("alpha", &GRAPH));
    assert!(store.should_consolidate());
    assert!(store.pop_word("bravo"));

    let mut other = store_of(&["bravo"]);
    other.push_words(&vec!["delta", "bravo", "delta", "echo"], &GRAPH);
    assert!(other.should_consolidate());
}

#[test]
fn it_consolidates_pending_words_into_the_graph() {
    let mut store = store_of(&["bravo", "charlie", "foxtrot"]);
    store.push_words(&vec!["delta", "alpha"], &GRAPH);
    assert!(store.pop_word("charlie"));
    let outcome = store.consolidate(&GRAPH).unwrap();
    assert!(!outcome.stopped);
    assert_eq!((outcome.count_pushed, outcome.count_moved, outcome.count_popped), (2, 2, 1));
    assert!(!store.should_consolidate());
    // The store goes on with the new graph.
    assert_eq!(store.cardinality(), 4);
    assert_eq!(store.list_words(10, 0), Ok(strings(&["alpha", "bravo", "delta", "foxtrot"])));
    // Nothing is pending any more.
    assert!(store.consolidate(&GRAPH).is_none());

    let rebuilt = FstStore::from_bytes(outcome.bytes, FstRepositoryConfig::default()).unwrap();
    assert_eq!(
        rebuilt.list_words(10, 0),
        Ok(strings(&["alpha", "bravo", "delta", "foxtrot"]))
    );
}

#[test]
fn it_stops_consolidation_at_the_word_limit() {
    let set = fst::Set::from_iter(["b", "d"].iter()).unwrap();
    let mut pending = PendingWords::new();
    assert!(pending.push_word("a", false, 0, 0, &GRAPH));
    assert!(pending.push_word("c", false, 0, 0, &GRAPH));
    assert_eq!(pending.action(b"a"), Some(PendingAction::Push));
    let limited = ConfigStoreFSTGraph { consolidate_after: 1, max_size: 2048, max_words: 3 };
    let outcome = consolidate_graph(&set, &pending, &limited).unwrap();
    assert!(outcome.stopped);
    let rebuilt = FstStore::from_bytes(outcome.bytes, FstRepositoryConfig::default()).unwrap();
    assert_eq!(rebuilt.list_words(10, 0), Ok(strings(&["a", "b", "c"])));
}

#[test]
fn it_stops_consolidation_at_the_size_limit() {
    let mut store = FstStore::empty(FstRepositoryConfig::default());
    assert_eq!(store.cardinality(), 0);
    assert!(store.push_word("alpha", &GRAPH));
    let tiny = ConfigStoreFSTGraph { consolidate_after: 1, max_size: 0, max_words: 10 };
    let outcome = store.consolidate(&tiny).unwrap();
    assert!(outcome.stopped);
    assert_eq!((outcome.count_pushed, outcome.count_moved, outcome.count_popped), (0, 0, 0));
    assert_eq!(store.cardinality(), 0);
    assert_eq!(store.pending_count(), 0);
}

#[test]
fn it_keeps_graphs_without_pending_words() {
    let set = fst::Set::from_iter(["b"].iter()).unwrap();
    assert!(consolidate_graph(&set, &PendingWords::new(), &GRAPH).is_none());
}

#[test]
fn it_suggests_completions_then_typos() {
    let store = store_of(&["valerian", "valerio", "zebra"]);
    let completions = vec![("valerian".to_string(), 2), ("valerian".to_string(), 2)];
    let found = store.suggest_words("valeri", 6, 5, None, Some(completions)).unwrap();
    assert_eq!(found, vec![("valerian".to_string(), 2), ("valerio".to_string(), 1)]);

    // The limit is reached by the completions: no typo lookup.
    let completions = vec![("valerian".to_string(), 2), ("valerio".to_string(), 1)];
    let found = store.suggest_words("valeri", 6, 1, None, Some(completions)).unwrap();
    assert_eq!(found, vec![("valerian".to_string(), 2)]);

    // Without completions, only typos.
    let found = store.suggest_words("zebre", 5, 5, Some(1), None).unwrap();
    assert_eq!(found, vec![("zebra".to_string(), 1)]);
}

#[test]
fn it_suggests_nothing_when_nothing_matches() {
    let store = store_of(&["valerian"]);
    assert!(store.suggest_words("qqqqqq", 6, 5, None, None).is_none());
    let long = "a".repeat(100);
    assert!(store.suggest_words(&long, 100, 5, None, None).is_none());
}

fn span(start: usize, end: usize, index: usize) -> TokenSpan {
    TokenSpan {
        start_original: start,
        end_original: end,
        start_normalized: start,
        end_normalized: end,
        kind: TokenKind::Normal,
        index,
    }
}

#[test]
fn it_suggests_for_a_query_of_one_word() {
    let store = store_of(&["valerian", "valerio", "zebra"]);
    let input = PreprocessorOutput::new("valeri", "valeri".to_string(), vec![span(0, 6, 0)]).unwrap();
    assert_eq!(
        store.suggest(&input, 5, None),
        Ok(Some(vec!["valerio".to_string()]))
    );
    let nothing = PreprocessorOutput::new("qqqqqq", "qqqqqq".to_string(), vec![span(0, 6, 0)]).unwrap();
    assert_eq!(store.suggest(&nothing, 5, None), Ok(None));
    let two = PreprocessorOutput::new("ab cd", "ab cd".to_string(), vec![span(0, 2, 0), span(3, 5, 1)])
        .unwrap();
    assert_eq!(store.suggest(&two, 5, None), Err(()));
    let none = PreprocessorOutput::new("", String::new(), vec![]).unwrap();
    assert_eq!(store.suggest(&none, 5, None), Err(()));
}
