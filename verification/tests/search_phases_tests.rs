use sonic::search_phases::{next_search_step, SearchAction, SearchCursor, SearchProgress, SearchTerm};

fn word(len: usize) -> SearchTerm {
    SearchTerm { special: false, original_len: len }
}

fn progress(found: usize, tries: usize, prefix: bool, fuzzy: bool) -> SearchProgress {
    SearchProgress {
        found,
        alternates_try: tries,
        higher_limit: 10,
        prefix_matching_enabled: prefix,
        fuzzy_matching_enabled: fuzzy,
    }
}

#[test]
fn it_walks_prefix_then_typo_phases() {
    let terms = vec![word(5), SearchTerm { special: true, original_len: 4 }, word(2)];
    let p = progress(0, 5, true, true);
    assert_eq!(
        next_search_step(SearchCursor::Exact, false, &terms, &p),
        (SearchCursor::Prefix { term: 0 }, SearchAction::LookupBegins { term: 0 })
    );
    assert_eq!(
        next_search_step(SearchCursor::Prefix { term: 0 }, false, &terms, &p),
        (SearchCursor::Prefix { term: 1 }, SearchAction::LookupBegins { term: 1 })
    );
    // After the last completion, the typo phase: the first term may hold one typo.
    assert_eq!(
        next_search_step(SearchCursor::Prefix { term: 2 }, false, &terms, &p),
        (
            SearchCursor::Fuzzy { term: 0, typo_factor: 1 },
            SearchAction::LookupTypos { term: 0, typo_factor: 1 }
        )
    );
    // No second typo for a five-byte word; the special term and the short
    // word are skipped.
    assert_eq!(
        next_search_step(SearchCursor::Fuzzy { term: 0, typo_factor: 1 }, false, &terms, &p),
        (SearchCursor::Done, SearchAction::Finish)
    );
}

#[test]
fn it_gates_phases_on_limits_and_tries() {
    let terms = vec![word(10), word(8)];
    // Enough objects found: nothing more is looked up.
    assert_eq!(
        next_search_step(SearchCursor::Exact, false, &terms, &progress(10, 5, true, true)),
        (SearchCursor::Done, SearchAction::Finish)
    );
    // Prefix lookups off: straight to typos.
    let p = progress(0, 5, false, true);
    assert_eq!(
        next_search_step(SearchCursor::Exact, false, &terms, &p),
        (
            SearchCursor::Fuzzy { term: 0, typo_factor: 1 },
            SearchAction::LookupTypos { term: 0, typo_factor: 1 }
        )
    );
    assert_eq!(
        next_search_step(SearchCursor::Fuzzy { term: 0, typo_factor: 1 }, false, &terms, &p),
        (
            SearchCursor::Fuzzy { term: 0, typo_factor: 2 },
            SearchAction::LookupTypos { term: 0, typo_factor: 2 }
        )
    );
    // A lookup that could not be made ends the term's lookups.
    assert_eq!(
        next_search_step(SearchCursor::Fuzzy { term: 0, typo_factor: 1 }, true, &terms, &p),
        (
            SearchCursor::Fuzzy { term: 1, typo_factor: 1 },
            SearchAction::LookupTypos { term: 1, typo_factor: 1 }
        )
    );
    // No try left: the search finishes.
    assert_eq!(
        next_search_step(SearchCursor::Fuzzy { term: 0, typo_factor: 1 }, false, &terms, &progress(0, 0, false, true)),
        (SearchCursor::Done, SearchAction::Finish)
    );
    assert_eq!(
        next_search_step(SearchCursor::Done, false, &terms, &p),
        (SearchCursor::Done, SearchAction::Finish)
    );
}
