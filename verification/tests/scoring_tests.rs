use sonic::scoring::{search_page, ScoringMatrix};

fn rows(m: ScoringMatrix) -> Vec<(u32, Vec<Option<u16>>)> {
    m.into_rows()
}

#[test]
fn it_keeps_the_lowest_score_of_a_term() {
    let mut m = ScoringMatrix::new(2);
    assert!(m.update_score(7, 3, 0));
    assert!(!m.update_score(7, 5, 0));
    assert!(!m.update_score(7, 2, 0));
    assert!(m.update_score(9, 4, 1));
    assert!(!m.update_score(7, 6, 1));
    assert_eq!(m.len(), 2);
    assert_eq!(rows(m), vec![(7, vec![Some(2), Some(6)]), (9, vec![None, Some(4)])]);
}

#[test]
fn it_scores_exact_matches_until_the_limit() {
    let mut m = ScoringMatrix::new(2);
    m.score_exact_matches(&vec![vec![1, 2, 1], vec![2, 3, 4]], 1, 3);
    // Object 3 is the third new object: scoring stops right after it.
    assert_eq!(
        rows(m),
        vec![(1, vec![Some(1), None]), (2, vec![Some(1), Some(1)]), (3, vec![None, Some(1)])]
    );

    let mut all = ScoringMatrix::new(2);
    all.score_exact_matches(&vec![vec![1], vec![2]], 1, 10);
    assert_eq!(all.len(), 2);
}

#[test]
fn it_merges_suggestions_within_the_budget() {
    let mut m = ScoringMatrix::new(1);
    let mut budget: usize = 3;
    let suggestions = vec![
        // The term itself is skipped.
        ("fox".to_string(), 1, Some(vec![10, 11])),
        // A word the store holds nothing for is skipped.
        ("foxes".to_string(), 2, None),
        ("foxy".to_string(), 4, Some(vec![12, 13])),
        ("foxtrot".to_string(), 5, Some(vec![12, 14, 15])),
    ];
    m.merge_suggestions(&suggestions, &"fox".to_string(), 0, &mut budget, 100);
    assert_eq!(budget, 0);
    assert_eq!(rows(m), vec![(12, vec![Some(4)]), (13, vec![Some(4)])]);
}

#[test]
fn it_merges_suggestions_until_the_limit() {
    let mut m = ScoringMatrix::new(1);
    m.update_score(1, 1, 0);
    let mut budget: usize = 10;
    let suggestions = vec![("foxy".to_string(), 4, Some(vec![1, 2, 3]))];
    m.merge_suggestions(&suggestions, &"fox".to_string(), 0, &mut budget, 2);
    assert_eq!(budget, 8);
    assert_eq!(rows(m), vec![(1, vec![Some(1)]), (2, vec![Some(4)])]);
}

#[test]
fn it_drops_incomplete_objects_in_place_of_the_last() {
    let mut m = ScoringMatrix::new(2);
    for (iid, idx) in [(1, 0), (2, 0), (2, 1), (3, 0), (3, 1), (4, 1)] {
        m.update_score(iid, 1, idx);
    }
    m.drop_incomplete();
    // Object 1 goes first: object 4 takes its place, then goes too.
    assert_eq!(rows(m), vec![(3, vec![Some(1), Some(1)]), (2, vec![Some(1), Some(1)])]);
}

#[test]
fn it_pages_ranked_objects() {
    let ranked = vec![5, 6, 7, 8];
    assert_eq!(search_page(&ranked, 1, 2), vec![6, 7]);
    assert_eq!(search_page(&ranked, 3, 10), vec![8]);
    assert_eq!(search_page(&ranked, 4, 10), Vec::<u32>::new());
    assert_eq!(search_page(&ranked, 9, 1), Vec::<u32>::new());
    assert_eq!(search_page(&ranked, 0, 0), Vec::<u32>::new());
}
