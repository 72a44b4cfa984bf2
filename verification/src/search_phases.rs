//! The phases of a search once its exact matches are scored: completions
//! of each term, then words with typos, each phase entered only while too
//! few objects are found and tries are left; the caller makes the lookups
//! and scores what they bring, and asks what comes next.
use vstd::prelude::*;

use crate::graph::{typo_factor, typo_factor_spec};

verus! {

/// A term of a search, as the phases see it.
#[derive(Clone, Copy, Debug, PartialEq, Eq)]
pub struct SearchTerm {
    /// Whether the term is special (matched exactly, never with typos).
    pub special: bool,
    /// The length of the term as written, in bytes.
    pub original_len: usize,
}

/// How far a search has gone: the step it took last.
#[derive(Clone, Copy, Debug, PartialEq, Eq)]
pub enum SearchCursor {
    /// The exact matches are scored.
    Exact,
    /// The completions of a term were looked up.
    Prefix { term: usize },
    /// The words within `typo_factor` typos of a term were looked up.
    Fuzzy { term: usize, typo_factor: u32 },
    /// Nothing more is looked up.
    Done,
}

/// What the search asks of its caller next.
#[derive(Clone, Copy, Debug, PartialEq, Eq)]
pub enum SearchAction {
    /// Look up the completions of a term, and score them.
    LookupBegins { term: usize },
    /// Look up the words within `typo_factor` typos of a term, and score
    /// them.
    LookupTypos { term: usize, typo_factor: u32 },
    /// Keep the objects found, rank and page them.
    Finish,
}

/// Where a search stands when a phase may begin: how many objects are
/// found, how many tries are left, the limit of objects, and which lookups
/// are on.
#[derive(Clone, Copy, Debug, PartialEq, Eq)]
pub struct SearchProgress {
    pub found: usize,
    pub alternates_try: usize,
    pub higher_limit: usize,
    pub prefix_matching_enabled: bool,
    pub fuzzy_matching_enabled: bool,
}

/// Whether a phase may begin: too few objects are found and tries are left.
pub open spec fn wants_more(p: SearchProgress) -> bool {
    p.found < p.higher_limit && p.alternates_try > 0
}

/// The first term at or after `t` that is looked up with typos: one that is
/// not special and may hold a typo; none while no try is left.
pub open spec fn first_fuzzy_term(terms: Seq<SearchTerm>, t: int, tries: usize) -> int
    decreases terms.len() - t,
{
    if tries == 0 || t < 0 || t >= terms.len() {
        terms.len() as int
    } else if !terms[t].special && typo_factor_spec(terms[t].original_len as nat) >= 1 {
        t
    } else {
        first_fuzzy_term(terms, t + 1, tries)
    }
}

/// The typo lookups from term `t` on.
pub open spec fn fuzzy_from(terms: Seq<SearchTerm>, t: int, tries: usize) -> (
    SearchCursor,
    SearchAction,
) {
    let f = first_fuzzy_term(terms, t, tries);
    if f < terms.len() {
        (
            SearchCursor::Fuzzy { term: f as usize, typo_factor: 1 },
            SearchAction::LookupTypos { term: f as usize, typo_factor: 1 },
        )
    } else {
        (SearchCursor::Done, SearchAction::Finish)
    }
}

/// The typo phase, entered when it may begin and typo lookups are on.
pub open spec fn fuzzy_phase(terms: Seq<SearchTerm>, p: SearchProgress) -> (
    SearchCursor,
    SearchAction,
) {
    if wants_more(p) && p.fuzzy_matching_enabled {
        fuzzy_from(terms, 0, p.alternates_try)
    } else {
        (SearchCursor::Done, SearchAction::Finish)
    }
}

/// The next step of a search: after the exact matches, the completions of
/// each term in turn (when that phase may begin and prefix lookups are on);
/// then the typo phase, where each term that is not special is looked up
/// with one typo, then two, up to as many as its length allows, while tries
/// are left, and a lookup that cannot be made ends that term's lookups.
/// `lookup_failed` says whether the lookup just made could not be made.
pub open spec fn search_step(
    cursor: SearchCursor,
    lookup_failed: bool,
    terms: Seq<SearchTerm>,
    p: SearchProgress,
) -> (SearchCursor, SearchAction) {
    match cursor {
        SearchCursor::Exact => if wants_more(p) && p.prefix_matching_enabled && terms.len() > 0 {
            (SearchCursor::Prefix { term: 0 }, SearchAction::LookupBegins { term: 0 })
        } else {
            fuzzy_phase(terms, p)
        },
        SearchCursor::Prefix { term } => if term + 1 < terms.len() {
            (
                SearchCursor::Prefix { term: (term + 1) as usize },
                SearchAction::LookupBegins { term: (term + 1) as usize },
            )
        } else {
            fuzzy_phase(terms, p)
        },
        SearchCursor::Fuzzy { term, typo_factor } => if !lookup_failed && p.alternates_try > 0
            && term < terms.len() && typo_factor + 1 <= typo_factor_spec(
            terms[term as int].original_len as nat,
        ) {
            (
                SearchCursor::Fuzzy { term, typo_factor: (typo_factor + 1) as u32 },
                SearchAction::LookupTypos { term, typo_factor: (typo_factor + 1) as u32 },
            )
        } else {
            fuzzy_from(terms, term + 1, p.alternates_try)
        },
        SearchCursor::Done => (SearchCursor::Done, SearchAction::Finish),
    }
}

/// Whether a step is one a search can take: a completion lookup of a term
/// of the query, or a typo lookup of a term that is not special, with at
/// least one typo and at most as many as the term's length allows.
pub open spec fn step_valid(cursor: SearchCursor, terms: Seq<SearchTerm>) -> bool {
    match cursor {
        SearchCursor::Prefix { term } => term < terms.len(),
        SearchCursor::Fuzzy { term, typo_factor } => term < terms.len() && !terms[term as int].special
            && 1 <= typo_factor <= typo_factor_spec(terms[term as int].original_len as nat),
        _ => true,
    }
}

/// The action a step asks for.
pub open spec fn action_of_step(cursor: SearchCursor) -> SearchAction {
    match cursor {
        SearchCursor::Prefix { term } => SearchAction::LookupBegins { term },
        SearchCursor::Fuzzy { term, typo_factor } => SearchAction::LookupTypos { term, typo_factor },
        _ => SearchAction::Finish,
    }
}

/// The first term looked up with typos is a term of the query, not
/// special, that may hold a typo.
proof fn lemma_first_fuzzy_term(terms: Seq<SearchTerm>, t: int, tries: usize)
    requires
        0 <= t,
    ensures
        ({
            let f = first_fuzzy_term(terms, t, tries);
            f == terms.len() || (t <= f < terms.len() && !terms[f].special && typo_factor_spec(
                terms[f].original_len as nat,
            ) >= 1)
        }),
    decreases terms.len() - t,
{
    if tries != 0 && t < terms.len() && !(!terms[t].special && typo_factor_spec(
        terms[t].original_len as nat,
    ) >= 1) {
        lemma_first_fuzzy_term(terms, t + 1, tries);
    }
}

/// Every step a search takes from a step it can take is one it can take,
/// and asks for the lookup of that step: completions only of terms of the
/// query, typos only of terms that are not special, from one typo up to
/// as many as the term's length allows.
pub proof fn lemma_search_steps_valid(
    cursor: SearchCursor,
    lookup_failed: bool,
    terms: Seq<SearchTerm>,
    p: SearchProgress,
)
    requires
        terms.len() <= usize::MAX,
        step_valid(cursor, terms),
    ensures
        step_valid(search_step(cursor, lookup_failed, terms, p).0, terms),
        search_step(cursor, lookup_failed, terms, p).1 == action_of_step(
            search_step(cursor, lookup_failed, terms, p).0,
        ),
{
    lemma_first_fuzzy_term(terms, 0, p.alternates_try);
    match cursor {
        SearchCursor::Fuzzy { term, typo_factor } => {
            lemma_first_fuzzy_term(terms, term + 1, p.alternates_try);
        },
        _ => {},
    }
}

/// The typo lookups of a word reach every number of typos its length
/// allows: a word of four to six bytes may hold one typo, of seven to nine
/// bytes two, of ten or more three. After a lookup with `f` typos that
/// could be made, while tries are left, the same word is looked up with
/// `f + 1` typos when that is allowed; when it is not, the search moves on
/// and never asks for more typos of that word.
pub proof fn lemma_typo_rounds_reach_limit(
    terms: Seq<SearchTerm>,
    term: usize,
    f: u32,
    p: SearchProgress,
)
    requires
        terms.len() <= usize::MAX,
        term < terms.len(),
        !terms[term as int].special,
        1 <= f,
        p.alternates_try > 0,
    ensures
        ({
            let len = terms[term as int].original_len;
            let max: u32 = if 4 <= len <= 6 {
                1
            } else if 7 <= len <= 9 {
                2
            } else if len >= 10 || len == 0 {
                3
            } else {
                0
            };
            let next = search_step(SearchCursor::Fuzzy { term, typo_factor: f }, false, terms, p);
            &&& f + 1 <= max ==> next == (
                SearchCursor::Fuzzy { term, typo_factor: (f + 1) as u32 },
                SearchAction::LookupTypos { term, typo_factor: (f + 1) as u32 },
            )
            &&& f + 1 > max ==> next.1 != (SearchAction::LookupTypos {
                term,
                typo_factor: (f + 1) as u32,
            })
        }),
{
    lemma_first_fuzzy_term(terms, term + 1, p.alternates_try);
}

/// How a search moves between its phases: after the exact matches, while
/// fewer objects than the limit are found and tries are left, completions
/// are looked up for the first term when prefix lookups are on, then for
/// each next term in turn; with enough objects or no try left, nothing more
/// is looked up; a typo lookup that could not be made moves on to a later
/// term, never back to the same one.
pub proof fn lemma_search_phase_order(
    terms: Seq<SearchTerm>,
    term: usize,
    f: u32,
    p: SearchProgress,
)
    requires
        terms.len() <= usize::MAX,
    ensures
        p.found < p.higher_limit && p.alternates_try > 0 && p.prefix_matching_enabled && terms.len()
            > 0 ==> search_step(SearchCursor::Exact, false, terms, p) == (
            SearchCursor::Prefix { term: 0 },
            SearchAction::LookupBegins { term: 0 },
        ),
        term + 1 < terms.len() ==> search_step(SearchCursor::Prefix { term }, false, terms, p) == (
            SearchCursor::Prefix { term: (term + 1) as usize },
            SearchAction::LookupBegins { term: (term + 1) as usize },
        ),
        !(p.found < p.higher_limit && p.alternates_try > 0) ==> search_step(
            SearchCursor::Exact,
            false,
            terms,
            p,
        ).1 == SearchAction::Finish,
        p.alternates_try == 0 ==> search_step(
            SearchCursor::Fuzzy { term, typo_factor: f },
            false,
            terms,
            p,
        ).1 == SearchAction::Finish,
        search_step(SearchCursor::Fuzzy { term, typo_factor: f }, true, terms, p).0 matches SearchCursor::Fuzzy {
            term: t2,
            ..
        } ==> t2 > term,
        search_step(SearchCursor::Done, false, terms, p).1 == SearchAction::Finish,
{
    lemma_first_fuzzy_term(terms, 0, p.alternates_try);
    lemma_first_fuzzy_term(terms, term + 1, p.alternates_try);
}

/// The typo lookups from term `t` on: the first term that is not special
/// and may hold a typo, with one typo, while tries are left.
fn next_fuzzy(terms: &Vec<SearchTerm>, t: usize, tries: usize) -> (r: (SearchCursor, SearchAction))
    ensures
        r == fuzzy_from(terms@, t as int, tries),
{
    if tries == 0 {
        return (SearchCursor::Done, SearchAction::Finish);
    }
    let mut k = t;
    while k < terms.len()
        invariant
            t <= k,
            tries > 0,
            first_fuzzy_term(terms@, t as int, tries) == first_fuzzy_term(terms@, k as int, tries),
        decreases terms@.len() - k,
    {
        if !terms[k].special && typo_factor(terms[k].original_len) >= 1 {
            return (
                SearchCursor::Fuzzy { term: k, typo_factor: 1 },
                SearchAction::LookupTypos { term: k, typo_factor: 1 },
            );
        }
        k = k + 1;
    }
    (SearchCursor::Done, SearchAction::Finish)
}

/// The next step of a search (see `search_step`), from the step it took
/// last and where it stands now.
pub fn next_search_step(
    cursor: SearchCursor,
    lookup_failed: bool,
    terms: &Vec<SearchTerm>,
    progress: &SearchProgress,
) -> (r: (SearchCursor, SearchAction))
    ensures
        r == search_step(cursor, lookup_failed, terms@, *progress),
{
    let wants = progress.found < progress.higher_limit && progress.alternates_try > 0;
    let fuzzy = wants && progress.fuzzy_matching_enabled;
    match cursor {
        SearchCursor::Exact => {
            if wants && progress.prefix_matching_enabled && terms.len() > 0 {
                (SearchCursor::Prefix { term: 0 }, SearchAction::LookupBegins { term: 0 })
            } else if fuzzy {
                next_fuzzy(terms, 0, progress.alternates_try)
            } else {
                (SearchCursor::Done, SearchAction::Finish)
            }
        },
        SearchCursor::Prefix { term } => {
            if term < terms.len() && term + 1 < terms.len() {
                (
                    SearchCursor::Prefix { term: term + 1 },
                    SearchAction::LookupBegins { term: term + 1 },
                )
            } else if fuzzy {
                next_fuzzy(terms, 0, progress.alternates_try)
            } else {
                (SearchCursor::Done, SearchAction::Finish)
            }
        },
        SearchCursor::Fuzzy { term, typo_factor: factor } => {
            if !lookup_failed && progress.alternates_try > 0 && term < terms.len() && (factor as u64)
                + 1 <= typo_factor(terms[term].original_len) as u64 {
                (
                    SearchCursor::Fuzzy { term, typo_factor: factor + 1 },
                    SearchAction::LookupTypos { term, typo_factor: factor + 1 },
                )
            } else if term < terms.len() {
                next_fuzzy(terms, term + 1, progress.alternates_try)
            } else {
                proof {
                    assert(first_fuzzy_term(terms@, term + 1, progress.alternates_try)
                        == terms@.len());
                }
                (SearchCursor::Done, SearchAction::Finish)
            }
        },
        SearchCursor::Done => (SearchCursor::Done, SearchAction::Finish),
    }
}

} // verus!
