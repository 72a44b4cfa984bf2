//! The scoring matrix of a search: for each object found, in the order in
//! which it was first found, the score of each query term that matched it.
//! Matches are scored until enough objects are found, or until the budget
//! of alternate matches runs out.
use vstd::prelude::*;

verus! {

/// The scores of one object, one per query term (none where the term did
/// not match it).
pub open spec fn row_iids(rows: Seq<(u32, Seq<Option<u16>>)>) -> Seq<u32> {
    rows.map_values(|r: (u32, Seq<Option<u16>>)| r.0)
}

/// Each object once, each with a score slot per term.
pub open spec fn rows_wf(rows: Seq<(u32, Seq<Option<u16>>)>, term_count: nat) -> bool {
    &&& row_iids(rows).no_duplicates()
    &&& forall|i: int| 0 <= i < rows.len() ==> (#[trigger] rows[i]).1.len() == term_count
}

/// The lower of a term's score and a new one, or the new one where the term
/// had none.
pub open spec fn min_score(current: Option<u16>, score: u16) -> u16 {
    match current {
        Some(c) => if score < c {
            score
        } else {
            c
        },
        None => score,
    }
}

/// The scores of an object first found by term `term_idx` with `score`.
pub open spec fn fresh_row(term_count: nat, term_idx: int, score: u16) -> Seq<Option<u16>> {
    Seq::new(term_count, |j: int| if j == term_idx { Some(score) } else { None })
}

/// The position of an object's row.
pub open spec fn row_index(rows: Seq<(u32, Seq<Option<u16>>)>, iid: u32) -> int {
    choose|i: int| 0 <= i < rows.len() && rows[i].0 == iid
}

/// The rows after scoring a match of `iid` by term `term_idx`: a known
/// object keeps the lower score for the term, a new one is appended; and
/// whether it was new.
pub open spec fn scored(
    rows: Seq<(u32, Seq<Option<u16>>)>,
    iid: u32,
    score: u16,
    term_idx: int,
    term_count: nat,
) -> (Seq<(u32, Seq<Option<u16>>)>, bool) {
    if row_iids(rows).contains(iid) {
        let i = row_index(rows, iid);
        (
            rows.update(
                i,
                (iid, rows[i].1.update(term_idx, Some(min_score(rows[i].1[term_idx], score)))),
            ),
            false,
        )
    } else {
        (rows.push((iid, fresh_row(term_count, term_idx, score))), true)
    }
}

/// The matches of the query terms: each object found for a term, tagged
/// with the score given and the term's position.
pub open spec fn term_matches(lists: Seq<Seq<u32>>, score: u16) -> Seq<(u32, u16, int)>
    decreases lists.len(),
{
    if lists.len() == 0 {
        Seq::empty()
    } else {
        term_matches(lists.drop_last(), score) + lists.last().map_values(
            |iid: u32| (iid, score, (lists.len() - 1) as int),
        )
    }
}

/// The rows after scoring matches one after the other, until a new object
/// brings their number to `limit`; and whether that happened.
pub open spec fn run_until_limit(
    rows: Seq<(u32, Seq<Option<u16>>)>,
    matches: Seq<(u32, u16, int)>,
    term_count: nat,
    limit: int,
) -> (Seq<(u32, Seq<Option<u16>>)>, bool)
    decreases matches.len(),
{
    if matches.len() == 0 {
        (rows, false)
    } else {
        let p = run_until_limit(rows, matches.drop_last(), term_count, limit);
        if p.1 {
            p
        } else {
            let m = matches.last();
            let s = scored(p.0, m.0, m.1, m.2, term_count);
            (s.0, s.1 && s.0.len() >= limit)
        }
    }
}

/// Once the limit is reached, further matches change nothing.
pub proof fn lemma_run_until_limit_stops(
    rows: Seq<(u32, Seq<Option<u16>>)>,
    a: Seq<(u32, u16, int)>,
    b: Seq<(u32, u16, int)>,
    term_count: nat,
    limit: int,
)
    requires
        run_until_limit(rows, a, term_count, limit).1,
    ensures
        run_until_limit(rows, a + b, term_count, limit) == run_until_limit(
            rows,
            a,
            term_count,
            limit,
        ),
    decreases b.len(),
{
    if b.len() == 0 {
        assert(a + b =~= a);
    } else {
        lemma_run_until_limit_stops(rows, a, b.drop_last(), term_count, limit);
        assert((a + b).drop_last() =~= a + b.drop_last());
    }
}

/// The matches of the first `t` terms begin the matches of all terms.
proof fn lemma_term_matches_prefix(lists: Seq<Seq<u32>>, score: u16, t: int)
    requires
        0 <= t <= lists.len(),
    ensures
        term_matches(lists.take(t), score).len() <= term_matches(lists, score).len(),
        term_matches(lists.take(t), score) =~= term_matches(lists, score).take(
            term_matches(lists.take(t), score).len() as int,
        ),
    decreases lists.len() - t,
{
    if t < lists.len() {
        lemma_term_matches_prefix(lists, score, t + 1);
        let small = lists.take(t);
        let big = lists.take(t + 1);
        assert(big.drop_last() =~= small);
        let n = term_matches(small, score).len() as int;
        let full = term_matches(lists, score);
        let mid = term_matches(big, score);
        assert(mid.take(n) =~= term_matches(small, score));
        assert(full.take(mid.len() as int).take(n) =~= full.take(n));
    } else {
        assert(lists.take(t) =~= lists);
    }
}

/// The view of suggested words: each with its score and, where the store
/// holds objects for it, those objects.
pub open spec fn suggestions_view(s: Seq<(String, u16, Option<Vec<u32>>)>) -> Seq<
    (Seq<char>, u16, Option<Seq<u32>>),
> {
    s.map_values(
        |x: (String, u16, Option<Vec<u32>>)|
            (
                x.0@,
                x.1,
                match x.2 {
                    Some(v) => Some(v@),
                    None => None,
                },
            ),
    )
}

/// The matches that suggested words bring to term `term_idx`: the objects
/// of each suggested word other than the term itself, with its score.
pub open spec fn suggestion_matches(
    s: Seq<(Seq<char>, u16, Option<Seq<u32>>)>,
    term: Seq<char>,
    term_idx: int,
) -> Seq<(u32, u16, int)>
    decreases s.len(),
{
    if s.len() == 0 {
        Seq::empty()
    } else {
        let last = s.last();
        let prev = suggestion_matches(s.drop_last(), term, term_idx);
        match last.2 {
            Some(iids) => if last.0 == term {
                prev
            } else {
                prev + iids.map_values(|iid: u32| (iid, last.1, term_idx))
            },
            None => prev,
        }
    }
}

/// The rows after scoring matches one after the other, each taking one
/// from the budget, until a new object brings their number to `limit` or
/// the budget is spent; the budget left; and whether the limit was reached.
pub open spec fn run_within_budget(
    rows: Seq<(u32, Seq<Option<u16>>)>,
    matches: Seq<(u32, u16, int)>,
    term_count: nat,
    budget: nat,
    limit: int,
) -> (Seq<(u32, Seq<Option<u16>>)>, nat, bool)
    decreases matches.len(),
{
    if matches.len() == 0 {
        (rows, budget, false)
    } else {
        let p = run_within_budget(rows, matches.drop_last(), term_count, budget, limit);
        if p.2 || p.1 == 0 {
            p
        } else {
            let m = matches.last();
            let s = scored(p.0, m.0, m.1, m.2, term_count);
            (s.0, (p.1 - 1) as nat, s.1 && s.0.len() >= limit)
        }
    }
}

/// Once the limit is reached or the budget spent, further matches change
/// nothing.
pub proof fn lemma_run_within_budget_stops(
    rows: Seq<(u32, Seq<Option<u16>>)>,
    a: Seq<(u32, u16, int)>,
    b: Seq<(u32, u16, int)>,
    term_count: nat,
    budget: nat,
    limit: int,
)
    requires
        run_within_budget(rows, a, term_count, budget, limit).2 || run_within_budget(
            rows,
            a,
            term_count,
            budget,
            limit,
        ).1 == 0,
    ensures
        run_within_budget(rows, a + b, term_count, budget, limit) == run_within_budget(
            rows,
            a,
            term_count,
            budget,
            limit,
        ),
    decreases b.len(),
{
    if b.len() == 0 {
        assert(a + b =~= a);
    } else {
        lemma_run_within_budget_stops(rows, a, b.drop_last(), term_count, budget, limit);
        assert((a + b).drop_last() =~= a + b.drop_last());
    }
}

/// The matches of the first `t` suggestions begin the matches of all.
proof fn lemma_suggestion_matches_prefix(
    s: Seq<(Seq<char>, u16, Option<Seq<u32>>)>,
    term: Seq<char>,
    term_idx: int,
    t: int,
)
    requires
        0 <= t <= s.len(),
    ensures
        suggestion_matches(s.take(t), term, term_idx).len() <= suggestion_matches(
            s,
            term,
            term_idx,
        ).len(),
        suggestion_matches(s.take(t), term, term_idx) =~= suggestion_matches(
            s,
            term,
            term_idx,
        ).take(suggestion_matches(s.take(t), term, term_idx).len() as int),
    decreases s.len() - t,
{
    if t < s.len() {
        lemma_suggestion_matches_prefix(s, term, term_idx, t + 1);
        let small = s.take(t);
        let big = s.take(t + 1);
        assert(big.drop_last() =~= small);
        let n = suggestion_matches(small, term, term_idx).len() as int;
        let full = suggestion_matches(s, term, term_idx);
        let mid = suggestion_matches(big, term, term_idx);
        assert(mid.take(n) =~= suggestion_matches(small, term, term_idx));
        assert(full.take(mid.len() as int).take(n) =~= full.take(n));
    } else {
        assert(s.take(t) =~= s);
    }
}

/// The objects with a term that did not match them, in row order.
pub open spec fn incomplete_iids(rows: Seq<(u32, Seq<Option<u16>>)>) -> Seq<u32>
    decreases rows.len(),
{
    if rows.len() == 0 {
        Seq::empty()
    } else {
        let prev = incomplete_iids(rows.drop_last());
        if rows.last().1.contains(None) {
            prev.push(rows.last().0)
        } else {
            prev
        }
    }
}

/// The rows without an object's row: the last row takes its place.
pub open spec fn without_row(rows: Seq<(u32, Seq<Option<u16>>)>, iid: u32) -> Seq<
    (u32, Seq<Option<u16>>),
> {
    if row_iids(rows).contains(iid) {
        rows.update(row_index(rows, iid), rows.last()).drop_last()
    } else {
        rows
    }
}

/// The rows without the rows of objects, removed one after the other.
pub open spec fn without_rows(rows: Seq<(u32, Seq<Option<u16>>)>, iids: Seq<u32>) -> Seq<
    (u32, Seq<Option<u16>>),
>
    decreases iids.len(),
{
    if iids.len() == 0 {
        rows
    } else {
        without_row(without_rows(rows, iids.drop_last()), iids.last())
    }
}

/// Removing an object's row keeps every other row, and only those.
proof fn lemma_without_row(rows: Seq<(u32, Seq<Option<u16>>)>, iid: u32, term_count: nat)
    requires
        rows_wf(rows, term_count),
    ensures
        rows_wf(without_row(rows, iid), term_count),
        forall|r: (u32, Seq<Option<u16>>)|
            #[trigger] without_row(rows, iid).contains(r) <==> (rows.contains(r) && r.0 != iid),
{
    let ids = row_iids(rows);
    if ids.contains(iid) {
        let i = row_index(rows, iid);
        let x = choose|x: int| 0 <= x < ids.len() && ids[x] == iid;
        assert(rows[x].0 == iid);
        assert(0 <= i < rows.len() && rows[i].0 == iid);
        let n = rows.len() - 1;
        let out = without_row(rows, iid);
        assert(out =~= rows.update(i, rows[n]).drop_last());
        assert forall|a: int, b: int| 0 <= a < b < row_iids(out).len() implies row_iids(out)[a]
            != row_iids(out)[b] by {
            if a == i {
                assert(ids[n] == row_iids(out)[a]);
                assert(ids[b] == row_iids(out)[b]);
            } else if b == i {
                assert(ids[n] == row_iids(out)[b]);
                assert(ids[a] == row_iids(out)[a]);
            } else {
                assert(ids[a] == row_iids(out)[a]);
                assert(ids[b] == row_iids(out)[b]);
            }
        }
        assert forall|a: int| 0 <= a < out.len() implies (#[trigger] out[a]).1.len()
            == term_count by {
            if a == i {
                assert(out[a] == rows[n]);
            } else {
                assert(out[a] == rows[a]);
            }
        }
        assert forall|r: (u32, Seq<Option<u16>>)|
            out.contains(r) <==> (rows.contains(r) && r.0 != iid) by {
            if out.contains(r) {
                let a = choose|a: int| 0 <= a < out.len() && out[a] == r;
                if a == i {
                    assert(ids[n] != ids[i]);
                    assert(rows[n] == r);
                } else {
                    assert(ids[a] != ids[i]);
                    assert(rows[a] == r);
                }
            }
            if rows.contains(r) && r.0 != iid {
                let a = choose|a: int| 0 <= a < rows.len() && rows[a] == r;
                if a < n {
                    assert(out[a] == r);
                } else {
                    assert(out[i] == r);
                }
            }
        }
    } else {
        assert forall|r: (u32, Seq<Option<u16>>)|
            rows.contains(r) implies r.0 != iid by {
            let a = choose|a: int| 0 <= a < rows.len() && rows[a] == r;
            assert(ids[a] == r.0);
        }
    }
}

/// Removing the rows of objects keeps every row of another object, and
/// only those.
proof fn lemma_without_rows(rows: Seq<(u32, Seq<Option<u16>>)>, iids: Seq<u32>, term_count: nat)
    requires
        rows_wf(rows, term_count),
    ensures
        rows_wf(without_rows(rows, iids), term_count),
        forall|r: (u32, Seq<Option<u16>>)|
            #[trigger] without_rows(rows, iids).contains(r) <==> (rows.contains(r)
                && !iids.contains(r.0)),
    decreases iids.len(),
{
    if iids.len() > 0 {
        let prev = iids.drop_last();
        lemma_without_rows(rows, prev, term_count);
        lemma_without_row(without_rows(rows, prev), iids.last(), term_count);
        assert forall|r: (u32, Seq<Option<u16>>)|
            without_rows(rows, iids).contains(r) <==> (rows.contains(r) && !iids.contains(r.0)) by {
            let w = without_rows(rows, prev);
            assert(without_rows(rows, iids) == without_row(w, iids.last()));
            assert(w.contains(r) <==> (rows.contains(r) && !prev.contains(r.0)));
            assert(without_row(w, iids.last()).contains(r) <==> (w.contains(r) && r.0
                != iids.last()));
            if iids.contains(r.0) && r.0 != iids.last() {
                let a = choose|a: int| 0 <= a < iids.len() && iids[a] == r.0;
                assert(prev[a] == r.0);
            }
            if prev.contains(r.0) {
                let a = choose|a: int| 0 <= a < prev.len() && prev[a] == r.0;
                assert(iids[a] == r.0);
            }
            if r.0 == iids.last() {
                assert(iids[iids.len() - 1] == r.0);
            }
        }
    }
}

/// The objects listed as incomplete are those of rows with a term missing.
proof fn lemma_incomplete_iids(rows: Seq<(u32, Seq<Option<u16>>)>, term_count: nat)
    requires
        rows_wf(rows, term_count),
    ensures
        forall|r: (u32, Seq<Option<u16>>)|
            rows.contains(r) ==> (incomplete_iids(rows).contains(r.0) <==> r.1.contains(None)),
    decreases rows.len(),
{
    if rows.len() > 0 {
        let prev = rows.drop_last();
        let n = rows.len() - 1;
        assert(rows_wf(prev, term_count)) by {
            assert forall|a: int, b: int| 0 <= a < b < row_iids(prev).len() implies row_iids(
                prev,
            )[a] != row_iids(prev)[b] by {
                assert(row_iids(prev)[a] == row_iids(rows)[a]);
                assert(row_iids(prev)[b] == row_iids(rows)[b]);
            }
        }
        lemma_incomplete_iids(prev, term_count);
        let out = incomplete_iids(rows);
        let before = incomplete_iids(prev);
        assert forall|r: (u32, Seq<Option<u16>>)| rows.contains(r) implies (out.contains(r.0)
            <==> r.1.contains(None)) by {
            let a = choose|a: int| 0 <= a < rows.len() && rows[a] == r;
            if a < n {
                assert(prev[a] == r);
                assert(prev.contains(r));
                assert(row_iids(rows)[a] != row_iids(rows)[n]);
                if rows.last().1.contains(None) {
                    if out.contains(r.0) {
                        let x = choose|x: int| 0 <= x < out.len() && out[x] == r.0;
                        if x < before.len() {
                            assert(before[x] == r.0);
                        }
                    }
                    if before.contains(r.0) {
                        let x = choose|x: int| 0 <= x < before.len() && before[x] == r.0;
                        assert(out[x] == r.0);
                    }
                }
            } else {
                assert(rows.last() == r);
                if r.1.contains(None) {
                    assert(out[before.len() as int] == r.0);
                } else {
                    assert forall|x: int| 0 <= x < before.len() implies before[x] != r.0 by {
                        incomplete_iids_of_rows(prev, term_count, x);
                        let y = choose|y: int| 0 <= y < prev.len() && prev[y].0 == before[x];
                        assert(row_iids(rows)[y] != row_iids(rows)[n]);
                    }
                }
            }
        }
    }
}

/// Each object listed as incomplete has a row.
proof fn incomplete_iids_of_rows(rows: Seq<(u32, Seq<Option<u16>>)>, term_count: nat, x: int)
    requires
        0 <= x < incomplete_iids(rows).len(),
    ensures
        exists|y: int| 0 <= y < rows.len() && rows[y].0 == incomplete_iids(rows)[x],
    decreases rows.len(),
{
    let prev = rows.drop_last();
    let before = incomplete_iids(prev);
    if x < before.len() {
        incomplete_iids_of_rows(prev, term_count, x);
        let y = choose|y: int| 0 <= y < prev.len() && prev[y].0 == before[x];
        assert(rows[y] == prev[y]);
    } else {
        assert(rows[rows.len() - 1].0 == incomplete_iids(rows)[x]);
    }
}

/// Dropping incomplete objects keeps exactly the rows in which every term
/// matched.
pub proof fn lemma_drop_incomplete_keeps_complete_rows(
    rows: Seq<(u32, Seq<Option<u16>>)>,
    term_count: nat,
)
    requires
        rows_wf(rows, term_count),
    ensures
        forall|r: (u32, Seq<Option<u16>>)|
            without_rows(rows, incomplete_iids(rows)).contains(r) <==> (rows.contains(r)
                && !r.1.contains(None)),
{
    let inc = incomplete_iids(rows);
    lemma_without_rows(rows, inc, term_count);
    lemma_incomplete_iids(rows, term_count);
    assert forall|r: (u32, Seq<Option<u16>>)|
        without_rows(rows, inc).contains(r) <==> (rows.contains(r) && !r.1.contains(None)) by {
        assert(without_rows(rows, inc).contains(r) <==> (rows.contains(r) && !inc.contains(r.0)));
        if rows.contains(r) {
            assert(inc.contains(r.0) <==> r.1.contains(None));
        }
    }
}

/// Scoring a match of an object twice for one term is scoring it once with
/// the lower of the two scores: a term keeps its lowest score, whatever the
/// order in which matches come.
pub proof fn lemma_scored_twice_keeps_lowest(
    rows: Seq<(u32, Seq<Option<u16>>)>,
    iid: u32,
    first: u16,
    second: u16,
    term_idx: int,
    term_count: nat,
)
    requires
        rows_wf(rows, term_count),
        0 <= term_idx < term_count,
    ensures
        scored(scored(rows, iid, first, term_idx, term_count).0, iid, second, term_idx, term_count).0
            == scored(rows, iid, if second < first { second } else { first }, term_idx, term_count).0,
{
    let low: u16 = if second < first { second } else { first };
    let once = scored(rows, iid, first, term_idx, term_count).0;
    let twice = scored(once, iid, second, term_idx, term_count).0;
    let direct = scored(rows, iid, low, term_idx, term_count).0;
    let ids = row_iids(rows);
    if ids.contains(iid) {
        let i = row_index(rows, iid);
        let x = choose|x: int| 0 <= x < ids.len() && ids[x] == iid;
        assert(rows[x].0 == iid);
        assert(0 <= i < rows.len() && rows[i].0 == iid);
        assert(row_iids(once)[i] == iid);
        let j = row_index(once, iid);
        assert(0 <= j < once.len() && once[j].0 == iid);
        if j != i {
            assert(once[j] == rows[j]);
            assert(ids[j] == ids[i]);
        }
        assert(j == i);
        assert(min_score(Some(min_score(rows[i].1[term_idx], first)), second) == min_score(
            rows[i].1[term_idx],
            low,
        ));
        assert(twice[i].1 =~= direct[i].1);
        assert(twice =~= direct);
    } else {
        let n = rows.len() as int;
        assert(row_iids(once)[n] == iid);
        let j = row_index(once, iid);
        assert(0 <= j < once.len() && once[j].0 == iid);
        if j < n {
            assert(ids[j] == iid);
        }
        assert(j == n);
        assert(once[n].1 == fresh_row(term_count, term_idx, first));
        assert(twice[n].1 =~= fresh_row(term_count, term_idx, low));
        assert(twice =~= direct);
    }
}

/// A map that keeps its entries in the order they were first inserted.
#[verifier::external_type_specification]
#[verifier::external_body]
#[verifier::reject_recursive_types(K)]
#[verifier::reject_recursive_types(V)]
#[verifier::reject_recursive_types(S)]
pub struct ExIndexMap<K, V, S>(indexmap::IndexMap<K, V, S>);

/// The entries of a map of scores, in the map's order: each object with
/// its scores.
pub uninterp spec fn scoring_rows(map: indexmap::IndexMap<u32, Vec<Option<u16>>>) -> Seq<
    (u32, Seq<Option<u16>>),
>;

/// `indexmap::IndexMap::with_capacity`: an empty map. Trusted: it holds no
/// entry; the capacity only sizes the allocation.
#[verifier::external_body]
fn rows_with_capacity(n: usize) -> (r: indexmap::IndexMap<u32, Vec<Option<u16>>>)
    ensures
        scoring_rows(r) == Seq::<(u32, Seq<Option<u16>>)>::empty(),
{
    indexmap::IndexMap::with_capacity(n)
}

/// `indexmap::IndexMap::len`: the number of entries. Trusted: as documented.
#[verifier::external_body]
fn rows_len(map: &indexmap::IndexMap<u32, Vec<Option<u16>>>) -> (r: usize)
    ensures
        r == scoring_rows(*map).len(),
{
    map.len()
}

/// `indexmap::IndexMap::get_index_of`: where an object's entry stands.
/// Trusted: the index of the entry whose key is `iid`, or none when no
/// entry has it, as documented.
#[verifier::external_body]
fn rows_index_of(map: &indexmap::IndexMap<u32, Vec<Option<u16>>>, iid: u32) -> (r: Option<usize>)
    ensures
        r matches Some(i) ==> i < scoring_rows(*map).len() && scoring_rows(*map)[i as int].0 == iid,
        r is None ==> forall|j: int|
            0 <= j < scoring_rows(*map).len() ==> (#[trigger] scoring_rows(*map)[j]).0 != iid,
{
    map.get_index_of(&iid)
}

/// `IndexMap`'s `Index<usize>`: the scores of the entry at an index.
/// Trusted: as documented; the index is in bounds, where it does not panic.
#[verifier::external_body]
fn rows_value(map: &indexmap::IndexMap<u32, Vec<Option<u16>>>, i: usize) -> (r: &Vec<Option<u16>>)
    requires
        i < scoring_rows(*map).len(),
    ensures
        r@ == scoring_rows(*map)[i as int].1,
{
    &map[i]
}

/// `IndexMap::keys`, then `Keys`' `Index<usize>`: the object of the entry at
/// an index. Trusted: as documented; the index is in bounds.
#[verifier::external_body]
fn rows_key(map: &indexmap::IndexMap<u32, Vec<Option<u16>>>, i: usize) -> (r: u32)
    requires
        i < scoring_rows(*map).len(),
    ensures
        r == scoring_rows(*map)[i as int].0,
{
    map.keys()[i]
}

/// `IndexMap`'s `IndexMut<usize>`: sets one score of the entry at an
/// index. Trusted: only that score changes, and no entry moves.
#[verifier::external_body]
fn rows_set_score(
    map: &mut indexmap::IndexMap<u32, Vec<Option<u16>>>,
    i: usize,
    t: usize,
    score: Option<u16>,
)
    requires
        i < scoring_rows(*old(map)).len(),
        t < scoring_rows(*old(map))[i as int].1.len(),
    ensures
        scoring_rows(*final(map)) == scoring_rows(*old(map)).update(
            i as int,
            (scoring_rows(*old(map))[i as int].0, scoring_rows(*old(map))[i as int].1.update(
                t as int,
                score,
            )),
        ),
{
    map[i][t] = score;
}

/// `indexmap::IndexMap::insert`, of an object with no entry yet. Trusted:
/// the new entry goes last, as documented.
#[verifier::external_body]
fn rows_push(map: &mut indexmap::IndexMap<u32, Vec<Option<u16>>>, iid: u32, scores: Vec<Option<u16>>)
    requires
        forall|j: int|
            0 <= j < scoring_rows(*old(map)).len() ==> (#[trigger] scoring_rows(*old(map))[j]).0
                != iid,
    ensures
        scoring_rows(*final(map)) == scoring_rows(*old(map)).push((iid, scores@)),
{
    map.insert(iid, scores);
}

/// `indexmap::IndexMap::swap_remove_index`: removes the entry at an index,
/// the last entry taking its place. Trusted: as documented.
#[verifier::external_body]
fn rows_swap_remove(map: &mut indexmap::IndexMap<u32, Vec<Option<u16>>>, i: usize)
    requires
        i < scoring_rows(*old(map)).len(),
    ensures
        scoring_rows(*final(map)) == scoring_rows(*old(map)).update(
            i as int,
            scoring_rows(*old(map)).last(),
        ).drop_last(),
{
    map.swap_remove_index(i);
}

/// `indexmap::IndexMap::into_iter`, collected: the entries in order.
/// Trusted: as documented.
#[verifier::external_body]
fn rows_into_vec(map: indexmap::IndexMap<u32, Vec<Option<u16>>>) -> (r: Vec<(u32, Vec<Option<u16>>)>)
    ensures
        r@.map_values(|x: (u32, Vec<Option<u16>>)| (x.0, x.1@)) == scoring_rows(map),
{
    map.into_iter().collect()
}

/// Scores of found objects, by query term, kept in an `IndexMap` in the
/// order the objects were first found.
pub struct ScoringMatrix {
    rows: indexmap::IndexMap<u32, Vec<Option<u16>>>,
    term_count: usize,
}

impl View for ScoringMatrix {
    type V = Seq<(u32, Seq<Option<u16>>)>;

    closed spec fn view(&self) -> Seq<(u32, Seq<Option<u16>>)> {
        scoring_rows(self.rows)
    }
}

impl ScoringMatrix {
    /// The number of query terms.
    pub closed spec fn spec_term_count(&self) -> nat {
        self.term_count as nat
    }

    /// Each object once, each with a score slot per term.
    pub open spec fn wf(&self) -> bool {
        rows_wf(self@, self.spec_term_count())
    }

    /// An empty matrix for a query of `term_count` terms.
    pub fn new(term_count: usize) -> (r: Self)
        ensures
            r.wf(),
            r@ == Seq::<(u32, Seq<Option<u16>>)>::empty(),
            r.spec_term_count() == term_count,
    {
        let r = ScoringMatrix { rows: rows_with_capacity(24), term_count };
        proof {
            assert(r@ =~= Seq::<(u32, Seq<Option<u16>>)>::empty());
        }
        r
    }

    /// The number of objects found.
    pub fn len(&self) -> (r: usize)
        ensures
            r == self@.len(),
    {
        rows_len(&self.rows)
    }

    /// The number of query terms.
    pub fn term_count(&self) -> (r: usize)
        ensures
            r == self.spec_term_count(),
    {
        self.term_count
    }

    /// Scores a match of `iid` by term `term_idx`: a known object keeps the
    /// lower score for that term, a new one is appended. Tells whether the
    /// object was new.
    pub fn update_score(&mut self, iid: u32, score: u16, term_idx: usize) -> (inserted: bool)
        requires
            old(self).wf(),
            term_idx < old(self).spec_term_count(),
        ensures
            final(self).wf(),
            final(self).spec_term_count() == old(self).spec_term_count(),
            (final(self)@, inserted) == scored(
                old(self)@,
                iid,
                score,
                term_idx as int,
                old(self).spec_term_count(),
            ),
    {
        let ghost rows0 = self@;
        let ghost count = self.spec_term_count();
        match rows_index_of(&self.rows, iid) {
            Some(i) => {
                proof {
                    assert(rows0[i as int].0 == iid);
                    assert(row_iids(rows0)[i as int] == iid);
                    let k = row_index(rows0, iid);
                    assert(0 <= k < rows0.len() && rows0[k].0 == iid);
                    assert(row_iids(rows0)[k] == iid);
                    assert(k == i);
                    assert(rows0[i as int].1.len() == count);
                }
                let current = rows_value(&self.rows, i)[term_idx];
                let new_score = match current {
                    Some(c) => if score < c {
                        score
                    } else {
                        c
                    },
                    None => score,
                };
                rows_set_score(&mut self.rows, i, term_idx, Some(new_score));
                proof {
                    let expected = scored(rows0, iid, score, term_idx as int, count).0;
                    assert(self@ =~= expected);
                    assert(row_iids(self@) =~= row_iids(rows0));
                }
                false
            },
            None => {
                let mut fresh: Vec<Option<u16>> = Vec::new();
                let mut j: usize = 0;
                while j < self.term_count
                    invariant
                        j <= self.term_count,
                        self.term_count == count,
                        fresh@.len() == j,
                        forall|x: int|
                            0 <= x < j ==> #[trigger] fresh@[x] == (if x == term_idx {
                                Some(score)
                            } else {
                                None
                            }),
                    decreases self.term_count - j,
                {
                    if j == term_idx {
                        fresh.push(Some(score));
                    } else {
                        fresh.push(None);
                    }
                    j = j + 1;
                }
                proof {
                    assert(fresh@ =~= fresh_row(count, term_idx as int, score));
                    assert forall|x: int| 0 <= x < row_iids(rows0).len() implies row_iids(rows0)[x]
                        != iid by {
                        assert(rows0[x].0 == row_iids(rows0)[x]);
                    }
                    assert(!row_iids(rows0).contains(iid));
                }
                rows_push(&mut self.rows, iid, fresh);
                proof {
                    let expected = scored(rows0, iid, score, term_idx as int, count).0;
                    assert(self@ =~= expected);
                    assert(row_iids(self@) =~= row_iids(rows0).push(iid));
                }
                true
            },
        }
    }

    /// Scores the objects found for each term with `score`, term after term,
    /// and stops as soon as a new object brings their number to
    /// `higher_limit`.
    pub fn score_exact_matches(&mut self, term_iids: &Vec<Vec<u32>>, score: u16, higher_limit: usize)
        requires
            old(self).wf(),
            term_iids@.len() <= old(self).spec_term_count(),
        ensures
            final(self).wf(),
            final(self).spec_term_count() == old(self).spec_term_count(),
            final(self)@ == run_until_limit(
                old(self)@,
                term_matches(term_iids@.map_values(|v: Vec<u32>| v@), score),
                old(self).spec_term_count(),
                higher_limit as int,
            ).0,
    {
        let ghost rows0 = self@;
        let ghost count = self.spec_term_count();
        let ghost lists = term_iids@.map_values(|v: Vec<u32>| v@);
        let ghost mut done: Seq<(u32, u16, int)> = Seq::empty();
        let mut stopped = false;
        let mut t: usize = 0;
        proof {
            assert(lists.take(0) =~= Seq::<Seq<u32>>::empty());
        }
        while t < term_iids.len() && !stopped
            invariant
                t <= term_iids@.len(),
                term_iids@.len() <= count,
                lists == term_iids@.map_values(|v: Vec<u32>| v@),
                self.wf(),
                self.spec_term_count() == count,
                !stopped ==> done == term_matches(lists.take(t as int), score),
                stopped ==> exists|u: int|
                    0 <= u < lists.len() && done.len() <= term_matches(lists.take(u + 1), score).len()
                        && #[trigger] term_matches(lists.take(u + 1), score).take(done.len() as int)
                        == done,
                (self@, stopped) == run_until_limit(rows0, done, count, higher_limit as int),
            decreases term_iids@.len() - t,
        {
            let list = &term_iids[t];
            let ghost base = done;
            let mut k: usize = 0;
            proof {
                assert(lists[t as int] == list@);
            }
            while k < list.len() && !stopped
                invariant
                    k <= list@.len(),
                    t < term_iids@.len(),
                    term_iids@.len() <= count,
                    self.wf(),
                    self.spec_term_count() == count,
                    done == base + list@.take(k as int).map_values(
                        |iid: u32| (iid, score, t as int),
                    ),
                    (self@, stopped) == run_until_limit(rows0, done, count, higher_limit as int),
                decreases list@.len() - k,
            {
                let iid = list[k];
                let inserted = self.update_score(iid, score, t);
                proof {
                    let prev = done;
                    done = done.push((iid, score, t as int));
                    assert(done.drop_last() =~= prev);
                    assert(list@.take(k + 1).map_values(|iid: u32| (iid, score, t as int))
                        =~= list@.take(k as int).map_values(|iid: u32| (iid, score, t as int)).push(
                        (iid, score, t as int),
                    ));
                }
                if inserted && rows_len(&self.rows) >= higher_limit {
                    stopped = true;
                }
                k = k + 1;
            }
            proof {
                let next = lists.take(t + 1);
                assert(next.drop_last() =~= lists.take(t as int));
                assert(next.last() == list@);
                assert(term_matches(next, score) =~= base + list@.map_values(
                    |iid: u32| (iid, score, t as int),
                ));
                if !stopped {
                    assert(list@.take(k as int) =~= list@);
                } else {
                    assert(term_matches(next, score).take(done.len() as int) =~= done);
                    assert(term_matches(lists.take(t + 1), score).take(done.len() as int) == done);
                }
            }
            t = t + 1;
        }
        proof {
            let all = term_matches(lists, score);
            if stopped {
                let u = choose|u: int|
                    0 <= u < lists.len() && done.len() <= term_matches(lists.take(u + 1), score).len()
                        && #[trigger] term_matches(lists.take(u + 1), score).take(done.len() as int)
                        == done;
                lemma_term_matches_prefix(lists, score, u + 1);
                assert(all.take(done.len() as int) =~= done);
                assert(all =~= done + all.skip(done.len() as int));
                lemma_run_until_limit_stops(rows0, done, all.skip(done.len() as int), count, higher_limit as int);
            } else {
                assert(lists.take(lists.len() as int) =~= lists);
            }
        }
    }

    /// Scores, for term `term_idx`, the objects of words suggested for
    /// `term` (each with the score of its suggestion), skipping the term
    /// itself and words the store holds nothing for; each object scored
    /// takes one from `alternates_try`, and scoring stops when that is
    /// spent or when a new object brings their number to `higher_limit`.
    pub fn merge_suggestions(
        &mut self,
        suggestions: &Vec<(String, u16, Option<Vec<u32>>)>,
        term: &String,
        term_idx: usize,
        alternates_try: &mut usize,
        higher_limit: usize,
    )
        requires
            old(self).wf(),
            term_idx < old(self).spec_term_count(),
        ensures
            final(self).wf(),
            final(self).spec_term_count() == old(self).spec_term_count(),
            ({
                let r = run_within_budget(
                    old(self)@,
                    suggestion_matches(suggestions_view(suggestions@), term@, term_idx as int),
                    old(self).spec_term_count(),
                    *old(alternates_try) as nat,
                    higher_limit as int,
                );
                &&& final(self)@ == r.0
                &&& *final(alternates_try) == r.1
            }),
    {
        let ghost rows0 = self@;
        let ghost budget0 = *alternates_try as nat;
        let ghost count = self.spec_term_count();
        let ghost sv = suggestions_view(suggestions@);
        let ghost all = suggestion_matches(sv, term@, term_idx as int);
        let ghost mut done: Seq<(u32, u16, int)> = Seq::empty();
        let mut stopped = false;
        let mut t: usize = 0;
        proof {
            assert(sv.take(0) =~= Seq::<(Seq<char>, u16, Option<Seq<u32>>)>::empty());
            assert(all.take(0) =~= done);
        }
        while t < suggestions.len() && !stopped && *alternates_try > 0
            invariant
                t <= suggestions@.len(),
                sv == suggestions_view(suggestions@),
                all == suggestion_matches(sv, term@, term_idx as int),
                term_idx < count,
                self.wf(),
                self.spec_term_count() == count,
                done.len() <= all.len(),
                all.take(done.len() as int) == done,
                !stopped && *alternates_try > 0 ==> done == suggestion_matches(
                    sv.take(t as int),
                    term@,
                    term_idx as int,
                ),
                (self@, *alternates_try as nat, stopped) == run_within_budget(
                    rows0,
                    done,
                    count,
                    budget0,
                    higher_limit as int,
                ),
            decreases suggestions@.len() - t,
        {
            let ghost base = done;
            let ghost next = sv.take(t + 1);
            let ghost full = suggestion_matches(next, term@, term_idx as int);
            proof {
                assert(next.drop_last() =~= sv.take(t as int));
                assert(next.last() == sv[t as int]);
                lemma_suggestion_matches_prefix(sv, term@, term_idx as int, t + 1);
            }
            if suggestions[t].0 != *term {
                if let Some(iids) = &suggestions[t].2 {
                    let score = suggestions[t].1;
                    proof {
                        assert(sv[t as int].2 == Some(iids@));
                        assert(sv[t as int].1 == score);
                        assert(sv[t as int].0 != term@);
                        assert(full =~= base + iids@.map_values(
                            |iid: u32| (iid, score, term_idx as int),
                        ));
                        assert(iids@.take(0).map_values(|iid: u32| (iid, score, term_idx as int))
                            =~= Seq::<(u32, u16, int)>::empty());
                        assert(done =~= base + iids@.take(0).map_values(
                            |iid: u32| (iid, score, term_idx as int),
                        ));
                    }
                    let mut k: usize = 0;
                    while k < iids.len() && !stopped && *alternates_try > 0
                        invariant
                            k <= iids@.len(),
                            term_idx < count,
                            self.wf(),
                            self.spec_term_count() == count,
                            full == base + iids@.map_values(
                                |iid: u32| (iid, score, term_idx as int),
                            ),
                            full.len() <= all.len(),
                            full =~= all.take(full.len() as int),
                            done == base + iids@.take(k as int).map_values(
                                |iid: u32| (iid, score, term_idx as int),
                            ),
                            (self@, *alternates_try as nat, stopped) == run_within_budget(
                                rows0,
                                done,
                                count,
                                budget0,
                                higher_limit as int,
                            ),
                        decreases iids@.len() - k,
                    {
                        let iid = iids[k];
                        *alternates_try = *alternates_try - 1;
                        let inserted = self.update_score(iid, score, term_idx);
                        proof {
                            let prev = done;
                            done = done.push((iid, score, term_idx as int));
                            assert(done.drop_last() =~= prev);
                            assert(iids@.take(k + 1).map_values(
                                |iid: u32| (iid, score, term_idx as int),
                            ) =~= iids@.take(k as int).map_values(
                                |iid: u32| (iid, score, term_idx as int),
                            ).push((iid, score, term_idx as int)));
                        }
                        if inserted && rows_len(&self.rows) >= higher_limit {
                            stopped = true;
                        }
                        k = k + 1;
                    }
                    proof {
                        assert(done =~= full.take(done.len() as int));
                        assert(all.take(done.len() as int) =~= done);
                        if !stopped && *alternates_try > 0 {
                            assert(iids@.take(k as int) =~= iids@);
                        }
                    }
                } else {
                    proof {
                        assert(full =~= base);
                    }
                }
            } else {
                proof {
                    assert(sv[t as int].0 == term@);
                    assert(full =~= base);
                }
            }
            t = t + 1;
        }
        proof {
            if stopped || *alternates_try == 0 {
                assert(all =~= done + all.skip(done.len() as int));
                lemma_run_within_budget_stops(
                    rows0,
                    done,
                    all.skip(done.len() as int),
                    count,
                    budget0,
                    higher_limit as int,
                );
            } else {
                assert(sv.take(sv.len() as int) =~= sv);
            }
        }
    }

    /// Drops every object that some term did not match (each row removed
    /// as the last row takes its place).
    pub fn drop_incomplete(&mut self)
        requires
            old(self).wf(),
        ensures
            final(self).wf(),
            final(self).spec_term_count() == old(self).spec_term_count(),
            final(self)@ == without_rows(old(self)@, incomplete_iids(old(self)@)),
    {
        let ghost rows0 = self@;
        let mut to_remove: Vec<u32> = Vec::new();
        let mut i: usize = 0;
        proof {
            assert(rows0.take(0) =~= Seq::<(u32, Seq<Option<u16>>)>::empty());
        }
        let n = rows_len(&self.rows);
        while i < n
            invariant
                i <= n,
                n == rows0.len(),
                self@ == rows0,
                to_remove@ == incomplete_iids(rows0.take(i as int)),
            decreases n - i,
        {
            let scores = rows_value(&self.rows, i);
            let mut j: usize = 0;
            let mut missing = false;
            while j < scores.len()
                invariant_except_break
                    !missing,
                    forall|x: int| 0 <= x < j ==> (#[trigger] scores@[x]) is Some,
                invariant
                    j <= scores@.len(),
                ensures
                    missing <==> scores@.contains(None),
                decreases scores@.len() - j,
            {
                if scores[j].is_none() {
                    missing = true;
                    proof {
                        assert(scores@[j as int] == None::<u16>);
                    }
                    break;
                }
                j = j + 1;
            }
            proof {
                let next = rows0.take(i + 1);
                assert(next.drop_last() =~= rows0.take(i as int));
                assert(next.last() == rows0[i as int]);
                assert(rows0[i as int].1 == scores@);
            }
            if missing {
                to_remove.push(rows_key(&self.rows, i));
            }
            i = i + 1;
        }
        proof {
            assert(rows0.take(rows0.len() as int) =~= rows0);
        }
        let mut k: usize = 0;
        proof {
            assert(to_remove@.take(0) =~= Seq::<u32>::empty());
        }
        while k < to_remove.len()
            invariant
                k <= to_remove@.len(),
                self.wf(),
                self.spec_term_count() == old(self).spec_term_count(),
                self@ == without_rows(rows0, to_remove@.take(k as int)),
            decreases to_remove@.len() - k,
        {
            let iid = to_remove[k];
            let ghost before = self@;
            let at = rows_index_of(&self.rows, iid);
            proof {
                let next = to_remove@.take(k + 1);
                assert(next.drop_last() =~= to_remove@.take(k as int));
                assert(next.last() == iid);
            }
            if let Some(j) = at {
                proof {
                    assert(row_iids(before)[j as int] == iid);
                    let x = row_index(before, iid);
                    assert(row_iids(before)[x] == iid);
                    assert(x == j);
                }
                rows_swap_remove(&mut self.rows, j);
                proof {
                    let ids = row_iids(before);
                    assert(self@ =~= before.update(j as int, before.last()).drop_last());
                    assert(row_iids(self@) =~= ids.update(j as int, ids.last()).drop_last());
                    assert forall|a: int, b: int|
                        0 <= a < b < row_iids(self@).len() implies row_iids(self@)[a] != row_iids(
                        self@,
                    )[b] by {
                        if a == j {
                            assert(row_iids(self@)[a] == ids[ids.len() - 1]);
                            assert(row_iids(self@)[b] == ids[b]);
                        } else if b == j {
                            assert(row_iids(self@)[b] == ids[ids.len() - 1]);
                            assert(row_iids(self@)[a] == ids[a]);
                        }
                    }
                    assert forall|a: int| 0 <= a < self@.len() implies (#[trigger] self@[a]).1.len()
                        == self.spec_term_count() by {
                        if a == j {
                            assert(self@[a] == before[before.len() - 1]);
                        } else {
                            assert(self@[a] == before[a]);
                        }
                    }
                }
            } else {
                proof {
                    assert forall|x: int| 0 <= x < row_iids(before).len() implies row_iids(
                        before,
                    )[x] != iid by {
                        assert(before[x].0 == row_iids(before)[x]);
                    }
                    assert(!row_iids(before).contains(iid));
                }
            }
            k = k + 1;
        }
        proof {
            assert(to_remove@.take(to_remove@.len() as int) =~= to_remove@);
        }
    }

    /// The rows, in order: each object with its scores.
    pub fn into_rows(self) -> (r: Vec<(u32, Vec<Option<u16>>)>)
        ensures
            r@.map_values(|x: (u32, Vec<Option<u16>>)| (x.0, x.1@)) == self@,
    {
        rows_into_vec(self.rows)
    }
}

/// The page of ranked objects that a search returns: `offset` objects on,
/// at most `limit` of them.
pub fn search_page(ranked: &Vec<u32>, offset: usize, limit: usize) -> (r: Vec<u32>)
    ensures
        ({
            let n = ranked@.len() as int;
            let start = if offset < n { offset as int } else { n };
            let end = if start + limit < n { start + limit } else { n };
            r@ == ranked@.subrange(start, end)
        }),
{
    let mut page: Vec<u32> = Vec::new();
    if offset >= ranked.len() {
        proof {
            assert(page@ =~= ranked@.subrange(ranked@.len() as int, ranked@.len() as int));
        }
        return page;
    }
    let mut i: usize = offset;
    proof {
        assert(page@ =~= ranked@.subrange(offset as int, offset as int));
    }
    while i < ranked.len() && page.len() < limit
        invariant
            offset <= i <= ranked@.len(),
            page@.len() == i - offset,
            page@.len() <= limit,
            page@ == ranked@.subrange(offset as int, i as int),
        decreases ranked@.len() - i,
    {
        page.push(ranked[i]);
        proof {
            assert(page@ =~= ranked@.subrange(offset as int, i + 1));
        }
        i = i + 1;
    }
    page
}

} // verus!
