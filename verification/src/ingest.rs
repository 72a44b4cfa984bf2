//! What writing to an index decides: what a push or a pop of a text writes
//! for an object and schedules in its bucket's word graph, how a bulk write
//! gathers its records by bucket, and which terms a document brings.
use vstd::prelude::*;

use crate::config::ConfigStoreFSTGraph;
use crate::executor::{plan_pop, pop_remaining, term_after_unlink, PopOutcome, UniqueBy};
use crate::merge::{last_seen, without};
use crate::fst_store::{pop_step, push_steps, FstStore};
use crate::pending::PendingAction;
use crate::hashing::xxhash32;
use crate::iid::{next_iid_of, IidCounters};
use crate::item::{StoreObjectOid, StoreTermHash};
use crate::kv_batch::{
    bucket_bytes, merges_of, term_lists_view, term_flush_write, term_flush_writes, KvWriteBatch, KvWriteView,
    StoreKVActionReadWrite,
};
use crate::kv_keys::{kv_key, meta_route, StoreMetaKey, IID_TO_OID, IID_TO_TERMS, META_TO_VALUE, OID_TO_IID, TERM_TO_IIDS};
use crate::lexer::{PreprocessorOutput, TokenSpan};
use crate::encoding::{lemma_i32_roundtrip, le32, le32_concat, le32_value};
use crate::text::str_eq;
use vstd::string::StringSliceAdditionalSpecFns;
use vstd::utf8::encode_utf8;

verus! {

/// The values of `s` without repeats, each where it first occurs.
pub open spec fn distinct_in_order<A>(s: Seq<A>) -> Seq<A>
    decreases s.len(),
{
    if s.len() == 0 {
        Seq::empty()
    } else {
        let rest = distinct_in_order(s.drop_last());
        if rest.contains(s.last()) {
            rest
        } else {
            rest.push(s.last())
        }
    }
}

/// The buckets of entries, as text.
pub open spec fn entry_buckets<T>(entries: Seq<(String, T)>) -> Seq<Seq<char>> {
    entries.map_values(|e: (String, T)| e.0@)
}

/// The values of the entries that go to `bucket`, in their order.
pub open spec fn entries_in<T>(entries: Seq<(String, T)>, bucket: Seq<char>) -> Seq<T>
    decreases entries.len(),
{
    if entries.len() == 0 {
        Seq::empty()
    } else {
        let rest = entries_in(entries.drop_last(), bucket);
        if entries.last().0@ == bucket {
            rest.push(entries.last().1)
        } else {
            rest
        }
    }
}

/// What `distinct_in_order` gives holds each value of `s` once, and no other.
pub proof fn lemma_distinct_in_order_unique<A>(s: Seq<A>)
    ensures
        distinct_in_order(s).no_duplicates(),
        forall|x: A| distinct_in_order(s).contains(x) <==> s.contains(x),
    decreases s.len(),
{
    if s.len() > 0 {
        let p = s.drop_last();
        let rest = distinct_in_order(p);
        lemma_distinct_in_order_unique(p);
        if !rest.contains(s.last()) {
            let pushed = rest.push(s.last());
            assert forall|i: int, j: int| 0 <= i < j < pushed.len() implies pushed[i] != pushed[j] by {
                if j == rest.len() {
                    assert(rest[i] == pushed[i]);
                }
            }
        }
        assert forall|x: A| distinct_in_order(s).contains(x) <==> s.contains(x) by {
            if !rest.contains(s.last()) {
                let pushed = rest.push(s.last());
                if pushed.contains(x) {
                    let i = choose|i: int| 0 <= i < pushed.len() && pushed[i] == x;
                    if i < rest.len() {
                        assert(rest[i] == x);
                    }
                }
                if rest.contains(x) {
                    let i = choose|i: int| 0 <= i < rest.len() && rest[i] == x;
                    assert(pushed[i] == x);
                }
                if x == s.last() {
                    assert(pushed[rest.len() as int] == x);
                }
            }
            if s.contains(x) {
                let i = choose|i: int| 0 <= i < s.len() && s[i] == x;
                if i < s.len() - 1 {
                    assert(p[i] == x);
                }
            }
            if p.contains(x) {
                let i = choose|i: int| 0 <= i < p.len() && p[i] == x;
                assert(s[i] == x);
            }
            if x == s.last() {
                assert(s[s.len() - 1] == x);
            }
        }
    }
}

/// A bucket that no entry goes to has no values.
proof fn lemma_entries_in_absent<T>(entries: Seq<(String, T)>, bucket: Seq<char>)
    requires
        !entry_buckets(entries).contains(bucket),
    ensures
        entries_in(entries, bucket) == Seq::<T>::empty(),
    decreases entries.len(),
{
    if entries.len() > 0 {
        let p = entries.drop_last();
        assert forall|i: int| 0 <= i < p.len() implies entry_buckets(p)[i] != bucket by {
            assert(entry_buckets(entries)[i] == entry_buckets(p)[i]);
        }
        lemma_entries_in_absent(p, bucket);
        assert(entry_buckets(entries)[entries.len() - 1] == entries.last().0@);
    }
}

/// The entries gathered by bucket: one group per bucket, the buckets in the
/// order in which they first occur, and in each group the values of that
/// bucket's entries in their order.
pub fn group_by_bucket<T>(entries: Vec<(String, T)>) -> (r: Vec<(String, Vec<T>)>)
    ensures
        r@.len() == distinct_in_order(entry_buckets(entries@)).len(),
        forall|i: int|
            0 <= i < r@.len() ==> {
                &&& (#[trigger] r@[i]).0@ == distinct_in_order(entry_buckets(entries@))[i]
                &&& r@[i].1@ == entries_in(entries@, r@[i].0@)
            },
{
    let ghost all = entries@;
    let mut groups: Vec<(String, Vec<T>)> = Vec::new();
    let ghost mut done: Seq<(String, T)> = Seq::empty();
    for entry in it: entries.into_iter()
        invariant
            it.seq() == all,
            done == all.take(it.index() as int),
            groups@.len() == distinct_in_order(entry_buckets(done)).len(),
            forall|i: int|
                0 <= i < groups@.len() ==> {
                    &&& (#[trigger] groups@[i]).0@ == distinct_in_order(entry_buckets(done))[i]
                    &&& groups@[i].1@ == entries_in(done, groups@[i].0@)
                },
    {
        let (bucket, value) = entry;
        let mut j: usize = 0;
        let mut found = false;
        while j < groups.len()
            invariant_except_break
                !found,
                forall|i: int| 0 <= i < j ==> (#[trigger] groups@[i]).0@ != bucket@,
            invariant
                j <= groups@.len(),
            ensures
                found ==> j < groups@.len() && groups@[j as int].0@ == bucket@,
                !found ==> forall|i: int|
                    0 <= i < groups@.len() ==> (#[trigger] groups@[i]).0@ != bucket@,
            decreases groups@.len() - j,
        {
            if groups[j].0 == bucket {
                found = true;
                break;
            }
            j = j + 1;
        }
        let ghost next = done.push((bucket, value));
        proof {
            assert(next.drop_last() =~= done);
            assert(entry_buckets(next).drop_last() =~= entry_buckets(done));
            assert(entry_buckets(next).last() == bucket@);
            lemma_distinct_in_order_unique(entry_buckets(done));
        }
        let ghost g0 = groups@;
        let ghost d0 = distinct_in_order(entry_buckets(done));
        proof {
            assert forall|b: Seq<char>| #[trigger] entries_in(next, b) == (if b == bucket@ {
                entries_in(done, b).push(value)
            } else {
                entries_in(done, b)
            }) by {
                assert(next.last() == (bucket, value));
            }
        }
        if found {
            groups[j].1.push(value);
            proof {
                assert(d0[j as int] == bucket@);
                assert(d0.contains(bucket@));
                assert(distinct_in_order(entry_buckets(next)) == d0);
                assert forall|i: int| 0 <= i < groups@.len() implies {
                    &&& (#[trigger] groups@[i]).0@ == d0[i]
                    &&& groups@[i].1@ == entries_in(next, groups@[i].0@)
                } by {
                    if i != j {
                        assert(g0[i] == groups@[i]);
                        assert(d0[i] != d0[j as int]);
                    }
                }
            }
        } else {
            groups.push((bucket, vec![value]));
            proof {
                assert forall|i: int| 0 <= i < d0.len() implies d0[i] != bucket@ by {
                    assert(g0[i].0@ == d0[i]);
                }
                assert(!d0.contains(bucket@));
                assert(!entry_buckets(done).contains(bucket@));
                lemma_entries_in_absent(done, bucket@);
                assert(distinct_in_order(entry_buckets(next)) == d0.push(bucket@));
                assert forall|i: int| 0 <= i < groups@.len() implies {
                    &&& (#[trigger] groups@[i]).0@ == d0.push(bucket@)[i]
                    &&& groups@[i].1@ == entries_in(next, groups@[i].0@)
                } by {
                    if i < g0.len() {
                        assert(g0[i] == groups@[i]);
                    } else {
                        assert(groups@[i].1@ =~= seq![value]);
                        assert(entries_in(next, bucket@) =~= seq![value]);
                    }
                }
            }
        }
        proof {
            done = next;
        }
    }
    proof {
        assert(done =~= all);
    }
    groups
}

/// The texts of a sequence of strings.
pub open spec fn texts(s: Seq<String>) -> Seq<Seq<char>> {
    s.map_values(|t: String| t@)
}

/// The terms of a document, each once, in the order in which they first
/// occur.
pub fn distinct_terms(tokens: Vec<String>) -> (r: Vec<String>)
    ensures
        texts(r@) == distinct_in_order(texts(tokens@)),
{
    let ghost all = tokens@;
    let mut terms: Vec<String> = Vec::new();
    for token in it: tokens.into_iter()
        invariant
            it.seq() == all,
            texts(terms@) == distinct_in_order(texts(all.take(it.index() as int))),
    {
        let ghost k = it.index() as int;
        let mut j: usize = 0;
        let mut found = false;
        while j < terms.len()
            invariant_except_break
                !found,
                forall|i: int| 0 <= i < j ==> (#[trigger] terms@[i])@ != token@,
            invariant
                j <= terms@.len(),
            ensures
                found ==> j < terms@.len() && terms@[j as int]@ == token@,
                !found ==> forall|i: int| 0 <= i < terms@.len() ==> (#[trigger] terms@[i])@ != token@,
            decreases terms@.len() - j,
        {
            if terms[j] == token {
                found = true;
                break;
            }
            j = j + 1;
        }
        let ghost before = texts(all.take(k));
        let ghost after = texts(all.take(k + 1));
        proof {
            assert(after.drop_last() =~= before);
            assert(after.last() == token@);
        }
        if found {
            proof {
                assert(texts(terms@)[j as int] == token@);
                assert(distinct_in_order(before).contains(token@));
            }
        } else {
            let ghost t0 = terms@;
            proof {
                assert forall|i: int| 0 <= i < texts(t0).len() implies texts(t0)[i] != token@ by {
                    assert(t0[i]@ == texts(t0)[i]);
                }
                assert(!distinct_in_order(before).contains(token@));
            }
            terms.push(token);
            proof {
                assert(texts(terms@) =~= texts(t0).push(token@));
            }
        }
    }
    proof {
        assert(all.take(all.len() as int) =~= all);
    }
    terms
}

/// The normalized bytes of each token of a preprocessed text.
pub open spec fn input_terms(spans: Seq<TokenSpan>, normalized: Seq<char>) -> Seq<Seq<u8>> {
    spans.map_values(
        |sp: TokenSpan|
            encode_utf8(normalized).subrange(sp.start_normalized as int, sp.end_normalized as int),
    )
}

/// The hashes of terms.
pub open spec fn term_hashes(ws: Seq<Seq<u8>>) -> Seq<u32> {
    ws.map_values(|w: Seq<u8>| xxhash32(w))
}

/// The terms of tokens taken once per hash: each term whose hash no
/// earlier term had.
pub open spec fn passing_terms(ws: Seq<Seq<u8>>) -> Seq<Seq<u8>>
    decreases ws.len(),
{
    if ws.len() == 0 {
        Seq::empty()
    } else {
        let prev = passing_terms(ws.drop_last());
        if term_hashes(ws.drop_last()).contains(xxhash32(ws.last())) {
            prev
        } else {
            prev.push(ws.last())
        }
    }
}

/// The IID a push links its object to, and whether it is a new one: the
/// IID given to the same object by the last push presumed new, or the one
/// the store holds for the object; else the bucket's next IID.
pub open spec fn push_iid(
    presumed_new: bool,
    last: Option<(Seq<char>, u32)>,
    oid: Seq<char>,
    stored_iid: Option<u32>,
    counters: Map<u32, u32>,
    bucket_key: u32,
) -> (u32, bool) {
    if presumed_new {
        match last {
            Some(l) => if l.0 == oid {
                (l.1, false)
            } else {
                (next_iid_of(counters, bucket_key), true)
            },
            None => (next_iid_of(counters, bucket_key), true),
        }
    } else {
        match stored_iid {
            Some(i) => (i, false),
            None => (next_iid_of(counters, bucket_key), true),
        }
    }
}

/// The writes that give an object its new IID: the bumped counter, the
/// links between its name and the IID, then one more object counted.
pub open spec fn new_iid_writes(bucket: Seq<u8>, oid: Seq<u8>, iid: u32) -> Seq<KvWriteView> {
    seq![
        KvWriteView::Merge(kv_key(META_TO_VALUE, bucket, meta_route(StoreMetaKey::IIDIncr)), le32(iid)),
        KvWriteView::Put(kv_key(OID_TO_IID, bucket, xxhash32(oid)), le32(iid)),
        KvWriteView::Put(kv_key(IID_TO_OID, bucket, iid), oid),
        KvWriteView::Merge(kv_key(META_TO_VALUE, bucket, meta_route(StoreMetaKey::ObjectCount)), le32(1)),
    ]
}

/// The writes that link an IID to terms, one per term.
pub open spec fn term_link_writes(bucket: Seq<u8>, ws: Seq<Seq<u8>>, iid: u32) -> Seq<KvWriteView> {
    ws.map_values(|w: Seq<u8>| KvWriteView::Merge(kv_key(TERM_TO_IIDS, bucket, xxhash32(w)), le32(iid)))
}

/// The view of the last object pushed as presumed new.
pub open spec fn last_view(last: Option<(String, u32)>) -> Option<(Seq<char>, u32)> {
    match last {
        Some(l) => Some((l.0@, l.1)),
        None => None,
    }
}

/// Pushes the tokens of a text for an object: links the object to an IID
/// (see `push_iid`; a new one is written with its links to the object's
/// name, and remembered when pushes are presumed new), then, once per term
/// hash, schedules the term in the word graph and links the IID to it, and
/// last links the IID to all the term hashes: put as its whole list when
/// the object is presumed new and new, else merged one by one (in an order
/// left to the set of hashes). `stored_iid` is the IID the store holds for
/// the object, if any. Returns the writes, for the store to apply.
pub fn push_object(
    kv_action: &StoreKVActionReadWrite,
    counters: &mut IidCounters,
    graph: &mut FstStore,
    graph_config: &ConfigStoreFSTGraph,
    oid: StoreObjectOid,
    input: &PreprocessorOutput,
    presumed_new: bool,
    last_presumed_new: &mut Option<(String, u32)>,
    stored_iid: Option<u32>,
) -> (batch: KvWriteBatch)
    requires
        graph_config.max_size * 1024 <= usize::MAX,
    ensures
        ({
            let b = bucket_bytes(kv_action.spec_bucket());
            let bk = xxhash32(b);
            let o = oid.spec_str().spec_bytes();
            let ws = input_terms(input.spec_spans(), input.spec_normalized());
            let pass = passing_terms(ws);
            let (iid, is_new) = push_iid(
                presumed_new,
                last_view(*old(last_presumed_new)),
                oid.spec_str()@,
                stored_iid,
                old(counters)@,
                bk,
            );
            let head = if is_new {
                new_iid_writes(b, o, iid)
            } else {
                Seq::empty()
            };
            &&& final(counters)@ == (if is_new {
                old(counters)@.insert(bk, iid)
            } else {
                old(counters)@
            })
            &&& last_view(*final(last_presumed_new)) == (if presumed_new && is_new {
                Some((oid.spec_str()@, iid))
            } else {
                last_view(*old(last_presumed_new))
            })
            &&& final(graph).spec_pending() == push_steps(
                old(graph).spec_pending(),
                pass,
                old(graph).spec_words(),
                old(graph).spec_size(),
                *graph_config,
            ).0
            &&& final(graph).spec_should_consolidate() == (old(graph).spec_should_consolidate()
                || push_steps(
                old(graph).spec_pending(),
                pass,
                old(graph).spec_words(),
                old(graph).spec_size(),
                *graph_config,
            ).1)
            &&& final(graph).spec_words() == old(graph).spec_words()
            &&& final(graph).spec_size() == old(graph).spec_size()
            &&& final(graph).spec_config() == old(graph).spec_config()
            &&& object_count_change(b, batch@) == (if is_new {
                1int
            } else {
                0int
            })
            &&& mapping_change(b, batch@) == object_count_change(b, batch@)
            &&& exists|hs: Seq<u32>|
                {
                    &&& hs.no_duplicates()
                    &&& #[trigger] hs.to_set() == term_hashes(ws).to_set()
                    &&& batch@ == head + term_link_writes(b, pass, iid) + (if presumed_new
                        && is_new {
                        seq![KvWriteView::Put(kv_key(IID_TO_TERMS, b, iid), le32_concat(hs))]
                    } else {
                        merges_of(kv_key(IID_TO_TERMS, b, iid), hs)
                    })
                }
        }),
{
    let ghost b = bucket_bytes(kv_action.spec_bucket());
    let ghost o = oid.spec_str().spec_bytes();
    let ghost ws = input_terms(input.spec_spans(), input.spec_normalized());
    let mut batch = KvWriteBatch::new();
    let reuse: Option<u32> = if presumed_new {
        match last_presumed_new {
            Some(last) => if str_eq(last.0.as_str(), oid.as_str()) {
                Some(last.1)
            } else {
                None
            },
            None => None,
        }
    } else {
        stored_iid
    };
    let (iid, is_new) = match reuse {
        Some(known) => (known, false),
        None => {
            let iid = kv_action.get_new_iid(counters, &mut batch);
            kv_action.set_oid_to_iid(&mut batch, oid, iid);
            kv_action.set_iid_to_oid(&mut batch, iid, oid);
            kv_action.count_objects(&mut batch, 1);
            if presumed_new {
                *last_presumed_new = Some((oid.as_str().to_owned(), iid));
            }
            (iid, true)
        },
    };
    let ghost head = batch@;
    proof {
        if is_new {
            assert(head =~= new_iid_writes(b, o, iid));
        } else {
            assert(head =~= Seq::<KvWriteView>::empty());
        }
    }
    let tokens = input.tokens();
    let mut unique = UniqueBy::new(tokens.len());
    let mut passing: Vec<&str> = Vec::new();
    let mut k: usize = 0;
    proof {
        assert(ws.take(0) =~= Seq::<Seq<u8>>::empty());
        assert(term_hashes(ws.take(0)) =~= Seq::<u32>::empty());
        assert(term_hashes(ws.take(0)).to_set() =~= Set::<u32>::empty());
        assert(head + term_link_writes(b, Seq::<Seq<u8>>::empty(), iid) =~= head);
    }
    while k < tokens.len()
        invariant
            k <= tokens@.len(),
            tokens@.len() == input.spec_spans().len(),
            ws == input_terms(input.spec_spans(), input.spec_normalized()),
            forall|i: int|
                0 <= i < tokens@.len() ==> (#[trigger] tokens@[i]).spec_normalized().spec_bytes()
                    == ws[i],
            unique.spec_seen() == term_hashes(ws.take(k as int)).to_set(),
            passing@.map_values(|t: &str| t.spec_bytes()) == passing_terms(ws.take(k as int)),
            batch@ == head + term_link_writes(b, passing_terms(ws.take(k as int)), iid),
            b == bucket_bytes(kv_action.spec_bucket()),
        decreases tokens@.len() - k,
    {
        let h = tokens[k].hash().into_inner();
        let ghost prefix = ws.take(k as int);
        proof {
            let next = ws.take(k + 1);
            assert(next.drop_last() =~= prefix);
            assert(next.last() == ws[k as int]);
            assert(term_hashes(next) =~= term_hashes(prefix).push(h));
            term_hashes(prefix).lemma_push_to_set_commute(h);
            assert(term_hashes(prefix).to_set().contains(h) <==> term_hashes(prefix).contains(h));
        }
        if unique.take_key(h) {
            let term = tokens[k].as_normalized();
            let ghost before = passing@;
            passing.push(term);
            kv_action.add_term_to_iids(&mut batch, StoreTermHash::new(h), &[iid]);
            proof {
                assert(passing@.map_values(|t: &str| t.spec_bytes()) =~= before.map_values(
                    |t: &str| t.spec_bytes(),
                ).push(ws[k as int]));
                assert(merges_of(kv_key(TERM_TO_IIDS, b, h), seq![iid]) =~= seq![
                    KvWriteView::Merge(kv_key(TERM_TO_IIDS, b, h), le32(iid)),
                ]);
                assert(term_link_writes(b, passing_terms(ws.take(k + 1)), iid) =~= term_link_writes(
                    b,
                    passing_terms(prefix),
                    iid,
                ).push(KvWriteView::Merge(kv_key(TERM_TO_IIDS, b, h), le32(iid))));
            }
        }
        k = k + 1;
    }
    proof {
        assert(ws.take(tokens@.len() as int) =~= ws);
    }
    graph.push_words(&passing, graph_config);
    let seen = unique.seen();
    let ghost before_tail = batch@;
    if presumed_new && is_new {
        kv_action.set_iid_to_terms(&mut batch, iid, seen.as_slice());
    } else {
        kv_action.add_iid_to_terms(&mut batch, iid, seen.as_slice());
    }
    proof {
        let hs = seen@;
        assert(hs.to_set() == term_hashes(ws).to_set());
        let tail = if presumed_new && is_new {
            seq![KvWriteView::Put(kv_key(IID_TO_TERMS, b, iid), le32_concat(hs))]
        } else {
            merges_of(kv_key(IID_TO_TERMS, b, iid), hs)
        };
        assert(batch@ == head + term_link_writes(b, passing_terms(ws), iid) + tail);
        if presumed_new && is_new {
            lemma_term_write_neutral(b, IID_TO_TERMS, iid, tail[0]);
            assert(neutral_writes(b, tail));
        } else {
            lemma_merges_neutral(b, iid, hs);
        }
        lemma_push_changes(b, head, passing_terms(ws), iid, tail, is_new, o);
    }
    batch
}

/// The IID list read for a term hash, among lists read: the first read
/// for it, or none.
pub open spec fn held_list(held: Seq<(u32, Option<Seq<u32>>)>, h: u32) -> Option<Seq<u32>>
    decreases held.len(),
{
    if held.len() == 0 {
        None
    } else if held[0].0 == h {
        held[0].1
    } else {
        held_list(held.drop_first(), h)
    }
}

/// The view of lists read by term hash.
pub open spec fn held_view(held: Seq<(u32, Option<Vec<u32>>)>) -> Seq<(u32, Option<Seq<u32>>)> {
    held.map_values(
        |e: (u32, Option<Vec<u32>>)|
            (
                e.0,
                match e.1 {
                    Some(v) => Some(v@),
                    None => None,
                },
            ),
    )
}

/// The writes of a pop that unlinks an object from some of its terms: for
/// each popped term (once per hash) that the object has and whose IID list
/// was read, that list without the object, or the term's deletion.
pub open spec fn pop_unlink_writes(
    bucket: Seq<u8>,
    pass: Seq<Seq<u8>>,
    object_terms: Seq<u32>,
    held: Seq<(u32, Option<Seq<u32>>)>,
    iid: u32,
) -> Seq<KvWriteView>
    decreases pass.len(),
{
    if pass.len() == 0 {
        Seq::empty()
    } else {
        let prev = pop_unlink_writes(bucket, pass.drop_last(), object_terms, held, iid);
        let h = xxhash32(pass.last());
        if object_terms.contains(h) {
            match held_list(held, h) {
                Some(l) => prev.push(term_flush_write(bucket, h, l, iid)),
                None => prev,
            }
        } else {
            prev
        }
    }
}

/// The popped terms that no object holds any more: they leave the graph.
pub open spec fn pop_unlink_words(
    pass: Seq<Seq<u8>>,
    object_terms: Seq<u32>,
    held: Seq<(u32, Option<Seq<u32>>)>,
    iid: u32,
) -> Seq<Seq<u8>>
    decreases pass.len(),
{
    if pass.len() == 0 {
        Seq::empty()
    } else {
        let prev = pop_unlink_words(pass.drop_last(), object_terms, held, iid);
        let h = xxhash32(pass.last());
        if object_terms.contains(h) && (held_list(held, h) matches Some(l) && without(
            l,
            set![iid],
        ).len() == 0) {
            prev.push(pass.last())
        } else {
            prev
        }
    }
}

/// The pending actions after pops of words one after the other, and
/// whether any was committed.
pub open spec fn pop_steps(
    m: Map<Seq<u8>, PendingAction>,
    words: Seq<Seq<u8>>,
    graph: Seq<Seq<u8>>,
) -> (Map<Seq<u8>, PendingAction>, bool)
    decreases words.len(),
{
    if words.len() == 0 {
        (m, false)
    } else {
        let prev = pop_steps(m, words.drop_last(), graph);
        let step = pop_step(prev.0, words.last(), graph);
        (step.0, prev.1 || step.1)
    }
}

/// The IID list read for a term hash, if any.
fn find_held(held: &Vec<(u32, Option<Vec<u32>>)>, h: u32) -> (r: Option<&Vec<u32>>)
    ensures
        match held_list(held_view(held@), h) {
            None => r is None,
            Some(l) => r matches Some(v) && v@ == l,
        },
{
    let ghost hv = held_view(held@);
    let mut i: usize = 0;
    proof {
        assert(hv.skip(0) =~= hv);
    }
    while i < held.len()
        invariant
            i <= held@.len(),
            hv == held_view(held@),
            held_list(hv, h) == held_list(hv.skip(i as int), h),
        decreases held@.len() - i,
    {
        proof {
            let rest = hv.skip(i as int);
            assert(rest[0] == hv[i as int]);
            assert(rest.drop_first() =~= hv.skip(i + 1));
        }
        if held[i].0 == h {
            return match &held[i].1 {
                Some(v) => Some(v),
                None => None,
            };
        }
        i = i + 1;
    }
    proof {
        assert(hv.skip(i as int) =~= Seq::<(u32, Option<Seq<u32>>)>::empty());
    }
    None
}

/// Whether a list holds a word.
fn holds(v: &Vec<u32>, x: u32) -> (r: bool)
    ensures
        r == v@.contains(x),
{
    let mut i: usize = 0;
    while i < v.len()
        invariant
            i <= v@.len(),
            forall|j: int| 0 <= j < i ==> v@[j] != x,
        decreases v@.len() - i,
    {
        if v[i] == x {
            assert(v@[i as int] == x);
            return true;
        }
        i = i + 1;
    }
    false
}

/// The number of an object's terms that a pop of the terms `ws` takes.
pub open spec fn pop_count(obj: Seq<u32>, ws: Seq<Seq<u8>>) -> u32 {
    (last_seen(obj).len() - pop_remaining(obj, term_hashes(ws)).len()) as u32
}

/// The writes of a pop of the terms `ws` from an object of IID `iid` named
/// `oid` (see `pop_object`).
pub open spec fn pop_writes(
    b: Seq<u8>,
    oid: Seq<u8>,
    ws: Seq<Seq<u8>>,
    obj: Seq<u32>,
    hv: Seq<(u32, Option<Seq<u32>>)>,
    iid: u32,
) -> Seq<KvWriteView> {
    let remaining = pop_remaining(obj, term_hashes(ws));
    if pop_count(obj, ws) == 0 {
        Seq::empty()
    } else if remaining.len() == 0 {
        seq![
            KvWriteView::Delete(kv_key(OID_TO_IID, b, xxhash32(oid))),
            KvWriteView::Delete(kv_key(IID_TO_OID, b, iid)),
            KvWriteView::Delete(kv_key(IID_TO_TERMS, b, iid)),
        ] + term_flush_writes(b, obj.map_values(|h: u32| (h, held_list(hv, h))), iid).push(
            KvWriteView::Merge(
                kv_key(META_TO_VALUE, b, meta_route(StoreMetaKey::ObjectCount)),
                le32(-1i32 as u32),
            ),
        )
    } else {
        pop_unlink_writes(b, passing_terms(ws), obj, hv, iid).push(
            KvWriteView::Put(kv_key(IID_TO_TERMS, b, iid), le32_concat(remaining)),
        )
    }
}

/// Whether a pop unlinks the object from some of its terms and keeps it.
pub open spec fn pop_unlinks(obj: Seq<u32>, ws: Seq<Seq<u8>>) -> bool {
    pop_count(obj, ws) != 0 && pop_remaining(obj, term_hashes(ws)).len() > 0
}

/// Pops the tokens of a text from an object of IID `iid`, given the term
/// hashes the object is linked to and the IID lists read for term hashes
/// (`held`). Counts the object's terms that go (see `plan_pop`); when none
/// does, nothing is written. When all go, the object is flushed out of the
/// bucket, which then counts one object fewer; else each popped term it has drops it (the term is deleted,
/// and popped from the graph, when no IID is left) and the object keeps
/// the others. Returns the count, and the writes for the store to apply.
pub fn pop_object(
    kv_action: &StoreKVActionReadWrite,
    graph: &mut FstStore,
    oid: StoreObjectOid,
    input: &PreprocessorOutput,
    iid: u32,
    object_terms: &Vec<u32>,
    held: &Vec<(u32, Option<Vec<u32>>)>,
) -> (r: (u32, KvWriteBatch))
    requires
        object_terms@.len() <= u32::MAX,
    ensures
        ({
            let b = bucket_bytes(kv_action.spec_bucket());
            let ws = input_terms(input.spec_spans(), input.spec_normalized());
            let popped = term_hashes(ws);
            let obj = object_terms@;
            let hv = held_view(held@);
            let remaining = pop_remaining(obj, popped);
            let count = (last_seen(obj).len() - remaining.len()) as u32;
            let flushing = count != 0 && remaining.len() == 0;
            let unlinking = count != 0 && remaining.len() > 0;
            &&& r.0 == count
            &&& count == 0 ==> r.1@ == Seq::<KvWriteView>::empty()
            &&& flushing ==> r.1@ == seq![
                KvWriteView::Delete(kv_key(OID_TO_IID, b, xxhash32(oid.spec_str().spec_bytes()))),
                KvWriteView::Delete(kv_key(IID_TO_OID, b, iid)),
                KvWriteView::Delete(kv_key(IID_TO_TERMS, b, iid)),
            ] + term_flush_writes(b, obj.map_values(|h: u32| (h, held_list(hv, h))), iid).push(
                KvWriteView::Merge(
                    kv_key(META_TO_VALUE, b, meta_route(StoreMetaKey::ObjectCount)),
                    le32(-1i32 as u32),
                ),
            )
            &&& unlinking ==> r.1@ == pop_unlink_writes(b, passing_terms(ws), obj, hv, iid).push(
                KvWriteView::Put(kv_key(IID_TO_TERMS, b, iid), le32_concat(remaining)),
            )
            &&& final(graph).spec_pending() == (if unlinking {
                pop_steps(
                    old(graph).spec_pending(),
                    pop_unlink_words(passing_terms(ws), obj, hv, iid),
                    old(graph).spec_words(),
                ).0
            } else {
                old(graph).spec_pending()
            })
            &&& final(graph).spec_should_consolidate() == (old(graph).spec_should_consolidate() || (
            unlinking && pop_steps(
                old(graph).spec_pending(),
                pop_unlink_words(passing_terms(ws), obj, hv, iid),
                old(graph).spec_words(),
            ).1))
            &&& final(graph).spec_words() == old(graph).spec_words()
            &&& final(graph).spec_size() == old(graph).spec_size()
            &&& final(graph).spec_config() == old(graph).spec_config()
            &&& object_count_change(b, r.1@) == (if flushing {
                -1int
            } else {
                0int
            })
            &&& mapping_change(b, r.1@) == object_count_change(b, r.1@)
            &&& r.0 == pop_count(obj, ws)
            &&& r.1@ == pop_writes(b, oid.spec_str().spec_bytes(), ws, obj, hv, iid)
        }),
{
    let ghost b = bucket_bytes(kv_action.spec_bucket());
    let hashes = token_hashes(input);
    let plan = plan_pop(object_terms, &hashes);
    let mut batch = KvWriteBatch::new();
    match plan.outcome {
        PopOutcome::Unchanged => {},
        PopOutcome::FlushObject => {
            let terms = terms_with_lists(object_terms, held);
            kv_action.batch_flush_bucket(&mut batch, iid, oid, &terms);
            kv_action.count_objects(&mut batch, -1);
            proof {
                lemma_flush_changes(b, oid.spec_str().spec_bytes(), iid, term_lists_view(terms@));
            }
        },
        PopOutcome::Unlink { unlink: _, remaining } => {
            unlink_popped_terms(kv_action, graph, &mut batch, input, iid, object_terms, held);
            let ghost unlinked = batch@;
            kv_action.set_iid_to_terms(&mut batch, iid, remaining.as_slice());
            proof {
                let w = batch@.last();
                assert(batch@ == unlinked.push(w));
                lemma_pop_unlink_neutral(
                    b,
                    passing_terms(input_terms(input.spec_spans(), input.spec_normalized())),
                    object_terms@,
                    held_view(held@),
                    iid,
                );
                lemma_term_write_neutral(b, IID_TO_TERMS, iid, w);
                assert forall|i: int| 0 <= i < batch@.len() implies count_step(
                    b,
                    #[trigger] batch@[i],
                ) == 0 && mapping_step(b, batch@[i]) == 0 by {
                    if i < unlinked.len() {
                        assert(batch@[i] == unlinked[i]);
                    }
                }
                lemma_neutral_changes(b, batch@);
            }
        },
    }
    (plan.count_popped, batch)
}

/// A pop, from the store's answers: a count of none and no write when the
/// collection has no store, when the object's name maps to no IID, or when
/// the object's terms cannot be read or there are none; refused when the
/// name's mapping cannot be read; else the pop of the text from the object
/// (see `pop_object`).
pub fn pop_from_store(
    kv_action: &StoreKVActionReadWrite,
    graph: &mut FstStore,
    oid: StoreObjectOid,
    input: &PreprocessorOutput,
    store_exists: bool,
    mapped_iid: Result<Option<u32>, ()>,
    object_terms: Result<Option<Vec<u32>>, ()>,
    held: &Vec<(u32, Option<Vec<u32>>)>,
) -> (r: Result<(u32, KvWriteBatch), ()>)
    requires
        object_terms matches Ok(Some(t)) ==> t@.len() <= u32::MAX,
    ensures
        ({
            let b = bucket_bytes(kv_action.spec_bucket());
            let ws = input_terms(input.spec_spans(), input.spec_normalized());
            let hv = held_view(held@);
            match (store_exists, mapped_iid, object_terms) {
                (true, Err(_), _) => r is Err && *final(graph) == *old(graph),
                (true, Ok(Some(iid)), Ok(Some(t))) => r matches Ok(p) && p.0 == pop_count(t@, ws)
                    && p.1@ == pop_writes(b, oid.spec_str().spec_bytes(), ws, t@, hv, iid) && (
                final(graph).spec_pending() == (if pop_unlinks(t@, ws) {
                    pop_steps(
                        old(graph).spec_pending(),
                        pop_unlink_words(passing_terms(ws), t@, hv, iid),
                        old(graph).spec_words(),
                    ).0
                } else {
                    old(graph).spec_pending()
                })) && final(graph).spec_words() == old(graph).spec_words(),
                _ => r matches Ok(p) && p.0 == 0 && p.1@ == Seq::<KvWriteView>::empty()
                    && *final(graph) == *old(graph),
            }
        }),
{
    if !store_exists {
        return Ok((0, KvWriteBatch::new()));
    }
    match mapped_iid {
        Err(()) => Err(()),
        Ok(None) => Ok((0, KvWriteBatch::new())),
        Ok(Some(iid)) => match object_terms {
            Ok(Some(terms)) => Ok(pop_object(kv_action, graph, oid, input, iid, &terms, held)),
            _ => Ok((0, KvWriteBatch::new())),
        },
    }
}

/// The hashes of the tokens of a preprocessed text.
fn token_hashes(input: &PreprocessorOutput) -> (r: Vec<u32>)
    ensures
        r@ == term_hashes(input_terms(input.spec_spans(), input.spec_normalized())),
{
    let ghost ws = input_terms(input.spec_spans(), input.spec_normalized());
    let tokens = input.tokens();
    let mut hashes: Vec<u32> = Vec::new();
    let mut k: usize = 0;
    while k < tokens.len()
        invariant
            k <= tokens@.len(),
            tokens@.len() == input.spec_spans().len(),
            ws == input_terms(input.spec_spans(), input.spec_normalized()),
            forall|i: int|
                0 <= i < tokens@.len() ==> (#[trigger] tokens@[i]).spec_normalized().spec_bytes()
                    == ws[i],
            hashes@ == term_hashes(ws.take(k as int)),
        decreases tokens@.len() - k,
    {
        let h = tokens[k].hash().into_inner();
        hashes.push(h);
        proof {
            assert(term_hashes(ws.take(k + 1)) =~= term_hashes(ws.take(k as int)).push(h));
        }
        k = k + 1;
    }
    proof {
        assert(ws.take(tokens@.len() as int) =~= ws);
    }
    hashes
}

/// Each term hash of an object with the IID list read for it.
fn terms_with_lists(object_terms: &Vec<u32>, held: &Vec<(u32, Option<Vec<u32>>)>) -> (r: Vec<
    (u32, Option<Vec<u32>>),
>)
    ensures
        held_view(r@) == object_terms@.map_values(|h: u32| (h, held_list(held_view(held@), h))),
        r@.len() == object_terms@.len(),
{
    let ghost hv = held_view(held@);
    let mut terms: Vec<(u32, Option<Vec<u32>>)> = Vec::new();
    let mut i: usize = 0;
    while i < object_terms.len()
        invariant
            i <= object_terms@.len(),
            hv == held_view(held@),
            terms@.len() == i,
            held_view(terms@) == object_terms@.take(i as int).map_values(
                |h: u32| (h, held_list(hv, h)),
            ),
        decreases object_terms@.len() - i,
    {
        let h = object_terms[i];
        let list = match find_held(held, h) {
            Some(v) => Some(v.clone()),
            None => None,
        };
        proof {
            if list is Some {
                assert(list->Some_0@ =~= held_list(hv, h)->Some_0);
            }
        }
        let ghost before = terms@;
        terms.push((h, list));
        proof {
            assert(held_view(terms@) =~= held_view(before).push((h, held_list(hv, h))));
            assert(object_terms@.take(i + 1).map_values(|h: u32| (h, held_list(hv, h)))
                =~= object_terms@.take(i as int).map_values(|h: u32| (h, held_list(hv, h))).push(
                (h, held_list(hv, h)),
            ));
        }
        i = i + 1;
    }
    proof {
        assert(object_terms@.take(object_terms@.len() as int) =~= object_terms@);
    }
    terms
}

/// Unlinks an object from each popped term it has (once per hash), with
/// the IID list read for the term: the list without the object is put, or
/// the term deleted and popped from the graph when no IID is left.
fn unlink_popped_terms(
    kv_action: &StoreKVActionReadWrite,
    graph: &mut FstStore,
    batch: &mut KvWriteBatch,
    input: &PreprocessorOutput,
    iid: u32,
    object_terms: &Vec<u32>,
    held: &Vec<(u32, Option<Vec<u32>>)>,
)
    ensures
        ({
            let b = bucket_bytes(kv_action.spec_bucket());
            let ws = input_terms(input.spec_spans(), input.spec_normalized());
            let hv = held_view(held@);
            let words = pop_unlink_words(passing_terms(ws), object_terms@, hv, iid);
            &&& final(batch)@ == old(batch)@ + pop_unlink_writes(
                b,
                passing_terms(ws),
                object_terms@,
                hv,
                iid,
            )
            &&& final(graph).spec_pending() == pop_steps(
                old(graph).spec_pending(),
                words,
                old(graph).spec_words(),
            ).0
            &&& final(graph).spec_should_consolidate() == (old(graph).spec_should_consolidate()
                || pop_steps(old(graph).spec_pending(), words, old(graph).spec_words()).1)
            &&& final(graph).spec_words() == old(graph).spec_words()
            &&& final(graph).spec_size() == old(graph).spec_size()
            &&& final(graph).spec_config() == old(graph).spec_config()
        }),
{
    let ghost b = bucket_bytes(kv_action.spec_bucket());
    let ghost ws = input_terms(input.spec_spans(), input.spec_normalized());
    let ghost hv = held_view(held@);
    let ghost batch0 = batch@;
    let ghost pending0 = graph.spec_pending();
    let ghost consolidate0 = graph.spec_should_consolidate();
    let tokens = input.tokens();
    let mut unique = UniqueBy::new(tokens.len());
    let mut k: usize = 0;
    proof {
        assert(ws.take(0) =~= Seq::<Seq<u8>>::empty());
        assert(term_hashes(ws.take(0)).to_set() =~= Set::<u32>::empty());
        assert(batch0 + Seq::<KvWriteView>::empty() =~= batch0);
    }
    while k < tokens.len()
        invariant
            k <= tokens@.len(),
            tokens@.len() == input.spec_spans().len(),
            ws == input_terms(input.spec_spans(), input.spec_normalized()),
            hv == held_view(held@),
            b == bucket_bytes(kv_action.spec_bucket()),
            forall|i: int|
                0 <= i < tokens@.len() ==> (#[trigger] tokens@[i]).spec_normalized().spec_bytes()
                    == ws[i],
            unique.spec_seen() == term_hashes(ws.take(k as int)).to_set(),
            batch@ == batch0 + pop_unlink_writes(
                b,
                passing_terms(ws.take(k as int)),
                object_terms@,
                hv,
                iid,
            ),
            graph.spec_pending() == pop_steps(
                pending0,
                pop_unlink_words(passing_terms(ws.take(k as int)), object_terms@, hv, iid),
                old(graph).spec_words(),
            ).0,
            graph.spec_should_consolidate() == (consolidate0 || pop_steps(
                pending0,
                pop_unlink_words(passing_terms(ws.take(k as int)), object_terms@, hv, iid),
                old(graph).spec_words(),
            ).1),
            graph.spec_words() == old(graph).spec_words(),
            graph.spec_size() == old(graph).spec_size(),
            graph.spec_config() == old(graph).spec_config(),
            pending0 == old(graph).spec_pending(),
            consolidate0 == old(graph).spec_should_consolidate(),
            batch0 == old(batch)@,
        decreases tokens@.len() - k,
    {
        let h = tokens[k].hash().into_inner();
        let ghost prefix = ws.take(k as int);
        let ghost pass0 = passing_terms(prefix);
        let ghost words0 = pop_unlink_words(pass0, object_terms@, hv, iid);
        proof {
            let next = ws.take(k + 1);
            assert(next.drop_last() =~= prefix);
            assert(next.last() == ws[k as int]);
            assert(term_hashes(next) =~= term_hashes(prefix).push(h));
            term_hashes(prefix).lemma_push_to_set_commute(h);
            assert(term_hashes(prefix).to_set().contains(h) <==> term_hashes(prefix).contains(h));
        }
        if unique.take_key(h) {
            let ghost w = ws[k as int];
            let ghost pass1 = pass0.push(w);
            proof {
                assert(passing_terms(ws.take(k + 1)) == pass1);
                assert(pass1.drop_last() =~= pass0);
                assert(pass1.last() == w);
                assert(xxhash32(w) == h);
            }
            if holds(object_terms, h) {
                match find_held(held, h) {
                    Some(list) => {
                        let (_, kept) = term_after_unlink(list, iid);
                        let term_hash = StoreTermHash::new(h);
                        match kept {
                            None => {
                                kv_action.delete_term_to_iids(batch, term_hash);
                                let ghost before_pending = graph.spec_pending();
                                let ghost before_consolidate = graph.spec_should_consolidate();
                                let term = tokens[k].as_normalized();
                                graph.pop_word(term);
                                proof {
                                    let words1 = words0.push(w);
                                    assert(pop_unlink_words(pass1, object_terms@, hv, iid) == words1);
                                    assert(words1.drop_last() =~= words0);
                                    assert(words1.last() == w);
                                    assert(term.spec_bytes() == w);
                                    let step = pop_step(before_pending, w, old(graph).spec_words());
                                    assert(graph.spec_pending() == step.0);
                                    assert(graph.spec_should_consolidate() == (before_consolidate
                                        || step.1));
                                    assert(pop_unlink_writes(b, pass1, object_terms@, hv, iid)
                                        =~= pop_unlink_writes(b, pass0, object_terms@, hv, iid).push(
                                        term_flush_write(b, h, list@, iid),
                                    ));
                                }
                            },
                            Some(l) => {
                                kv_action.set_term_to_iids(batch, term_hash, l.as_slice());
                                proof {
                                    assert(pop_unlink_words(pass1, object_terms@, hv, iid) == words0);
                                }
                            },
                        }
                    },
                    None => {
                        proof {
                            assert(pop_unlink_words(pass1, object_terms@, hv, iid) == words0);
                        }
                    },
                }
            } else {
                proof {
                    assert(pop_unlink_words(pass1, object_terms@, hv, iid) == words0);
                }
            }
        } else {
            proof {
                assert(passing_terms(ws.take(k + 1)) == pass0);
            }
        }
        k = k + 1;
    }
    proof {
        assert(ws.take(tokens@.len() as int) =~= ws);
    }
}

/// The key of a bucket's `ObjectCount` meta value.
pub open spec fn object_count_key(bucket: Seq<u8>) -> Seq<u8> {
    kv_key(META_TO_VALUE, bucket, meta_route(StoreMetaKey::ObjectCount))
}

/// Whether a key is of a bucket's family `idx` (its byte after the bucket
/// and the separator).
pub open spec fn in_family(bucket: Seq<u8>, key: Seq<u8>, idx: u8) -> bool {
    key.len() == bucket.len() + 6 && key[bucket.len() + 1int] == idx
}

/// What a write adds to a bucket's object count: the signed operand merged
/// into its `ObjectCount` value, else nothing.
pub open spec fn count_step(bucket: Seq<u8>, w: KvWriteView) -> int {
    match w {
        KvWriteView::Merge(k, v) => if k == object_count_key(bucket) {
            (le32_value(v) as i32) as int
        } else {
            0
        },
        _ => 0,
    }
}

/// What a write adds to the number of object names a bucket maps to IIDs:
/// one for a name-to-IID put, minus one for its deletion, else nothing.
pub open spec fn mapping_step(bucket: Seq<u8>, w: KvWriteView) -> int {
    match w {
        KvWriteView::Put(k, _) => if in_family(bucket, k, OID_TO_IID) {
            1
        } else {
            0
        },
        KvWriteView::Delete(k) => if in_family(bucket, k, OID_TO_IID) {
            -1
        } else {
            0
        },
        _ => 0,
    }
}

/// What writes add to a bucket's object count.
pub open spec fn object_count_change(bucket: Seq<u8>, ws: Seq<KvWriteView>) -> int
    decreases ws.len(),
{
    if ws.len() == 0 {
        0
    } else {
        object_count_change(bucket, ws.drop_last()) + count_step(bucket, ws.last())
    }
}

/// What writes add to the number of object names a bucket maps.
pub open spec fn mapping_change(bucket: Seq<u8>, ws: Seq<KvWriteView>) -> int
    decreases ws.len(),
{
    if ws.len() == 0 {
        0
    } else {
        mapping_change(bucket, ws.drop_last()) + mapping_step(bucket, ws.last())
    }
}

/// Writes that change neither the object count nor the names mapped.
pub open spec fn neutral_writes(bucket: Seq<u8>, ws: Seq<KvWriteView>) -> bool {
    forall|i: int|
        0 <= i < ws.len() ==> count_step(bucket, #[trigger] ws[i]) == 0 && mapping_step(bucket, ws[i])
            == 0
}

/// A key of one family is of that family, and of no other.
proof fn lemma_kv_key_family(idx: u8, bucket: Seq<u8>, route: u32)
    ensures
        kv_key(idx, bucket, route).len() == bucket.len() + 6,
        kv_key(idx, bucket, route)[bucket.len() + 1int] == idx,
        kv_key(idx, bucket, route)[bucket.len() + 5int] == (route % 256) as u8,
{
}

/// A write to a term's list, or to an object's term list, is neutral.
proof fn lemma_term_write_neutral(bucket: Seq<u8>, idx: u8, route: u32, w: KvWriteView)
    requires
        idx == TERM_TO_IIDS || idx == IID_TO_TERMS || idx == IID_TO_OID,
        match w {
            KvWriteView::Put(k, _) => k == kv_key(idx, bucket, route),
            KvWriteView::Merge(k, _) => k == kv_key(idx, bucket, route),
            KvWriteView::Delete(k) => k == kv_key(idx, bucket, route),
            KvWriteView::DeleteRange(_, _) => false,
        },
    ensures
        count_step(bucket, w) == 0,
        mapping_step(bucket, w) == 0,
{
    lemma_kv_key_family(idx, bucket, route);
    lemma_kv_key_family(META_TO_VALUE, bucket, meta_route(StoreMetaKey::ObjectCount));
}

/// The counts of writes one after the other add up.
proof fn lemma_changes_concat(bucket: Seq<u8>, a: Seq<KvWriteView>, b: Seq<KvWriteView>)
    ensures
        object_count_change(bucket, a + b) == object_count_change(bucket, a) + object_count_change(
            bucket,
            b,
        ),
        mapping_change(bucket, a + b) == mapping_change(bucket, a) + mapping_change(bucket, b),
    decreases b.len(),
{
    if b.len() == 0 {
        assert(a + b =~= a);
    } else {
        lemma_changes_concat(bucket, a, b.drop_last());
        assert((a + b).drop_last() =~= a + b.drop_last());
        assert((a + b).last() == b.last());
    }
}

/// Neutral writes change nothing.
proof fn lemma_neutral_changes(bucket: Seq<u8>, ws: Seq<KvWriteView>)
    requires
        neutral_writes(bucket, ws),
    ensures
        object_count_change(bucket, ws) == 0,
        mapping_change(bucket, ws) == 0,
    decreases ws.len(),
{
    if ws.len() > 0 {
        assert(neutral_writes(bucket, ws.drop_last())) by {
            assert forall|i: int| 0 <= i < ws.drop_last().len() implies count_step(
                bucket,
                #[trigger] ws.drop_last()[i],
            ) == 0 && mapping_step(bucket, ws.drop_last()[i]) == 0 by {
                assert(ws.drop_last()[i] == ws[i]);
            }
        }
        lemma_neutral_changes(bucket, ws.drop_last());
        assert(ws.last() == ws[ws.len() - 1]);
    }
}

/// The term writes of flushing an object are neutral.
proof fn lemma_term_flush_neutral(bucket: Seq<u8>, terms: Seq<(u32, Option<Seq<u32>>)>, iid: u32)
    ensures
        neutral_writes(bucket, term_flush_writes(bucket, terms, iid)),
    decreases terms.len(),
{
    if terms.len() > 0 {
        lemma_term_flush_neutral(bucket, terms.drop_last(), iid);
        let prev = term_flush_writes(bucket, terms.drop_last(), iid);
        match terms.last().1 {
            Some(l) => {
                let w = term_flush_write(bucket, terms.last().0, l, iid);
                lemma_term_write_neutral(bucket, TERM_TO_IIDS, terms.last().0, w);
                assert forall|i: int| 0 <= i < prev.push(w).len() implies count_step(
                    bucket,
                    #[trigger] prev.push(w)[i],
                ) == 0 && mapping_step(bucket, prev.push(w)[i]) == 0 by {
                    if i < prev.len() {
                        assert(prev.push(w)[i] == prev[i]);
                    }
                }
            },
            None => {},
        }
    }
}

/// The writes of unlinking an object from some of its terms are neutral.
proof fn lemma_pop_unlink_neutral(
    bucket: Seq<u8>,
    pass: Seq<Seq<u8>>,
    object_terms: Seq<u32>,
    held: Seq<(u32, Option<Seq<u32>>)>,
    iid: u32,
)
    ensures
        neutral_writes(bucket, pop_unlink_writes(bucket, pass, object_terms, held, iid)),
    decreases pass.len(),
{
    if pass.len() > 0 {
        lemma_pop_unlink_neutral(bucket, pass.drop_last(), object_terms, held, iid);
        let prev = pop_unlink_writes(bucket, pass.drop_last(), object_terms, held, iid);
        let h = xxhash32(pass.last());
        if object_terms.contains(h) {
            match held_list(held, h) {
                Some(l) => {
                    let w = term_flush_write(bucket, h, l, iid);
                    lemma_term_write_neutral(bucket, TERM_TO_IIDS, h, w);
                    assert forall|i: int| 0 <= i < prev.push(w).len() implies count_step(
                        bucket,
                        #[trigger] prev.push(w)[i],
                    ) == 0 && mapping_step(bucket, prev.push(w)[i]) == 0 by {
                        if i < prev.len() {
                            assert(prev.push(w)[i] == prev[i]);
                        }
                    }
                },
                None => {},
            }
        }
    }
}

/// The term links of a push are neutral.
proof fn lemma_term_links_neutral(bucket: Seq<u8>, ws: Seq<Seq<u8>>, iid: u32)
    ensures
        neutral_writes(bucket, term_link_writes(bucket, ws, iid)),
{
    let t = term_link_writes(bucket, ws, iid);
    assert forall|i: int| 0 <= i < t.len() implies count_step(bucket, #[trigger] t[i]) == 0
        && mapping_step(bucket, t[i]) == 0 by {
        lemma_term_write_neutral(bucket, TERM_TO_IIDS, xxhash32(ws[i]), t[i]);
    }
}

/// The merges of term hashes into an object's list are neutral.
proof fn lemma_merges_neutral(bucket: Seq<u8>, iid: u32, hs: Seq<u32>)
    ensures
        neutral_writes(bucket, merges_of(kv_key(IID_TO_TERMS, bucket, iid), hs)),
{
    let t = merges_of(kv_key(IID_TO_TERMS, bucket, iid), hs);
    assert forall|i: int| 0 <= i < t.len() implies count_step(bucket, #[trigger] t[i]) == 0
        && mapping_step(bucket, t[i]) == 0 by {
        lemma_term_write_neutral(bucket, IID_TO_TERMS, iid, t[i]);
    }
}

/// Giving an object a new IID maps one more name and counts one more
/// object.
proof fn lemma_new_iid_changes(bucket: Seq<u8>, oid: Seq<u8>, iid: u32)
    ensures
        object_count_change(bucket, new_iid_writes(bucket, oid, iid)) == 1,
        mapping_change(bucket, new_iid_writes(bucket, oid, iid)) == 1,
{
    let ws = new_iid_writes(bucket, oid, iid);
    lemma_kv_key_family(META_TO_VALUE, bucket, 0);
    lemma_kv_key_family(META_TO_VALUE, bucket, 1);
    lemma_kv_key_family(OID_TO_IID, bucket, xxhash32(oid));
    lemma_kv_key_family(IID_TO_OID, bucket, iid);
    lemma_i32_roundtrip(1);
    assert(1i32 as u32 == 1u32);
    assert(kv_key(META_TO_VALUE, bucket, 0) != object_count_key(bucket)) by {
        assert(kv_key(META_TO_VALUE, bucket, 0)[bucket.len() + 5int] != object_count_key(
            bucket,
        )[bucket.len() + 5int]);
    }
    assert(count_step(bucket, ws[0]) == 0);
    assert(count_step(bucket, ws[3]) == 1);
    assert(mapping_step(bucket, ws[1]) == 1);
    assert(mapping_step(bucket, ws[2]) == 0);
    reveal_with_fuel(object_count_change, 5);
    reveal_with_fuel(mapping_change, 5);
    assert(ws.drop_last() =~= seq![ws[0], ws[1], ws[2]]);
    assert(ws.drop_last().drop_last() =~= seq![ws[0], ws[1]]);
    assert(ws.drop_last().drop_last().drop_last() =~= seq![ws[0]]);
    assert(ws.drop_last().drop_last().drop_last().drop_last() =~= Seq::<KvWriteView>::empty());
}

/// Flushing an object out unmaps one name and counts one object fewer.
proof fn lemma_flush_changes(bucket: Seq<u8>, oid: Seq<u8>, iid: u32, terms: Seq<(u32, Option<Seq<u32>>)>)
    ensures
        ({
            let ws = seq![
                KvWriteView::Delete(kv_key(OID_TO_IID, bucket, xxhash32(oid))),
                KvWriteView::Delete(kv_key(IID_TO_OID, bucket, iid)),
                KvWriteView::Delete(kv_key(IID_TO_TERMS, bucket, iid)),
            ] + term_flush_writes(bucket, terms, iid).push(
                KvWriteView::Merge(object_count_key(bucket), le32(-1i32 as u32)),
            );
            &&& object_count_change(bucket, ws) == -1
            &&& mapping_change(bucket, ws) == -1
        }),
{
    let head = seq![
        KvWriteView::Delete(kv_key(OID_TO_IID, bucket, xxhash32(oid))),
        KvWriteView::Delete(kv_key(IID_TO_OID, bucket, iid)),
        KvWriteView::Delete(kv_key(IID_TO_TERMS, bucket, iid)),
    ];
    let mid = term_flush_writes(bucket, terms, iid);
    let last = KvWriteView::Merge(object_count_key(bucket), le32(-1i32 as u32));
    lemma_kv_key_family(OID_TO_IID, bucket, xxhash32(oid));
    lemma_kv_key_family(IID_TO_OID, bucket, iid);
    lemma_kv_key_family(IID_TO_TERMS, bucket, iid);
    lemma_term_flush_neutral(bucket, terms, iid);
    lemma_neutral_changes(bucket, mid);
    lemma_i32_roundtrip(-1i32);
    reveal_with_fuel(object_count_change, 4);
    reveal_with_fuel(mapping_change, 4);
    assert(head.drop_last() =~= seq![head[0], head[1]]);
    assert(head.drop_last().drop_last() =~= seq![head[0]]);
    assert(head.drop_last().drop_last().drop_last() =~= Seq::<KvWriteView>::empty());
    assert(object_count_change(bucket, head) == 0);
    assert(mapping_change(bucket, head) == -1);
    lemma_changes_concat(bucket, head, mid.push(last));
    assert(mid.push(last).drop_last() =~= mid);
    assert(count_step(bucket, last) == -1);
    assert(mapping_step(bucket, last) == 0);
}

/// The writes of a push count one more object exactly when they map one
/// more name: when the object is given a new IID.
proof fn lemma_push_changes(bucket: Seq<u8>, head: Seq<KvWriteView>, links: Seq<Seq<u8>>, iid: u32, tail: Seq<KvWriteView>, is_new: bool, oid: Seq<u8>)
    requires
        head == (if is_new {
            new_iid_writes(bucket, oid, iid)
        } else {
            Seq::empty()
        }),
        neutral_writes(bucket, tail),
    ensures
        object_count_change(bucket, head + term_link_writes(bucket, links, iid) + tail) == (if is_new {
            1int
        } else {
            0int
        }),
        mapping_change(bucket, head + term_link_writes(bucket, links, iid) + tail) == (if is_new {
            1int
        } else {
            0int
        }),
{
    let mid = term_link_writes(bucket, links, iid);
    lemma_term_links_neutral(bucket, links, iid);
    lemma_neutral_changes(bucket, mid);
    lemma_neutral_changes(bucket, tail);
    if is_new {
        lemma_new_iid_changes(bucket, oid, iid);
    } else {
        assert(object_count_change(bucket, head) == 0);
        assert(mapping_change(bucket, head) == 0);
    }
    lemma_changes_concat(bucket, head, mid);
    lemma_changes_concat(bucket, head + mid, tail);
}

} // verus!
