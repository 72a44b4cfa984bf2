//! What the executors decide once the store has answered: the terms of a
//! text taken once each, which terms a pop takes from an object and what
//! the object keeps, what a term keeps when an object leaves it, and how
//! many objects and terms are counted.
use vstd::prelude::*;

use crate::encoding::{decode_i32_counter, le32, le32_value, lemma_i32_roundtrip};
use crate::merge::{
    first_seen, first_seen_words, last_seen, lemma_first_seen_contains, lemma_first_seen_unique,
    lemma_last_seen,
    lemma_without, seen_all, seen_insert, seen_with_capacity, seen_words,
    unique_words, without, SeenWords,
};

verus! {

/// The term hashes of tokens, each once, where it first occurs: the tokens
/// an executor walks when it takes them unique by hash.
pub fn unique_hashes(hashes: &Vec<u32>) -> (r: Vec<u32>)
    ensures
        r@ == first_seen(hashes@),
{
    let (passed, _unique) = unique_by(hashes);
    passed
}

/// Items taken once per key (a term hash): the first item of each key
/// passes, and the keys seen are kept.
pub struct UniqueBy {
    seen: SeenWords,
}

impl UniqueBy {
    /// The keys seen so far.
    pub closed spec fn spec_seen(&self) -> Set<u32> {
        seen_words(self.seen)
    }

    /// No key seen yet; room is made for `capacity` keys.
    pub fn new(capacity: usize) -> (r: Self)
        ensures
            r.spec_seen() == Set::<u32>::empty(),
    {
        UniqueBy { seen: seen_with_capacity(capacity) }
    }

    /// Whether an item with this key passes: true when the key was not seen
    /// before; the key is seen afterwards.
    pub fn take_key(&mut self, key: u32) -> (r: bool)
        ensures
            r == !old(self).spec_seen().contains(key),
            final(self).spec_seen() == old(self).spec_seen().insert(key),
    {
        seen_insert(&mut self.seen, key)
    }

    /// The keys seen, each once, in no stated order.
    pub fn seen(&self) -> (r: Vec<u32>)
        ensures
            r@.no_duplicates(),
            r@.to_set() == self.spec_seen(),
    {
        seen_all(&self.seen)
    }
}

/// Taking items through a `UniqueBy` keeps the first item of each key:
/// from no key seen, the keys that pass are the keys without repeats, each
/// where it first occurs, and the keys seen are all of them.
pub fn unique_by(keys: &Vec<u32>) -> (r: (Vec<u32>, UniqueBy))
    ensures
        r.0@ == first_seen(keys@),
        r.1.spec_seen() == keys@.to_set(),
{
    let mut unique = UniqueBy::new(keys.len());
    let mut passed: Vec<u32> = Vec::new();
    let mut k: usize = 0;
    while k < keys.len()
        invariant
            k <= keys@.len(),
            passed@ == first_seen(keys@.take(k as int)),
            unique.spec_seen() == keys@.take(k as int).to_set(),
        decreases keys@.len() - k,
    {
        let ghost prefix = keys@.take(k as int);
        assert(keys@.take(k + 1).drop_last() =~= prefix);
        assert(keys@.take(k + 1) =~= prefix.push(keys@[k as int]));
        proof {
            lemma_first_seen_contains(prefix, keys@[k as int]);
            prefix.lemma_push_to_set_commute(keys@[k as int]);
        }
        if unique.take_key(keys[k]) {
            passed.push(keys[k]);
        }
        k = k + 1;
    }
    assert(keys@.take(keys@.len() as int) =~= keys@);
    (passed, unique)
}

/// Filtering one more word appends it, or not, to what was kept.
proof fn lemma_without_push(s: Seq<u32>, seen: Set<u32>, x: u32)
    ensures
        without(s.push(x), seen) == without(s, seen) + (if seen.contains(x) {
            Seq::<u32>::empty()
        } else {
            seq![x]
        }),
    decreases s.len(),
{
    if s.len() == 0 {
        assert(s.push(x).drop_first() =~= Seq::<u32>::empty());
        assert(without(Seq::<u32>::empty(), seen) =~= Seq::<u32>::empty());
        assert(s.push(x)[0] == x);
    } else {
        assert(s.push(x).drop_first() =~= s.drop_first().push(x));
        assert(s.push(x)[0] == s[0]);
        lemma_without_push(s.drop_first(), seen, x);
    }
}

/// What a filter keeps is never longer than what it was given.
proof fn lemma_without_len(s: Seq<u32>, seen: Set<u32>)
    ensures
        without(s, seen).len() <= s.len(),
    decreases s.len(),
{
    if s.len() > 0 {
        lemma_without_len(s.drop_first(), seen);
    }
}

/// A set that keeps its words in the order they were last inserted.
#[verifier::external_type_specification]
#[verifier::external_body]
#[verifier::reject_recursive_types(T)]
#[verifier::reject_recursive_types(S)]
pub struct ExLinkedHashSet<T, S>(linked_hash_set::LinkedHashSet<T, S>);

/// The words of a linked set, in its order.
pub uninterp spec fn linked_words(set: linked_hash_set::LinkedHashSet<u32>) -> Seq<u32>;

/// `linked_hash_set::LinkedHashSet::from_iter`: the set of a list's words.
/// Trusted: each word once, in the order of its last occurrence, as the
/// source shows (every insert moves the word to the end).
#[verifier::external_body]
fn linked_of(words: &Vec<u32>) -> (r: linked_hash_set::LinkedHashSet<u32>)
    ensures
        linked_words(r) == last_seen(words@),
{
    words.iter().copied().collect()
}

/// `linked_hash_set::LinkedHashSet::len`: the number of words. Trusted: as
/// documented.
#[verifier::external_body]
fn linked_len(set: &linked_hash_set::LinkedHashSet<u32>) -> (r: usize)
    ensures
        r == linked_words(*set).len(),
{
    set.len()
}

/// `linked_hash_set::LinkedHashSet::contains`: whether a word is held.
/// Trusted: as documented.
#[verifier::external_body]
fn linked_contains(set: &linked_hash_set::LinkedHashSet<u32>, word: u32) -> (r: bool)
    ensures
        r == linked_words(*set).contains(word),
{
    set.contains(&word)
}

/// `linked_hash_set::LinkedHashSet::difference`, collected: the words of
/// `a` not in `b`, in `a`'s order. Trusted: as the source shows.
#[verifier::external_body]
fn linked_difference(
    a: &linked_hash_set::LinkedHashSet<u32>,
    b: &linked_hash_set::LinkedHashSet<u32>,
) -> (r: Vec<u32>)
    ensures
        r@ == without(linked_words(*a), linked_words(*b).to_set()),
{
    a.difference(b).copied().collect()
}

/// The terms an object keeps after a pop: its terms, each once, without the
/// popped ones.
pub open spec fn pop_remaining(object_terms: Seq<u32>, popped_terms: Seq<u32>) -> Seq<u32> {
    without(last_seen(object_terms), popped_terms.to_set())
}

/// The terms a pop takes from an object: the popped terms, each once, that
/// the object has.
pub open spec fn pop_unlinked(object_terms: Seq<u32>, popped_terms: Seq<u32>) -> Seq<u32> {
    without(first_seen(popped_terms), object_terms.to_set().complement())
}

/// What a pop does to an object.
pub enum PopOutcome {
    /// No popped term belongs to the object: nothing changes.
    Unchanged,
    /// Every term of the object is popped: the object leaves the bucket.
    FlushObject,
    /// Some terms leave: each term of `unlink` drops the object, and the
    /// object keeps the terms of `remaining`.
    Unlink { unlink: Vec<u32>, remaining: Vec<u32> },
}

/// The count a pop reports, and what it does.
pub struct PopPlan {
    pub count_popped: u32,
    pub outcome: PopOutcome,
}

/// Plans popping the terms of a text from an object, given the terms the
/// object is linked to: the count is the number of the object's terms that
/// go (cut to 32 bits), and nothing changes when it is 0.
pub fn plan_pop(object_terms: &Vec<u32>, popped_terms: &Vec<u32>) -> (r: PopPlan)
    ensures
        r.count_popped == (last_seen(object_terms@).len() - pop_remaining(
            object_terms@,
            popped_terms@,
        ).len()) as u32,
        r.count_popped == 0 ==> r.outcome is Unchanged,
        r.count_popped != 0 && pop_remaining(object_terms@, popped_terms@).len() == 0
            ==> r.outcome is FlushObject,
        r.count_popped != 0 && pop_remaining(object_terms@, popped_terms@).len() > 0
            ==> (r.outcome matches PopOutcome::Unlink { unlink, remaining } && unlink@
            == pop_unlinked(object_terms@, popped_terms@) && remaining@ == pop_remaining(
            object_terms@,
            popped_terms@,
        )),
{
    let known = linked_of(object_terms);
    let popped_set = linked_of(popped_terms);
    let remaining = linked_difference(&known, &popped_set);
    proof {
        lemma_last_seen(object_terms@);
        lemma_last_seen(popped_terms@);
        assert(linked_words(popped_set).to_set() =~= popped_terms@.to_set());
        lemma_without_len(last_seen(object_terms@), popped_terms@.to_set());
    }
    let count_popped = (linked_len(&known) - remaining.len()) as u32;
    if count_popped == 0 {
        return PopPlan { count_popped, outcome: PopOutcome::Unchanged };
    }
    if remaining.len() == 0 {
        return PopPlan { count_popped, outcome: PopOutcome::FlushObject };
    }
    let (popped, _) = first_seen_words(popped_terms);
    let mut unlink: Vec<u32> = Vec::new();
    let ghost object_set = object_terms@.to_set();
    let mut k: usize = 0;
    proof {
        assert(popped@.take(0) =~= Seq::<u32>::empty());
        assert(without(Seq::<u32>::empty(), object_set.complement()) =~= Seq::<u32>::empty());
    }
    while k < popped.len()
        invariant
            k <= popped@.len(),
            linked_words(known) == last_seen(object_terms@),
            object_set == object_terms@.to_set(),
            forall|x: u32| #[trigger] last_seen(object_terms@).contains(x) <==> object_terms@.contains(x),
            unlink@ == without(popped@.take(k as int), object_set.complement()),
        decreases popped@.len() - k,
    {
        let w = popped[k];
        proof {
            assert(popped@.take(k + 1) =~= popped@.take(k as int).push(w));
            lemma_without_push(popped@.take(k as int), object_set.complement(), w);
            assert(object_set.contains(w) <==> object_terms@.contains(w));
        }
        if linked_contains(&known, w) {
            unlink.push(w);
        }
        k = k + 1;
    }
    proof {
        assert(popped@.take(popped@.len() as int) =~= popped@);
    }
    PopPlan { count_popped, outcome: PopOutcome::Unlink { unlink, remaining } }
}

/// A pop splits the object's terms: it keeps, each once, those that were
/// not popped, and the terms it unlinks are, each once, those that were;
/// the two together are as many as the object's distinct terms.
pub proof fn lemma_pop_partition(object_terms: Seq<u32>, popped_terms: Seq<u32>)
    ensures
        unique_words(pop_remaining(object_terms, popped_terms)),
        unique_words(pop_unlinked(object_terms, popped_terms)),
        forall|w: u32| #[trigger]
            pop_remaining(object_terms, popped_terms).contains(w) <==> (object_terms.contains(w)
                && !popped_terms.contains(w)),
        forall|w: u32| #[trigger]
            pop_unlinked(object_terms, popped_terms).contains(w) <==> (object_terms.contains(w)
                && popped_terms.contains(w)),
        pop_remaining(object_terms, popped_terms).len() + pop_unlinked(
            object_terms,
            popped_terms,
        ).len() == last_seen(object_terms).len(),
{
    let known = last_seen(object_terms);
    let fresh = first_seen(popped_terms);
    let rem = pop_remaining(object_terms, popped_terms);
    let unl = pop_unlinked(object_terms, popped_terms);
    lemma_last_seen(object_terms);
    lemma_first_seen_unique(popped_terms);
    lemma_without(known, popped_terms.to_set());
    lemma_without(fresh, object_terms.to_set().complement());
    assert forall|w: u32| #[trigger] rem.contains(w) <==> (object_terms.contains(w)
        && !popped_terms.contains(w)) by {
        assert(known.contains(w) <==> object_terms.contains(w));
    }
    assert forall|w: u32| #[trigger] unl.contains(w) <==> (object_terms.contains(w)
        && popped_terms.contains(w)) by {
        lemma_first_seen_contains(popped_terms, w);
    }
    assert forall|w: u32| #[trigger] known.contains(w) <==> object_terms.contains(w) by {
    }
    // Counted as sets: the object's terms are the disjoint union of those
    // kept and those unlinked.
    assert(rem.no_duplicates());
    assert(unl.no_duplicates());
    assert(known.no_duplicates());
    rem.unique_seq_to_set();
    unl.unique_seq_to_set();
    known.unique_seq_to_set();
    assert(rem.to_set().disjoint(unl.to_set()));
    assert(rem.to_set() + unl.to_set() =~= known.to_set());
    vstd::set_lib::lemma_set_disjoint_lens(rem.to_set(), unl.to_set());
}

/// An IID list without one IID, in order: what a term keeps when an object
/// leaves it.
pub fn unlink_iid(iids: &Vec<u32>, iid: u32) -> (r: Vec<u32>)
    ensures
        r@ == without(iids@, set![iid]),
{
    let mut kept: Vec<u32> = Vec::new();
    let mut k: usize = 0;
    while k < iids.len()
        invariant
            k <= iids@.len(),
            kept@ == without(iids@.take(k as int), set![iid]),
        decreases iids@.len() - k,
    {
        let cur = iids[k];
        proof {
            assert(iids@.take(k + 1) =~= iids@.take(k as int).push(cur));
            lemma_without_push(iids@.take(k as int), set![iid], cur);
        }
        if cur != iid {
            kept.push(cur);
        }
        k = k + 1;
    }
    assert(iids@.take(iids@.len() as int) =~= iids@);
    kept
}

/// What a term's IID list becomes when an object leaves it, and whether
/// the object was in it: `None` when no IID is left, so the term's entry
/// goes, else the list without the object's IID.
pub fn term_after_unlink(term_iids: &Vec<u32>, iid: u32) -> (r: (bool, Option<Vec<u32>>))
    ensures
        r.0 == term_iids@.contains(iid),
        without(term_iids@, set![iid]).len() == 0 ==> r.1 is None,
        without(term_iids@, set![iid]).len() > 0 ==> (r.1 matches Some(v) && v@ == without(
            term_iids@,
            set![iid],
        )),
{
    let mut linked = false;
    let mut k: usize = 0;
    while k < term_iids.len()
        invariant
            k <= term_iids@.len(),
            linked == exists|i: int| 0 <= i < k && #[trigger] term_iids@[i] == iid,
        decreases term_iids@.len() - k,
    {
        if term_iids[k] == iid {
            linked = true;
        }
        k = k + 1;
    }
    let kept = unlink_iid(term_iids, iid);
    if kept.len() == 0 {
        (linked, None)
    } else {
        (linked, Some(kept))
    }
}

/// The number of terms an object holds (a count): those its IID holds,
/// none when its name resolves to no IID or its IID to no terms. A read
/// that failed counts as holding nothing. The count is cut to 32 bits.
pub fn count_object_terms(iid: Option<u32>, terms: Option<&Vec<u32>>) -> (r: u32)
    ensures
        r == (match (iid, terms) {
            (Some(_), Some(t)) => t@.len() as u32,
            _ => 0,
        }),
{
    match iid {
        Some(_) => match terms {
            Some(t) => {
                let n = t.len();
                #[verifier::truncate]
                (n as u32)
            },
            None => 0,
        },
        None => 0,
    }
}

/// The count an `ObjectCount` meta value holds, a count below zero read
/// as none.
pub open spec fn object_count_value(b: Seq<u8>) -> u32 {
    let c = le32_value(b) as i32;
    if c < 0 {
        0
    } else {
        c as u32
    }
}

/// A bucket's object count is the whole counter its `ObjectCount` value
/// holds: four little-endian bytes with the sign bit clear read as the
/// number they encode, all four bytes weighed; a counter written as `c`
/// reads back as `c` when it is not negative, and as none when it is.
pub proof fn lemma_object_count_reads_counter(c: i32, b: Seq<u8>)
    ensures
        c >= 0 ==> object_count_value(le32(c as u32)) == c as u32,
        c < 0 ==> object_count_value(le32(c as u32)) == 0,
        b.len() == 4 && b[3] < 128 ==> object_count_value(b) as int == b[0] + 256 * b[1] + 65536
            * b[2] + 16777216 * b[3],
        b.len() == 4 && b[3] >= 128 ==> object_count_value(b) == 0,
{
    lemma_i32_roundtrip(c);
    if c >= 0 {
        assert(c as u32 as i32 == c) by (bit_vector);
        assert((c as u32) as int == c as int);
    }
    if b.len() == 4 {
        let v: u32 = le32_value(b);
        assert(v as int == b[0] + 256 * b[1] + 65536 * b[2] + 16777216 * b[3]);
        if b[3] < 128 {
            assert(v < 0x8000_0000);
            assert(v < 0x8000_0000 ==> (v as i32) as int == v as int) by (bit_vector);
        } else {
            assert(v >= 0x8000_0000);
            assert(v >= 0x8000_0000 ==> (v as i32) < 0) by (bit_vector);
        }
    }
}

/// The number of objects a bucket holds now, from what the store holds
/// under its `ObjectCount` key (counted up for each object given an IID,
/// down for each object flushed out): none when it holds nothing; refused
/// when that is not four bytes.
pub fn count_bucket_objects(stored: Option<&[u8]>) -> (r: Result<u32, ()>)
    ensures
        match stored {
            None => r == Ok::<u32, ()>(0),
            Some(b) => if b@.len() == 4 {
                r == Ok::<u32, ()>(object_count_value(b@))
            } else {
                r is Err
            },
        },
{
    match stored {
        None => Ok(0),
        Some(bytes) => {
            if bytes.len() != 4 {
                return Err(());
            }
            let count = decode_i32_counter([bytes[0], bytes[1], bytes[2], bytes[3]]);
            proof {
                assert([bytes[0], bytes[1], bytes[2], bytes[3]]@ =~= bytes@);
            }
            if count < 0 {
                Ok(0)
            } else {
                Ok(count as u32)
            }
        },
    }
}

/// The answer to a count of a bucket's objects, from the store's answers:
/// none when the collection has no store; refused when the `ObjectCount`
/// value cannot be read; else the count it holds (see
/// `count_bucket_objects`).
pub fn count_bucket_from_store(store_exists: bool, stored: Result<Option<&[u8]>, ()>) -> (r: Result<
    u32,
    (),
>)
    ensures
        !store_exists ==> r == Ok::<u32, ()>(0),
        store_exists && stored is Err ==> r is Err,
        store_exists ==> (stored matches Ok(s) ==> match s {
            None => r == Ok::<u32, ()>(0),
            Some(b) => if b@.len() == 4 {
                r == Ok::<u32, ()>(object_count_value(b@))
            } else {
                r is Err
            },
        }),
{
    if !store_exists {
        return Ok(0);
    }
    match stored {
        Err(()) => Err(()),
        Ok(s) => count_bucket_objects(s),
    }
}

} // verus!
