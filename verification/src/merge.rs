//! Merge operators of the key-value store: how a stored value and the
//! operands written after it combine into the new value, by key family.
use vstd::prelude::*;

use crate::encoding::{be32_value, le32, le32_value, le32_words, lemma_i32_roundtrip, lemma_le32_value};
use crate::kv_keys::{IID_TO_TERMS, META_TO_VALUE, TERM_TO_IIDS};
use crate::text::append_bytes;

verus! {

/// The words seen so far in one merge, kept in a `hashbrown::HashSet`.
#[verifier::external_body]
pub struct SeenWords {
    set: hashbrown::HashSet<u32>,
}

/// The words held by a `SeenWords`.
pub uninterp spec fn seen_words(s: SeenWords) -> Set<u32>;

/// `hashbrown::HashSet::with_capacity`: an empty set. Trusted: it holds no
/// word; the capacity only sizes the allocation.
#[verifier::external_body]
pub(crate) fn seen_with_capacity(capacity: usize) -> (r: SeenWords)
    ensures
        seen_words(r) == Set::<u32>::empty(),
{
    SeenWords { set: hashbrown::HashSet::with_capacity(capacity) }
}

/// `hashbrown::HashSet::insert`: adds a word. Trusted: afterwards the set
/// also holds `word`, and the result is whether it was absent before, as the
/// method's documentation states.
#[verifier::external_body]
pub(crate) fn seen_insert(s: &mut SeenWords, word: u32) -> (r: bool)
    ensures
        seen_words(*final(s)) == seen_words(*old(s)).insert(word),
        r == !seen_words(*old(s)).contains(word),
{
    s.set.insert(word)
}

/// `hashbrown::HashSet::contains`: whether a word is held. Trusted: the
/// result is membership, as the method's documentation states.
#[verifier::external_body]
pub(crate) fn seen_contains(s: &SeenWords, word: u32) -> (r: bool)
    ensures
        r == seen_words(*s).contains(word),
{
    s.set.contains(&word)
}

/// `hashbrown::HashSet::iter`: every word held, once, in the set's order.
/// Trusted: the words are those of the set, none twice; the order is left
/// unsaid.
#[verifier::external_body]
pub(crate) fn seen_all(s: &SeenWords) -> (r: Vec<u32>)
    ensures
        r@.no_duplicates(),
        r@.to_set() == seen_words(*s),
{
    s.set.iter().copied().collect()
}

/// The bytes of each operand.
pub open spec fn operand_bytes(ops: Seq<Vec<u8>>) -> Seq<Seq<u8>> {
    ops.map_values(|op: Vec<u8>| op@)
}

/// The bytes of an optional stored value.
pub open spec fn value_bytes(v: Option<&[u8]>) -> Option<Seq<u8>> {
    match v {
        Some(b) => Some(b@),
        None => None,
    }
}

/// The bytes of an optional merged value.
pub open spec fn result_bytes(v: Option<Vec<u8>>) -> Option<Seq<u8>> {
    match v {
        Some(b) => Some(b@),
        None => None,
    }
}

/// Every operand is a whole number of four-byte words.
pub open spec fn word_aligned(ops: Seq<Seq<u8>>) -> bool {
    forall|i: int| 0 <= i < ops.len() ==> #[trigger] ops[i].len() % 4 == 0
}

/// The little-endian words of all operands, in order.
pub open spec fn operand_words(ops: Seq<Seq<u8>>) -> Seq<u32>
    decreases ops.len(),
{
    if ops.len() == 0 {
        seq![]
    } else {
        operand_words(ops.drop_last()) + le32_words(ops.last())
    }
}

/// The larger of a start value and every word, taken from left to right.
pub open spec fn max_fold(start: u32, ws: Seq<u32>) -> u32
    decreases ws.len(),
{
    if ws.len() == 0 {
        start
    } else {
        let m = max_fold(start, ws.drop_last());
        if ws.last() > m {
            ws.last()
        } else {
            m
        }
    }
}

/// An integer clamped to the `i32` range.
pub open spec fn saturate(v: int) -> i32 {
    if v > i32::MAX {
        i32::MAX
    } else if v < i32::MIN {
        i32::MIN
    } else {
        v as i32
    }
}

/// A start value plus every word read as an `i32`, saturating at each step.
pub open spec fn counter_fold(start: i32, ws: Seq<u32>) -> i32
    decreases ws.len(),
{
    if ws.len() == 0 {
        start
    } else {
        saturate(counter_fold(start, ws.drop_last()) + (ws.last() as i32))
    }
}

/// The new value of a maximum: `None` when there is neither a stored value
/// nor an operand, else the largest word (from 0 without a stored value).
pub open spec fn u32_max_result(existing: Option<Seq<u8>>, ops: Seq<Seq<u8>>) -> Option<Seq<u8>> {
    match existing {
        Some(b) => Some(le32(max_fold(le32_value(b), operand_words(ops)))),
        None => if ops.len() == 0 {
            None
        } else {
            Some(le32(max_fold(0, operand_words(ops))))
        },
    }
}

/// The new value of a counter: `None` when there is neither a stored value
/// nor an operand, else the stored count (or 0) plus every operand.
pub open spec fn counter_result(existing: Option<Seq<u8>>, ops: Seq<Seq<u8>>) -> Option<Seq<u8>> {
    match existing {
        Some(b) => Some(le32(counter_fold(le32_value(b) as i32, operand_words(ops)) as u32)),
        None => if ops.len() == 0 {
            None
        } else {
            Some(le32(counter_fold(0, operand_words(ops)) as u32))
        },
    }
}

/// The words of a sequence without repeats, each where it first occurs.
pub open spec fn first_seen(s: Seq<u32>) -> Seq<u32>
    decreases s.len(),
{
    if s.len() == 0 {
        seq![]
    } else {
        let d = first_seen(s.drop_last());
        if d.contains(s.last()) {
            d
        } else {
            d.push(s.last())
        }
    }
}

/// The little-endian bytes of words, the last word first.
pub open spec fn reversed_words(s: Seq<u32>) -> Seq<u8>
    decreases s.len(),
{
    if s.len() == 0 {
        seq![]
    } else {
        reversed_words(s.drop_first()) + le32(s[0])
    }
}

/// The stored list without the words in `seen`; a trailing piece shorter
/// than a word is kept.
pub open spec fn kept_existing(cur: Seq<u8>, seen: Set<u32>) -> Seq<u8>
    decreases cur.len(),
{
    if cur.len() == 0 {
        seq![]
    } else if cur.len() < 4 {
        cur
    } else {
        (if seen.contains(le32_value(cur.take(4))) {
            seq![]
        } else {
            cur.take(4)
        }) + kept_existing(cur.skip(4), seen)
    }
}

/// The new value of a list: the new operand words, most recent first and
/// without repeats, then the stored words that are not among them.
pub open spec fn prepend_result(existing: Option<Seq<u8>>, ops: Seq<Seq<u8>>) -> Seq<u8> {
    let cur = match existing {
        Some(b) => b,
        None => seq![],
    };
    let ws = operand_words(ops);
    reversed_words(first_seen(ws)) + kept_existing(cur, ws.to_set())
}

/// A list merge has something to write.
pub open spec fn prepend_nonempty(existing: Option<Seq<u8>>, ops: Seq<Seq<u8>>) -> bool {
    operand_words(ops).len() > 0 || (existing matches Some(b) && b.len() > 0)
}

/// The words of the first `4 * (j + 1)` bytes are those of the first `4 * j`
/// bytes and one more.
proof fn lemma_words_step(s: Seq<u8>, j: int)
    requires
        0 <= j,
        4 * j + 4 <= s.len(),
    ensures
        le32_words(s.take(4 * j + 4)) == le32_words(s.take(4 * j)).push(
            le32_value(s.subrange(4 * j, 4 * j + 4)),
        ),
{
    let a = le32_words(s.take(4 * j + 4));
    let b = le32_words(s.take(4 * j)).push(le32_value(s.subrange(4 * j, 4 * j + 4)));
    assert(a.len() == j + 1);
    assert forall|k: int| 0 <= k < j + 1 implies a[k] == b[k] by {
        assert(s.take(4 * j + 4).subrange(4 * k, 4 * k + 4) =~= s.subrange(4 * k, 4 * k + 4));
        if k < j {
            assert(s.take(4 * j).subrange(4 * k, 4 * k + 4) =~= s.subrange(4 * k, 4 * k + 4));
        }
    }
    assert(a =~= b);
}

/// The words of operands one after the other are the words of each.
proof fn lemma_operand_words_concat(a: Seq<Seq<u8>>, b: Seq<Seq<u8>>)
    ensures
        operand_words(a + b) == operand_words(a) + operand_words(b),
    decreases b.len(),
{
    if b.len() == 0 {
        assert(a + b =~= a);
        assert(operand_words(a) + operand_words(b) =~= operand_words(a));
    } else {
        assert((a + b).drop_last() =~= a + b.drop_last());
        assert((a + b).last() == b.last());
        lemma_operand_words_concat(a, b.drop_last());
        assert(operand_words(a + b) =~= operand_words(a) + operand_words(b));
    }
}

/// Folding a maximum over two runs of words, one after the other.
proof fn lemma_max_fold_concat(start: u32, x: Seq<u32>, y: Seq<u32>)
    ensures
        max_fold(max_fold(start, x), y) == max_fold(start, x + y),
    decreases y.len(),
{
    if y.len() == 0 {
        assert(x + y =~= x);
    } else {
        assert((x + y).drop_last() =~= x + y.drop_last());
        assert((x + y).last() == y.last());
        lemma_max_fold_concat(start, x, y.drop_last());
    }
}

/// The folded maximum is at least the start and every word, and is the
/// start or one of the words.
proof fn lemma_max_fold_is_max(start: u32, x: Seq<u32>)
    ensures
        max_fold(start, x) >= start,
        forall|i: int| 0 <= i < x.len() ==> x[i] <= max_fold(start, x),
        max_fold(start, x) == start || x.contains(max_fold(start, x)),
    decreases x.len(),
{
    if x.len() > 0 {
        let d = x.drop_last();
        lemma_max_fold_is_max(start, d);
        assert forall|i: int| 0 <= i < x.len() implies x[i] <= max_fold(start, x) by {
            if i < x.len() - 1 {
                assert(x[i] == d[i]);
            }
        }
        let m = max_fold(start, d);
        if m != start && x.last() <= m {
            let j = choose|j: int| 0 <= j < d.len() && d[j] == m;
            assert(x[j] == m);
        }
        if x.last() > m {
            assert(x[x.len() - 1] == x.last());
        }
    }
}

/// Every word of one run is in a run holding the same two parts the other
/// way round.
proof fn lemma_concat_swap_contains(x: Seq<u32>, y: Seq<u32>, v: u32)
    requires
        (x + y).contains(v),
    ensures
        (y + x).contains(v),
{
    let i = choose|i: int| 0 <= i < (x + y).len() && (x + y)[i] == v;
    if i < x.len() {
        assert((y + x)[y.len() + i] == v);
    } else {
        assert((y + x)[i - x.len()] == v);
    }
}

/// The folded maximum does not depend on the order of two runs of words.
proof fn lemma_max_fold_swap(start: u32, x: Seq<u32>, y: Seq<u32>)
    ensures
        max_fold(start, x + y) == max_fold(start, y + x),
{
    let m1 = max_fold(start, x + y);
    let m2 = max_fold(start, y + x);
    lemma_max_fold_is_max(start, x + y);
    lemma_max_fold_is_max(start, y + x);
    if m1 != start {
        lemma_concat_swap_contains(x, y, m1);
        let i = choose|i: int| 0 <= i < (y + x).len() && (y + x)[i] == m1;
        assert(m1 <= m2);
    }
    if m2 != start {
        lemma_concat_swap_contains(y, x, m2);
        let i = choose|i: int| 0 <= i < (x + y).len() && (x + y)[i] == m2;
        assert(m2 <= m1);
    }
}

/// Merging the result of a merge with later operands gives what one merge
/// of all operands gives: the maximum can be merged in steps.
pub proof fn lemma_u32_max_chain(existing: Option<Seq<u8>>, a: Seq<Seq<u8>>, b: Seq<Seq<u8>>)
    requires
        existing is Some || a.len() > 0,
    ensures
        u32_max_result(u32_max_result(existing, a), b) == u32_max_result(existing, a + b),
{
    let start: u32 = match existing {
        Some(x) => le32_value(x),
        None => 0,
    };
    let m = max_fold(start, operand_words(a));
    lemma_le32_value(m);
    lemma_operand_words_concat(a, b);
    lemma_max_fold_concat(start, operand_words(a), operand_words(b));
}

/// The maximum does not depend on the order in which operands come.
pub proof fn lemma_u32_max_order(existing: Option<Seq<u8>>, a: Seq<Seq<u8>>, b: Seq<Seq<u8>>)
    ensures
        u32_max_result(existing, a + b) == u32_max_result(existing, b + a),
{
    let start: u32 = match existing {
        Some(x) => le32_value(x),
        None => 0,
    };
    lemma_operand_words_concat(a, b);
    lemma_operand_words_concat(b, a);
    lemma_max_fold_swap(start, operand_words(a), operand_words(b));
}

/// Folding a counter over two runs of words, one after the other.
proof fn lemma_counter_fold_concat(start: i32, x: Seq<u32>, y: Seq<u32>)
    ensures
        counter_fold(counter_fold(start, x), y) == counter_fold(start, x + y),
    decreases y.len(),
{
    if y.len() == 0 {
        assert(x + y =~= x);
    } else {
        assert((x + y).drop_last() =~= x + y.drop_last());
        assert((x + y).last() == y.last());
        lemma_counter_fold_concat(start, x, y.drop_last());
    }
}

/// Merging the result of a merge with later operands gives what one merge
/// of all operands gives: the counter can be merged in steps.
pub proof fn lemma_counter_chain(existing: Option<Seq<u8>>, a: Seq<Seq<u8>>, b: Seq<Seq<u8>>)
    requires
        existing is Some || a.len() > 0,
    ensures
        counter_result(counter_result(existing, a), b) == counter_result(existing, a + b),
{
    let start: i32 = match existing {
        Some(x) => le32_value(x) as i32,
        None => 0,
    };
    let c = counter_fold(start, operand_words(a));
    lemma_i32_roundtrip(c);
    lemma_operand_words_concat(a, b);
    lemma_counter_fold_concat(start, operand_words(a), operand_words(b));
}

/// The words of all operands, one after the other.
fn collect_words(operands: &[Vec<u8>]) -> (r: Vec<u32>)
    requires
        word_aligned(operand_bytes(operands@)),
    ensures
        r@ == operand_words(operand_bytes(operands@)),
{
    let ghost ops = operand_bytes(operands@);
    let mut words: Vec<u32> = Vec::new();
    let mut i: usize = 0;
    while i < operands.len()
        invariant
            i <= operands@.len(),
            ops == operand_bytes(operands@),
            word_aligned(ops),
            words@ == operand_words(ops.take(i as int)),
        decreases operands@.len() - i,
    {
        let op = &operands[i];
        let ghost before = words@;
        assert(ops[i as int] == op@);
        let len = op.len();
        let n = len / 4;
        let mut j: usize = 0;
        while j < n
            invariant
                i < operands@.len(),
                ops.len() == operands@.len(),
                op@ == ops[i as int],
                n == op@.len() / 4,
                4 * n <= op@.len(),
                len == op@.len(),
                j <= n,
                words@ == before + le32_words(op@.take(4 * j)),
            decreases n - j,
        {
            assert(4 * j + 4 <= op@.len());
            let w = 16777216 * (op[4 * j + 3] as u32) + 65536 * (op[4 * j + 2] as u32) + 256 * (
            op[4 * j + 1] as u32) + (op[4 * j] as u32);
            proof {
                lemma_words_step(op@, j as int);
                let c = op@.subrange(4 * j, 4 * j + 4);
                assert(c[0] == op@[4 * j]);
                assert(c[1] == op@[4 * j + 1]);
                assert(c[2] == op@[4 * j + 2]);
                assert(c[3] == op@[4 * j + 3]);
                assert(w == le32_value(c));
            }
            words.push(w);
            j = j + 1;
        }
        proof {
            assert(op@.len() % 4 == 0);
            assert(op@.take(4 * j) =~= op@);
            assert(ops.take(i + 1).drop_last() =~= ops.take(i as int));
            assert(ops.take(i + 1).last() == ops[i as int]);
        }
        i = i + 1;
    }
    assert(ops.take(operands@.len() as int) =~= ops);
    words
}

/// Keeps the largest `u32` of the stored value and the operands: the order
/// in which increments reach the store is not known.
pub fn u32_max(existing_val: Option<&[u8]>, operands: &[Vec<u8>]) -> (r: Option<Vec<u8>>)
    requires
        existing_val matches Some(b) ==> b@.len() == 4,
        word_aligned(operand_bytes(operands@)),
    ensures
        result_bytes(r) == u32_max_result(value_bytes(existing_val), operand_bytes(operands@)),
{
    let mut res: u32 = match existing_val {
        Some(bytes) => 16777216 * (bytes[3] as u32) + 65536 * (bytes[2] as u32) + 256 * (
        bytes[1] as u32) + (bytes[0] as u32),
        None => {
            if operands.len() == 0 {
                return None;
            }
            0
        },
    };
    let ghost start = res;
    let words = collect_words(operands);
    let mut k: usize = 0;
    while k < words.len()
        invariant
            k <= words@.len(),
            res == max_fold(start, words@.take(k as int)),
        decreases words@.len() - k,
    {
        assert(words@.take(k + 1).drop_last() =~= words@.take(k as int));
        if words[k] > res {
            res = words[k];
        }
        k = k + 1;
    }
    assert(words@.take(words@.len() as int) =~= words@);
    let out = crate::encoding::encode_u32_counter(res);
    Some(vstd::slice::slice_to_vec(&out))
}

/// Adds every operand, read as an `i32`, to the stored count (or 0),
/// saturating at the bounds: the count goes up and down.
pub fn i32_counter(existing_val: Option<&[u8]>, operands: &[Vec<u8>]) -> (r: Option<Vec<u8>>)
    requires
        existing_val matches Some(b) ==> b@.len() == 4,
        word_aligned(operand_bytes(operands@)),
    ensures
        result_bytes(r) == counter_result(value_bytes(existing_val), operand_bytes(operands@)),
{
    let mut res: i32 = match existing_val {
        Some(bytes) => (16777216 * (bytes[3] as u32) + 65536 * (bytes[2] as u32) + 256 * (
        bytes[1] as u32) + (bytes[0] as u32)) as i32,
        None => {
            if operands.len() == 0 {
                return None;
            }
            0
        },
    };
    let ghost start = res;
    let words = collect_words(operands);
    let mut k: usize = 0;
    while k < words.len()
        invariant
            k <= words@.len(),
            res == counter_fold(start, words@.take(k as int)),
        decreases words@.len() - k,
    {
        assert(words@.take(k + 1).drop_last() =~= words@.take(k as int));
        let sum: i64 = res as i64 + (words[k] as i32) as i64;
        res = if sum > i32::MAX as i64 {
            i32::MAX
        } else if sum < i32::MIN as i64 {
            i32::MIN
        } else {
            sum as i32
        };
        k = k + 1;
    }
    assert(words@.take(words@.len() as int) =~= words@);
    let out = crate::encoding::encode_i32_counter(res);
    Some(vstd::slice::slice_to_vec(&out))
}

/// Prepends the new words of the operands to the stored list, the most
/// recent first, and drops repeats: a word already among the new ones is
/// not added twice, nor kept from the stored list.
pub fn prepend_u32_list(existing_val: Option<&[u8]>, operands: &[Vec<u8>]) -> (r: Option<Vec<u8>>)
    requires
        word_aligned(operand_bytes(operands@)),
        prepend_nonempty(value_bytes(existing_val), operand_bytes(operands@)),
    ensures
        result_bytes(r) == Some(prepend_result(value_bytes(existing_val), operand_bytes(operands@))),
{
    let ghost ops = operand_bytes(operands@);
    let empty: Vec<u8> = Vec::new();
    let current: &[u8] = match existing_val {
        Some(bytes) => bytes,
        None => empty.as_slice(),
    };
    let words = collect_words(operands);
    let (fresh, seen) = first_seen_words(&words);
    let mut res: Vec<u8> = Vec::new();
    let mut m: usize = fresh.len();
    while m > 0
        invariant
            m <= fresh@.len(),
            res@ == reversed_words(fresh@.subrange(m as int, fresh@.len() as int)),
        decreases m,
    {
        let w = fresh[m - 1];
        append_bytes(&mut res, &crate::encoding::encode_u32_counter(w));
        assert(fresh@.subrange(m - 1, fresh@.len() as int).drop_first() =~= fresh@.subrange(
            m as int,
            fresh@.len() as int,
        ));
        m = m - 1;
    }
    assert(fresh@.subrange(0, fresh@.len() as int) =~= fresh@);
    let ghost head = res@;
    let ghost all = words@.to_set();
    let mut pos: usize = 0;
    assert(current@.skip(0) =~= current@);
    while pos < current.len()
        invariant
            pos <= current@.len(),
            seen_words(seen) == all,
            res@ + kept_existing(current@.skip(pos as int), all) == head + kept_existing(
                current@,
                all,
            ),
        decreases current@.len() - pos,
    {
        let ghost rest = current@.skip(pos as int);
        if current.len() - pos < 4 {
            let tail = vstd::slice::slice_subrange(current, pos, current.len());
            append_bytes(&mut res, tail);
            assert(tail@ =~= rest);
            assert(current@.skip(current@.len() as int) =~= Seq::<u8>::empty());
            pos = current.len();
        } else {
            let w = 16777216 * (current[pos + 3] as u32) + 65536 * (current[pos + 2] as u32) + 256
                * (current[pos + 1] as u32) + (current[pos] as u32);
            let chunk = vstd::slice::slice_subrange(current, pos, pos + 4);
            proof {
                assert(chunk@ =~= rest.take(4));
                assert(rest.skip(4) =~= current@.skip(pos + 4));
                assert(w == le32_value(rest.take(4)));
            }
            if !seen_contains(&seen, w) {
                append_bytes(&mut res, chunk);
            }
            pos = pos + 4;
        }
    }
    assert(current@.skip(current@.len() as int) =~= Seq::<u8>::empty());
    Some(res)
}

/// The words without repeats, each where it first occurs, and the set of
/// all of them.
pub(crate) fn first_seen_words(words: &Vec<u32>) -> (r: (Vec<u32>, SeenWords))
    ensures
        r.0@ == first_seen(words@),
        seen_words(r.1) == words@.to_set(),
{
    let mut seen = seen_with_capacity(words.len());
    let mut fresh: Vec<u32> = Vec::new();
    let mut k: usize = 0;
    while k < words.len()
        invariant
            k <= words@.len(),
            fresh@ == first_seen(words@.take(k as int)),
            seen_words(seen) == words@.take(k as int).to_set(),
        decreases words@.len() - k,
    {
        let ghost prefix = words@.take(k as int);
        assert(words@.take(k + 1).drop_last() =~= prefix);
        assert(words@.take(k + 1) =~= prefix.push(words@[k as int]));
        proof {
            lemma_first_seen_contains(prefix, words@[k as int]);
        }
        if seen_insert(&mut seen, words[k]) {
            fresh.push(words[k]);
        }
        proof {
            let next = words@.take(k + 1);
            let w = words@[k as int];
            assert forall|x: u32| #[trigger] next.contains(x) <==> prefix.contains(x) || x == w by {
                if next.contains(x) {
                    let i = choose|i: int| 0 <= i < next.len() && next[i] == x;
                    if i < prefix.len() {
                        assert(prefix[i] == x);
                    }
                }
                if prefix.contains(x) {
                    let i = choose|i: int| 0 <= i < prefix.len() && prefix[i] == x;
                    assert(next[i] == x);
                }
                if x == w {
                    assert(next[k as int] == x);
                }
            }
            assert(seen_words(seen) =~= next.to_set());
        }
        k = k + 1;
    }
    assert(words@.take(words@.len() as int) =~= words@);
    (fresh, seen)
}

/// What first_seen keeps is exactly what the sequence holds.
pub(crate) proof fn lemma_first_seen_contains(s: Seq<u32>, x: u32)
    ensures
        first_seen(s).contains(x) <==> s.contains(x),
    decreases s.len(),
{
    if s.len() > 0 {
        lemma_first_seen_contains(s.drop_last(), x);
        let d = first_seen(s.drop_last());
        if x == s.last() {
            assert(s.contains(x)) by {
                assert(s[s.len() - 1] == x);
            }
            if !d.contains(s.last()) {
                assert(d.push(s.last())[d.len() as int] == x);
            }
        } else {
            if s.drop_last().contains(x) {
                let i = choose|i: int| 0 <= i < s.drop_last().len() && s.drop_last()[i] == x;
                assert(s[i] == x);
            }
            if s.contains(x) {
                let i = choose|i: int| 0 <= i < s.len() && s[i] == x;
                assert(i < s.len() - 1);
                assert(s.drop_last()[i] == x);
            }
            if !d.contains(s.last()) {
                if d.push(s.last()).contains(x) {
                    let i = choose|i: int| 0 <= i < d.len() + 1 && d.push(s.last())[i] == x;
                    assert(i < d.len());
                    assert(d[i] == x);
                }
                if d.contains(x) {
                    let i = choose|i: int| 0 <= i < d.len() && d[i] == x;
                    assert(d.push(s.last())[i] == x);
                }
            }
        }
    }
}

/// The words without those in `seen`, in order.
pub open spec fn without(ws: Seq<u32>, seen: Set<u32>) -> Seq<u32>
    decreases ws.len(),
{
    if ws.len() == 0 {
        seq![]
    } else {
        (if seen.contains(ws[0]) {
            seq![]
        } else {
            seq![ws[0]]
        }) + without(ws.drop_first(), seen)
    }
}

/// No word occurs twice.
pub open spec fn unique_words(ws: Seq<u32>) -> bool {
    forall|i: int, j: int| 0 <= i < j < ws.len() ==> ws[i] != ws[j]
}

/// The words of two byte strings one after the other, the first a whole
/// number of words.
proof fn lemma_le32_words_concat(x: Seq<u8>, y: Seq<u8>)
    requires
        x.len() % 4 == 0,
    ensures
        le32_words(x + y) == le32_words(x) + le32_words(y),
{
    let n = x.len() / 4;
    let a = le32_words(x + y);
    let b = le32_words(x) + le32_words(y);
    assert((x + y).len() / 4 == n + y.len() / 4);
    assert forall|k: int| 0 <= k < a.len() implies a[k] == b[k] by {
        if k < n {
            assert((x + y).subrange(4 * k, 4 * k + 4) =~= x.subrange(4 * k, 4 * k + 4));
        } else {
            assert((x + y).subrange(4 * k, 4 * k + 4) =~= y.subrange(4 * (k - n), 4 * (k - n) + 4));
        }
    }
    assert(a =~= b);
}

/// The words of the bytes of a run of words, the last first, are the run
/// reversed.
proof fn lemma_reversed_words(s: Seq<u32>)
    ensures
        reversed_words(s).len() == 4 * s.len(),
        le32_words(reversed_words(s)) == s.reverse(),
    decreases s.len(),
{
    if s.len() > 0 {
        let rest = s.drop_first();
        lemma_reversed_words(rest);
        lemma_le32_words_concat(reversed_words(rest), le32(s[0]));
        lemma_le32_value(s[0]);
        assert(le32(s[0]).subrange(0, 4) =~= le32(s[0]));
        assert(le32_words(le32(s[0])) =~= seq![s[0]]);
        assert(rest.reverse().push(s[0]) =~= s.reverse());
        assert(rest.reverse() + seq![s[0]] =~= rest.reverse().push(s[0]));
    } else {
        assert(le32_words(seq![]) =~= Seq::<u32>::empty());
        assert(s.reverse() =~= Seq::<u32>::empty());
    }
}

/// The words the stored list keeps are its words without those in `seen`.
proof fn lemma_kept_words(cur: Seq<u8>, seen: Set<u32>)
    requires
        cur.len() % 4 == 0,
    ensures
        kept_existing(cur, seen).len() % 4 == 0,
        le32_words(kept_existing(cur, seen)) == without(le32_words(cur), seen),
    decreases cur.len(),
{
    if cur.len() == 0 {
        assert(le32_words(cur) =~= Seq::<u32>::empty());
        assert(le32_words(seq![]) =~= Seq::<u32>::empty());
    } else {
        let head = cur.take(4);
        let rest = cur.skip(4);
        lemma_kept_words(rest, seen);
        assert(cur =~= head + rest);
        lemma_le32_words_concat(head, rest);
        assert(le32_words(head) =~= seq![le32_value(head)]);
        let ws = le32_words(cur);
        assert(ws =~= seq![le32_value(head)] + le32_words(rest));
        assert(ws.drop_first() =~= le32_words(rest));
        let part = if seen.contains(le32_value(head)) {
            Seq::<u8>::empty()
        } else {
            head
        };
        lemma_le32_words_concat(part, kept_existing(rest, seen));
        if seen.contains(le32_value(head)) {
            assert(le32_words(part) =~= Seq::<u32>::empty());
            assert(part + kept_existing(rest, seen) =~= kept_existing(rest, seen));
        } else {
            assert(le32_words(part) =~= seq![le32_value(head)]);
        }
    }
}

/// A word is kept when it is there and not in `seen`; nothing repeats
/// that did not repeat.
pub(crate) proof fn lemma_without(ws: Seq<u32>, seen: Set<u32>)
    ensures
        forall|w: u32| #[trigger] without(ws, seen).contains(w) <==> (ws.contains(w)
            && !seen.contains(w)),
        unique_words(ws) ==> unique_words(without(ws, seen)),
    decreases ws.len(),
{
    if ws.len() > 0 {
        let rest = ws.drop_first();
        lemma_without(rest, seen);
        let head: Seq<u32> = if seen.contains(ws[0]) {
            seq![]
        } else {
            seq![ws[0]]
        };
        let r = without(ws, seen);
        assert(r =~= head + without(rest, seen));
        assert forall|w: u32| #[trigger] r.contains(w) <==> (ws.contains(w) && !seen.contains(w)) by {
            if r.contains(w) {
                let i = choose|i: int| 0 <= i < r.len() && r[i] == w;
                if i < head.len() {
                    assert(ws[0] == w);
                } else {
                    assert(without(rest, seen)[i - head.len()] == w);
                    assert(without(rest, seen).contains(w));
                    let j = choose|j: int| 0 <= j < rest.len() && rest[j] == w;
                    assert(ws[j + 1] == w);
                }
            }
            if ws.contains(w) && !seen.contains(w) {
                let i = choose|i: int| 0 <= i < ws.len() && ws[i] == w;
                if i == 0 {
                    assert(r[0] == w);
                } else {
                    assert(rest[i - 1] == w);
                    assert(rest.contains(w));
                    assert(without(rest, seen).contains(w));
                    let j = choose|j: int| 0 <= j < without(rest, seen).len() && without(rest, seen)[j] == w;
                    assert(r[head.len() + j] == w);
                }
            }
        }
        if unique_words(ws) {
            assert(unique_words(rest)) by {
                assert forall|i: int, j: int| 0 <= i < j < rest.len() implies rest[i] != rest[j] by {
                    assert(ws[i + 1] == rest[i] && ws[j + 1] == rest[j]);
                }
            }
            let t = without(rest, seen);
            assert forall|i: int, j: int| 0 <= i < j < r.len() implies r[i] != r[j] by {
                if i < head.len() {
                    assert(r[j] == t[j - head.len()]);
                    assert(t.contains(r[j]));
                    assert(rest.contains(r[j]));
                    let k = choose|k: int| 0 <= k < rest.len() && rest[k] == r[j];
                    assert(ws[k + 1] == r[j]);
                    assert(ws[0] == r[i]);
                } else {
                    assert(r[i] == t[i - head.len()]);
                    assert(r[j] == t[j - head.len()]);
                }
            }
        }
    }
}

/// The words of a sequence, each once, where it is last seen: a word seen
/// again moves to the end.
pub open spec fn last_seen(s: Seq<u32>) -> Seq<u32>
    decreases s.len(),
{
    if s.len() == 0 {
        seq![]
    } else {
        without(last_seen(s.drop_last()), set![s.last()]).push(s.last())
    }
}

/// The words last seen are those of the sequence, none twice.
pub(crate) proof fn lemma_last_seen(s: Seq<u32>)
    ensures
        forall|x: u32| #[trigger] last_seen(s).contains(x) <==> s.contains(x),
        unique_words(last_seen(s)),
    decreases s.len(),
{
    if s.len() > 0 {
        let init = s.drop_last();
        let x0 = s.last();
        lemma_last_seen(init);
        let d = last_seen(init);
        let w = without(d, set![x0]);
        lemma_without(d, set![x0]);
        let r = w.push(x0);
        assert forall|x: u32| #[trigger] r.contains(x) <==> s.contains(x) by {
            if r.contains(x) {
                let i = choose|i: int| 0 <= i < r.len() && r[i] == x;
                if i < w.len() {
                    assert(w[i] == x && w.contains(x));
                    let j = choose|j: int| 0 <= j < init.len() && init[j] == x;
                    assert(s[j] == x);
                } else {
                    assert(s[s.len() - 1] == x);
                }
            }
            if s.contains(x) {
                if x == x0 {
                    assert(r[w.len() as int] == x);
                } else {
                    let j = choose|j: int| 0 <= j < s.len() && s[j] == x;
                    assert(s[s.len() - 1] == x0);
                    assert(j < init.len());
                    assert(init[j] == s[j]);
                    assert(init[j] == x);
                    assert(init.contains(x));
                    assert(w.contains(x));
                    let i = choose|i: int| 0 <= i < w.len() && w[i] == x;
                    assert(r[i] == x);
                }
            }
        }
        assert forall|i: int, j: int| 0 <= i < j < r.len() implies r[i] != r[j] by {
            if j == w.len() {
                assert(w.contains(r[i]));
            }
        }
    }
}

/// The words first seen are those of the sequence, none twice.
pub(crate) proof fn lemma_first_seen_unique(s: Seq<u32>)
    ensures
        unique_words(first_seen(s)),
    decreases s.len(),
{
    if s.len() > 0 {
        lemma_first_seen_unique(s.drop_last());
        let d = first_seen(s.drop_last());
        if !d.contains(s.last()) {
            assert forall|i: int, j: int| 0 <= i < j < d.len() + 1 implies d.push(s.last())[i]
                != d.push(s.last())[j] by {
                if j == d.len() {
                    if d[i] == s.last() {
                        assert(d.contains(s.last()));
                    }
                }
            }
        }
    }
}

/// A list merge writes no word twice when the stored list held none twice,
/// and its words are those of the operands and of the stored list.
pub proof fn lemma_prepend_unique(existing: Option<Seq<u8>>, ops: Seq<Seq<u8>>)
    requires
        existing matches Some(b) ==> b.len() % 4 == 0 && unique_words(le32_words(b)),
    ensures
        ({
            let cur = match existing {
                Some(b) => b,
                None => seq![],
            };
            let out = le32_words(prepend_result(existing, ops));
            &&& unique_words(out)
            &&& forall|w: u32| #[trigger] out.contains(w) <==> (operand_words(ops).contains(w)
                || le32_words(cur).contains(w))
        }),
{
    let cur = match existing {
        Some(b) => b,
        None => seq![],
    };
    let ws = operand_words(ops);
    let seen = ws.to_set();
    let fresh = first_seen(ws);
    let kept = without(le32_words(cur), seen);
    assert(le32_words(Seq::<u8>::empty()) =~= Seq::<u32>::empty());
    lemma_reversed_words(fresh);
    lemma_kept_words(cur, seen);
    lemma_le32_words_concat(reversed_words(fresh), kept_existing(cur, seen));
    lemma_first_seen_unique(ws);
    lemma_without(le32_words(cur), seen);
    let rev = fresh.reverse();
    let out = le32_words(prepend_result(existing, ops));
    assert(out =~= rev + kept);
    assert forall|w: u32| #[trigger] rev.contains(w) <==> ws.contains(w) by {
        lemma_first_seen_contains(ws, w);
        if rev.contains(w) {
            let i = choose|i: int| 0 <= i < rev.len() && rev[i] == w;
            assert(fresh[fresh.len() - 1 - i] == w);
        }
        if fresh.contains(w) {
            let i = choose|i: int| 0 <= i < fresh.len() && fresh[i] == w;
            assert(rev[fresh.len() - 1 - i] == w);
        }
    }
    assert forall|w: u32| #[trigger] out.contains(w) <==> (ws.contains(w) || le32_words(cur).contains(w)) by {
        if out.contains(w) {
            let i = choose|i: int| 0 <= i < out.len() && out[i] == w;
            if i < rev.len() {
                assert(rev[i] == w);
                assert(rev.contains(w));
            } else {
                assert(kept[i - rev.len()] == w);
                assert(kept.contains(w));
            }
        }
        if ws.contains(w) {
            assert(rev.contains(w));
            let i = choose|i: int| 0 <= i < rev.len() && rev[i] == w;
            assert(out[i] == w);
        } else if le32_words(cur).contains(w) {
            assert(!seen.contains(w));
            assert(kept.contains(w));
            let i = choose|i: int| 0 <= i < kept.len() && kept[i] == w;
            assert(out[rev.len() + i] == w);
        }
    }
    assert forall|i: int, j: int| 0 <= i < j < out.len() implies out[i] != out[j] by {
        if j < rev.len() {
            assert(rev[i] == fresh[fresh.len() - 1 - i]);
            assert(rev[j] == fresh[fresh.len() - 1 - j]);
        } else if i < rev.len() {
            assert(out[j] == kept[j - rev.len()]);
            assert(kept.contains(out[j]));
            assert(out[i] == rev[i]);
            assert(rev.contains(out[i]));
        } else {
            assert(out[i] == kept[i - rev.len()]);
            assert(out[j] == kept[j - rev.len()]);
        }
    }
}

/// The merge operator of the store, chosen by the key's family byte: the
/// IID counter keeps a maximum, the object count adds, and the term and IID
/// lists prepend.
pub fn kv_merge_operator(key: &[u8], existing_val: Option<&[u8]>, operands: &[Vec<u8>]) -> (r:
    Option<Vec<u8>>)
    requires
        key@.len() >= 5,
        key@[key@.len() - 5] == META_TO_VALUE || key@[key@.len() - 5] == TERM_TO_IIDS
            || key@[key@.len() - 5] == IID_TO_TERMS,
        key@[key@.len() - 5] == META_TO_VALUE ==> (be32_value(key@.skip(key@.len() - 4)) == 0
            || be32_value(key@.skip(key@.len() - 4)) == 1),
        key@[key@.len() - 5] == META_TO_VALUE ==> (existing_val matches Some(b) ==> b@.len()
            == 4),
        word_aligned(operand_bytes(operands@)),
        key@[key@.len() - 5] != META_TO_VALUE ==> prepend_nonempty(
            value_bytes(existing_val),
            operand_bytes(operands@),
        ),
    ensures
        result_bytes(r) == (if key@[key@.len() - 5] == META_TO_VALUE {
            if be32_value(key@.skip(key@.len() - 4)) == 0 {
                u32_max_result(value_bytes(existing_val), operand_bytes(operands@))
            } else {
                counter_result(value_bytes(existing_val), operand_bytes(operands@))
            }
        } else {
            Some(prepend_result(value_bytes(existing_val), operand_bytes(operands@)))
        }),
{
    let n = key.len();
    if key[n - 5] == META_TO_VALUE {
        let route = 16777216 * (key[n - 4] as u32) + 65536 * (key[n - 3] as u32) + 256 * (key[n
            - 2] as u32) + (key[n - 1] as u32);
        proof {
            let t = key@.skip(n - 4);
            assert(t[0] == key@[n - 4]);
            assert(t[1] == key@[n - 3]);
            assert(t[2] == key@[n - 2]);
            assert(t[3] == key@[n - 1]);
        }
        if route == 0 {
            u32_max(existing_val, operands)
        } else {
            i32_counter(existing_val, operands)
        }
    } else {
        prepend_u32_list(existing_val, operands)
    }
}

} // verus!
