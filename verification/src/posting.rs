//! Posting lists: the set of object offsets (within one IID shard) in which a
//! term occurs. Small sets are kept as a sorted list of offsets, large ones as
//! a bitmap of 65536 bits.
use vstd::prelude::*;

verus! {

/// Number of low IID bits that make the offset within a shard.
pub const POSTING_SHARD_BITS: u32 = 16;

/// Size of a dense bitmap: one bit per `u16` offset.
pub const BITMAP_BYTES: usize = 8192;

/// A sparse posting turns dense once it holds this many offsets.
pub const SPARSE_TO_DENSE: usize = 4096;

/// A dense posting turns sparse once it holds this many offsets or fewer.
pub const DENSE_TO_SPARSE: usize = 2048;

/// Format byte of a sparse posting stored as raw little-endian `u16`s.
pub const FORMAT_SPARSE_RAW: u8 = 0;

/// Format byte of a dense posting stored as a bitmap.
pub const FORMAT_DENSE: u8 = 1;

/// Format byte of a sparse posting stored as LEB128 deltas.
pub const FORMAT_SPARSE_DELTA: u8 = 2;

// ---------------------------------------------------------------------------
// Mathematical model
// ---------------------------------------------------------------------------

/// Whether offset `o` is set in bitmap `bm`.
pub open spec fn bit_set(bm: Seq<u8>, o: int) -> bool {
    bm[o / 8] & (1u8 << ((o % 8) as u8)) != 0u8
}

/// The offsets below `n` that are set in `bm`, in ascending order.
pub open spec fn dense_offsets(bm: Seq<u8>, n: nat) -> Seq<u16>
    decreases n,
{
    if n == 0 {
        Seq::empty()
    } else {
        let prefix = dense_offsets(bm, (n - 1) as nat);
        if bit_set(bm, n - 1) {
            prefix.push((n - 1) as u16)
        } else {
            prefix
        }
    }
}

/// Each element is strictly smaller than the ones after it.
pub open spec fn strictly_increasing(s: Seq<u16>) -> bool {
    forall|i: int, j: int| 0 <= i < j < s.len() ==> s[i] < s[j]
}

/// Each element is strictly greater than the ones after it.
pub open spec fn strictly_decreasing(s: Seq<u16>) -> bool {
    forall|i: int, j: int| 0 <= i < j < s.len() ==> s[i] > s[j]
}

/// The shape of a posting: a sorted list of offsets, or a bitmap.
pub ghost enum PostingModel {
    Sparse(Seq<u16>),
    Dense(Seq<u8>),
}

/// A well-formed representation: sparse lists are strictly increasing and
/// shorter than the densification threshold; bitmaps cover all offsets.
pub open spec fn model_wf(m: PostingModel) -> bool {
    match m {
        PostingModel::Sparse(s) => strictly_increasing(s) && s.len() < SPARSE_TO_DENSE,
        PostingModel::Dense(b) => b.len() == BITMAP_BYTES,
    }
}

/// The offsets a representation holds, in ascending order.
pub open spec fn model_offsets(m: PostingModel) -> Seq<u16> {
    match m {
        PostingModel::Sparse(s) => s,
        PostingModel::Dense(b) => dense_offsets(b, 65536),
    }
}

/// Number of bits below `k` set in byte `b`.
pub open spec fn byte_bits(b: u8, k: nat) -> nat
    decreases k,
{
    if k == 0 {
        0
    } else {
        byte_bits(b, (k - 1) as nat) + if b & (1u8 << ((k - 1) as u8)) != 0u8 {
            1nat
        } else {
            0nat
        }
    }
}

// ---------------------------------------------------------------------------
// Lemmas on the model
// ---------------------------------------------------------------------------

proof fn lemma_dense_offsets(bm: Seq<u8>, n: nat)
    requires
        n <= 65536,
    ensures
        strictly_increasing(dense_offsets(bm, n)),
        dense_offsets(bm, n).len() <= n,
        forall|i: int| 0 <= i < dense_offsets(bm, n).len() ==> dense_offsets(bm, n)[i] < n,
        forall|o: u16| #[trigger] dense_offsets(bm, n).contains(o) <==> (o < n && bit_set(bm, o as int)),
    decreases n,
{
    if n > 0 {
        let p = dense_offsets(bm, (n - 1) as nat);
        lemma_dense_offsets(bm, (n - 1) as nat);
        if bit_set(bm, n - 1) {
            let q = p.push((n - 1) as u16);
            assert forall|o: u16| #[trigger] q.contains(o) <==> (o < n && bit_set(bm, o as int)) by {
                if q.contains(o) {
                    let k = choose|k: int| 0 <= k < q.len() && q[k] == o;
                    if k < p.len() {
                        assert(p.contains(o));
                    }
                }
                if o < n && bit_set(bm, o as int) {
                    if o == n - 1 {
                        assert(q[q.len() - 1] == o);
                    } else {
                        assert(p.contains(o));
                        let k = choose|k: int| 0 <= k < p.len() && p[k] == o;
                        assert(q[k] == o);
                    }
                }
            }
        } else {
            assert forall|o: u16| #[trigger] p.contains(o) <==> (o < n && bit_set(bm, o as int)) by {
                if o < n && bit_set(bm, o as int) {
                    assert(o != n - 1);
                }
            }
        }
    }
}

/// A strictly increasing sequence has as many elements as its set.
proof fn lemma_increasing_set_len(s: Seq<u16>)
    requires
        strictly_increasing(s),
    ensures
        s.to_set().len() == s.len(),
        s.to_set().finite(),
{
    assert(s.no_duplicates()) by {
        assert forall|i: int, j: int| 0 <= i < s.len() && 0 <= j < s.len() && i != j implies s[i]
            != s[j] by {
            if i < j {
                assert(s[i] < s[j]);
            } else {
                assert(s[j] < s[i]);
            }
        }
    }
    s.unique_seq_to_set();
    s.lemma_cardinality_of_set();
}

proof fn lemma_bit_index(i: int, k: int)
    requires
        0 <= i,
        0 <= k < 8,
    ensures
        (8 * i + k) / 8 == i,
        (8 * i + k) % 8 == k,
{
}

/// Counting the bits of byte `i` advances the dense prefix by that count.
proof fn lemma_byte_step(bm: Seq<u8>, i: nat, k: nat)
    requires
        i < 8192,
        k <= 8,
    ensures
        dense_offsets(bm, 8 * i + k).len() == dense_offsets(bm, 8 * i).len() + byte_bits(
            bm[i as int],
            k,
        ),
    decreases k,
{
    if k > 0 {
        lemma_byte_step(bm, i, (k - 1) as nat);
        lemma_bit_index(i as int, (k - 1) as int);
        let n = (8 * i + k) as nat;
        assert(dense_offsets(bm, n) == (if bit_set(bm, n - 1) {
            dense_offsets(bm, (n - 1) as nat).push((n - 1) as u16)
        } else {
            dense_offsets(bm, (n - 1) as nat)
        }));
    }
}

proof fn lemma_byte_bits_bound(b: u8, k: nat)
    ensures
        byte_bits(b, k) <= k,
    decreases k,
{
    if k > 0 {
        lemma_byte_bits_bound(b, (k - 1) as nat);
    }
}

/// Setting bit `k` of a byte changes only bit `k`.
proof fn lemma_byte_set(b: u8, k: u8, j: u8)
    requires
        k < 8,
        j < 8,
    ensures
        ((b | (1u8 << k)) & (1u8 << j) != 0u8) <==> ((b & (1u8 << j) != 0u8) || j == k),
{
    assert(((b | (1u8 << k)) & (1u8 << j) != 0u8) <==> ((b & (1u8 << j) != 0u8) || j == k))
        by (bit_vector)
        requires
            k < 8,
            j < 8,
    ;
}

/// Clearing bit `k` of a byte changes only bit `k`.
proof fn lemma_byte_clear(b: u8, k: u8, j: u8)
    requires
        k < 8,
        j < 8,
    ensures
        ((b & !(1u8 << k)) & (1u8 << j) != 0u8) <==> ((b & (1u8 << j) != 0u8) && j != k),
{
    assert(((b & !(1u8 << k)) & (1u8 << j) != 0u8) <==> ((b & (1u8 << j) != 0u8) && j != k))
        by (bit_vector)
        requires
            k < 8,
            j < 8,
    ;
}

/// The zero bitmap holds no offset.
proof fn lemma_zero_byte(j: u8)
    requires
        j < 8,
    ensures
        (0u8 & (1u8 << j)) == 0u8,
{
    assert((0u8 & (1u8 << j)) == 0u8) by (bit_vector);
}



// ---------------------------------------------------------------------------
// Serialized formats
// ---------------------------------------------------------------------------

/// LEB128 bytes of `d`: seven bits per byte, least significant first, the
/// high bit set on every byte but the last.
pub open spec fn leb(d: nat) -> Seq<u8>
    decreases d,
{
    if d < 128 {
        seq![d as u8]
    } else {
        seq![(d % 128 + 128) as u8] + leb(d / 128)
    }
}

/// Delta encoding of a strictly increasing list: the first offset as is, each
/// next one as its difference with the previous one, every value in LEB128.
pub open spec fn enc_from(s: Seq<u16>, started: bool, prev: u16) -> Seq<u8>
    decreases s.len(),
{
    if s.len() == 0 {
        Seq::empty()
    } else {
        let d: nat = if started {
            (s[0] - prev) as nat
        } else {
            s[0] as nat
        };
        leb(d) + enc_from(s.drop_first(), true, s[0])
    }
}

/// Raw encoding of a list: each offset as two little-endian bytes.
pub open spec fn raw_enc(s: Seq<u16>) -> Seq<u8> {
    Seq::new(
        2 * s.len(),
        |i: int|
            if i % 2 == 0 {
                (s[i / 2] % 256) as u8
            } else {
                (s[i / 2] / 256) as u8
            },
    )
}

/// Serialized sparse posting: delta format when strictly shorter than the raw
/// format, raw format otherwise.
pub open spec fn encode_sparse(s: Seq<u16>) -> Seq<u8> {
    let d = enc_from(s, false, 0);
    if d.len() < 2 * s.len() {
        seq![FORMAT_SPARSE_DELTA] + d
    } else {
        seq![FORMAT_SPARSE_RAW] + raw_enc(s)
    }
}

/// Serialized posting.
pub open spec fn encode_model(m: PostingModel) -> Seq<u8> {
    match m {
        PostingModel::Sparse(s) => encode_sparse(s),
        PostingModel::Dense(b) => seq![FORMAT_DENSE] + b,
    }
}

/// A LEB128 value of at most three bytes at the start of `s`: its value and
/// its length. A third byte with its high bit set is refused.
pub open spec fn varint(s: Seq<u8>) -> Option<(int, int)> {
    if s.len() == 0 {
        None
    } else if s[0] < 128 {
        Some((s[0] as int, 1))
    } else if s.len() < 2 {
        None
    } else if s[1] < 128 {
        Some(((s[0] - 128) + 128 * s[1], 2))
    } else if s.len() < 3 {
        None
    } else if s[2] < 128 {
        Some(((s[0] - 128) + 128 * (s[1] - 128) + 16384 * s[2], 3))
    } else {
        None
    }
}

/// Offsets read from delta bytes: every delta fits in 16 bits, deltas after
/// the first are not zero, and every offset fits in 16 bits.
pub open spec fn decode_deltas(s: Seq<u8>, started: bool, prev: nat) -> Option<Seq<u16>>
    decreases s.len(),
{
    if s.len() == 0 {
        Some(Seq::empty())
    } else {
        match varint(s) {
            None => None,
            Some((d, n)) => {
                if d > 65535 || (started && d == 0) {
                    None
                } else {
                    let off: int = if started {
                        prev + d
                    } else {
                        d
                    };
                    if off > 65535 {
                        None
                    } else {
                        match decode_deltas(s.skip(n), true, off as nat) {
                            Some(rest) => Some(seq![off as u16] + rest),
                            None => None,
                        }
                    }
                }
            },
        }
    }
}

/// Offsets read from raw little-endian pairs.
pub open spec fn decode_raw(p: Seq<u8>) -> Seq<u16> {
    Seq::new(p.len() / 2, |k: int| (p[2 * k] + 256 * p[2 * k + 1]) as u16)
}

/// The posting that serialized bytes stand for, if they are valid.
pub open spec fn spec_decode(e: Seq<u8>) -> Option<PostingModel> {
    if e.len() == 0 {
        None
    } else if e[0] == FORMAT_SPARSE_RAW && (e.len() - 1) % 2 == 0 {
        let o = decode_raw(e.skip(1));
        if strictly_increasing(o) && o.len() < SPARSE_TO_DENSE {
            Some(PostingModel::Sparse(o))
        } else {
            None
        }
    } else if e[0] == FORMAT_SPARSE_DELTA {
        match decode_deltas(e.skip(1), false, 0) {
            Some(o) => if o.len() < SPARSE_TO_DENSE {
                Some(PostingModel::Sparse(o))
            } else {
                None
            },
            None => None,
        }
    } else if e[0] == FORMAT_DENSE && e.len() - 1 == BITMAP_BYTES {
        Some(PostingModel::Dense(e.skip(1)))
    } else {
        None
    }
}

proof fn lemma_varint_leb(d: nat, t: Seq<u8>)
    requires
        d <= 65535,
    ensures
        varint(leb(d) + t) == Some((d as int, leb(d).len() as int)),
        1 <= leb(d).len() <= 3,
{
    reveal_with_fuel(leb, 4);
    let e = leb(d) + t;
    if d < 128 {
        assert(e[0] == d);
    } else if d < 16384 {
        assert(leb(d / 128) == seq![(d / 128) as u8]);
        assert(e[0] == d % 128 + 128);
        assert(e[1] == d / 128);
    } else {
        assert(d / 128 >= 128);
        assert(d / 128 / 128 < 128);
        assert(leb(d / 128 / 128) == seq![(d / 128 / 128) as u8]);
        assert(e[0] == d % 128 + 128);
        assert(e[1] == (d / 128) % 128 + 128);
        assert(e[2] == d / 128 / 128);
    }
}

proof fn lemma_delta_roundtrip(s: Seq<u16>, started: bool, prev: u16)
    requires
        strictly_increasing(s),
        started && s.len() > 0 ==> s[0] > prev,
        !started ==> prev == 0,
    ensures
        decode_deltas(enc_from(s, started, prev), started, prev as nat) == Some(s),
    decreases s.len(),
{
    if s.len() > 0 {
        let d: nat = if started {
            (s[0] - prev) as nat
        } else {
            s[0] as nat
        };
        let rest = s.drop_first();
        let tail = enc_from(rest, true, s[0]);
        lemma_varint_leb(d, tail);
        assert(strictly_increasing(rest)) by {
            assert forall|i: int, j: int| 0 <= i < j < rest.len() implies rest[i] < rest[j] by {
                assert(rest[i] == s[i + 1] && rest[j] == s[j + 1]);
            }
        }
        if rest.len() > 0 {
            assert(rest[0] == s[1]);
            assert(s[0] < s[1]);
        }
        lemma_delta_roundtrip(rest, true, s[0]);
        let e = enc_from(s, started, prev);
        assert(e == leb(d) + tail);
        assert(e.skip(leb(d).len() as int) =~= tail);
        assert(seq![s[0]] + rest =~= s);
    }
}

proof fn lemma_deltas_increasing(s: Seq<u8>, started: bool, prev: nat)
    requires
        decode_deltas(s, started, prev) is Some,
    ensures
        strictly_increasing(decode_deltas(s, started, prev)->0),
        started && decode_deltas(s, started, prev)->0.len() > 0 ==> decode_deltas(
            s,
            started,
            prev,
        )->0[0] > prev,
    decreases s.len(),
{
    if s.len() > 0 {
        let (d, n) = varint(s)->0;
        let off: int = if started {
            prev + d
        } else {
            d
        };
        lemma_deltas_increasing(s.skip(n), true, off as nat);
        let rest = decode_deltas(s.skip(n), true, off as nat)->0;
        let o = seq![off as u16] + rest;
        assert forall|i: int, j: int| 0 <= i < j < o.len() implies o[i] < o[j] by {
            if i == 0 {
                assert(o[j] == rest[j - 1]);
                if j > 1 {
                    assert(rest[0] < rest[j - 1]);
                }
            } else {
                assert(o[i] == rest[i - 1] && o[j] == rest[j - 1]);
            }
        }
    }
}

proof fn lemma_raw_roundtrip(s: Seq<u16>)
    ensures
        decode_raw(raw_enc(s)) == s,
{
    let e = raw_enc(s);
    assert forall|k: int| 0 <= k < s.len() implies decode_raw(e)[k] == s[k] by {
        assert(e[2 * k] == s[k] % 256);
        assert(e[2 * k + 1] == s[k] / 256);
    }
    assert(decode_raw(e) =~= s);
}

/// Decoding what `encode` produced gives back the same representation.
pub proof fn lemma_encode_decode(m: PostingModel)
    requires
        model_wf(m),
    ensures
        spec_decode(encode_model(m)) == Some(m),
{
    match m {
        PostingModel::Sparse(s) => {
            let d = enc_from(s, false, 0);
            if d.len() < 2 * s.len() {
                lemma_delta_roundtrip(s, false, 0);
                assert((seq![FORMAT_SPARSE_DELTA] + d).skip(1) =~= d);
            } else {
                lemma_raw_roundtrip(s);
                assert((seq![FORMAT_SPARSE_RAW] + raw_enc(s)).skip(1) =~= raw_enc(s));
            }
        },
        PostingModel::Dense(b) => {
            assert((seq![FORMAT_DENSE] + b).skip(1) =~= b);
        },
    }
}


/// `FORMAT_SPARSE_DELTA` followed by the LEB128 deltas of a list.
fn encode_deltas(offsets: &Vec<u16>) -> (r: Vec<u8>)
    requires
        strictly_increasing(offsets@),
    ensures
        r@ == seq![FORMAT_SPARSE_DELTA] + enc_from(offsets@, false, 0),
{
    let ghost s = offsets@;
    let n = offsets.len();
    let mut delta_encoded: Vec<u8> = Vec::new();
    delta_encoded.push(FORMAT_SPARSE_DELTA);
    let mut previous: u16 = 0;
    let mut index: usize = 0;
    assert(s.skip(0) =~= s);
    while index < n
        invariant
            n == s.len(),
            s == offsets@,
            strictly_increasing(s),
            index <= n,
            index > 0 ==> previous == s[index - 1],
            index == 0 ==> previous == 0,
            delta_encoded@ + enc_from(s.skip(index as int), index > 0, previous) == seq![
                FORMAT_SPARSE_DELTA,
            ] + enc_from(s, false, 0),
        decreases n - index,
    {
        let offset = offsets[index];
        let ghost rest = enc_from(s.skip(index + 1), true, offset);
        proof {
            assert(s.skip(index as int).drop_first() =~= s.skip(index + 1));
            assert(s.skip(index as int)[0] == offset);
            if index > 0 {
                assert(s[index - 1] < s[index as int]);
            }
        }
        let mut delta: u16 = if index == 0 {
            offset
        } else {
            offset - previous
        };
        assert(delta_encoded@ + leb(delta as nat) + rest == seq![FORMAT_SPARSE_DELTA] + enc_from(
            s,
            false,
            0,
        )) by {
            assert(delta_encoded@ + (leb(delta as nat) + rest) =~= delta_encoded@ + leb(
                delta as nat,
            ) + rest);
        }
        loop
            invariant_except_break
                delta_encoded@ + leb(delta as nat) + rest == seq![FORMAT_SPARSE_DELTA] + enc_from(
                    s,
                    false,
                    0,
                ),
            ensures
                delta_encoded@ + rest == seq![FORMAT_SPARSE_DELTA] + enc_from(s, false, 0),
            decreases delta,
        {
            let ghost before = delta_encoded@;
            let ghost d = delta as nat;
            let mut byte: u8 = (delta % 128) as u8;
            delta = delta / 128;
            if delta != 0 {
                byte = byte + 128;
            }
            delta_encoded.push(byte);
            if delta == 0 {
                assert(leb(d) == seq![d as u8]);
                assert(before + leb(d) + rest =~= delta_encoded@ + rest);
                break ;
            }
            assert(leb(d) == seq![(d % 128 + 128) as u8] + leb(d / 128));
            assert(before + leb(d) + rest =~= delta_encoded@ + leb(delta as nat) + rest);
        }
        previous = offset;
        index = index + 1;
    }
    assert(s.skip(n as int) =~= Seq::<u16>::empty());
    assert(delta_encoded@ =~= seq![FORMAT_SPARSE_DELTA] + enc_from(s, false, 0));
    delta_encoded
}

/// `FORMAT_SPARSE_RAW` followed by each offset as two little-endian bytes.
fn encode_raw(offsets: &Vec<u16>) -> (r: Vec<u8>)
    ensures
        r@ == seq![FORMAT_SPARSE_RAW] + raw_enc(offsets@),
{
    let ghost s = offsets@;
    let n = offsets.len();
    let mut raw_encoded: Vec<u8> = Vec::new();
    raw_encoded.push(FORMAT_SPARSE_RAW);
    let mut i: usize = 0;
    while i < n
        invariant
            n == s.len(),
            s == offsets@,
            i <= n,
            raw_encoded@ =~= seq![FORMAT_SPARSE_RAW] + raw_enc(s.take(i as int)),
        decreases n - i,
    {
        let offset = offsets[i];
        raw_encoded.push((offset % 256) as u8);
        raw_encoded.push((offset / 256) as u8);
        proof {
            let t = s.take(i + 1);
            assert forall|k: int| 0 <= k < 2 * i implies raw_enc(t)[k] == raw_enc(
                s.take(i as int),
            )[k] by {
                assert(t[k / 2] == s.take(i as int)[k / 2]);
            }
            assert(raw_enc(t)[2 * i as int] == (offset % 256) as u8);
            assert(raw_enc(t)[2 * i + 1] == (offset / 256) as u8);
        }
        i = i + 1;
    }
    assert(s.take(n as int) =~= s);
    raw_encoded
}

/// Reads a LEB128 value of at most three bytes at `start`.
fn read_varint(bytes: &[u8], start: usize) -> (r: Option<(u32, usize)>)
    requires
        start <= bytes@.len(),
    ensures
        match varint(bytes@.skip(start as int)) {
            None => r is None,
            Some((v, n)) => r matches Some((a, b)) && a == v && b == n,
        },
{
    let ghost s = bytes@.skip(start as int);
    if start >= bytes.len() {
        return None;
    }
    let b0 = bytes[start];
    assert(s[0] == b0);
    if b0 < 128 {
        return Some((b0 as u32, 1));
    }
    if bytes.len() - start < 2 {
        return None;
    }
    let b1 = bytes[start + 1];
    assert(s[1] == b1);
    let low: u32 = (b0 - 128) as u32;
    if b1 < 128 {
        return Some((low + 128 * (b1 as u32), 2));
    }
    if bytes.len() - start < 3 {
        return None;
    }
    let b2 = bytes[start + 2];
    assert(s[2] == b2);
    if b2 < 128 {
        Some((low + 128 * ((b1 - 128) as u32) + 16384 * (b2 as u32), 3))
    } else {
        None
    }
}

// ---------------------------------------------------------------------------
// Helpers on sorted lists and bitmaps
// ---------------------------------------------------------------------------

proof fn lemma_insert_sorted(s: Seq<u16>, i: int, x: u16)
    requires
        strictly_increasing(s),
        0 <= i <= s.len(),
        forall|k: int| 0 <= k < i ==> s[k] < x,
        forall|k: int| i <= k < s.len() ==> s[k] > x,
    ensures
        strictly_increasing(s.insert(i, x)),
        forall|y: u16| #[trigger] s.insert(i, x).contains(y) <==> (s.contains(y) || y == x),
{
    let t = s.insert(i, x);
    assert(t.len() == s.len() + 1);
    assert forall|a: int, b: int| 0 <= a < b < t.len() implies t[a] < t[b] by {
        if b < i {
            assert(t[a] == s[a] && t[b] == s[b]);
        } else if b == i {
            assert(t[a] == s[a]);
        } else if a < i {
            assert(t[a] == s[a] && t[b] == s[b - 1]);
        } else if a == i {
            assert(t[b] == s[b - 1]);
        } else {
            assert(t[a] == s[a - 1] && t[b] == s[b - 1]);
        }
    }
    assert forall|y: u16| #[trigger] t.contains(y) <==> (s.contains(y) || y == x) by {
        if t.contains(y) {
            let k = choose|k: int| 0 <= k < t.len() && t[k] == y;
            if k < i {
                assert(s[k] == y);
            } else if k > i {
                assert(s[k - 1] == y);
            }
        }
        if s.contains(y) {
            let k = choose|k: int| 0 <= k < s.len() && s[k] == y;
            if k < i {
                assert(t[k] == y);
            } else {
                assert(t[k + 1] == y);
            }
        }
        if y == x {
            assert(t[i] == y);
        }
    }
}

proof fn lemma_remove_sorted(s: Seq<u16>, i: int)
    requires
        strictly_increasing(s),
        0 <= i < s.len(),
    ensures
        strictly_increasing(s.remove(i)),
        forall|y: u16| #[trigger] s.remove(i).contains(y) <==> (s.contains(y) && y != s[i]),
{
    let t = s.remove(i);
    assert forall|a: int, b: int| 0 <= a < b < t.len() implies t[a] < t[b] by {
        if b < i {
        } else if a < i {
            assert(t[b] == s[b + 1]);
        } else {
            assert(t[a] == s[a + 1] && t[b] == s[b + 1]);
        }
    }
    assert forall|y: u16| #[trigger] t.contains(y) <==> (s.contains(y) && y != s[i]) by {
        if t.contains(y) {
            let k = choose|k: int| 0 <= k < t.len() && t[k] == y;
            if k < i {
                assert(s[k] == y);
            } else {
                assert(s[k + 1] == y);
            }
        }
        if s.contains(y) && y != s[i] {
            let k = choose|k: int| 0 <= k < s.len() && s[k] == y;
            if k < i {
                assert(t[k] == y);
            } else {
                assert(k != i);
                assert(t[k - 1] == y);
            }
        }
    }
}

/// Binary search in a strictly increasing list: `Ok` with the index of `x`,
/// or `Err` with the index where `x` would be inserted.
fn search_sorted(v: &Vec<u16>, x: u16) -> (r: Result<usize, usize>)
    requires
        strictly_increasing(v@),
    ensures
        match r {
            Ok(i) => i < v@.len() && v@[i as int] == x,
            Err(i) => i <= v@.len() && (forall|k: int| 0 <= k < i ==> v@[k] < x) && (forall|k: int|
                i <= k < v@.len() ==> v@[k] > x),
        },
{
    let mut lo: usize = 0;
    let mut hi: usize = v.len();
    while lo < hi
        invariant
            strictly_increasing(v@),
            0 <= lo <= hi <= v@.len(),
            forall|k: int| 0 <= k < lo ==> v@[k] < x,
            forall|k: int| hi <= k < v@.len() ==> v@[k] > x,
        decreases hi - lo,
    {
        let mid = lo + (hi - lo) / 2;
        let m = v[mid];
        if m < x {
            assert forall|k: int| 0 <= k < mid + 1 implies v@[k] < x by {
                if k < mid {
                    assert(v@[k] < v@[mid as int]);
                }
            }
            lo = mid + 1;
        } else if m > x {
            assert forall|k: int| mid <= k < v@.len() implies v@[k] > x by {
                if k > mid {
                    assert(v@[k] > v@[mid as int]);
                }
            }
            hi = mid;
        } else {
            return Ok(mid);
        }
    }
    Err(lo)
}

/// Whether `x` is in a strictly increasing list.
proof fn lemma_search_contains(s: Seq<u16>, r: Result<usize, usize>, x: u16)
    requires
        match r {
            Ok(i) => i < s.len() && s[i as int] == x,
            Err(i) => i <= s.len() && (forall|k: int| 0 <= k < i ==> s[k] < x) && (forall|k: int|
                i <= k < s.len() ==> s[k] > x),
        },
    ensures
        s.contains(x) <==> r is Ok,
{
    if let Ok(i) = r {
        assert(s[i as int] == x);
    } else if s.contains(x) {
        let k = choose|k: int| 0 <= k < s.len() && s[k] == x;
        assert(s[k] == x);
    }
}

/// The bitmap holding exactly the offsets of a list.
fn bitmap_of(offsets: &Vec<u16>) -> (bm: Vec<u8>)
    ensures
        bm@.len() == BITMAP_BYTES,
        forall|o: u16| #[trigger] bit_set(bm@, o as int) <==> offsets@.contains(o),
{
    let mut bm: Vec<u8> = Vec::new();
    let mut z: usize = 0;
    while z < BITMAP_BYTES
        invariant
            z <= BITMAP_BYTES,
            bm@.len() == z,
            forall|k: int| 0 <= k < z ==> bm@[k] == 0u8,
        decreases BITMAP_BYTES - z,
    {
        bm.push(0u8);
        z = z + 1;
    }
    assert forall|o: u16| #[trigger] bit_set(bm@, o as int) <==> offsets@.take(0).contains(o) by {
        lemma_zero_byte((o % 8) as u8);
        assert(bm@[o as int / 8] == 0u8);
    }
    let mut i: usize = 0;
    while i < offsets.len()
        invariant
            i <= offsets@.len(),
            bm@.len() == BITMAP_BYTES,
            forall|o: u16| #[trigger] bit_set(bm@, o as int) <==> offsets@.take(i as int).contains(o),
        decreases offsets@.len() - i,
    {
        let x = offsets[i];
        let idx = (x / 8) as usize;
        let k = (x % 8) as u8;
        let byte = bm[idx];
        let ghost old_bm = bm@;
        bm.set(idx, byte | (1u8 << k));
        assert forall|o: u16| #[trigger] bit_set(bm@, o as int) <==> offsets@.take(i + 1).contains(
            o,
        ) by {
            assert(offsets@.take(i + 1) =~= offsets@.take(i as int).push(x));
            if o / 8 == x / 8 {
                lemma_byte_set(byte, k, (o % 8) as u8);
                assert(o == x <==> o % 8 == x % 8);
            } else {
                assert(bm@[o as int / 8] == old_bm[o as int / 8]);
                assert(o != x);
            }
            assert(bit_set(old_bm, o as int) <==> offsets@.take(i as int).contains(o));
            if offsets@.take(i as int).push(x).contains(o) && o != x {
                let j = choose|j: int| 0 <= j < i + 1 && offsets@.take(i as int).push(x)[j] == o;
                assert(offsets@.take(i as int)[j] == o);
            }
            if offsets@.take(i as int).contains(o) {
                let j = choose|j: int| 0 <= j < i && offsets@.take(i as int)[j] == o;
                assert(offsets@.take(i as int).push(x)[j] == o);
            }
            if o == x {
                assert(offsets@.take(i as int).push(x)[i as int] == o);
            }
        }
        i = i + 1;
    }
    assert(offsets@.take(offsets@.len() as int) =~= offsets@);
    bm
}

/// The ascending list of offsets set in a bitmap.
fn offsets_of(bitmap: &Vec<u8>) -> (v: Vec<u16>)
    requires
        bitmap@.len() == BITMAP_BYTES,
    ensures
        v@ == dense_offsets(bitmap@, 65536),
{
    let mut v: Vec<u16> = Vec::new();
    let mut o: u32 = 0;
    while o < 65536
        invariant
            o <= 65536,
            bitmap@.len() == BITMAP_BYTES,
            v@ == dense_offsets(bitmap@, o as nat),
        decreases 65536 - o,
    {
        let byte = bitmap[(o / 8) as usize];
        if byte & (1u8 << ((o % 8) as u8)) != 0 {
            v.push(o as u16);
        }
        o = o + 1;
    }
    v
}

/// Number of offsets set in a bitmap.
fn dense_len(bitmap: &Vec<u8>) -> (r: usize)
    requires
        bitmap@.len() == BITMAP_BYTES,
    ensures
        r == dense_offsets(bitmap@, 65536).len(),
{
    let mut total: usize = 0;
    let mut i: usize = 0;
    while i < BITMAP_BYTES
        invariant
            bitmap@.len() == BITMAP_BYTES,
            i <= BITMAP_BYTES,
            total == dense_offsets(bitmap@, (8 * i) as nat).len(),
            total <= 8 * i,
        decreases BITMAP_BYTES - i,
    {
        let byte = bitmap[i];
        let mut k: u8 = 0;
        let mut count: usize = 0;
        while k < 8
            invariant
                k <= 8,
                count == byte_bits(byte, k as nat),
                count <= k,
            decreases 8 - k,
        {
            proof {
                lemma_byte_bits_bound(byte, k as nat);
            }
            if byte & (1u8 << k) != 0 {
                count = count + 1;
            }
            k = k + 1;
        }
        proof {
            lemma_byte_step(bitmap@, i as nat, 8);
        }
        total = total + count;
        i = i + 1;
    }
    total
}

/// The elements of a list in reverse order.
fn reversed(v: &Vec<u16>) -> (r: Vec<u16>)
    ensures
        r@ == v@.reverse(),
{
    let n = v.len();
    let mut r: Vec<u16> = Vec::new();
    let mut j: usize = 0;
    while j < n
        invariant
            n == v@.len(),
            j <= n,
            r@ =~= Seq::new(j as nat, |k: int| v@[n - 1 - k]),
        decreases n - j,
    {
        r.push(v[n - 1 - j]);
        j = j + 1;
    }
    assert(r@ =~= v@.reverse());
    r
}

proof fn lemma_reverse_decreasing(s: Seq<u16>)
    requires
        strictly_increasing(s),
    ensures
        strictly_decreasing(s.reverse()),
        forall|o: u16| #[trigger] s.reverse().contains(o) <==> s.contains(o),
{
    let r = s.reverse();
    assert forall|i: int, j: int| 0 <= i < j < r.len() implies r[i] > r[j] by {
        assert(r[i] == s[s.len() - 1 - i] && r[j] == s[s.len() - 1 - j]);
    }
    assert forall|o: u16| #[trigger] r.contains(o) <==> s.contains(o) by {
        if r.contains(o) {
            let k = choose|k: int| 0 <= k < r.len() && r[k] == o;
            assert(s[s.len() - 1 - k] == o);
        }
        if s.contains(o) {
            let k = choose|k: int| 0 <= k < s.len() && s[k] == o;
            assert(r[s.len() - 1 - k] == o);
        }
    }
}

// ---------------------------------------------------------------------------
// IID <-> (shard, offset)
// ---------------------------------------------------------------------------

/// The posting representation: a strictly increasing list of offsets while
/// small, a bitmap once large.
#[derive(Clone, Debug, PartialEq, Eq)]
enum StorePostingRepresentation {
    Sparse(Vec<u16>),
    Dense(Vec<u8>),
}

/// A set of `u16` offsets within one IID shard.
#[derive(Clone, Debug, PartialEq, Eq)]
pub struct StorePosting {
    representation: StorePostingRepresentation,
}

impl StorePosting {
    /// The shard an IID falls into: its high 16 bits.
    pub fn shard(iid: u32) -> (r: u16)
        ensures
            r == iid / 65536,
    {
        let r = (iid >> POSTING_SHARD_BITS) as u16;
        assert((iid >> 16u32) as u16 == iid / 65536) by (bit_vector);
        r
    }

    /// The offset of an IID within its shard: its low 16 bits.
    pub fn offset(iid: u32) -> (r: u16)
        ensures
            r == iid % 65536,
    {
        let r = iid as u16;
        assert(iid as u16 == iid % 65536) by (bit_vector);
        r
    }

    /// The IID made of a shard and an offset within it.
    pub fn iid(shard: u16, offset: u16) -> (r: u32)
        ensures
            r == shard * 65536 + offset,
    {
        let r = ((shard as u32) << POSTING_SHARD_BITS) | (offset as u32);
        assert(((shard as u32) << 16u32) | (offset as u32) == shard * 65536 + offset)
            by (bit_vector);
        r
    }

    /// The representation, as a mathematical value.
    pub closed spec fn model(&self) -> PostingModel {
        match self.representation {
            StorePostingRepresentation::Sparse(v) => PostingModel::Sparse(v@),
            StorePostingRepresentation::Dense(b) => PostingModel::Dense(b@),
        }
    }

    /// The representation invariant.
    pub open spec fn wf(&self) -> bool {
        model_wf(self.model())
    }

    /// The offsets held, in ascending order.
    pub open spec fn offsets(&self) -> Seq<u16> {
        model_offsets(self.model())
    }

    /// Whether the bitmap representation is in use.
    pub open spec fn spec_is_dense(&self) -> bool {
        self.model() is Dense
    }

    /// The empty posting (sparse).
    pub fn new() -> (r: Self)
        ensures
            r.wf(),
            r@ == Set::<u16>::empty(),
            r.offsets() == Seq::<u16>::empty(),
            !r.spec_is_dense(),
    {
        let r = StorePosting { representation: StorePostingRepresentation::Sparse(Vec::new()) };
        assert(r@ =~= Set::<u16>::empty());
        r
    }

    /// Whether the bitmap representation is in use.
    pub fn is_dense(&self) -> (r: bool)
        ensures
            r == self.spec_is_dense(),
    {
        match &self.representation {
            StorePostingRepresentation::Sparse(_) => false,
            StorePostingRepresentation::Dense(_) => true,
        }
    }

    /// Number of offsets held.
    pub fn len(&self) -> (r: usize)
        requires
            self.wf(),
        ensures
            r == self.offsets().len(),
            r == self@.len(),
    {
        proof {
            self.lemma_offsets();
        }
        match &self.representation {
            StorePostingRepresentation::Sparse(offsets) => offsets.len(),
            StorePostingRepresentation::Dense(bitmap) => dense_len(bitmap),
        }
    }

    /// The offsets form a strictly increasing sequence, so the set of offsets
    /// has as many elements as the sequence.
    proof fn lemma_offsets(&self)
        requires
            self.wf(),
        ensures
            strictly_increasing(self.offsets()),
            self@.len() == self.offsets().len(),
            self@.finite(),
            self.offsets().len() <= 65536,
            forall|o: u16| #[trigger] self@.contains(o) <==> self.offsets().contains(o),
            self.spec_is_dense() ==> forall|o: u16| #[trigger]
                self.offsets().contains(o) <==> bit_set(self.model()->Dense_0, o as int),
    {
        if let PostingModel::Dense(b) = self.model() {
            lemma_dense_offsets(b, 65536);
        }
        lemma_increasing_set_len(self.offsets());
    }


    /// Whether `offset` is held.
    pub fn contains(&self, offset: u16) -> (r: bool)
        requires
            self.wf(),
        ensures
            r == self@.contains(offset),
    {
        proof {
            self.lemma_offsets();
        }
        match &self.representation {
            StorePostingRepresentation::Sparse(offsets) => {
                let found = search_sorted(offsets, offset);
                proof {
                    lemma_search_contains(offsets@, found, offset);
                }
                found.is_ok()
            },
            StorePostingRepresentation::Dense(bitmap) => {
                bitmap[(offset / 8) as usize] & (1u8 << ((offset % 8) as u8)) != 0
            },
        }
    }

    /// Adds `offset`; returns whether it was absent. A sparse posting reaching
    /// `SPARSE_TO_DENSE` offsets becomes dense.
    pub fn insert(&mut self, offset: u16) -> (r: bool)
        requires
            old(self).wf(),
        ensures
            final(self).wf(),
            r == !old(self)@.contains(offset),
            final(self)@ == old(self)@.insert(offset),
            old(self).spec_is_dense() ==> final(self).spec_is_dense(),
            !old(self).spec_is_dense() ==> (final(self).spec_is_dense() <==> (r
                && old(self).offsets().len() + 1 >= SPARSE_TO_DENSE)),
    {
        proof {
            self.lemma_offsets();
        }
        let ghost old_offsets = self.offsets();
        let mut rep = StorePostingRepresentation::Sparse(Vec::new());
        std::mem::swap(&mut rep, &mut self.representation);
        match rep {
            StorePostingRepresentation::Sparse(mut offsets) => {
                let found = search_sorted(&offsets, offset);
                proof {
                    lemma_search_contains(offsets@, found, offset);
                }
                match found {
                    Ok(_) => {
                        self.representation = StorePostingRepresentation::Sparse(offsets);
                        proof {
                            assert(self@ =~= old(self)@.insert(offset));
                        }
                        false
                    },
                    Err(index) => {
                        proof {
                            lemma_insert_sorted(offsets@, index as int, offset);
                        }
                        offsets.insert(index, offset);
                        if offsets.len() >= SPARSE_TO_DENSE {
                            let bitmap = bitmap_of(&offsets);
                            self.representation = StorePostingRepresentation::Dense(bitmap);
                            proof {
                                lemma_dense_offsets(bitmap@, 65536);
                                assert forall|o: u16| #[trigger]
                                    self.offsets().contains(o) <==> offsets@.contains(o) by {
                                    assert(bit_set(bitmap@, o as int) <==> offsets@.contains(o));
                                }
                            }
                        } else {
                            self.representation = StorePostingRepresentation::Sparse(offsets);
                        }
                        proof {
                            assert(self@ =~= old(self)@.insert(offset));
                        }
                        true
                    },
                }
            },
            StorePostingRepresentation::Dense(mut bitmap) => {
                let idx = (offset / 8) as usize;
                let k = (offset % 8) as u8;
                let byte = bitmap[idx];
                let mask = 1u8 << k;
                let inserted = byte & mask == 0;
                let ghost old_bm = bitmap@;
                bitmap.set(idx, byte | mask);
                self.representation = StorePostingRepresentation::Dense(bitmap);
                proof {
                    lemma_dense_offsets(bitmap@, 65536);
                    lemma_dense_offsets(old_bm, 65536);
                    assert forall|o: u16| #[trigger] bit_set(bitmap@, o as int) <==> (bit_set(
                        old_bm,
                        o as int,
                    ) || o == offset) by {
                        if o / 8 == offset / 8 {
                            lemma_byte_set(byte, k, (o % 8) as u8);
                            assert(o == offset <==> o % 8 == offset % 8);
                        } else {
                            assert(bitmap@[o as int / 8] == old_bm[o as int / 8]);
                        }
                    }
                    assert(self@ =~= old(self)@.insert(offset));
                }
                inserted
            },
        }
    }

    /// Removes `offset`; returns whether it was present. A dense posting
    /// falling to `DENSE_TO_SPARSE` offsets or fewer becomes sparse.
    pub fn remove(&mut self, offset: u16) -> (r: bool)
        requires
            old(self).wf(),
        ensures
            final(self).wf(),
            r == old(self)@.contains(offset),
            final(self)@ == old(self)@.remove(offset),
            !old(self).spec_is_dense() ==> !final(self).spec_is_dense(),
            old(self).spec_is_dense() ==> (!final(self).spec_is_dense() <==> (r
                && old(self).offsets().len() - 1 <= DENSE_TO_SPARSE)),
    {
        proof {
            self.lemma_offsets();
        }
        let mut rep = StorePostingRepresentation::Sparse(Vec::new());
        std::mem::swap(&mut rep, &mut self.representation);
        match rep {
            StorePostingRepresentation::Sparse(mut offsets) => {
                let found = search_sorted(&offsets, offset);
                proof {
                    lemma_search_contains(offsets@, found, offset);
                }
                match found {
                    Err(_) => {
                        self.representation = StorePostingRepresentation::Sparse(offsets);
                        proof {
                            assert(self@ =~= old(self)@.remove(offset));
                        }
                        false
                    },
                    Ok(index) => {
                        proof {
                            lemma_remove_sorted(offsets@, index as int);
                        }
                        offsets.remove(index);
                        self.representation = StorePostingRepresentation::Sparse(offsets);
                        proof {
                            assert(self@ =~= old(self)@.remove(offset));
                        }
                        true
                    },
                }
            },
            StorePostingRepresentation::Dense(mut bitmap) => {
                let idx = (offset / 8) as usize;
                let k = (offset % 8) as u8;
                let byte = bitmap[idx];
                let mask = 1u8 << k;
                let removed = byte & mask != 0;
                let ghost old_bm = bitmap@;
                bitmap.set(idx, byte & !mask);
                proof {
                    lemma_dense_offsets(bitmap@, 65536);
                    lemma_dense_offsets(old_bm, 65536);
                    assert forall|o: u16| #[trigger] bit_set(bitmap@, o as int) <==> (bit_set(
                        old_bm,
                        o as int,
                    ) && o != offset) by {
                        if o / 8 == offset / 8 {
                            lemma_byte_clear(byte, k, (o % 8) as u8);
                            assert(o == offset <==> o % 8 == offset % 8);
                        } else {
                            assert(bitmap@[o as int / 8] == old_bm[o as int / 8]);
                        }
                    }
                    assert(dense_offsets(bitmap@, 65536).to_set() =~= old(self)@.remove(offset));
                    lemma_increasing_set_len(dense_offsets(bitmap@, 65536));
                    lemma_increasing_set_len(old(self).offsets());
                }
                if removed {
                    let count = dense_len(&bitmap);
                    if count <= DENSE_TO_SPARSE {
                        let offsets = offsets_of(&bitmap);
                        self.representation = StorePostingRepresentation::Sparse(offsets);
                    } else {
                        self.representation = StorePostingRepresentation::Dense(bitmap);
                    }
                } else {
                    self.representation = StorePostingRepresentation::Dense(bitmap);
                }
                proof {
                    assert(self@ =~= old(self)@.remove(offset));
                }
                removed
            },
        }
    }

    /// The offsets held, in descending order.
    pub fn offsets_desc(&self) -> (r: Vec<u16>)
        requires
            self.wf(),
        ensures
            r@ == self.offsets().reverse(),
            strictly_decreasing(r@),
            forall|o: u16| #[trigger] r@.contains(o) <==> self@.contains(o),
    {
        proof {
            self.lemma_offsets();
            lemma_reverse_decreasing(self.offsets());
        }
        match &self.representation {
            StorePostingRepresentation::Sparse(offsets) => reversed(offsets),
            StorePostingRepresentation::Dense(bitmap) => {
                let ascending = offsets_of(bitmap);
                reversed(&ascending)
            },
        }
    }

    /// The offsets held by both postings, in descending order. The smaller
    /// posting is walked, and each of its offsets looked up in the other.
    pub fn intersection_offsets_desc(&self, other: &Self) -> (r: Vec<u16>)
        requires
            self.wf(),
            other.wf(),
        ensures
            strictly_decreasing(r@),
            forall|o: u16| #[trigger] r@.contains(o) <==> (self@.contains(o) && other@.contains(o)),
    {
        let self_is_source = self.len() <= other.len();
        let source = if self_is_source {
            self.offsets_desc()
        } else {
            other.offsets_desc()
        };
        let mut out: Vec<u16> = Vec::new();
        let mut i: usize = 0;
        while i < source.len()
            invariant
                self.wf(),
                other.wf(),
                i <= source@.len(),
                strictly_decreasing(source@),
                strictly_decreasing(out@),
                forall|o: u16| #[trigger] source@.contains(o) <==> (if self_is_source {
                    self@.contains(o)
                } else {
                    other@.contains(o)
                }),
                out@.len() > 0 ==> i > 0,
                forall|k: int| 0 <= k < out@.len() ==> #[trigger] out@[k] >= source@[i - 1],
                forall|o: u16| #[trigger] out@.contains(o) <==> (source@.take(i as int).contains(o)
                    && (if self_is_source {
                    other@.contains(o)
                } else {
                    self@.contains(o)
                })),
            decreases source@.len() - i,
        {
            let o = source[i];
            let keep = if self_is_source {
                other.contains(o)
            } else {
                self.contains(o)
            };
            let ghost old_out = out@;
            if keep {
                out.push(o);
            }
            proof {
                assert(source@.take(i + 1) =~= source@.take(i as int).push(o));
                assert forall|k: int| 0 <= k < out@.len() implies out@[k] >= source@[i as int] by {
                    if k < old_out.len() {
                        assert(i > 0);
                        assert(out@[k] == old_out[k]);
                        assert(old_out[k] >= source@[i - 1]);
                        assert(source@[i - 1] > source@[i as int]);
                    }
                }
                assert forall|a: int, b: int| 0 <= a < b < out@.len() implies out@[a]
                    > out@[b] by {
                    if b == old_out.len() {
                        assert(i > 0);
                        assert(out@[a] == old_out[a]);
                        assert(old_out[a] >= source@[i - 1]);
                        assert(source@[i - 1] > source@[i as int]);
                        assert(out@[b] == source@[i as int]);
                    } else {
                        assert(out@[a] == old_out[a] && out@[b] == old_out[b]);
                    }
                }
                assert forall|x: u16| #[trigger] out@.contains(x) <==> (source@.take(
                    i + 1,
                ).contains(x) && (if self_is_source {
                    other@.contains(x)
                } else {
                    self@.contains(x)
                })) by {
                    let t = source@.take(i as int);
                    if out@.contains(x) {
                        let k = choose|k: int| 0 <= k < out@.len() && out@[k] == x;
                        if k < old_out.len() {
                            assert(old_out.contains(x));
                            let j = choose|j: int| 0 <= j < t.len() && t[j] == x;
                            assert(t.push(o)[j] == x);
                        } else {
                            assert(t.push(o)[i as int] == x);
                        }
                    }
                    if t.push(o).contains(x) && (if self_is_source {
                        other@.contains(x)
                    } else {
                        self@.contains(x)
                    }) {
                        let j = choose|j: int| 0 <= j < t.push(o).len() && t.push(o)[j] == x;
                        if j < t.len() {
                            assert(t.contains(x));
                            assert(old_out.contains(x));
                            let k = choose|k: int| 0 <= k < old_out.len() && old_out[k] == x;
                            assert(out@[k] == x);
                        } else {
                            assert(out@[out@.len() - 1] == x);
                        }
                    }
                }
            }
            i = i + 1;
        }
        proof {
            assert(source@.take(source@.len() as int) =~= source@);
        }
        out
    }

    /// Adds every offset of `other`.
    pub fn union_with(&mut self, other: &Self)
        requires
            old(self).wf(),
            other.wf(),
        ensures
            final(self).wf(),
            final(self)@ == old(self)@.union(other@),
            old(self).spec_is_dense() ==> final(self).spec_is_dense(),
    {
        let incoming = other.offsets_desc();
        let mut i: usize = 0;
        while i < incoming.len()
            invariant
                self.wf(),
                i <= incoming@.len(),
                forall|o: u16| #[trigger] incoming@.contains(o) <==> other@.contains(o),
                self@ == old(self)@.union(incoming@.take(i as int).to_set()),
                old(self).spec_is_dense() ==> self.spec_is_dense(),
            decreases incoming@.len() - i,
        {
            let o = incoming[i];
            self.insert(o);
            proof {
                assert(incoming@.take(i + 1) =~= incoming@.take(i as int).push(o));
                incoming@.take(i as int).lemma_push_to_set_commute(o);
                assert(self@ =~= old(self)@.union(incoming@.take(i + 1).to_set()));
            }
            i = i + 1;
        }
        proof {
            assert(incoming@.take(incoming@.len() as int) =~= incoming@);
            assert(incoming@.to_set() =~= other@);
            assert(self@ =~= old(self)@.union(other@));
        }
    }


    /// Reads a serialized posting. Refused: empty input, an unknown format
    /// byte, a raw payload of odd length or not strictly increasing, a delta
    /// payload that `decode_deltas` refuses, a sparse list of
    /// `SPARSE_TO_DENSE` offsets or more, a bitmap of the wrong size.
    pub fn decode(encoded: &[u8]) -> (r: Result<Self, ()>)
        ensures
            match r {
                Ok(p) => p.wf() && spec_decode(encoded@) == Some(p.model()),
                Err(_) => spec_decode(encoded@) is None,
            },
    {
        let len = encoded.len();
        if len == 0 {
            return Err(());
        }
        let format = encoded[0];
        let ghost p = encoded@.skip(1);
        if format == FORMAT_SPARSE_RAW && (len - 1) % 2 == 0 {
            let mut offsets: Vec<u16> = Vec::new();
            let mut i: usize = 1;
            while i < len
                invariant
                    len == encoded@.len(),
                    p == encoded@.skip(1),
                    encoded@[0] == FORMAT_SPARSE_RAW,
                    (len - 1) % 2 == 0,
                    1 <= i <= len,
                    (i - 1) % 2 == 0,
                    offsets@ == decode_raw(p).take((i - 1) / 2),
                    strictly_increasing(offsets@),
                decreases len - i,
            {
                let o: u16 = (encoded[i] as u16) + 256 * (encoded[i + 1] as u16);
                assert(o == decode_raw(p)[(i - 1) / 2]) by {
                    assert(p[i - 1] == encoded@[i as int]);
                    assert(p[i as int] == encoded@[i + 1]);
                }
                if offsets.len() > 0 && offsets[offsets.len() - 1] >= o {
                    assert(decode_raw(p)[(i - 1) / 2 - 1] == offsets@[offsets@.len() - 1]);
                    assert(!strictly_increasing(decode_raw(p)));
                    assert(spec_decode(encoded@) is None);
                    return Err(());
                }
                let ghost before = offsets@;
                offsets.push(o);
                assert(offsets@ =~= decode_raw(p).take((i - 1) / 2 + 1));
                assert forall|a: int, b: int| 0 <= a < b < offsets@.len() implies offsets@[a]
                    < offsets@[b] by {
                    if b == before.len() && a < b - 1 {
                        assert(before[a] < before[b - 1]);
                    }
                }
                i = i + 2;
            }
            assert(offsets@ =~= decode_raw(p));
            if offsets.len() >= SPARSE_TO_DENSE {
                return Err(());
            }
            Ok(StorePosting { representation: StorePostingRepresentation::Sparse(offsets) })
        } else if format == FORMAT_SPARSE_DELTA {
            let mut offsets: Vec<u16> = Vec::new();
            let mut cursor: usize = 1;
            let mut previous: u16 = 0;
            assert(encoded@.skip(1) =~= p);
            while cursor < len
                invariant
                    len == encoded@.len(),
                    p == encoded@.skip(1),
                    encoded@[0] == FORMAT_SPARSE_DELTA,
                    1 <= cursor <= len,
                    offsets@.len() == 0 ==> previous == 0,
                    offsets@.len() > 0 ==> previous == offsets@[offsets@.len() - 1],
                    decode_deltas(p, false, 0) == match decode_deltas(
                        encoded@.skip(cursor as int),
                        offsets@.len() > 0,
                        previous as nat,
                    ) {
                        Some(rest) => Some(offsets@ + rest),
                        None => None::<Seq<u16>>,
                    },
                decreases len - cursor,
            {
                let ghost here = encoded@.skip(cursor as int);
                let ghost started = offsets@.len() > 0;
                let read = read_varint(encoded, cursor);
                match read {
                    None => {
                        return Err(());
                    },
                    Some((delta, n)) => {
                        if delta > 65535 {
                            return Err(());
                        }
                        if offsets.len() > 0 && delta == 0 {
                            return Err(());
                        }
                        let offset: u16 = if offsets.len() == 0 {
                            delta as u16
                        } else {
                            if (previous as u32) + delta > 65535 {
                                return Err(());
                            }
                            previous + (delta as u16)
                        };
                        proof {
                            assert(here.skip(n as int) =~= encoded@.skip(cursor + n));
                            let tail = decode_deltas(encoded@.skip(cursor + n), true, offset as nat);
                            if let Some(rest) = tail {
                                assert(offsets@ + (seq![offset] + rest) =~= offsets@.push(offset)
                                    + rest);
                            }
                        }
                        offsets.push(offset);
                        previous = offset;
                        cursor = cursor + n;
                    },
                }
            }
            assert(encoded@.skip(cursor as int) =~= Seq::<u8>::empty());
            assert(offsets@ + Seq::<u16>::empty() =~= offsets@);
            proof {
                lemma_deltas_increasing(p, false, 0);
            }
            if offsets.len() >= SPARSE_TO_DENSE {
                return Err(());
            }
            Ok(StorePosting { representation: StorePostingRepresentation::Sparse(offsets) })
        } else if format == FORMAT_DENSE && len - 1 == BITMAP_BYTES {
            let mut bitmap: Vec<u8> = Vec::new();
            let mut i: usize = 1;
            while i < len
                invariant
                    len == encoded@.len(),
                    1 <= i <= len,
                    bitmap@ =~= encoded@.subrange(1, i as int),
                decreases len - i,
            {
                bitmap.push(encoded[i]);
                i = i + 1;
            }
            assert(bitmap@ =~= p);
            Ok(StorePosting { representation: StorePostingRepresentation::Dense(bitmap) })
        } else {
            Err(())
        }
    }

    /// Serializes the posting: a bitmap behind `FORMAT_DENSE`; a list as LEB128
    /// deltas behind `FORMAT_SPARSE_DELTA` when that is strictly shorter than
    /// raw little-endian pairs behind `FORMAT_SPARSE_RAW`.
    pub fn encode(&self) -> (r: Vec<u8>)
        requires
            self.wf(),
        ensures
            r@ == encode_model(self.model()),
    {
        match &self.representation {
            StorePostingRepresentation::Sparse(offsets) => {
                let delta_encoded = encode_deltas(offsets);
                let raw_size = 1 + offsets.len() * 2;
                if delta_encoded.len() < raw_size {
                    delta_encoded
                } else {
                    encode_raw(offsets)
                }
            },
            StorePostingRepresentation::Dense(bitmap) => {
                let mut encoded: Vec<u8> = Vec::new();
                encoded.push(FORMAT_DENSE);
                let mut i: usize = 0;
                while i < bitmap.len()
                    invariant
                        i <= bitmap@.len(),
                        encoded@ =~= seq![FORMAT_DENSE] + bitmap@.take(i as int),
                    decreases bitmap@.len() - i,
                {
                    encoded.push(bitmap[i]);
                    i = i + 1;
                }
                assert(bitmap@.take(bitmap@.len() as int) =~= bitmap@);
                encoded
            },
        }
    }

    /// Whether the posting holds no offset.
    pub fn is_empty(&self) -> (r: bool)
        requires
            self.wf(),
        ensures
            r == (self@.len() == 0),
    {
        self.len() == 0
    }
}

impl Default for StorePosting {
    /// The empty posting (sparse).
    fn default() -> (r: Self)
        ensures
            r.wf(),
            r@ == Set::<u16>::empty(),
            !r.spec_is_dense(),
    {
        Self::new()
    }
}

/// An IID is made back from its shard and offset, and a shard and an offset
/// are read back from the IID they make.
pub proof fn lemma_iid_shard_offset(iid: u32, shard: u16, offset: u16)
    ensures
        (iid / 65536) * 65536 + iid % 65536 == iid,
        (shard * 65536 + offset) / 65536 == shard,
        (shard * 65536 + offset) % 65536 == offset,
{
}

/// The offsets a posting holds once each of `xs` is inserted, one after the
/// other, into the empty posting (`StorePosting::new`, then `insert`).
pub open spec fn inserted_offsets(xs: Seq<u16>) -> Set<u16>
    decreases xs.len(),
{
    if xs.len() == 0 {
        Set::empty()
    } else {
        inserted_offsets(xs.drop_last()).insert(xs.last())
    }
}

/// A posting built by inserting offsets holds exactly the offsets inserted,
/// an offset inserted twice counted once, whichever representation it
/// takes on the way.
pub proof fn lemma_inserted_offsets(xs: Seq<u16>)
    ensures
        inserted_offsets(xs) == xs.to_set(),
        inserted_offsets(xs).len() == xs.to_set().len(),
        forall|o: u16| #[trigger] inserted_offsets(xs).contains(o) <==> xs.contains(o),
    decreases xs.len(),
{
    if xs.len() == 0 {
        assert(xs.to_set() =~= Set::<u16>::empty());
    } else {
        let init = xs.drop_last();
        lemma_inserted_offsets(init);
        assert(xs =~= init.push(xs.last()));
        init.lemma_push_to_set_commute(xs.last());
    }
    assert forall|o: u16| #[trigger] inserted_offsets(xs).contains(o) <==> xs.contains(o) by {
        assert(xs.to_set().contains(o) <==> xs.contains(o));
    }
}

impl View for StorePosting {
    type V = Set<u16>;

    /// The set of offsets held.
    open spec fn view(&self) -> Set<u16> {
        self.offsets().to_set()
    }
}

} // verus!
