//! Fixed-width encodings of the numbers kept in keys and values: little-endian
//! "atoms" for values and counters, big-endian parts for keys (so that byte
//! order follows numeric order).
use vstd::prelude::*;

use crate::item::{StoreObjectIID, StoreTermHash};

verus! {

/// Little-endian bytes of a `u32`.
pub open spec fn le32(v: u32) -> Seq<u8> {
    seq![
        (v % 256) as u8,
        (v / 256 % 256) as u8,
        (v / 65536 % 256) as u8,
        (v / 16777216) as u8,
    ]
}

/// Big-endian bytes of a `u32`.
pub open spec fn be32(v: u32) -> Seq<u8> {
    seq![
        (v / 16777216) as u8,
        (v / 65536 % 256) as u8,
        (v / 256 % 256) as u8,
        (v % 256) as u8,
    ]
}

/// Big-endian bytes of a `u16`.
pub open spec fn be16(v: u16) -> Seq<u8> {
    seq![(v / 256) as u8, (v % 256) as u8]
}

/// Big-endian bytes of a `u64`.
pub open spec fn be64(v: u64) -> Seq<u8> {
    be32((v / 4294967296) as u32) + be32((v % 4294967296) as u32)
}

/// The `u32` that four little-endian bytes stand for.
pub open spec fn le32_value(b: Seq<u8>) -> u32 {
    (b[0] + 256 * b[1] + 65536 * b[2] + 16777216 * b[3]) as u32
}

/// The `u32` that four big-endian bytes stand for.
pub open spec fn be32_value(b: Seq<u8>) -> u32 {
    (16777216 * b[0] + 65536 * b[1] + 256 * b[2] + b[3]) as u32
}

/// The little-endian words of a byte string, four bytes each.
pub open spec fn le32_words(s: Seq<u8>) -> Seq<u32> {
    Seq::new(s.len() / 4, |i: int| le32_value(s.subrange(4 * i, 4 * i + 4)))
}

/// The little-endian bytes of a list of words, one after the other.
pub open spec fn le32_concat(v: Seq<u32>) -> Seq<u8> {
    Seq::new(4 * v.len(), |i: int| le32(v[i / 4])[i % 4])
}

/// Four little-endian bytes stand for the number they were made of.
pub proof fn lemma_le32_value(v: u32)
    ensures
        le32_value(le32(v)) == v,
{
}

/// Four big-endian bytes stand for the number they were made of.
pub proof fn lemma_be32_value(v: u32)
    ensures
        be32_value(be32(v)) == v,
{
}

/// Byte strings in the order the store sorts keys: the first differing
/// byte decides, and a proper prefix comes first.
pub open spec fn lex_lt(a: Seq<u8>, b: Seq<u8>) -> bool
    decreases a.len(),
{
    if a.len() == 0 {
        b.len() > 0
    } else if b.len() == 0 {
        false
    } else if a[0] != b[0] {
        a[0] < b[0]
    } else {
        lex_lt(a.drop_first(), b.drop_first())
    }
}

/// A common prefix does not change the order.
pub proof fn lemma_lex_common_prefix(p: Seq<u8>, a: Seq<u8>, b: Seq<u8>)
    ensures
        lex_lt(p + a, p + b) == lex_lt(a, b),
    decreases p.len(),
{
    if p.len() == 0 {
        assert(p + a =~= a);
        assert(p + b =~= b);
    } else {
        assert((p + a).drop_first() =~= p.drop_first() + a);
        assert((p + b).drop_first() =~= p.drop_first() + b);
        lemma_lex_common_prefix(p.drop_first(), a, b);
    }
}

/// Between strings of one length, what follows does not change the order.
pub proof fn lemma_lex_extend(a: Seq<u8>, b: Seq<u8>, x: Seq<u8>, y: Seq<u8>)
    requires
        a.len() == b.len(),
        lex_lt(a, b),
    ensures
        lex_lt(a + x, b + y),
    decreases a.len(),
{
    assert((a + x)[0] == a[0]);
    assert((b + y)[0] == b[0]);
    if a[0] == b[0] {
        assert((a + x).drop_first() =~= a.drop_first() + x);
        assert((b + y).drop_first() =~= b.drop_first() + y);
        lemma_lex_extend(a.drop_first(), b.drop_first(), x, y);
    }
}

/// A proper prefix comes first.
pub proof fn lemma_lex_prefix(p: Seq<u8>, x: Seq<u8>)
    requires
        x.len() > 0,
    ensures
        lex_lt(p, p + x),
    decreases p.len(),
{
    if p.len() > 0 {
        assert((p + x)[0] == p[0]);
        assert((p + x).drop_first() =~= p.drop_first() + x);
        lemma_lex_prefix(p.drop_first(), x);
    }
}

/// No string comes before itself.
pub proof fn lemma_lex_irreflexive(a: Seq<u8>)
    ensures
        !lex_lt(a, a),
    decreases a.len(),
{
    if a.len() > 0 {
        lemma_lex_irreflexive(a.drop_first());
    }
}

/// Of two different strings, exactly one comes first.
pub proof fn lemma_lex_total(a: Seq<u8>, b: Seq<u8>)
    ensures
        a != b ==> (lex_lt(a, b) || lex_lt(b, a)),
        !(lex_lt(a, b) && lex_lt(b, a)),
    decreases a.len(),
{
    if a.len() > 0 && b.len() > 0 {
        lemma_lex_total(a.drop_first(), b.drop_first());
        if a[0] == b[0] && a != b {
            assert(a.drop_first() != b.drop_first()) by {
                if a.drop_first() == b.drop_first() {
                    assert(a =~= seq![a[0]] + a.drop_first());
                    assert(b =~= seq![b[0]] + b.drop_first());
                }
            }
        }
    } else if a.len() == 0 && b.len() == 0 {
        assert(a =~= b);
    }
}

/// The order is transitive.
pub proof fn lemma_lex_transitive(a: Seq<u8>, b: Seq<u8>, c: Seq<u8>)
    requires
        lex_lt(a, b),
        lex_lt(b, c),
    ensures
        lex_lt(a, c),
    decreases a.len(),
{
    if a.len() > 0 && b.len() > 0 && c.len() > 0 {
        if a[0] == b[0] && b[0] == c[0] {
            lemma_lex_transitive(a.drop_first(), b.drop_first(), c.drop_first());
        }
    }
}

/// Key parts sort like the numbers they encode: a smaller number has
/// smaller big-endian bytes.
pub proof fn lemma_be32_order(a: u32, b: u32)
    requires
        a < b,
    ensures
        lex_lt(be32(a), be32(b)),
{
    let x = be32(a);
    let y = be32(b);
    assert(a / 16777216 < b / 16777216 || (a / 16777216 == b / 16777216 && (a / 65536 % 256
        < b / 65536 % 256 || (a / 65536 % 256 == b / 65536 % 256 && (a / 256 % 256 < b / 256
        % 256 || (a / 256 % 256 == b / 256 % 256 && a % 256 < b % 256)))))) by (bit_vector)
        requires
            a < b,
    ;
    reveal_with_fuel(lex_lt, 5);
    assert(x.drop_first() =~= seq![x[1], x[2], x[3]]);
    assert(y.drop_first() =~= seq![y[1], y[2], y[3]]);
    assert(x.drop_first().drop_first() =~= seq![x[2], x[3]]);
    assert(y.drop_first().drop_first() =~= seq![y[2], y[3]]);
    assert(x.drop_first().drop_first().drop_first() =~= seq![x[3]]);
    assert(y.drop_first().drop_first().drop_first() =~= seq![y[3]]);
}

/// Little-endian bytes of a `u32`.
pub fn encode_u32(decoded: u32) -> (r: [u8; 4])
    ensures
        r@ == le32(decoded),
{
    let r = [
        (decoded % 256) as u8,
        (decoded / 256 % 256) as u8,
        (decoded / 65536 % 256) as u8,
        (decoded / 16777216) as u8,
    ];
    assert(r@ =~= le32(decoded));
    r
}

/// The `u32` of exactly four little-endian bytes.
pub fn decode_u32(encoded: &[u8]) -> (r: Result<u32, ()>)
    ensures
        r is Ok <==> encoded@.len() == 4,
        r matches Ok(v) ==> v == le32_value(encoded@),
{
    if encoded.len() == 4 {
        Ok(
            (encoded[0] as u32) + 256 * (encoded[1] as u32) + 65536 * (encoded[2] as u32)
                + 16777216 * (encoded[3] as u32),
        )
    } else {
        Err(())
    }
}

/// Little-endian bytes of each word, one after the other.
pub fn encode_u32_list(decoded: &[u32]) -> (r: Vec<u8>)
    ensures
        r@ == le32_concat(decoded@),
{
    let mut encoded: Vec<u8> = Vec::new();
    let mut i: usize = 0;
    while i < decoded.len()
        invariant
            i <= decoded@.len(),
            encoded@ =~= le32_concat(decoded@.take(i as int)),
        decreases decoded@.len() - i,
    {
        let bytes = encode_u32(decoded[i]);
        let ghost before = encoded@;
        encoded.push(bytes[0]);
        encoded.push(bytes[1]);
        encoded.push(bytes[2]);
        encoded.push(bytes[3]);
        proof {
            let t = decoded@.take(i + 1);
            assert forall|k: int| 0 <= k < 4 * (i + 1) implies #[trigger] encoded@[k]
                == le32_concat(t)[k] by {
                if k < 4 * i {
                    assert(t[k / 4] == decoded@.take(i as int)[k / 4]);
                } else {
                    assert(k / 4 == i);
                }
            }
        }
        i = i + 1;
    }
    assert(decoded@.take(decoded@.len() as int) =~= decoded@);
    encoded
}

/// The little-endian words of a byte string; refused unless its length is a
/// multiple of four.
pub fn decode_u32_list(encoded: &[u8]) -> (r: Result<Vec<u32>, ()>)
    ensures
        r is Ok <==> encoded@.len() % 4 == 0,
        r matches Ok(v) ==> v@ == le32_words(encoded@),
{
    let len = encoded.len();
    let mut decoded: Vec<u32> = Vec::new();
    let mut i: usize = 0;
    while i < len
        invariant
            len == encoded@.len(),
            i <= len,
            i % 4 == 0,
            decoded@ =~= le32_words(encoded@.take(i as int)),
            decoded@.len() == i / 4,
        decreases len - i,
    {
        if len - i < 4 {
            return Err(());
        }
        let v = (encoded[i] as u32) + 256 * (encoded[i + 1] as u32) + 65536 * (encoded[i + 2] as u32)
            + 16777216 * (encoded[i + 3] as u32);
        decoded.push(v);
        proof {
            let t = encoded@.take(i + 4);
            assert forall|k: int| 0 <= k < (i + 4) / 4 implies #[trigger] decoded@[k] == le32_words(
                t,
            )[k] by {
                if k < i / 4 {
                    assert(t.subrange(4 * k, 4 * k + 4) =~= encoded@.take(i as int).subrange(
                        4 * k,
                        4 * k + 4,
                    ));
                } else {
                    assert(k == i / 4);
                    assert(t.subrange(4 * k, 4 * k + 4) =~= encoded@.subrange(
                        i as int,
                        i + 4,
                    ));
                }
            }
            assert(decoded@ =~= le32_words(t));
        }
        i = i + 4;
    }
    assert(encoded@.take(len as int) =~= encoded@);
    Ok(decoded)
}

/// Decoding the encoding of a word, or of a list of words, gives it back.
pub proof fn lemma_u32_roundtrip(v: u32, list: Seq<u32>)
    ensures
        le32_value(le32(v)) == v,
        be32_value(be32(v)) == v,
        le32_concat(list).len() % 4 == 0,
        le32_words(le32_concat(list)) == list,
{
    let e = le32_concat(list);
    assert forall|k: int| 0 <= k < list.len() implies le32_words(e)[k] == list[k] by {
        let w = e.subrange(4 * k, 4 * k + 4);
        assert forall|j: int| 0 <= j < 4 implies #[trigger] w[j] == le32(list[k])[j] by {
            assert((4 * k + j) / 4 == k && (4 * k + j) % 4 == j) by (nonlinear_arith)
                requires
                    0 <= j < 4,
            ;
        }
        assert(w =~= le32(list[k]));
        lemma_le32_value(list[k]);
    }
    assert(le32_words(e) =~= list);
}

/// Big-endian bytes of a key part (orders like the number).
pub fn encode_kv_key_part(value: u32) -> (r: [u8; 4])
    ensures
        r@ == be32(value),
{
    let r = [
        (value / 16777216) as u8,
        (value / 65536 % 256) as u8,
        (value / 256 % 256) as u8,
        (value % 256) as u8,
    ];
    assert(r@ =~= be32(value));
    r
}

/// The key part of four big-endian bytes.
pub fn decode_kv_key_part(bytes: [u8; 4]) -> (r: u32)
    ensures
        r == be32_value(bytes@),
{
    16777216 * (bytes[0] as u32) + 65536 * (bytes[1] as u32) + 256 * (bytes[2] as u32) + (
    bytes[3] as u32)
}

/// Little-endian bytes of a signed counter (its two's complement bits).
pub fn encode_i32_counter(value: i32) -> (r: [u8; 4])
    ensures
        r@ == le32(value as u32),
{
    encode_u32(value as u32)
}

/// The signed counter of four little-endian bytes.
pub fn decode_i32_counter(bytes: [u8; 4]) -> (r: i32)
    ensures
        r == le32_value(bytes@) as i32,
{
    let v = 16777216 * (bytes[3] as u32) + 65536 * (bytes[2] as u32) + 256 * (bytes[1] as u32) + (
    bytes[0] as u32);
    v as i32
}

/// Decoding the encoding of a signed counter gives it back.
pub proof fn lemma_i32_roundtrip(v: i32)
    ensures
        le32_value(le32(v as u32)) as i32 == v,
{
    lemma_le32_value(v as u32);
    assert((v as u32) as i32 == v) by (bit_vector);
}

/// Little-endian bytes of an unsigned counter.
pub fn encode_u32_counter(value: u32) -> (r: [u8; 4])
    ensures
        r@ == le32(value),
{
    encode_u32(value)
}

/// The unsigned counter of four little-endian bytes.
pub fn decode_u32_counter(bytes: [u8; 4]) -> (r: u32)
    ensures
        r == le32_value(bytes@),
{
    16777216 * (bytes[3] as u32) + 65536 * (bytes[2] as u32) + 256 * (bytes[1] as u32) + (
    bytes[0] as u32)
}

/// Little-endian bytes of an IID.
pub fn encode_iid(value: StoreObjectIID) -> (r: [u8; 4])
    ensures
        r@ == le32(value.spec_value()),
{
    encode_u32(value.into_inner())
}

/// The IID of four little-endian bytes.
pub fn decode_iid(bytes: [u8; 4]) -> (r: StoreObjectIID)
    ensures
        r.spec_value() == le32_value(bytes@),
{
    StoreObjectIID::new(decode_u32_counter(bytes))
}

/// The IID of exactly four little-endian bytes.
pub fn try_decode_iid(bytes: &[u8]) -> (r: Result<StoreObjectIID, ()>)
    ensures
        r is Ok <==> bytes@.len() == 4,
        r matches Ok(v) ==> v.spec_value() == le32_value(bytes@),
{
    match decode_u32(bytes) {
        Ok(v) => Ok(StoreObjectIID::new(v)),
        Err(()) => Err(()),
    }
}

/// Little-endian bytes of a term hash.
pub fn encode_term_hash(value: StoreTermHash) -> (r: [u8; 4])
    ensures
        r@ == le32(value.spec_value()),
{
    encode_u32(value.into_inner())
}

/// The term hash of four little-endian bytes.
pub fn decode_term_hash(bytes: [u8; 4]) -> (r: StoreTermHash)
    ensures
        r.spec_value() == le32_value(bytes@),
{
    StoreTermHash::new(decode_u32_counter(bytes))
}

/// Little-endian bytes of each IID, one after the other.
pub fn encode_iids_list(iids: &[StoreObjectIID]) -> (r: Vec<u8>)
    ensures
        r@ == le32_concat(iids@.map_values(|i: StoreObjectIID| i.spec_value())),
{
    let mut raw: Vec<u32> = Vec::new();
    let mut i: usize = 0;
    while i < iids.len()
        invariant
            i <= iids@.len(),
            raw@ =~= iids@.take(i as int).map_values(|x: StoreObjectIID| x.spec_value()),
        decreases iids@.len() - i,
    {
        raw.push(iids[i].into_inner());
        i = i + 1;
    }
    assert(iids@.take(iids@.len() as int) =~= iids@);
    encode_u32_list(raw.as_slice())
}

/// The IIDs of a byte string, four little-endian bytes each; refused unless
/// its length is a multiple of four.
pub fn decode_iids_list(encoded: &[u8]) -> (r: Result<Vec<StoreObjectIID>, ()>)
    ensures
        r is Ok <==> encoded@.len() % 4 == 0,
        r matches Ok(v) ==> v@.map_values(|x: StoreObjectIID| x.spec_value()) == le32_words(
            encoded@,
        ),
{
    match decode_u32_list(encoded) {
        Err(()) => Err(()),
        Ok(raw) => {
            let mut out: Vec<StoreObjectIID> = Vec::new();
            let mut i: usize = 0;
            while i < raw.len()
                invariant
                    i <= raw@.len(),
                    out@.len() == i,
                    out@.map_values(|x: StoreObjectIID| x.spec_value()) =~= raw@.take(i as int),
                decreases raw@.len() - i,
            {
                let ghost before = out@;
                let item = StoreObjectIID::new(raw[i]);
                out.push(item);
                assert forall|k: int| 0 <= k < i + 1 implies #[trigger] out@[k].spec_value()
                    == raw@[k] by {
                    if k < i {
                        assert(out@[k] == before[k]);
                        assert(before.map_values(|x: StoreObjectIID| x.spec_value())[k] == raw@.take(
                            i as int,
                        )[k]);
                    }
                }
                assert(out@.map_values(|x: StoreObjectIID| x.spec_value()) =~= raw@.take(i + 1));
                i = i + 1;
            }
            assert(raw@.take(raw@.len() as int) =~= raw@);
            Ok(out)
        },
    }
}

/// Little-endian bytes of each term hash, one after the other.
pub fn encode_terms_list(terms: &[StoreTermHash]) -> (r: Vec<u8>)
    ensures
        r@ == le32_concat(terms@.map_values(|t: StoreTermHash| t.spec_value())),
{
    let mut raw: Vec<u32> = Vec::new();
    let mut i: usize = 0;
    while i < terms.len()
        invariant
            i <= terms@.len(),
            raw@ =~= terms@.take(i as int).map_values(|x: StoreTermHash| x.spec_value()),
        decreases terms@.len() - i,
    {
        raw.push(terms[i].into_inner());
        i = i + 1;
    }
    assert(terms@.take(terms@.len() as int) =~= terms@);
    encode_u32_list(raw.as_slice())
}

/// The term hashes of a byte string, four little-endian bytes each; refused
/// unless its length is a multiple of four.
pub fn decode_terms_list(encoded: &[u8]) -> (r: Result<Vec<StoreTermHash>, ()>)
    ensures
        r is Ok <==> encoded@.len() % 4 == 0,
        r matches Ok(v) ==> v@.map_values(|x: StoreTermHash| x.spec_value()) == le32_words(
            encoded@,
        ),
{
    match decode_u32_list(encoded) {
        Err(()) => Err(()),
        Ok(raw) => {
            let mut out: Vec<StoreTermHash> = Vec::new();
            let mut i: usize = 0;
            while i < raw.len()
                invariant
                    i <= raw@.len(),
                    out@.len() == i,
                    out@.map_values(|x: StoreTermHash| x.spec_value()) =~= raw@.take(i as int),
                decreases raw@.len() - i,
            {
                let ghost before = out@;
                let item = StoreTermHash::new(raw[i]);
                out.push(item);
                assert forall|k: int| 0 <= k < i + 1 implies #[trigger] out@[k].spec_value()
                    == raw@[k] by {
                    if k < i {
                        assert(out@[k] == before[k]);
                        assert(before.map_values(|x: StoreTermHash| x.spec_value())[k] == raw@.take(
                            i as int,
                        )[k]);
                    }
                }
                assert(out@.map_values(|x: StoreTermHash| x.spec_value()) =~= raw@.take(i + 1));
                i = i + 1;
            }
            assert(raw@.take(raw@.len() as int) =~= raw@);
            Ok(out)
        },
    }
}

} // verus!
