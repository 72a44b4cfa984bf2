//! Key layouts of the index: every key starts with the big-endian bucket ID
//! and a one-byte index family, so that one bucket's keys are contiguous and
//! numeric key parts sort like the numbers they encode.
use vstd::prelude::*;

use crate::encoding::{
    be16, be32, be32_value, be64, encode_kv_key_part, lemma_be32_order, lemma_be32_value,
    lemma_lex_common_prefix, lemma_lex_extend, lex_lt,
};
use crate::hashing::{xxhash32, xxhash32_of};
use crate::kv_keys::{meta_route, StoreMetaKey};
use crate::text::{append_bytes, str_from_utf8};
use vstd::utf8::valid_utf8;
use vstd::string::StringSliceAdditionalSpecFns;

verus! {

/// Family of meta values.
pub const IDX_META_TO_VALUE: u8 = 0;

/// Family of term postings.
pub const IDX_TERM_POSTING: u8 = 1;

/// Family of object name to IID.
pub const IDX_OID_TO_IID: u8 = 2;

/// Family of IID to object name.
pub const IDX_IID_TO_OID: u8 = 3;

/// Family of IID to terms.
pub const IDX_IID_TO_TERMS: u8 = 4;

/// Family of bucket name to bucket ID.
pub const IDX_BUCKET_NAME_TO_ID: u8 = 5;

/// Family of bucket ID to bucket name.
pub const IDX_BUCKET_ID_TO_NAME: u8 = 6;

/// Family of IID to timestamp.
pub const IDX_IID_TO_TIMESTAMP: u8 = 7;

/// Family of time postings.
pub const IDX_TIME_POSTING: u8 = 8;

/// Family of term frequencies.
pub const IDX_TERM_FREQUENCY: u8 = 9;

/// The start of every key of one family in one bucket.
pub open spec fn key_prefix(index: u8, bucket_id: u32) -> Seq<u8> {
    be32(bucket_id).push(index)
}

/// A key of a family whose route is one number.
pub open spec fn fixed_key(index: u8, bucket_id: u32, route: u32) -> Seq<u8> {
    key_prefix(index, bucket_id) + be32(route)
}

/// A key of a family whose route is a term: its byte length, then its bytes.
pub open spec fn term_route_key(index: u8, bucket_id: u32, term: Seq<u8>) -> Seq<u8> {
    key_prefix(index, bucket_id) + be32(term.len() as u32) + term
}

/// The route of a term key (the key after its bucket ID and family byte),
/// followed by any suffix, holds the term's length and then the term:
/// decoding the route with the suffix's length gives the term back.
pub proof fn lemma_term_route_roundtrip(index: u8, bucket_id: u32, term: Seq<u8>, suffix: Seq<u8>)
    requires
        term.len() <= u32::MAX,
    ensures
        ({
            let route = (term_route_key(index, bucket_id, term) + suffix).skip(5);
            &&& route.len() >= 4
            &&& be32_value(route.take(4)) == term.len()
            &&& route.len() - 4 - be32_value(route.take(4)) == suffix.len()
            &&& route.subrange(4, 4 + be32_value(route.take(4))) == term
        }),
{
    let route = (term_route_key(index, bucket_id, term) + suffix).skip(5);
    let len = be32(term.len() as u32);
    assert(route =~= len + term + suffix);
    assert(route.take(4) =~= len);
    lemma_be32_value(term.len() as u32);
    assert(route.subrange(4, 4 + term.len() as int) =~= term);
}

/// Every key of a bucket sorts before every key of a bucket with a larger
/// ID: a bucket's keys are contiguous.
pub proof fn lemma_bucket_keys_grouped(b1: u32, b2: u32, rest1: Seq<u8>, rest2: Seq<u8>)
    requires
        b1 < b2,
    ensures
        lex_lt(be32(b1) + rest1, be32(b2) + rest2),
{
    lemma_be32_order(b1, b2);
    lemma_lex_extend(be32(b1), be32(b2), rest1, rest2);
}

/// Document keys sort by bucket ID, then by IID.
pub proof fn lemma_document_keys_ordered(b1: u32, iid1: u32, b2: u32, iid2: u32)
    requires
        b1 < b2 || (b1 == b2 && iid1 < iid2),
    ensures
        lex_lt(be32(b1) + be32(iid1), be32(b2) + be32(iid2)),
{
    if b1 < b2 {
        lemma_bucket_keys_grouped(b1, b2, be32(iid1), be32(iid2));
    } else {
        lemma_be32_order(iid1, iid2);
        lemma_lex_common_prefix(be32(b1), be32(iid1), be32(iid2));
    }
}

/// Within one family of one bucket, keys routed by a number sort by it.
pub proof fn lemma_fixed_keys_ordered(index: u8, bucket_id: u32, route1: u32, route2: u32)
    requires
        route1 < route2,
    ensures
        lex_lt(fixed_key(index, bucket_id, route1), fixed_key(index, bucket_id, route2)),
{
    lemma_be32_order(route1, route2);
    lemma_lex_common_prefix(key_prefix(index, bucket_id), be32(route1), be32(route2));
}

/// Namespace of the key builders.
pub struct StoreKeyerBuilder;

/// A built key.
pub struct StoreKeyer {
    key: Vec<u8>,
}

impl StoreKeyer {
    /// The bytes of the key.
    pub closed spec fn spec_bytes(&self) -> Seq<u8> {
        self.key@
    }

    /// The bytes of the key.
    pub fn as_bytes(&self) -> (r: &[u8])
        ensures
            r@ == self.spec_bytes(),
    {
        self.key.as_slice()
    }
}

/// Namespace of the name hasher.
pub struct StoreKeyerHasher;

impl StoreKeyerHasher {
    /// The 32-bit hash of a name (xxHash, seed 0).
    pub fn to_compact(part: &str) -> (r: u32)
        ensures
            r == xxhash32(part.spec_bytes()),
    {
        xxhash32_of(part.as_bytes())
    }
}

/// Big-endian bytes of a `u16`.
fn encode_u16_ordered(value: u16) -> (r: [u8; 2])
    ensures
        r@ == be16(value),
{
    let r = [(value / 256) as u8, (value % 256) as u8];
    assert(r@ =~= be16(value));
    r
}

/// Big-endian bytes of a `u64`.
fn encode_u64_ordered(value: u64) -> (r: Vec<u8>)
    ensures
        r@ == be64(value),
{
    let high = encode_kv_key_part((value / 4294967296) as u32);
    let low = encode_kv_key_part((value % 4294967296) as u32);
    let mut r: Vec<u8> = Vec::new();
    append_bytes(&mut r, &high);
    append_bytes(&mut r, &low);
    assert(r@ =~= be64(value));
    r
}

impl StoreKeyerBuilder {
    /// The family byte of a key, if the key is long enough to hold one.
    pub fn family(key: &[u8]) -> (r: Option<u8>)
        ensures
            r == if key@.len() > 4 {
                Some(key@[4])
            } else {
                None::<u8>
            },
    {
        if key.len() > 4 {
            Some(key[4])
        } else {
            None
        }
    }

    /// The number of exactly four big-endian bytes.
    pub fn decode_u32_ordered(encoded: &[u8]) -> (r: Option<u32>)
        ensures
            r is Some <==> encoded@.len() == 4,
            r matches Some(v) ==> v == be32_value(encoded@),
    {
        if encoded.len() == 4 {
            Some(
                16777216 * (encoded[0] as u32) + 65536 * (encoded[1] as u32) + 256 * (
                encoded[2] as u32) + (encoded[3] as u32),
            )
        } else {
            None
        }
    }

    /// Key of a meta value.
    pub fn meta_to_value(bucket_id: u32, meta: &StoreMetaKey) -> (r: StoreKeyer)
        ensures
            r.spec_bytes() == fixed_key(IDX_META_TO_VALUE, bucket_id, meta_route(*meta)),
    {
        Self::fixed(IDX_META_TO_VALUE, bucket_id, meta.as_u32())
    }

    /// Key of the posting of a term in one IID shard.
    pub fn term_posting(bucket_id: u32, term: &str, iid_shard: u16) -> (r: StoreKeyer)
        ensures
            r.spec_bytes() == term_route_key(IDX_TERM_POSTING, bucket_id, term.spec_bytes()) + be16(
                iid_shard,
            ),
    {
        let mut key = Self::term_posting_prefix(bucket_id, term);
        append_bytes(&mut key, &encode_u16_ordered(iid_shard));
        StoreKeyer { key }
    }

    /// Start of the posting keys of a term.
    pub fn term_posting_prefix(bucket_id: u32, term: &str) -> (r: Vec<u8>)
        ensures
            r@ == term_route_key(IDX_TERM_POSTING, bucket_id, term.spec_bytes()),
    {
        Self::term_key(IDX_TERM_POSTING, bucket_id, term).key
    }

    /// Start of all term posting keys of a bucket.
    pub fn term_posting_family_prefix(bucket_id: u32) -> (r: Vec<u8>)
        ensures
            r@ == key_prefix(IDX_TERM_POSTING, bucket_id),
    {
        Self::bucket_prefix(IDX_TERM_POSTING, bucket_id)
    }

    /// Key of the frequency of a term.
    pub fn term_frequency(bucket_id: u32, term: &str) -> (r: StoreKeyer)
        ensures
            r.spec_bytes() == term_route_key(IDX_TERM_FREQUENCY, bucket_id, term.spec_bytes()),
    {
        Self::term_key(IDX_TERM_FREQUENCY, bucket_id, term)
    }

    /// Key of the timestamp of an IID.
    pub fn iid_to_timestamp(bucket_id: u32, iid: u32) -> (r: StoreKeyer)
        ensures
            r.spec_bytes() == fixed_key(IDX_IID_TO_TIMESTAMP, bucket_id, iid),
    {
        Self::fixed(IDX_IID_TO_TIMESTAMP, bucket_id, iid)
    }

    /// Key of the posting of a time slice in one IID shard.
    pub fn time_posting(bucket_id: u32, time_slice: u64, iid_shard: u16) -> (r: StoreKeyer)
        ensures
            r.spec_bytes() == key_prefix(IDX_TIME_POSTING, bucket_id) + be64(time_slice) + be16(
                iid_shard,
            ),
    {
        let mut key = Self::bucket_prefix(IDX_TIME_POSTING, bucket_id);
        let slice = encode_u64_ordered(time_slice);
        append_bytes(&mut key, slice.as_slice());
        append_bytes(&mut key, &encode_u16_ordered(iid_shard));
        StoreKeyer { key }
    }

    /// Start of all time posting keys of a bucket.
    pub fn time_posting_prefix(bucket_id: u32) -> (r: Vec<u8>)
        ensures
            r@ == key_prefix(IDX_TIME_POSTING, bucket_id),
    {
        Self::bucket_prefix(IDX_TIME_POSTING, bucket_id)
    }

    /// Key of a stored document: bucket ID then IID, both big-endian.
    pub fn document(bucket_id: u32, iid: u32) -> (r: StoreKeyer)
        ensures
            r.spec_bytes() == be32(bucket_id) + be32(iid),
    {
        let mut key = Self::document_prefix(bucket_id);
        append_bytes(&mut key, &encode_kv_key_part(iid));
        StoreKeyer { key }
    }

    /// Start of all document keys of a bucket.
    pub fn document_prefix(bucket_id: u32) -> (r: Vec<u8>)
        ensures
            r@ == be32(bucket_id),
    {
        let mut key: Vec<u8> = Vec::new();
        append_bytes(&mut key, &encode_kv_key_part(bucket_id));
        key
    }

    /// Key of the IID of an object name.
    pub fn oid_to_iid(bucket_id: u32, oid: &str) -> (r: StoreKeyer)
        ensures
            r.spec_bytes() == key_prefix(IDX_OID_TO_IID, bucket_id) + oid.spec_bytes(),
    {
        Self::variable(IDX_OID_TO_IID, bucket_id, oid.as_bytes())
    }

    /// Key of the object name of an IID.
    pub fn iid_to_oid(bucket_id: u32, iid: u32) -> (r: StoreKeyer)
        ensures
            r.spec_bytes() == fixed_key(IDX_IID_TO_OID, bucket_id, iid),
    {
        Self::fixed(IDX_IID_TO_OID, bucket_id, iid)
    }

    /// Key of the terms of an IID.
    pub fn iid_to_terms(bucket_id: u32, iid: u32) -> (r: StoreKeyer)
        ensures
            r.spec_bytes() == fixed_key(IDX_IID_TO_TERMS, bucket_id, iid),
    {
        Self::fixed(IDX_IID_TO_TERMS, bucket_id, iid)
    }

    /// Key of the ID of a bucket name (kept under bucket ID 0).
    pub fn bucket_name_to_id(bucket: &str) -> (r: StoreKeyer)
        ensures
            r.spec_bytes() == key_prefix(IDX_BUCKET_NAME_TO_ID, 0) + bucket.spec_bytes(),
    {
        let mut key = Self::bucket_name_prefix();
        append_bytes(&mut key, bucket.as_bytes());
        StoreKeyer { key }
    }

    /// Start of all bucket name keys.
    pub fn bucket_name_prefix() -> (r: Vec<u8>)
        ensures
            r@ == key_prefix(IDX_BUCKET_NAME_TO_ID, 0),
    {
        Self::bucket_prefix(IDX_BUCKET_NAME_TO_ID, 0)
    }

    /// Key of the name of a bucket ID (kept under bucket ID 0).
    pub fn bucket_id_to_name(bucket_id: u32) -> (r: StoreKeyer)
        ensures
            r.spec_bytes() == fixed_key(IDX_BUCKET_ID_TO_NAME, 0, bucket_id),
    {
        Self::fixed(IDX_BUCKET_ID_TO_NAME, 0, bucket_id)
    }

    /// Start of all keys of one family in one bucket.
    pub fn bucket_prefix(index: u8, bucket_id: u32) -> (r: Vec<u8>)
        ensures
            r@ == key_prefix(index, bucket_id),
    {
        let mut prefix: Vec<u8> = Vec::new();
        append_bytes(&mut prefix, &encode_kv_key_part(bucket_id));
        prefix.push(index);
        prefix
    }

    /// The families kept per bucket.
    pub fn bucket_indexes() -> (r: Vec<u8>)
        ensures
            r@ == seq![
                IDX_META_TO_VALUE,
                IDX_TERM_POSTING,
                IDX_OID_TO_IID,
                IDX_IID_TO_OID,
                IDX_IID_TO_TERMS,
                IDX_IID_TO_TIMESTAMP,
                IDX_TIME_POSTING,
                IDX_TERM_FREQUENCY,
            ],
    {
        let r = vec![
            IDX_META_TO_VALUE,
            IDX_TERM_POSTING,
            IDX_OID_TO_IID,
            IDX_IID_TO_OID,
            IDX_IID_TO_TERMS,
            IDX_IID_TO_TIMESTAMP,
            IDX_TIME_POSTING,
            IDX_TERM_FREQUENCY,
        ];
        assert(r@ =~= seq![
            IDX_META_TO_VALUE,
            IDX_TERM_POSTING,
            IDX_OID_TO_IID,
            IDX_IID_TO_OID,
            IDX_IID_TO_TERMS,
            IDX_IID_TO_TIMESTAMP,
            IDX_TIME_POSTING,
            IDX_TERM_FREQUENCY,
        ]);
        r
    }

    /// The families that hold postings.
    pub fn posting_indexes() -> (r: Vec<u8>)
        ensures
            r@ == seq![IDX_TERM_POSTING, IDX_TIME_POSTING],
    {
        let r = vec![IDX_TERM_POSTING, IDX_TIME_POSTING];
        assert(r@ =~= seq![IDX_TERM_POSTING, IDX_TIME_POSTING]);
        r
    }

    fn fixed(index: u8, bucket_id: u32, route: u32) -> (r: StoreKeyer)
        ensures
            r.spec_bytes() == fixed_key(index, bucket_id, route),
    {
        let mut key = Self::bucket_prefix(index, bucket_id);
        append_bytes(&mut key, &encode_kv_key_part(route));
        StoreKeyer { key }
    }

    fn variable(index: u8, bucket_id: u32, route: &[u8]) -> (r: StoreKeyer)
        ensures
            r.spec_bytes() == key_prefix(index, bucket_id) + route@,
    {
        let mut key = Self::bucket_prefix(index, bucket_id);
        append_bytes(&mut key, route);
        StoreKeyer { key }
    }

    fn term_key(index: u8, bucket_id: u32, term: &str) -> (r: StoreKeyer)
        ensures
            r.spec_bytes() == term_route_key(index, bucket_id, term.spec_bytes()),
    {
        let bytes = term.as_bytes();
        let mut key = Self::bucket_prefix(index, bucket_id);
        append_bytes(&mut key, &encode_kv_key_part(bytes.len() as u32));
        append_bytes(&mut key, bytes);
        StoreKeyer { key }
    }

    /// The term of a term route followed by `suffix_len` more bytes: a
    /// big-endian length, that many bytes of UTF-8, then the suffix. `None`
    /// when the route is shorter, longer, or not UTF-8.
    pub fn decode_term_route_with_suffix(route: &[u8], suffix_len: usize) -> (r: Option<&str>)
        ensures
            r is Some <==> (route@.len() >= 4 && route@.len() - 4 - be32_value(route@.take(4))
                == suffix_len && valid_utf8(route@.subrange(4, 4 + be32_value(route@.take(4))))),
            r matches Some(t) ==> t.spec_bytes() == route@.subrange(
                4,
                4 + be32_value(route@.take(4)),
            ),
    {
        if route.len() < 4 {
            return None;
        }
        let head = vstd::slice::slice_subrange(route, 0, 4);
        let length = match Self::decode_u32_ordered(head) {
            Some(length) => length as usize,
            None => {
                return None;
            },
        };
        if route.len() - 4 < length {
            return None;
        }
        let term = vstd::slice::slice_subrange(route, 4, 4 + length);
        if route.len() - 4 - length == suffix_len {
            str_from_utf8(term)
        } else {
            None
        }
    }
}

} // verus!
