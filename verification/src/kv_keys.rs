//! Keys of the key-value store: the bucket name, a separator byte that no
//! name holds, the index family, then a big-endian route number.
use vstd::prelude::*;

use crate::encoding::{
    be32, be32_value, encode_kv_key_part, lemma_be32_order, lemma_be32_value,
    lemma_lex_common_prefix, lemma_lex_prefix, lex_lt,
};
use crate::item::{
    lemma_valid_part_ascii, Bucket, StoreObjectIid, StoreObjectOid, StoreTermHash,
};
use crate::hashing::xxhash32;
use crate::text::{append_bytes, ascii_bytes, ascii_chars, ascii_string};
use vstd::string::StringSliceAdditionalSpecFns;

verus! {

/// Separates the bucket name from the rest of a key. It is not ASCII, so no
/// valid name holds it.
pub const KEY_SEPARATOR: u8 = 0xfe;

/// Family of meta values.
pub const META_TO_VALUE: u8 = 0;

/// Family of term hash to IIDs.
pub const TERM_TO_IIDS: u8 = 1;

/// Family of object name hash to IID.
pub const OID_TO_IID: u8 = 2;

/// Family of IID to object name.
pub const IID_TO_OID: u8 = 3;

/// Family of IID to term hashes.
pub const IID_TO_TERMS: u8 = 4;

/// The meta values kept per bucket.
#[derive(Clone, Copy, Debug, PartialEq, Eq)]
pub enum StoreMetaKey {
    IIDIncr,
    ObjectCount,
}

/// The route number of a meta value.
pub open spec fn meta_route(meta: StoreMetaKey) -> u32 {
    match meta {
        StoreMetaKey::IIDIncr => 0,
        StoreMetaKey::ObjectCount => 1,
    }
}

impl StoreMetaKey {
    /// The route number of the meta value.
    pub fn as_u32(&self) -> (r: u32)
        ensures
            r == meta_route(*self),
    {
        match self {
            StoreMetaKey::IIDIncr => 0,
            StoreMetaKey::ObjectCount => 1,
        }
    }
}

/// A key-value store, by the hash of its collection name.
#[derive(Clone, Copy, Debug, PartialEq, Eq, Hash)]
pub struct StoreKVKey {
    pub collection_hash: u32,
}

impl StoreKVKey {
    /// The store of a collection hash.
    pub fn from_atom(collection_hash: u32) -> (r: StoreKVKey)
        ensures
            r.collection_hash == collection_hash,
    {
        StoreKVKey { collection_hash }
    }

    /// The store of a collection name.
    pub fn from_str(collection_str: &str) -> (r: StoreKVKey)
        ensures
            r.collection_hash == xxhash32(collection_str.spec_bytes()),
    {
        StoreKVKey { collection_hash: crate::keyer::StoreKeyerHasher::to_compact(collection_str) }
    }

    /// The text of the store: its hash in lowercase hexadecimal, in angle
    /// brackets.
    pub fn to_string(&self) -> (r: String)
        ensures
            r@ == ascii_chars(seq![60u8] + lower_hex(self.collection_hash as nat) + seq![62u8]),
    {
        let mut out: Vec<u8> = Vec::new();
        out.push(60u8);
        push_lower_hex(&mut out, self.collection_hash);
        out.push(62u8);
        assert(out@ =~= seq![60u8] + lower_hex(self.collection_hash as nat) + seq![62u8]);
        ascii_string(out)
    }
}

/// Whether acquiring a store may create it, or only opens an existing one.
#[derive(Clone, Copy, Debug, PartialEq, Eq)]
pub enum StoreKVAcquireMode {
    Any,
    OpenOnly,
}

/// The bytes of a key: bucket name, separator, family, big-endian route.
pub open spec fn kv_key(idx: u8, bucket: Seq<u8>, route: u32) -> Seq<u8> {
    bucket + seq![KEY_SEPARATOR, idx] + be32(route)
}

/// Within one family of one bucket, keys sort by their route number.
pub proof fn lemma_kv_keys_ordered(idx: u8, bucket: Seq<u8>, route1: u32, route2: u32)
    requires
        route1 < route2,
    ensures
        lex_lt(kv_key(idx, bucket, route1), kv_key(idx, bucket, route2)),
{
    let p = bucket + seq![KEY_SEPARATOR, idx];
    lemma_be32_order(route1, route2);
    lemma_lex_common_prefix(p, be32(route1), be32(route2));
}

/// Every key of a bucket lies in its prefix range: not before the start,
/// and before the end.
pub proof fn lemma_kv_key_in_prefix_range(idx: u8, bucket: Seq<u8>, route: u32)
    ensures
        lex_lt(bucket.push(KEY_SEPARATOR), kv_key(idx, bucket, route)),
        lex_lt(kv_key(idx, bucket, route), bucket.push((KEY_SEPARATOR + 1) as u8)),
{
    let key = kv_key(idx, bucket, route);
    let tail = seq![idx] + be32(route);
    assert(key =~= bucket.push(KEY_SEPARATOR) + tail);
    lemma_lex_prefix(bucket.push(KEY_SEPARATOR), tail);
    let rest = seq![KEY_SEPARATOR, idx] + be32(route);
    assert(key =~= bucket + rest);
    assert(bucket.push((KEY_SEPARATOR + 1) as u8) =~= bucket + seq![(KEY_SEPARATOR + 1) as u8]);
    lemma_lex_common_prefix(bucket, rest, seq![(KEY_SEPARATOR + 1) as u8]);
    assert(rest[0] == KEY_SEPARATOR);
    reveal_with_fuel(lex_lt, 2);
}

/// Decimal digits of a number, most significant first.
pub open spec fn decimal(n: nat) -> Seq<u8>
    decreases n,
{
    if n < 10 {
        seq![(48 + n) as u8]
    } else {
        decimal(n / 10).push((48 + n % 10) as u8)
    }
}

/// A lowercase hexadecimal digit.
pub open spec fn hex_digit(d: nat) -> u8 {
    if d < 10 {
        (48 + d) as u8
    } else {
        (87 + d) as u8
    }
}

/// Lowercase hexadecimal digits of a number, most significant first.
pub open spec fn lower_hex(n: nat) -> Seq<u8>
    decreases n,
{
    if n < 16 {
        seq![hex_digit(n)]
    } else {
        lower_hex(n / 16).push(hex_digit(n % 16))
    }
}

/// How a string's debug form writes one ASCII character.
pub open spec fn debug_escape(c: u8) -> Seq<u8> {
    if c == 0 {
        seq![92u8, 48u8]
    } else if c == 9 {
        seq![92u8, 116u8]
    } else if c == 10 {
        seq![92u8, 110u8]
    } else if c == 13 {
        seq![92u8, 114u8]
    } else if c == 34 {
        seq![92u8, 34u8]
    } else if c == 92 {
        seq![92u8, 92u8]
    } else if c < 32 || c == 127 {
        seq![92u8, 117u8, 123u8] + lower_hex(c as nat) + seq![125u8]
    } else {
        seq![c]
    }
}

/// The debug form of ASCII text, without its quotes.
pub open spec fn debug_escape_all(s: Seq<u8>) -> Seq<u8>
    decreases s.len(),
{
    if s.len() == 0 {
        seq![]
    } else {
        debug_escape_all(s.drop_last()) + debug_escape(s.last())
    }
}

/// The text of a key: the quoted bucket name, the family in decimal and the
/// route in lowercase hexadecimal, separated by colons.
pub open spec fn key_text(bucket: Seq<u8>, idx: u8, route: u32) -> Seq<u8> {
    seq![34u8] + debug_escape_all(bucket) + seq![34u8, 58u8] + decimal(idx as nat) + seq![58u8]
        + lower_hex(route as nat)
}

/// A key of the key-value store.
#[derive(Debug, PartialEq, Eq)]
pub struct KvStoreKey {
    bytes: Vec<u8>,
}

impl KvStoreKey {
    /// A key is an ASCII bucket name followed by the separator, the family
    /// and four route bytes.
    #[verifier::type_invariant]
    spec fn inv(self) -> bool {
        &&& self.bytes@.len() >= 6
        &&& self.bytes@[self.bytes@.len() - 6] == KEY_SEPARATOR
        &&& ascii_bytes(self.bytes@.take(self.bytes@.len() - 6))
    }

    /// The bytes of the key.
    pub closed spec fn spec_bytes(&self) -> Seq<u8> {
        self.bytes@
    }

    /// The bucket name part.
    pub closed spec fn spec_bucket(&self) -> Seq<u8> {
        self.bytes@.take(self.bytes@.len() - 6)
    }

    /// The family part.
    pub closed spec fn spec_index(&self) -> u8 {
        self.bytes@[self.bytes@.len() - 5]
    }

    /// The route part.
    pub closed spec fn spec_route(&self) -> u32 {
        be32_value(self.bytes@.skip(self.bytes@.len() - 4))
    }

    /// Key of a meta value.
    pub fn meta_to_value(bucket: &Bucket, meta: &StoreMetaKey) -> (r: KvStoreKey)
        ensures
            r.spec_bytes() == kv_key(META_TO_VALUE, bucket.spec_str().spec_bytes(), meta_route(*meta)),
            r.spec_bucket() == bucket.spec_str().spec_bytes(),
            r.spec_index() == META_TO_VALUE,
            r.spec_route() == meta_route(*meta),
    {
        Self::make(META_TO_VALUE, bucket, meta.as_u32())
    }

    /// Key of the IIDs of a term hash.
    pub fn term_to_iids(bucket: &Bucket, term_hash: StoreTermHash) -> (r: KvStoreKey)
        ensures
            r.spec_bytes() == kv_key(TERM_TO_IIDS, bucket.spec_str().spec_bytes(), term_hash.spec_value()),
            r.spec_bucket() == bucket.spec_str().spec_bytes(),
            r.spec_index() == TERM_TO_IIDS,
            r.spec_route() == term_hash.spec_value(),
    {
        Self::make(TERM_TO_IIDS, bucket, term_hash.into_inner())
    }

    /// Key of the IID of an object, routed by the hash of its name.
    pub fn oid_to_iid(bucket: &Bucket, oid: StoreObjectOid) -> (r: KvStoreKey)
        ensures
            r.spec_bytes() == kv_key(OID_TO_IID, bucket.spec_str().spec_bytes(), xxhash32(oid.spec_str().spec_bytes())),
            r.spec_bucket() == bucket.spec_str().spec_bytes(),
            r.spec_index() == OID_TO_IID,
            r.spec_route() == xxhash32(oid.spec_str().spec_bytes()),
    {
        Self::make(OID_TO_IID, bucket, oid.to_compact())
    }

    /// Key of the object name of an IID.
    pub fn iid_to_oid(bucket: &Bucket, iid: StoreObjectIid) -> (r: KvStoreKey)
        ensures
            r.spec_bytes() == kv_key(IID_TO_OID, bucket.spec_str().spec_bytes(), iid.spec_value()),
            r.spec_bucket() == bucket.spec_str().spec_bytes(),
            r.spec_index() == IID_TO_OID,
            r.spec_route() == iid.spec_value(),
    {
        Self::make(IID_TO_OID, bucket, iid.into_inner())
    }

    /// Key of the term hashes of an IID.
    pub fn iid_to_terms(bucket: &Bucket, iid: StoreObjectIid) -> (r: KvStoreKey)
        ensures
            r.spec_bytes() == kv_key(IID_TO_TERMS, bucket.spec_str().spec_bytes(), iid.spec_value()),
            r.spec_bucket() == bucket.spec_str().spec_bytes(),
            r.spec_index() == IID_TO_TERMS,
            r.spec_route() == iid.spec_value(),
    {
        Self::make(IID_TO_TERMS, bucket, iid.into_inner())
    }

    pub(crate) fn make(idx: u8, bucket: &Bucket, route: u32) -> (r: KvStoreKey)
        ensures
            r.spec_bytes() == kv_key(idx, bucket.spec_str().spec_bytes(), route),
            r.spec_bucket() == bucket.spec_str().spec_bytes(),
            r.spec_index() == idx,
            r.spec_route() == route,
    {
        let name = bucket.as_str();
        let bucket_bytes = name.as_bytes();
        proof {
            lemma_valid_part_ascii(name);
        }
        let mut key_bytes: Vec<u8> = Vec::new();
        append_bytes(&mut key_bytes, bucket_bytes);
        key_bytes.push(KEY_SEPARATOR);
        key_bytes.push(idx);
        append_bytes(&mut key_bytes, &encode_kv_key_part(route));
        let ghost b = bucket_bytes@;
        proof {
            let k = key_bytes@;
            assert(k =~= kv_key(idx, b, route));
            assert(k.take(k.len() - 6) =~= b);
            assert(k.skip(k.len() - 4) =~= be32(route));
            lemma_be32_value(route);
        }
        KvStoreKey { bytes: key_bytes }
    }

    /// The range of all keys of a bucket: from the name and the separator,
    /// up to the name and the byte after the separator.
    pub fn prefix_range(bucket: &Bucket) -> (r: std::ops::Range<Vec<u8>>)
        ensures
            r.start@ == bucket.spec_str().spec_bytes().push(KEY_SEPARATOR),
            r.end@ == bucket.spec_str().spec_bytes().push((KEY_SEPARATOR + 1) as u8),
    {
        let bucket_bytes = bucket.as_bytes();
        let mut start: Vec<u8> = Vec::new();
        append_bytes(&mut start, bucket_bytes);
        start.push(KEY_SEPARATOR);
        let mut end: Vec<u8> = Vec::new();
        append_bytes(&mut end, bucket_bytes);
        end.push(KEY_SEPARATOR + 1);
        start..end
    }

    /// The bytes of the key.
    pub fn as_bytes(&self) -> (r: &[u8])
        ensures
            r@ == self.spec_bytes(),
    {
        self.bytes.as_slice()
    }

    /// The text of the key: the quoted bucket name, the family in decimal and
    /// the route in lowercase hexadecimal, separated by colons.
    pub fn to_string(&self) -> (r: String)
        ensures
            r@ == ascii_chars(key_text(self.spec_bucket(), self.spec_index(), self.spec_route())),
    {
        proof {
            use_type_invariant(self);
        }
        let n = self.bytes.len();
        let ghost bucket = self.bytes@.take(n - 6);
        let mut out: Vec<u8> = Vec::new();
        out.push(34u8);
        let mut i: usize = 0;
        while i < n - 6
            invariant
                n == self.bytes@.len(),
                n >= 6,
                i <= n - 6,
                bucket == self.bytes@.take(n - 6),
                ascii_bytes(bucket),
                out@ == seq![34u8] + debug_escape_all(bucket.take(i as int)),
                ascii_bytes(out@),
            decreases n - 6 - i,
        {
            let ghost before = out@;
            assert(bucket[i as int] == self.bytes@[i as int]);
            push_escaped(&mut out, self.bytes[i]);
            assert(bucket.take(i + 1).drop_last() =~= bucket.take(i as int));
            assert(bucket.take(i + 1).last() == bucket[i as int]);
            assert(out@ =~= seq![34u8] + debug_escape_all(bucket.take(i + 1)));
            i = i + 1;
        }
        assert(bucket.take(n - 6) =~= bucket);
        out.push(34u8);
        out.push(58u8);
        push_decimal(&mut out, self.bytes[n - 5] as u32);
        out.push(58u8);
        let route = 16777216 * (self.bytes[n - 4] as u32) + 65536 * (self.bytes[n - 3] as u32)
            + 256 * (self.bytes[n - 2] as u32) + (self.bytes[n - 1] as u32);
        push_lower_hex(&mut out, route);
        proof {
            let tail = self.bytes@.skip(n - 4);
            assert(tail[0] == self.bytes@[n - 4]);
            assert(tail[1] == self.bytes@[n - 3]);
            assert(tail[2] == self.bytes@[n - 2]);
            assert(tail[3] == self.bytes@[n - 1]);
            assert(route == self.spec_route());
            assert(out@ =~= key_text(bucket, self.spec_index(), route));
        }
        ascii_string(out)
    }
}

/// Appends the debug form of one ASCII character.
fn push_escaped(v: &mut Vec<u8>, c: u8)
    requires
        c < 128,
        ascii_bytes(old(v)@),
    ensures
        final(v)@ == old(v)@ + debug_escape(c),
        ascii_bytes(final(v)@),
{
    if c == 0 {
        v.push(92);
        v.push(48);
    } else if c == 9 {
        v.push(92);
        v.push(116);
    } else if c == 10 {
        v.push(92);
        v.push(110);
    } else if c == 13 {
        v.push(92);
        v.push(114);
    } else if c == 34 {
        v.push(92);
        v.push(34);
    } else if c == 92 {
        v.push(92);
        v.push(92);
    } else if c < 32 || c == 127 {
        v.push(92);
        v.push(117);
        v.push(123);
        push_lower_hex(v, c as u32);
        v.push(125);
    } else {
        v.push(c);
    }
    assert(final(v)@ =~= old(v)@ + debug_escape(c)) by {
        assert(v@ =~= old(v)@ + debug_escape(c));
    }
}

/// Appends the decimal digits of `n`.
pub fn push_decimal(v: &mut Vec<u8>, n: u32)
    ensures
        final(v)@ == old(v)@ + decimal(n as nat),
        ascii_bytes(old(v)@) ==> ascii_bytes(final(v)@),
    decreases n,
{
    if n >= 10 {
        push_decimal(v, n / 10);
    }
    v.push(48 + (n % 10) as u8);
    assert(v@ =~= old(v)@ + decimal(n as nat));
}

/// Appends the lowercase hexadecimal digits of `n`.
pub fn push_lower_hex(v: &mut Vec<u8>, n: u32)
    ensures
        final(v)@ == old(v)@ + lower_hex(n as nat),
        ascii_bytes(old(v)@) ==> ascii_bytes(final(v)@),
    decreases n,
{
    if n >= 16 {
        push_lower_hex(v, n / 16);
    }
    let d = (n % 16) as u8;
    if d < 10 {
        v.push(48 + d);
    } else {
        v.push(87 + d);
    }
    assert(v@ =~= old(v)@ + lower_hex(n as nat));
}

} // verus!
