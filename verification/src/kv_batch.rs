//! The writes that the key-value actions of a bucket put in a batch, and
//! what they read back from the values the store holds: which key each
//! write goes to, and the bytes it writes.
use vstd::prelude::*;

use crate::encoding::{
    decode_u32, decode_u32_list, encode_u32, encode_u32_list, le32, le32_concat, le32_value,
    le32_words,
};
use crate::executor::term_after_unlink;
use crate::iid::{next_iid_of, IidCounters};
use crate::item::{Bucket, StoreObjectIid, StoreObjectOid, StoreTermHash};
use crate::kv_keys::{
    decimal, kv_key, meta_route, push_decimal, KvStoreKey, StoreMetaKey, IID_TO_OID,
    IID_TO_TERMS, META_TO_VALUE, OID_TO_IID, TERM_TO_IIDS,
};
use crate::hashing::xxhash32;
use crate::merge::without;
use crate::text::{append_bytes, string_from_utf8};
use vstd::string::StringSliceAdditionalSpecFns;
use vstd::utf8::{decode_utf8, valid_utf8};

verus! {

/// A write, as bytes: a value put under a key, merged into it, a key
/// deleted, or every key from a start (included) to an end (excluded).
pub enum KvWriteView {
    Put(Seq<u8>, Seq<u8>),
    Merge(Seq<u8>, Seq<u8>),
    Delete(Seq<u8>),
    DeleteRange(Seq<u8>, Seq<u8>),
}

/// A write of a batch.
#[derive(Clone, Debug, PartialEq, Eq)]
pub enum KvWrite {
    Put(Vec<u8>, Vec<u8>),
    Merge(Vec<u8>, Vec<u8>),
    Delete(Vec<u8>),
    DeleteRange(Vec<u8>, Vec<u8>),
}

impl View for KvWrite {
    type V = KvWriteView;

    open spec fn view(&self) -> KvWriteView {
        match self {
            KvWrite::Put(k, v) => KvWriteView::Put(k@, v@),
            KvWrite::Merge(k, v) => KvWriteView::Merge(k@, v@),
            KvWrite::Delete(k) => KvWriteView::Delete(k@),
            KvWrite::DeleteRange(s, e) => KvWriteView::DeleteRange(s@, e@),
        }
    }
}

/// Writes to apply to the store together, in order.
pub struct KvWriteBatch {
    writes: Vec<KvWrite>,
}

impl View for KvWriteBatch {
    type V = Seq<KvWriteView>;

    closed spec fn view(&self) -> Seq<KvWriteView> {
        self.writes@.map_values(|w: KvWrite| w@)
    }
}

impl KvWriteBatch {
    /// An empty batch.
    pub fn new() -> (r: Self)
        ensures
            r@ == Seq::<KvWriteView>::empty(),
    {
        let r = KvWriteBatch { writes: Vec::new() };
        assert(r@ =~= Seq::<KvWriteView>::empty());
        r
    }

    fn add(&mut self, write: KvWrite)
        ensures
            final(self)@ == old(self)@.push(write@),
    {
        self.writes.push(write);
        assert(self@ =~= old(self)@.push(write@));
    }

    /// Puts a value under a key.
    pub fn put(&mut self, key: &[u8], value: &[u8])
        ensures
            final(self)@ == old(self)@.push(KvWriteView::Put(key@, value@)),
    {
        let mut k: Vec<u8> = Vec::new();
        append_bytes(&mut k, key);
        let mut v: Vec<u8> = Vec::new();
        append_bytes(&mut v, value);
        self.add(KvWrite::Put(k, v));
    }

    /// Merges an operand into the value of a key.
    pub fn merge(&mut self, key: &[u8], operand: &[u8])
        ensures
            final(self)@ == old(self)@.push(KvWriteView::Merge(key@, operand@)),
    {
        let mut k: Vec<u8> = Vec::new();
        append_bytes(&mut k, key);
        let mut v: Vec<u8> = Vec::new();
        append_bytes(&mut v, operand);
        self.add(KvWrite::Merge(k, v));
    }

    /// Deletes a key.
    pub fn delete(&mut self, key: &[u8])
        ensures
            final(self)@ == old(self)@.push(KvWriteView::Delete(key@)),
    {
        let mut k: Vec<u8> = Vec::new();
        append_bytes(&mut k, key);
        self.add(KvWrite::Delete(k));
    }

    /// Deletes the keys from `start` (included) to `end` (excluded).
    pub fn delete_range(&mut self, start: &[u8], end: &[u8])
        ensures
            final(self)@ == old(self)@.push(KvWriteView::DeleteRange(start@, end@)),
    {
        let mut s: Vec<u8> = Vec::new();
        append_bytes(&mut s, start);
        let mut e: Vec<u8> = Vec::new();
        append_bytes(&mut e, end);
        self.add(KvWrite::DeleteRange(s, e));
    }

    /// The number of writes.
    pub fn len(&self) -> (r: usize)
        ensures
            r == self@.len(),
    {
        self.writes.len()
    }

    /// The writes, in order.
    pub fn writes(&self) -> (r: &Vec<KvWrite>)
        ensures
            r@.map_values(|w: KvWrite| w@) == self@,
    {
        &self.writes
    }
}

/// The value of decimal digits, most significant first.
pub open spec fn digits_value(s: Seq<u8>) -> int
    decreases s.len(),
{
    if s.len() == 0 {
        0
    } else {
        digits_value(s.drop_last()) * 10 + (s.last() - 48)
    }
}

/// Only ASCII decimal digits.
pub open spec fn all_digits(s: Seq<u8>) -> bool {
    forall|i: int| 0 <= i < s.len() ==> 48 <= #[trigger] s[i] <= 57
}

/// The number that text holds as `u32::from_str` reads it: an optional
/// `+`, then one digit or more, of a value that fits.
pub open spec fn parse_u32(s: Seq<u8>) -> Option<u32> {
    let d = if s.len() > 0 && s[0] == 43 {
        s.drop_first()
    } else {
        s
    };
    if d.len() > 0 && all_digits(d) && digits_value(d) <= u32::MAX {
        Some(digits_value(d) as u32)
    } else {
        None
    }
}

/// More digits never make a smaller value.
proof fn lemma_digits_value_grows(s: Seq<u8>, k: int)
    requires
        0 <= k <= s.len(),
        all_digits(s),
    ensures
        digits_value(s.take(k)) <= digits_value(s),
        0 <= digits_value(s.take(k)),
    decreases s.len() - k,
{
    if k < s.len() {
        lemma_digits_value_grows(s, k + 1);
        let next = s.take(k + 1);
        assert(next.drop_last() =~= s.take(k));
        assert(48 <= s[k] <= 57);
    } else {
        assert(s.take(k) =~= s);
        lemma_digits_value_nonneg(s);
    }
}

proof fn lemma_digits_value_nonneg(s: Seq<u8>)
    requires
        all_digits(s),
    ensures
        0 <= digits_value(s),
    decreases s.len(),
{
    if s.len() > 0 {
        assert(all_digits(s.drop_last())) by {
            assert forall|i: int| 0 <= i < s.drop_last().len() implies 48 <= #[trigger] s.drop_last()[i]
                <= 57 by {
                assert(s.drop_last()[i] == s[i]);
            }
        }
        lemma_digits_value_nonneg(s.drop_last());
        assert(48 <= s[s.len() - 1] <= 57);
    }
}

/// The decimal digits of a number read back as the number.
pub proof fn lemma_decimal_parses(n: u32)
    ensures
        parse_u32(decimal(n as nat)) == Some(n),
{
    lemma_decimal_digits(n as nat);
}

proof fn lemma_decimal_digits(n: nat)
    ensures
        decimal(n).len() > 0,
        all_digits(decimal(n)),
        digits_value(decimal(n)) == n,
        decimal(n)[0] != 43,
    decreases n,
{
    if n >= 10 {
        lemma_decimal_digits(n / 10);
        let d = decimal(n);
        assert(d.drop_last() =~= decimal(n / 10));
        vstd::arithmetic::div_mod::lemma_fundamental_div_mod(n as int, 10);
        assert(d.last() == (48 + n % 10) as u8);
        assert(digits_value(d) == digits_value(decimal(n / 10)) * 10 + (d.last() - 48));
        assert(digits_value(d) == (n / 10) * 10 + n % 10);
        assert forall|i: int| 0 <= i < d.len() implies 48 <= #[trigger] d[i] <= 57 by {
            if i < d.len() - 1 {
                assert(d[i] == decimal(n / 10)[i]);
            }
        }
        assert(d[0] == decimal(n / 10)[0]);
    } else {
        let d = decimal(n);
        assert(d.drop_last() =~= Seq::<u8>::empty());
        assert(digits_value(d.drop_last()) == 0);
        assert(d.last() == (48 + n) as u8);
        assert(digits_value(d) == digits_value(d.drop_last()) * 10 + (d.last() - 48));
    }
}

/// The number held by text, as `u32::from_str` reads it.
fn parse_u32_bytes(s: &[u8]) -> (r: Option<u32>)
    ensures
        r == parse_u32(s@),
{
    let len = s.len();
    let start: usize = if len > 0 && s[0] == 43 {
        1
    } else {
        0
    };
    let ghost d = if s@.len() > 0 && s@[0] == 43 {
        s@.drop_first()
    } else {
        s@
    };
    proof {
        assert(d =~= s@.skip(start as int));
    }
    if start == len {
        return None;
    }
    let mut acc: u64 = 0;
    let mut i: usize = start;
    proof {
        assert(d.take(0) =~= Seq::<u8>::empty());
    }
    while i < len
        invariant
            start <= i <= len,
            len == s@.len(),
            d =~= s@.skip(start as int),
            d == (if s@.len() > 0 && s@[0] == 43 {
                s@.drop_first()
            } else {
                s@
            }),
            all_digits(d.take(i - start)),
            acc == digits_value(d.take(i - start)),
            acc <= u32::MAX,
        decreases len - i,
    {
        let c = s[i];
        if c < 48 || c > 57 {
            proof {
                assert(d[i - start] == c);
                assert(!all_digits(d));
            }
            return None;
        }
        let next: u64 = acc * 10 + (c - 48) as u64;
        proof {
            let t = d.take(i - start + 1);
            assert(t.drop_last() =~= d.take(i - start));
            assert(t.last() == c);
            assert forall|x: int| 0 <= x < t.len() implies 48 <= #[trigger] t[x] <= 57 by {
                if x < t.len() - 1 {
                    assert(t[x] == d.take(i - start)[x]);
                }
            }
        }
        if next > 0xffff_ffff {
            proof {
                let k = i - start + 1;
                let t = d.take(k);
                assert(digits_value(t) == digits_value(t.drop_last()) * 10 + (t.last() - 48));
                assert(digits_value(t) == next);
                if all_digits(d) {
                    lemma_digits_value_grows(d, k);
                }
            }
            return None;
        }
        acc = next;
        i = i + 1;
    }
    proof {
        assert(d.take(len - start) =~= d);
    }
    Some(acc as u32)
}

/// Reads of a bucket's values, from the bytes the store holds.
pub struct StoreKVActionReadOnly<'a> {
    bucket: Bucket<'a>,
}

impl<'a> StoreKVActionReadOnly<'a> {
    /// The bucket read.
    pub closed spec fn spec_bucket(&self) -> Bucket<'a> {
        self.bucket
    }

    /// Reads of a bucket.
    pub fn new(bucket: Bucket<'a>) -> (r: Self)
        ensures
            r.spec_bucket() == bucket,
    {
        StoreKVActionReadOnly { bucket }
    }

    /// A meta value, from what the store holds under its key: the number
    /// its text holds, if any.
    pub fn get_meta_to_value(&self, _meta: StoreMetaKey, stored: Option<&[u8]>) -> (r: Option<u32>)
        ensures
            r == match stored {
                Some(b) => parse_u32(b@),
                None => None,
            },
    {
        match stored {
            Some(bytes) => parse_u32_bytes(bytes),
            None => None,
        }
    }

    /// The last IID handed out in the bucket: the one in memory, else the
    /// one the store holds under the `IIDIncr` key (refused when that is
    /// not four bytes), else none.
    pub fn get_iid_incr(&self, counters: &IidCounters, stored: Option<&[u8]>) -> (r: Result<
        Option<u32>,
        (),
    >)
        ensures
            ({
                let key = xxhash32(self.spec_bucket().spec_str().spec_bytes());
                if counters@.contains_key(key) {
                    r == Ok::<Option<u32>, ()>(Some(counters@[key]))
                } else {
                    match stored {
                        None => r == Ok::<Option<u32>, ()>(None),
                        Some(b) => if b@.len() == 4 {
                            r == Ok::<Option<u32>, ()>(Some(le32_value(b@)))
                        } else {
                            r is Err
                        },
                    }
                }
            }),
    {
        let key = self.bucket.part().into_compact();
        match counters.last_iid(key) {
            Some(iid) => Ok(Some(iid)),
            None => self.fetch_iid_incr(stored),
        }
    }

    /// The last IID handed out in the bucket, from what the store holds
    /// under the `IIDIncr` key: none when it holds nothing, refused when
    /// that is not four bytes.
    pub fn fetch_iid_incr(&self, stored: Option<&[u8]>) -> (r: Result<Option<u32>, ()>)
        ensures
            match stored {
                None => r == Ok::<Option<u32>, ()>(None),
                Some(b) => if b@.len() == 4 {
                    r == Ok::<Option<u32>, ()>(Some(le32_value(b@)))
                } else {
                    r is Err
                },
            },
    {
        match stored {
            None => Ok(None),
            Some(bytes) => match decode_u32(bytes) {
                Ok(iid) => Ok(Some(iid)),
                Err(()) => Err(()),
            },
        }
    }

    /// The IIDs of a term, from what the store holds under its key;
    /// refused when that is not a whole number of words.
    pub fn get_term_to_iids(&self, stored: Option<&[u8]>) -> (r: Result<Option<Vec<u32>>, ()>)
        ensures
            match stored {
                None => r matches Ok(None),
                Some(b) => if b@.len() % 4 == 0 {
                    r matches Ok(Some(v)) && v@ == le32_words(b@)
                } else {
                    r is Err
                },
            },
    {
        match stored {
            None => Ok(None),
            Some(bytes) => match decode_u32_list(bytes) {
                Ok(iids) => Ok(Some(iids)),
                Err(()) => Err(()),
            },
        }
    }

    /// The IID of an object, from what the store holds under its key;
    /// refused when that is not four bytes.
    pub fn get_oid_to_iid(&self, stored: Option<&[u8]>) -> (r: Result<Option<u32>, ()>)
        ensures
            match stored {
                None => r == Ok::<Option<u32>, ()>(None),
                Some(b) => if b@.len() == 4 {
                    r == Ok::<Option<u32>, ()>(Some(le32_value(b@)))
                } else {
                    r is Err
                },
            },
    {
        match stored {
            None => Ok(None),
            Some(bytes) => match decode_u32(bytes) {
                Ok(iid) => Ok(Some(iid)),
                Err(()) => Err(()),
            },
        }
    }

    /// The object name of an IID, from what the store holds under its key:
    /// none when that is not UTF-8.
    pub fn get_iid_to_oid(&self, stored: Option<&[u8]>) -> (r: Option<String>)
        ensures
            match stored {
                None => r is None,
                Some(b) => if valid_utf8(b@) {
                    r matches Some(s) && s@ == decode_utf8(b@)
                } else {
                    r is None
                },
            },
    {
        match stored {
            None => None,
            Some(bytes) => {
                let mut copy: Vec<u8> = Vec::new();
                append_bytes(&mut copy, bytes);
                string_from_utf8(copy)
            },
        }
    }

    /// The term hashes of an IID, from what the store holds under its key:
    /// none when the list is empty; refused when that is not a whole number
    /// of words.
    pub fn get_iid_to_terms(&self, stored: Option<&[u8]>) -> (r: Result<Option<Vec<u32>>, ()>)
        ensures
            match stored {
                None => r matches Ok(None),
                Some(b) => if b@.len() % 4 != 0 {
                    r is Err
                } else if b@.len() == 0 {
                    r matches Ok(None)
                } else {
                    r matches Ok(Some(v)) && v@ == le32_words(b@)
                },
            },
    {
        match stored {
            None => Ok(None),
            Some(bytes) => match decode_u32_list(bytes) {
                Ok(terms) => {
                    if terms.len() > 0 {
                        Ok(Some(terms))
                    } else {
                        proof {
                            assert(le32_words(bytes@).len() == bytes@.len() / 4);
                        }
                        Ok(None)
                    }
                },
                Err(()) => Err(()),
            },
        }
    }
}

/// The bytes of a bucket's name.
pub open spec fn bucket_bytes(bucket: Bucket) -> Seq<u8> {
    bucket.spec_str().spec_bytes()
}

/// The merges of words into the value of a key, one per word.
pub open spec fn merges_of(key: Seq<u8>, words: Seq<u32>) -> Seq<KvWriteView> {
    words.map_values(|w: u32| KvWriteView::Merge(key, le32(w)))
}

/// The write that a term's IID list gets when an object leaves it: the
/// list without the object, or the term's deletion when nothing is left.
pub open spec fn term_flush_write(bucket: Seq<u8>, term_hash: u32, iids: Seq<u32>, iid: u32) -> KvWriteView {
    let kept = without(iids, set![iid]);
    if kept.len() == 0 {
        KvWriteView::Delete(kv_key(TERM_TO_IIDS, bucket, term_hash))
    } else {
        KvWriteView::Put(kv_key(TERM_TO_IIDS, bucket, term_hash), le32_concat(kept))
    }
}

/// The term writes of flushing an object, for each of its terms with the
/// IIDs the store holds for it (none when it holds nothing readable).
pub open spec fn term_flush_writes(
    bucket: Seq<u8>,
    terms: Seq<(u32, Option<Seq<u32>>)>,
    iid: u32,
) -> Seq<KvWriteView>
    decreases terms.len(),
{
    if terms.len() == 0 {
        Seq::empty()
    } else {
        let prev = term_flush_writes(bucket, terms.drop_last(), iid);
        match terms.last().1 {
            Some(iids) => prev.push(term_flush_write(bucket, terms.last().0, iids, iid)),
            None => prev,
        }
    }
}

/// How many of the terms held the object.
pub open spec fn flush_count(terms: Seq<(u32, Option<Seq<u32>>)>, iid: u32) -> nat
    decreases terms.len(),
{
    if terms.len() == 0 {
        0
    } else {
        let prev = flush_count(terms.drop_last(), iid);
        match terms.last().1 {
            Some(iids) => if iids.contains(iid) {
                prev + 1
            } else {
                prev
            },
            None => prev,
        }
    }
}

/// The view of terms with what the store holds for each.
pub open spec fn term_lists_view(terms: Seq<(u32, Option<Vec<u32>>)>) -> Seq<(u32, Option<Seq<u32>>)> {
    terms.map_values(
        |t: (u32, Option<Vec<u32>>)|
            (
                t.0,
                match t.1 {
                    Some(v) => Some(v@),
                    None => None,
                },
            ),
    )
}

/// The batch that erases one family of a bucket: every key from the first
/// route to the last, the last one included.
pub open spec fn erase_family_writes(bucket: Seq<u8>, idx: u8) -> Seq<KvWriteView> {
    seq![
        KvWriteView::DeleteRange(kv_key(idx, bucket, 0), kv_key(idx, bucket, u32::MAX)),
        KvWriteView::Delete(kv_key(idx, bucket, u32::MAX)),
    ]
}

/// Writes of a bucket's values, into batches.
pub struct StoreKVActionReadWrite<'a> {
    bucket: Bucket<'a>,
}

impl<'a> StoreKVActionReadWrite<'a> {
    /// The bucket written.
    pub closed spec fn spec_bucket(&self) -> Bucket<'a> {
        self.bucket
    }

    /// Writes of a bucket.
    pub fn new(bucket: Bucket<'a>) -> (r: Self)
        ensures
            r.spec_bucket() == bucket,
    {
        StoreKVActionReadWrite { bucket }
    }

    /// The reads of the same bucket.
    pub fn as_read_only(&self) -> (r: StoreKVActionReadOnly<'a>)
        ensures
            r.spec_bucket() == self.spec_bucket(),
    {
        StoreKVActionReadOnly::new(self.bucket)
    }

    /// Puts a meta value, as decimal text.
    pub fn set_meta_to_value(&self, batch: &mut KvWriteBatch, meta: StoreMetaKey, value: u32)
        ensures
            final(batch)@ == old(batch)@.push(
                KvWriteView::Put(
                    kv_key(META_TO_VALUE, bucket_bytes(self.spec_bucket()), meta_route(meta)),
                    decimal(value as nat),
                ),
            ),
    {
        let key = KvStoreKey::meta_to_value(&self.bucket, &meta);
        let mut text: Vec<u8> = Vec::new();
        push_decimal(&mut text, value);
        proof {
            assert(text@ =~= Seq::<u8>::empty() + decimal(value as nat));
        }
        batch.put(key.as_bytes(), text.as_slice());
    }

    /// Bumps the bucket's `IIDIncr` meta value: the IID after the current
    /// one (0 when there is none), put as decimal text.
    pub fn auto_increment_iid(&self, current: Option<u32>, batch: &mut KvWriteBatch) -> (r: u32)
        requires
            current != Some(u32::MAX),
        ensures
            r == (match current {
                Some(c) => c + 1,
                None => 0,
            }),
            final(batch)@ == old(batch)@.push(
                KvWriteView::Put(
                    kv_key(META_TO_VALUE, bucket_bytes(self.spec_bucket()), meta_route(StoreMetaKey::IIDIncr)),
                    decimal(r as nat),
                ),
            ),
    {
        let next = match current {
            Some(c) => c + 1,
            None => 0,
        };
        self.set_meta_to_value(batch, StoreMetaKey::IIDIncr, next);
        next
    }

    /// Hands out the bucket's next IID, and merges it into the bucket's
    /// `IIDIncr` meta value.
    pub fn get_new_iid(&self, counters: &mut IidCounters, batch: &mut KvWriteBatch) -> (r: u32)
        ensures
            ({
                let key = xxhash32(bucket_bytes(self.spec_bucket()));
                &&& r == next_iid_of(old(counters)@, key)
                &&& final(counters)@ == old(counters)@.insert(key, r)
            }),
            final(batch)@ == old(batch)@.push(
                KvWriteView::Merge(
                    kv_key(META_TO_VALUE, bucket_bytes(self.spec_bucket()), meta_route(StoreMetaKey::IIDIncr)),
                    le32(r),
                ),
            ),
    {
        let (iid, operand) = counters.next_iid(self.bucket.part().into_compact());
        let key = KvStoreKey::meta_to_value(&self.bucket, &StoreMetaKey::IIDIncr);
        batch.merge(key.as_bytes(), &operand);
        iid
    }

    /// Merges a change into the bucket's `ObjectCount` meta value, the
    /// number of objects the bucket holds: one more for an object given an
    /// IID, one fewer for an object flushed out.
    pub fn count_objects(&self, batch: &mut KvWriteBatch, diff: i32)
        ensures
            final(batch)@ == old(batch)@.push(
                KvWriteView::Merge(
                    kv_key(META_TO_VALUE, bucket_bytes(self.spec_bucket()), meta_route(StoreMetaKey::ObjectCount)),
                    le32(diff as u32),
                ),
            ),
    {
        let key = KvStoreKey::meta_to_value(&self.bucket, &StoreMetaKey::ObjectCount);
        let operand = crate::encoding::encode_i32_counter(diff);
        batch.merge(key.as_bytes(), &operand);
    }

    /// Puts the IID list of a term.
    pub fn set_term_to_iids(&self, batch: &mut KvWriteBatch, term_hash: StoreTermHash, iids: &[u32])
        ensures
            final(batch)@ == old(batch)@.push(
                KvWriteView::Put(
                    kv_key(TERM_TO_IIDS, bucket_bytes(self.spec_bucket()), term_hash.spec_value()),
                    le32_concat(iids@),
                ),
            ),
    {
        let key = KvStoreKey::term_to_iids(&self.bucket, term_hash);
        let encoded = encode_u32_list(iids);
        batch.put(key.as_bytes(), encoded.as_slice());
    }

    /// Merges IIDs into the list of a term, one by one.
    pub fn add_term_to_iids(&self, batch: &mut KvWriteBatch, term_hash: StoreTermHash, iids: &[u32])
        ensures
            final(batch)@ == old(batch)@ + merges_of(
                kv_key(TERM_TO_IIDS, bucket_bytes(self.spec_bucket()), term_hash.spec_value()),
                iids@,
            ),
    {
        let key = KvStoreKey::term_to_iids(&self.bucket, term_hash);
        Self::merge_words(batch, key.as_bytes(), iids);
    }

    fn merge_words(batch: &mut KvWriteBatch, key: &[u8], words: &[u32])
        ensures
            final(batch)@ == old(batch)@ + merges_of(key@, words@),
    {
        let mut i: usize = 0;
        proof {
            assert(old(batch)@ + merges_of(key@, words@.take(0)) =~= old(batch)@);
        }
        while i < words.len()
            invariant
                i <= words@.len(),
                batch@ == old(batch)@ + merges_of(key@, words@.take(i as int)),
            decreases words@.len() - i,
        {
            let operand = encode_u32(words[i]);
            batch.merge(key, &operand);
            proof {
                assert(merges_of(key@, words@.take(i + 1)) =~= merges_of(key@, words@.take(i as int)).push(
                    KvWriteView::Merge(key@, le32(words@[i as int])),
                ));
            }
            i = i + 1;
        }
        proof {
            assert(words@.take(words@.len() as int) =~= words@);
        }
    }

    /// Deletes the IID list of a term.
    pub fn delete_term_to_iids(&self, batch: &mut KvWriteBatch, term_hash: StoreTermHash)
        ensures
            final(batch)@ == old(batch)@.push(
                KvWriteView::Delete(
                    kv_key(TERM_TO_IIDS, bucket_bytes(self.spec_bucket()), term_hash.spec_value()),
                ),
            ),
    {
        let key = KvStoreKey::term_to_iids(&self.bucket, term_hash);
        batch.delete(key.as_bytes());
    }

    /// Puts the IID of an object.
    pub fn set_oid_to_iid(&self, batch: &mut KvWriteBatch, oid: StoreObjectOid, iid: u32)
        ensures
            final(batch)@ == old(batch)@.push(
                KvWriteView::Put(
                    kv_key(OID_TO_IID, bucket_bytes(self.spec_bucket()), xxhash32(oid.spec_str().spec_bytes())),
                    le32(iid),
                ),
            ),
    {
        let key = KvStoreKey::oid_to_iid(&self.bucket, oid);
        let encoded = encode_u32(iid);
        batch.put(key.as_bytes(), &encoded);
    }

    /// Deletes the IID of an object.
    pub fn delete_oid_to_iid(&self, batch: &mut KvWriteBatch, oid: StoreObjectOid)
        ensures
            final(batch)@ == old(batch)@.push(
                KvWriteView::Delete(
                    kv_key(OID_TO_IID, bucket_bytes(self.spec_bucket()), xxhash32(oid.spec_str().spec_bytes())),
                ),
            ),
    {
        let key = KvStoreKey::oid_to_iid(&self.bucket, oid);
        batch.delete(key.as_bytes());
    }

    /// Puts the object name of an IID.
    pub fn set_iid_to_oid(&self, batch: &mut KvWriteBatch, iid: u32, oid: StoreObjectOid)
        ensures
            final(batch)@ == old(batch)@.push(
                KvWriteView::Put(
                    kv_key(IID_TO_OID, bucket_bytes(self.spec_bucket()), iid),
                    oid.spec_str().spec_bytes(),
                ),
            ),
    {
        let key = KvStoreKey::iid_to_oid(&self.bucket, StoreObjectIid::new(iid));
        batch.put(key.as_bytes(), oid.as_bytes());
    }

    /// Deletes the object name of an IID.
    pub fn delete_iid_to_oid(&self, batch: &mut KvWriteBatch, iid: u32)
        ensures
            final(batch)@ == old(batch)@.push(
                KvWriteView::Delete(kv_key(IID_TO_OID, bucket_bytes(self.spec_bucket()), iid)),
            ),
    {
        let key = KvStoreKey::iid_to_oid(&self.bucket, StoreObjectIid::new(iid));
        batch.delete(key.as_bytes());
    }

    /// Puts the term hashes of an IID.
    pub fn set_iid_to_terms(&self, batch: &mut KvWriteBatch, iid: u32, term_hashes: &[u32])
        ensures
            final(batch)@ == old(batch)@.push(
                KvWriteView::Put(
                    kv_key(IID_TO_TERMS, bucket_bytes(self.spec_bucket()), iid),
                    le32_concat(term_hashes@),
                ),
            ),
    {
        let key = KvStoreKey::iid_to_terms(&self.bucket, StoreObjectIid::new(iid));
        let encoded = encode_u32_list(term_hashes);
        batch.put(key.as_bytes(), encoded.as_slice());
    }

    /// Merges term hashes into those of an IID, one by one.
    pub fn add_iid_to_terms(&self, batch: &mut KvWriteBatch, iid: u32, term_hashes: &[u32])
        ensures
            final(batch)@ == old(batch)@ + merges_of(
                kv_key(IID_TO_TERMS, bucket_bytes(self.spec_bucket()), iid),
                term_hashes@,
            ),
    {
        let key = KvStoreKey::iid_to_terms(&self.bucket, StoreObjectIid::new(iid));
        Self::merge_words(batch, key.as_bytes(), term_hashes);
    }

    /// Deletes the term hashes of an IID.
    pub fn delete_iid_to_terms(&self, batch: &mut KvWriteBatch, iid: u32)
        ensures
            final(batch)@ == old(batch)@.push(
                KvWriteView::Delete(kv_key(IID_TO_TERMS, bucket_bytes(self.spec_bucket()), iid)),
            ),
    {
        let key = KvStoreKey::iid_to_terms(&self.bucket, StoreObjectIid::new(iid));
        batch.delete(key.as_bytes());
    }

    /// Flushes an object out of the bucket: deletes its name, IID and terms
    /// associations, then takes its IID out of each of its terms with the
    /// IIDs the store holds for it (skipping a term that holds none), the
    /// term going when no IID is left. Tells how many of those terms held
    /// the object.
    pub fn batch_flush_bucket(
        &self,
        batch: &mut KvWriteBatch,
        iid: u32,
        oid: StoreObjectOid,
        terms: &Vec<(u32, Option<Vec<u32>>)>,
    ) -> (r: u32)
        requires
            terms@.len() <= u32::MAX,
        ensures
            ({
                let b = bucket_bytes(self.spec_bucket());
                final(batch)@ == old(batch)@ + seq![
                    KvWriteView::Delete(kv_key(OID_TO_IID, b, xxhash32(oid.spec_str().spec_bytes()))),
                    KvWriteView::Delete(kv_key(IID_TO_OID, b, iid)),
                    KvWriteView::Delete(kv_key(IID_TO_TERMS, b, iid)),
                ] + term_flush_writes(b, term_lists_view(terms@), iid)
            }),
            r == flush_count(term_lists_view(terms@), iid),
    {
        let ghost b = bucket_bytes(self.spec_bucket());
        let ghost tv = term_lists_view(terms@);
        self.delete_oid_to_iid(batch, oid);
        self.delete_iid_to_oid(batch, iid);
        self.delete_iid_to_terms(batch, iid);
        let ghost head = batch@;
        let mut count: u32 = 0;
        let mut i: usize = 0;
        proof {
            assert(tv.take(0) =~= Seq::<(u32, Option<Seq<u32>>)>::empty());
            assert(head + term_flush_writes(b, tv.take(0), iid) =~= head);
        }
        while i < terms.len()
            invariant
                i <= terms@.len(),
                terms@.len() <= u32::MAX,
                b == bucket_bytes(self.spec_bucket()),
                tv == term_lists_view(terms@),
                batch@ == head + term_flush_writes(b, tv.take(i as int), iid),
                count == flush_count(tv.take(i as int), iid),
                count <= i,
            decreases terms@.len() - i,
        {
            let ghost before = batch@;
            proof {
                let next = tv.take(i + 1);
                assert(next.drop_last() =~= tv.take(i as int));
                assert(next.last() == tv[i as int]);
            }
            match &terms[i].1 {
                Some(iids) => {
                    let term_hash = StoreTermHash::new(terms[i].0);
                    let (linked, kept) = term_after_unlink(iids, iid);
                    if linked {
                        count = count + 1;
                    }
                    match kept {
                        Some(list) => {
                            self.set_term_to_iids(batch, term_hash, list.as_slice());
                        },
                        None => {
                            self.delete_term_to_iids(batch, term_hash);
                        },
                    }
                    proof {
                        assert(batch@ =~= head + term_flush_writes(b, tv.take(i + 1), iid));
                    }
                },
                None => {},
            }
            i = i + 1;
        }
        proof {
            assert(tv.take(terms@.len() as int) =~= tv);
        }
        count
    }

    /// The batches that erase the bucket, one per family of keys, in the
    /// order of the families: each deletes every key of its family.
    pub fn batch_erase_bucket(&self) -> (r: Vec<KvWriteBatch>)
        ensures
            r@.len() == 5,
            forall|i: int|
                0 <= i < 5 ==> (#[trigger] r@[i])@ == erase_family_writes(
                    bucket_bytes(self.spec_bucket()),
                    i as u8,
                ),
    {
        let mut batches: Vec<KvWriteBatch> = Vec::new();
        let mut idx: u8 = 0;
        while idx < 5
            invariant
                idx <= 5,
                batches@.len() == idx,
                forall|i: int|
                    0 <= i < idx ==> (#[trigger] batches@[i])@ == erase_family_writes(
                        bucket_bytes(self.spec_bucket()),
                        i as u8,
                    ),
            decreases 5 - idx,
        {
            let start = KvStoreKey::make(idx, &self.bucket, 0);
            let end = KvStoreKey::make(idx, &self.bucket, 0xffff_ffff);
            let mut batch = KvWriteBatch::new();
            batch.delete_range(start.as_bytes(), end.as_bytes());
            batch.delete(end.as_bytes());
            proof {
                assert(batch@ =~= erase_family_writes(bucket_bytes(self.spec_bucket()), idx));
            }
            batches.push(batch);
            idx = idx + 1;
        }
        batches
    }
}

} // verus!
