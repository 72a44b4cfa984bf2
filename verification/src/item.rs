//! Validated names of collections, buckets and objects, and the numeric
//! identifiers of the store.
use vstd::prelude::*;

use crate::hashing::{xxhash32, xxhash32_of};
use crate::text::ascii_bytes;
use vstd::string::{is_ascii, StringSliceAdditionalSpecFns};

verus! {

/// Shortest accepted name, in bytes.
pub const STORE_ITEM_PART_LEN_MIN: usize = 1;

/// Longest accepted name, in bytes.
pub const STORE_ITEM_PART_LEN_MAX: usize = 128;

/// A name is accepted when it is ASCII and 1 to 128 bytes long.
pub open spec fn valid_part(s: &str) -> bool {
    STORE_ITEM_PART_LEN_MIN <= s.len() <= STORE_ITEM_PART_LEN_MAX && is_ascii(s)
}

/// The bytes of a valid name are ASCII.
pub proof fn lemma_valid_part_ascii(s: &str)
    requires
        valid_part(s),
    ensures
        ascii_bytes(s.spec_bytes()),
{
    vstd::string::is_ascii_spec_bytes(s);
    vstd::utf8::is_ascii_chars_nat_bound(s@);
    assert forall|i: int| 0 <= i < s.spec_bytes().len() implies #[trigger] s.spec_bytes()[i]
        < 128 by {
        assert(s.spec_bytes()[i] == s@[i] as u8);
        assert((s@[i] as nat) < 128);
    }
}

/// A validated collection, bucket or object name.
#[derive(Clone, Copy, Debug, PartialEq, Eq, Hash)]
pub struct StoreItemPart<'a>(&'a str);

impl<'a> StoreItemPart<'a> {
    /// Every held name was validated.
    #[verifier::type_invariant]
    spec fn inv(self) -> bool {
        valid_part(self.0)
    }

    /// The name held.
    pub closed spec fn spec_str(&self) -> &'a str {
        self.0
    }

    /// Validates a name: ASCII, 1 to 128 bytes.
    pub fn from_str(part: &'a str) -> (r: Result<Self, ()>)
        ensures
            r is Ok <==> valid_part(part),
            r matches Ok(p) ==> p.spec_str() == part,
    {
        let len = part.len();
        if STORE_ITEM_PART_LEN_MIN <= len && len <= STORE_ITEM_PART_LEN_MAX && part.is_ascii() {
            Ok(StoreItemPart(part))
        } else {
            Err(())
        }
    }

    /// The name held, which is valid.
    pub fn as_str(&self) -> (r: &'a str)
        ensures
            r == self.spec_str(),
            valid_part(r),
    {
        proof {
            use_type_invariant(self);
        }
        self.0
    }

    /// The bytes of the name.
    pub fn as_bytes(&self) -> (r: &'a [u8])
        ensures
            r@ == self.spec_str().spec_bytes(),
    {
        self.0.as_bytes()
    }

    /// The 32-bit hash of the name (xxHash, seed 0).
    pub fn into_compact(&self) -> (r: u32)
        ensures
            r == xxhash32(self.spec_str().spec_bytes()),
    {
        xxhash32_of(self.0.as_bytes())
    }
}

/// A validated name, for literals known to be valid.
pub fn bucket(name: &'static str) -> (r: StoreItemPart<'static>)
    requires
        valid_part(name),
    ensures
        r.spec_str() == name,
{
    match StoreItemPart::from_str(name) {
        Ok(part) => part,
        Err(_) => {
            assert(false);
            StoreItemPart(name)
        },
    }
}

/// A validated bucket name.
#[derive(Clone, Copy, Debug, PartialEq, Eq)]
pub struct Bucket<'a>(StoreItemPart<'a>);

impl<'a> Bucket<'a> {
    /// The name held.
    pub closed spec fn spec_str(&self) -> &'a str {
        self.0.spec_str()
    }

    /// The bucket named by a validated name.
    pub fn from_part(part: StoreItemPart<'a>) -> (r: Self)
        ensures
            r.spec_str() == part.spec_str(),
    {
        Bucket(part)
    }

    /// The validated name.
    pub fn part(&self) -> (r: StoreItemPart<'a>)
        ensures
            r.spec_str() == self.spec_str(),
    {
        self.0
    }

    /// The name held, which is valid.
    pub fn as_str(&self) -> (r: &'a str)
        ensures
            r == self.spec_str(),
            valid_part(r),
    {
        self.0.as_str()
    }

    /// The bytes of the name.
    pub fn as_bytes(&self) -> (r: &'a [u8])
        ensures
            r@ == self.spec_str().spec_bytes(),
    {
        self.0.as_bytes()
    }

    /// A copy of the bytes of the name.
    pub fn to_bytes(&self) -> (r: Vec<u8>)
        ensures
            r@ == self.spec_str().spec_bytes(),
    {
        vstd::slice::slice_to_vec(self.as_bytes())
    }
}

/// A bucket name that owns its text.
#[derive(Clone, Debug, PartialEq, Eq, Hash)]
pub struct BucketOwned(String);

impl BucketOwned {
    /// The name held.
    pub closed spec fn spec_view(&self) -> Seq<char> {
        self.0@
    }

    /// Copies a validated bucket name.
    pub fn from_bucket(bucket: Bucket) -> (r: Self)
        ensures
            r.spec_view() == bucket.spec_str()@,
    {
        BucketOwned(bucket.as_str().to_owned())
    }

    /// Validates and copies a bucket name: ASCII, 1 to 128 bytes.
    pub fn parse(s: &str) -> (r: Result<Self, ()>)
        ensures
            r is Ok <==> valid_part(s),
            r matches Ok(b) ==> b.spec_view() == s@,
    {
        match StoreItemPart::from_str(s) {
            Ok(part) => Ok(BucketOwned(part.as_str().to_owned())),
            Err(()) => Err(()),
        }
    }

    /// The name held.
    pub fn as_str(&self) -> (r: &str)
        ensures
            r@ == self.spec_view(),
    {
        self.0.as_str()
    }
}

/// A validated object name.
#[derive(Clone, Copy, Debug, PartialEq, Eq)]
pub struct StoreObjectOID<'a>(StoreItemPart<'a>);

/// The same object name type, under its other spelling.
pub type StoreObjectOid<'a> = StoreObjectOID<'a>;

impl<'a> StoreObjectOID<'a> {
    /// The name held.
    pub closed spec fn spec_str(&self) -> &'a str {
        self.0.spec_str()
    }

    /// The object named by a validated name.
    pub fn from_part(part: StoreItemPart<'a>) -> (r: Self)
        ensures
            r.spec_str() == part.spec_str(),
    {
        StoreObjectOID(part)
    }

    /// The name held, which is valid.
    pub fn as_str(&self) -> (r: &'a str)
        ensures
            r == self.spec_str(),
            valid_part(r),
    {
        self.0.as_str()
    }

    /// The bytes of the name.
    pub fn as_bytes(&self) -> (r: &'a [u8])
        ensures
            r@ == self.spec_str().spec_bytes(),
    {
        self.0.as_bytes()
    }

    /// The 32-bit hash of the name (xxHash, seed 0).
    pub fn to_compact(&self) -> (r: u32)
        ensures
            r == xxhash32(self.spec_str().spec_bytes()),
    {
        self.0.into_compact()
    }
}

/// Internal object identifier.
#[derive(Clone, Copy, Debug, PartialEq, Eq, Hash)]
pub struct StoreObjectIID(u32);

/// The same internal identifier type, under its other spelling.
pub type StoreObjectIid = StoreObjectIID;

impl StoreObjectIID {
    /// The number held.
    pub closed spec fn spec_value(&self) -> u32 {
        self.0
    }

    /// Wraps a number.
    pub fn new(value: u32) -> (r: Self)
        ensures
            r.spec_value() == value,
    {
        StoreObjectIID(value)
    }

    /// The number held.
    pub fn into_inner(self) -> (r: u32)
        ensures
            r == self.spec_value(),
    {
        self.0
    }

    /// Adds `rhs`, stopping at `u32::MAX`.
    pub fn saturating_add(self, rhs: u32) -> (r: Self)
        ensures
            r.spec_value() == if self.spec_value() + rhs > u32::MAX {
                u32::MAX as int
            } else {
                self.spec_value() + rhs
            },
    {
        StoreObjectIID(self.0.saturating_add(rhs))
    }
}

/// Hash of a normalized term.
#[derive(Clone, Copy, Debug, PartialEq, Eq, Hash)]
pub struct StoreTermHash(u32);

impl StoreTermHash {
    /// The number held.
    pub closed spec fn spec_value(&self) -> u32 {
        self.0
    }

    /// Wraps a number that already is a hash.
    pub fn new(value: u32) -> (r: Self)
        ensures
            r.spec_value() == value,
    {
        StoreTermHash(value)
    }

    /// The number held.
    pub fn into_inner(self) -> (r: u32)
        ensures
            r == self.spec_value(),
    {
        self.0
    }

    /// Hashes a term (xxHash, seed 0, over its bytes).
    pub fn from_term(term: &str) -> (r: Self)
        ensures
            r.spec_value() == xxhash32(term.spec_bytes()),
    {
        StoreTermHash(xxhash32_of(term.as_bytes()))
    }
}

/// Namespace of the name validators.
pub struct StoreItemBuilder;

/// Which name of a request was refused.
#[derive(Clone, Copy, Debug, PartialEq, Eq)]
pub enum StoreItemError {
    InvalidCollection,
    InvalidBucket,
    InvalidObject,
}

impl StoreItemBuilder {
    /// Validates a collection name.
    pub fn from_depth_1<'a>(collection: &'a str) -> (r: Result<StoreItemPart<'a>, StoreItemError>)
        ensures
            r is Ok <==> valid_part(collection),
            r matches Ok(c) ==> c.spec_str() == collection,
            r matches Err(e) ==> e == StoreItemError::InvalidCollection,
    {
        if let Ok(collection_item) = StoreItemPart::from_str(collection) {
            Ok(collection_item)
        } else {
            Err(StoreItemError::InvalidCollection)
        }
    }

    /// Validates a collection and a bucket name; the first refused is named.
    pub fn from_depth_2<'a>(collection: &'a str, bucket: &'a str) -> (r: Result<
        (StoreItemPart<'a>, Bucket<'a>),
        StoreItemError,
    >)
        ensures
            r is Ok <==> (valid_part(collection) && valid_part(bucket)),
            r matches Ok((c, b)) ==> c.spec_str() == collection && b.spec_str() == bucket,
            !valid_part(collection) ==> r == Err::<(StoreItemPart<'a>, Bucket<'a>), _>(
                StoreItemError::InvalidCollection,
            ),
            valid_part(collection) && !valid_part(bucket) ==> r == Err::<
                (StoreItemPart<'a>, Bucket<'a>),
                _,
            >(StoreItemError::InvalidBucket),
    {
        match (StoreItemPart::from_str(collection), StoreItemPart::from_str(bucket)) {
            (Ok(collection_item), Ok(bucket_item)) => Ok(
                (collection_item, Bucket::from_part(bucket_item)),
            ),
            (Err(_), _) => Err(StoreItemError::InvalidCollection),
            (_, Err(_)) => Err(StoreItemError::InvalidBucket),
        }
    }

    /// Validates a collection, a bucket and an object name; the first refused
    /// is named.
    pub fn from_depth_3<'a>(collection: &'a str, bucket: &'a str, object: &'a str) -> (r: Result<
        (StoreItemPart<'a>, Bucket<'a>, StoreObjectOID<'a>),
        StoreItemError,
    >)
        ensures
            r is Ok <==> (valid_part(collection) && valid_part(bucket) && valid_part(object)),
            r matches Ok((c, b, o)) ==> c.spec_str() == collection && b.spec_str() == bucket
                && o.spec_str() == object,
            !valid_part(collection) ==> (r matches Err(e) && e
                == StoreItemError::InvalidCollection),
            valid_part(collection) && !valid_part(bucket) ==> (r matches Err(e) && e
                == StoreItemError::InvalidBucket),
            valid_part(collection) && valid_part(bucket) && !valid_part(object) ==> (r matches Err(
                e,
            ) && e == StoreItemError::InvalidObject),
    {
        match (
            StoreItemPart::from_str(collection),
            StoreItemPart::from_str(bucket),
            StoreItemPart::from_str(object),
        ) {
            (Ok(collection_item), Ok(bucket_item), Ok(object_item)) => Ok(
                (
                    collection_item,
                    Bucket::from_part(bucket_item),
                    StoreObjectOID::from_part(object_item),
                ),
            ),
            (Err(_), _, _) => Err(StoreItemError::InvalidCollection),
            (_, Err(_), _) => Err(StoreItemError::InvalidBucket),
            (_, _, Err(_)) => Err(StoreItemError::InvalidObject),
        }
    }
}

} // verus!
