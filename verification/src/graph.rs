//! Identifiers, limits and settings of the word graphs, one graph per
//! collection and bucket, named on disk by the hexadecimal hashes of both.
use vstd::prelude::*;

use crate::lang_detection::is_white_space;

use crate::hashing::xxhash32;
use crate::item::StoreItemPart;
use crate::keyer::StoreKeyerHasher;
use crate::kv_keys::{lower_hex, push_lower_hex};
use crate::text::{ascii_chars, ascii_string};
use vstd::string::{StrSliceExecFns, StringSliceAdditionalSpecFns};

verus! {

/// Longest word a graph takes, in bytes.
pub const WORD_LIMIT_LENGTH: usize = 40;

/// A graph, by the hashes of its collection and bucket names.
#[derive(Clone, Copy, Debug, PartialEq, Eq, Hash)]
pub struct StoreFSTKey {
    pub collection_hash: u32,
    pub bucket_hash: u32,
}

impl StoreFSTKey {
    /// The graph of two hashes.
    pub fn from_atom(collection_hash: u32, bucket_hash: u32) -> (r: StoreFSTKey)
        ensures
            r.collection_hash == collection_hash,
            r.bucket_hash == bucket_hash,
    {
        StoreFSTKey { collection_hash, bucket_hash }
    }

    /// The graph of a collection name and a bucket name.
    pub fn from_str(collection_str: &str, bucket_str: &str) -> (r: StoreFSTKey)
        ensures
            r.collection_hash == xxhash32(collection_str.spec_bytes()),
            r.bucket_hash == xxhash32(bucket_str.spec_bytes()),
    {
        StoreFSTKey {
            collection_hash: StoreKeyerHasher::to_compact(collection_str),
            bucket_hash: StoreKeyerHasher::to_compact(bucket_str),
        }
    }

    /// The hash of the collection.
    pub fn as_collection_hash(&self) -> (r: &u32)
        ensures
            *r == self.collection_hash,
    {
        &self.collection_hash
    }
}

/// A graph, by the hashes of its collection and bucket names.
#[derive(Clone, Copy, Debug, PartialEq, Eq, Hash)]
pub struct StoreFSTId {
    pub collection_hash: u32,
    pub bucket_hash: u32,
}

/// How many digits `radix` reads in base sixteen without overflowing a
/// `usize`: it takes `G` for the digit sixteen and raises the base to the
/// power of each digit's position, so a digit fewer than a `usize` holds.
pub open spec fn radix_digit_bound() -> nat {
    if usize::BITS == 64 {
        15
    } else {
        7
    }
}

/// A text without its leading white space.
pub open spec fn trim_start_of(s: Seq<char>) -> Seq<char>
    decreases s.len(),
{
    if s.len() > 0 && is_white_space(s[0]) {
        trim_start_of(s.drop_first())
    } else {
        s
    }
}

/// A text without its trailing white space.
pub open spec fn trim_end_of(s: Seq<char>) -> Seq<char>
    decreases s.len(),
{
    if s.len() > 0 && is_white_space(s.last()) {
        trim_end_of(s.drop_last())
    } else {
        s
    }
}

/// A text without its leading and trailing white space, which is what
/// `str::trim` gives.
pub open spec fn trim_of(s: Seq<char>) -> Seq<char> {
    trim_end_of(trim_start_of(s))
}

/// What `str::to_uppercase` gives of a text.
pub uninterp spec fn uppercase_of(s: Seq<char>) -> Seq<char>;

/// `str::trim`: the text without its leading and trailing white space.
/// Trusted: white space is what has Unicode's `White_Space` property, as
/// the method's documentation states.
#[verifier::external_body]
fn trimmed(s: &str) -> (r: &str)
    ensures
        r@ == trim_of(s@),
{
    s.trim()
}

/// `str::to_uppercase`: the text in upper case, by Unicode's mappings, one
/// letter giving one or more. Trusted: the result depends on the text alone
/// and is named `uppercase_of`.
#[verifier::external_body]
fn uppercased(s: &str) -> (r: String)
    ensures
        r@ == uppercase_of(s@),
{
    s.to_uppercase()
}

/// The number `radix::RadixNum::from_str(s, 16)` then `as_decimal` give,
/// when they give one.
pub uninterp spec fn radix_hex_value(s: Seq<char>) -> Option<usize>;

/// `radix::RadixNum::from_str(s, 16)`, then `as_decimal`. Trusted: the
/// result depends on the text alone and is named `radix_hex_value`. The
/// crate trims the text and puts it in upper case, then reads each digit
/// times sixteen to the power of its position, which overflows for more
/// digits than `radix_digit_bound`; `requires` keeps the digits fewer.
#[verifier::external_body]
fn radix_hex(s: &str) -> (r: Option<usize>)
    requires
        uppercase_of(trim_of(s@)).len() <= radix_digit_bound(),
    ensures
        r == radix_hex_value(s@),
{
    match radix::RadixNum::from_str(s, 16) {
        Ok(num) => match num.as_decimal() {
            Ok(value) => Some(value),
            Err(_) => None,
        },
        Err(_) => None,
    }
}

/// The number a file name part stands for, when the hexadecimal reading
/// succeeds and fits a `u32`; none when the text, trimmed and in upper
/// case, holds more characters than the reading takes.
pub open spec fn hex_u32(s: Seq<char>) -> Option<u32> {
    if uppercase_of(trim_of(s)).len() > radix_digit_bound() {
        None
    } else {
        match radix_hex_value(s) {
            Some(v) => if v <= u32::MAX {
                Some(v as u32)
            } else {
                None
            },
            None => None,
        }
    }
}

/// Reads a hash written in hexadecimal in a file name; texts with more
/// characters, once trimmed and in upper case, than the reading takes are
/// refused.
pub fn u32_from_base16(text: &str) -> (r: Result<u32, ()>)
    ensures
        r is Ok <==> hex_u32(text@) is Some,
        r matches Ok(v) ==> hex_u32(text@) == Some(v),
{
    let digits = uppercased(trimmed(text));
    let n = digits.as_str().unicode_len();
    let bound: usize = if usize::BITS == 64 {
        15
    } else {
        7
    };
    if n > bound {
        return Err(());
    }
    match radix_hex(text) {
        Some(value) => {
            if value <= 4294967295 {
                Ok(value as u32)
            } else {
                Err(())
            }
        },
        None => Err(()),
    }
}

impl StoreFSTId {
    /// The graph of two hashes.
    pub fn from_atoms(collection_hash: u32, bucket_hash: u32) -> (r: StoreFSTId)
        ensures
            r.collection_hash == collection_hash,
            r.bucket_hash == bucket_hash,
    {
        StoreFSTId { collection_hash, bucket_hash }
    }

    /// The graph of a collection and a bucket.
    pub fn from_parts(collection: StoreItemPart, bucket: StoreItemPart) -> (r: StoreFSTId)
        ensures
            r.collection_hash == xxhash32(collection.spec_str().spec_bytes()),
            r.bucket_hash == xxhash32(bucket.spec_str().spec_bytes()),
    {
        StoreFSTId { collection_hash: collection.into_compact(), bucket_hash: bucket.into_compact() }
    }

    /// The graph named by two hexadecimal file name parts.
    pub fn try_from_hex(collection_hash: &str, bucket_hash: &str) -> (r: Result<StoreFSTId, ()>)
        ensures
            r is Ok <==> hex_u32(collection_hash@) is Some && hex_u32(bucket_hash@) is Some,
            r matches Ok(id) ==> Some(id.collection_hash) == hex_u32(collection_hash@) && Some(
                id.bucket_hash,
            ) == hex_u32(bucket_hash@),
    {
        let c = match u32_from_base16(collection_hash) {
            Ok(c) => c,
            Err(()) => {
                return Err(());
            },
        };
        let b = match u32_from_base16(bucket_hash) {
            Ok(b) => b,
            Err(()) => {
                return Err(());
            },
        };
        Ok(Self::from_atoms(c, b))
    }

    /// The hash of the collection.
    pub fn as_collection_hash(&self) -> (r: &u32)
        ensures
            *r == self.collection_hash,
    {
        &self.collection_hash
    }

    /// The text of the graph: both hashes in lowercase hexadecimal, each in
    /// angle brackets, separated by a slash.
    pub fn to_string(&self) -> (r: String)
        ensures
            r@ == ascii_chars(
                seq![60u8] + lower_hex(self.collection_hash as nat) + seq![62u8, 47u8, 60u8]
                    + lower_hex(self.bucket_hash as nat) + seq![62u8],
            ),
    {
        let mut out: Vec<u8> = Vec::new();
        out.push(60u8);
        push_lower_hex(&mut out, self.collection_hash);
        out.push(62u8);
        out.push(47u8);
        out.push(60u8);
        push_lower_hex(&mut out, self.bucket_hash);
        out.push(62u8);
        assert(out@ =~= seq![60u8] + lower_hex(self.collection_hash as nat) + seq![
            62u8,
            47u8,
            60u8,
        ] + lower_hex(self.bucket_hash as nat) + seq![62u8]);
        ascii_string(out)
    }
}

/// How many typos a word of `word_len` bytes may hold: more as it grows,
/// up to three.
pub open spec fn typo_factor_spec(word_len: nat) -> u32 {
    if 1 <= word_len <= 3 {
        0
    } else if 4 <= word_len <= 6 {
        1
    } else if 7 <= word_len <= 9 {
        2
    } else {
        3
    }
}

/// How many typos a word of `word_len` bytes may hold: more as it grows,
/// up to three.
pub fn typo_factor(word_len: usize) -> (r: u32)
    ensures
        r == typo_factor_spec(word_len as nat),
{
    if 1 <= word_len && word_len <= 3 {
        0
    } else if 4 <= word_len && word_len <= 6 {
        1
    } else if 7 <= word_len && word_len <= 9 {
        2
    } else {
        3
    }
}

/// Whether a word is too long for a graph.
pub fn word_over_limit(word: &str) -> (r: bool)
    ensures
        r == (word.spec_bytes().len() > WORD_LIMIT_LENGTH),
{
    word.as_bytes().len() > WORD_LIMIT_LENGTH
}

/// Namespace of the graph checks.
pub struct StoreFSTMisc;

impl StoreFSTMisc {
    /// Whether a graph of `bytes_count` bytes and `words_count` words is at
    /// or over a limit (`max_size` is in kilobytes).
    pub fn check_over_limits(
        bytes_count: usize,
        words_count: usize,
        fst_graph_config: &crate::config::ConfigStoreFSTGraph,
    ) -> (r: bool)
        requires
            fst_graph_config.max_size * 1024 <= usize::MAX,
        ensures
            r == (bytes_count >= fst_graph_config.max_size * 1024 || words_count
                >= fst_graph_config.max_words),
    {
        let max_size = fst_graph_config.max_size * 1024;
        if bytes_count >= max_size {
            return true;
        }
        let max_words = fst_graph_config.max_words;
        if words_count >= max_words {
            return true;
        }
        false
    }
}

/// Kinds of graph files.
#[derive(Clone, Copy, Debug, PartialEq, Eq)]
pub enum StoreFSTPathMode {
    Permanent,
    Temporary,
    Backup,
}

impl StoreFSTPathMode {
    /// The file name extension of the kind.
    pub fn extension(&self) -> (r: &'static str)
        ensures
            r@ == match self {
                StoreFSTPathMode::Permanent => ".fst"@,
                StoreFSTPathMode::Temporary => ".fst.tmp"@,
                StoreFSTPathMode::Backup => ".fst.bck"@,
            },
    {
        match self {
            StoreFSTPathMode::Permanent => ".fst",
            StoreFSTPathMode::Temporary => ".fst.tmp",
            StoreFSTPathMode::Backup => ".fst.bck",
        }
    }

    /// Whether a file name is that of a graph file of this kind: longer
    /// than the extension, and ending with it.
    pub fn names_file(&self, file_name: &str) -> (r: bool)
        ensures
            ({
                let name = file_name.spec_bytes();
                let ext = self.spec_extension().spec_bytes();
                r == (name.len() > ext.len() && name.subrange(
                    name.len() - ext.len(),
                    name.len() as int,
                ) == ext)
            }),
    {
        let name = file_name.as_bytes();
        let ext = self.extension().as_bytes();
        assert(ext@ == self.spec_extension().spec_bytes());
        assert(name@ == file_name.spec_bytes());
        if name.len() <= ext.len() {
            return false;
        }
        let start = name.len() - ext.len();
        let mut k: usize = 0;
        while k < ext.len()
            invariant
                k <= ext@.len(),
                start + ext@.len() == name@.len(),
                name@.len() == name.len(),
                ext@.len() == ext.len(),
                ext@ == self.spec_extension().spec_bytes(),
                name@ == file_name.spec_bytes(),
                forall|i: int| 0 <= i < k ==> name@[start + i] == ext@[i],
            decreases ext@.len() - k,
        {
            if name[start + k] != ext[k] {
                assert(name@.subrange(start as int, name@.len() as int)[k as int] != ext@[k as int]);
                assert(name@.subrange(start as int, name@.len() as int) != ext@);
                return false;
            }
            k = k + 1;
        }
        assert(name@.subrange(start as int, name@.len() as int) =~= ext@);
        true
    }

    /// The extension of the kind.
    pub open spec fn spec_extension(&self) -> &'static str {
        match self {
            StoreFSTPathMode::Permanent => ".fst",
            StoreFSTPathMode::Temporary => ".fst.tmp",
            StoreFSTPathMode::Backup => ".fst.bck",
        }
    }
}

/// Lookups a graph allows.
#[derive(Clone, Copy, Debug, PartialEq, Eq)]
pub struct StoreFSTActionConfig {
    pub prefix_matching_enabled: bool,
    pub fuzzy_matching_enabled: bool,
}

impl Default for StoreFSTActionConfig {
    /// Both lookups allowed.
    fn default() -> (r: Self)
        ensures
            r.prefix_matching_enabled && r.fuzzy_matching_enabled,
    {
        StoreFSTActionConfig { prefix_matching_enabled: true, fuzzy_matching_enabled: true }
    }
}

/// Lookups a word repository allows.
#[derive(Clone, Copy, Debug, PartialEq, Eq)]
pub struct FstRepositoryConfig {
    pub prefix_matching_enabled: bool,
    pub fuzzy_matching_enabled: bool,
}

impl Default for FstRepositoryConfig {
    /// Both lookups allowed.
    fn default() -> (r: Self)
        ensures
            r.prefix_matching_enabled && r.fuzzy_matching_enabled,
    {
        FstRepositoryConfig { prefix_matching_enabled: true, fuzzy_matching_enabled: true }
    }
}

/// Builds graph actions from the graph store's configuration.
pub struct StoreFSTActionBuilder<'build> {
    pub fst_store_config: &'build crate::config::ConfigStoreFST,
}

} // verus!
