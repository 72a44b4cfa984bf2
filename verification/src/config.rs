//! Library configuration: the groups the store and the lexer read, the
//! checks a configuration must pass, and the names of the storage engine's
//! compression types and recovery modes.
use vstd::prelude::*;

use vstd::string::StringSliceAdditionalSpecFns;

verus! {

/// Unicode normalization forms.
#[derive(Clone, Copy, Debug, PartialEq, Eq)]
pub enum UnicodeNormalization {
    /// Unicode Normalization Form C.
    Nfc,
    /// Unicode Normalization Form KC.
    Nfkc,
}

/// Normalization options: Unicode normalization, diacritic folding,
/// stemming.
#[derive(Clone, Copy, Debug, PartialEq, Eq)]
pub struct ConfigNormalization {
    pub unicode_normalization: Option<UnicodeNormalization>,
    pub diacritic_folding_enabled: bool,
    pub stemming_enabled: bool,
}

/// Tokenization options.
#[derive(Clone, Copy, Debug, PartialEq, Eq)]
pub struct ConfigTokenization {
    pub detect_special_patterns: bool,
    pub compat_split_special_patterns: bool,
}

/// Words always kept, and words always dropped, as stopwords.
#[derive(Debug)]
pub struct ConfigStopwords {
    pub allow: std::collections::HashSet<String>,
    pub deny: std::collections::HashSet<String>,
}

impl Default for ConfigStopwords {
    /// No word allowed or denied.
    fn default() -> (r: Self)
        ensures
            r.allow@ == Set::<String>::empty(),
            r.deny@ == Set::<String>::empty(),
    {
        ConfigStopwords {
            allow: std::collections::HashSet::new(),
            deny: std::collections::HashSet::new(),
        }
    }
}

/// Key-value store pool options.
#[derive(Clone, Copy, Debug, PartialEq, Eq)]
pub struct ConfigStoreKVPool {
    /// Seconds after which an unused store is closed.
    pub inactive_after: u64,
}

/// Word graph store options.
#[derive(Clone, Debug, PartialEq, Eq)]
pub struct ConfigStoreFST {
    pub path: String,
    pub pool: ConfigStoreFSTPool,
    pub graph: ConfigStoreFSTGraph,
}

/// Word graph store pool options.
#[derive(Clone, Copy, Debug, PartialEq, Eq)]
pub struct ConfigStoreFSTPool {
    /// Seconds after which an unused graph is closed.
    pub inactive_after: u64,
}

/// Word graph options.
#[derive(Clone, Copy, Debug, PartialEq, Eq)]
pub struct ConfigStoreFSTGraph {
    /// Seconds after which pending words are consolidated.
    pub consolidate_after: u64,
    /// Largest graph, in kilobytes.
    pub max_size: usize,
    /// Most words in a graph.
    pub max_words: usize,
}

/// The settings a configuration is checked on.
#[derive(Clone, Copy, Debug, PartialEq, Eq)]
pub struct ConfigLimits {
    pub kv_write_buffer_size: Option<usize>,
    pub kv_flush_after: u64,
    pub kv_inactive_after: u64,
    pub kv_max_flushes_set: bool,
    pub kv_max_background_jobs_set: bool,
    pub fst_consolidate_after: u64,
    pub fst_inactive_after: u64,
}

/// The first check a configuration fails.
#[derive(Clone, Copy, Debug, PartialEq, Eq)]
pub enum ConfigError {
    /// The key-value write buffer is zero.
    ZeroWriteBuffer,
    /// The key-value store flushes no sooner than it closes.
    FlushAfterNotBelowInactive,
    /// Both the flush count and the background job count are set.
    FlushesWithBackgroundJobs,
    /// The word graph consolidates no sooner than it closes.
    ConsolidateAfterNotBelowInactive,
}

/// The first check that `l` fails, in the order they are made.
pub open spec fn config_check(l: ConfigLimits) -> Option<ConfigError> {
    if l.kv_write_buffer_size == Some(0usize) {
        Some(ConfigError::ZeroWriteBuffer)
    } else if l.kv_flush_after >= l.kv_inactive_after {
        Some(ConfigError::FlushAfterNotBelowInactive)
    } else if l.kv_max_flushes_set && l.kv_max_background_jobs_set {
        Some(ConfigError::FlushesWithBackgroundJobs)
    } else if l.fst_consolidate_after >= l.fst_inactive_after {
        Some(ConfigError::ConsolidateAfterNotBelowInactive)
    } else {
        None
    }
}

/// Checks a configuration: a write buffer that is not zero, a flush delay
/// below the store's inactivity delay, not both a flush count and a
/// background job count, and a consolidation delay below the graph's
/// inactivity delay.
pub fn validate(limits: &ConfigLimits) -> (r: Result<(), ConfigError>)
    ensures
        match config_check(*limits) {
            None => r is Ok,
            Some(e) => r == Err::<(), ConfigError>(e),
        },
{
    match limits.kv_write_buffer_size {
        Some(size) => {
            if size == 0 {
                return Err(ConfigError::ZeroWriteBuffer);
            }
        },
        None => {},
    }
    if limits.kv_flush_after >= limits.kv_inactive_after {
        return Err(ConfigError::FlushAfterNotBelowInactive);
    }
    if limits.kv_max_flushes_set && limits.kv_max_background_jobs_set {
        return Err(ConfigError::FlushesWithBackgroundJobs);
    }
    if limits.fst_consolidate_after >= limits.fst_inactive_after {
        return Err(ConfigError::ConsolidateAfterNotBelowInactive);
    }
    Ok(())
}

/// The write buffer size when none is configured, in kilobytes.
pub fn default_write_buffer_size() -> (r: Option<usize>)
    ensures
        r == Some(16384usize),
{
    Some(16384)
}

/// Compression types the storage engine is built with.
#[derive(Clone, Copy, Debug, PartialEq, Eq)]
pub enum DbCompressionType {
    NoCompression,
    Zstd,
}

/// The compression the storage engine is set to: `compression_type` when
/// given; else, from the older `compress` switch, Zstd when on and none when
/// off; else the engine's own default (`None`).
pub fn kv_compression(compress: Option<bool>, compression_type: Option<DbCompressionType>) -> (r:
    Option<DbCompressionType>)
    ensures
        r == match compression_type {
            Some(t) => Some(t),
            None => match compress {
                Some(true) => Some(DbCompressionType::Zstd),
                Some(false) => Some(DbCompressionType::NoCompression),
                None => None,
            },
        },
{
    match compression_type {
        Some(t) => Some(t),
        None => match compress {
            Some(true) => Some(DbCompressionType::Zstd),
            Some(false) => Some(DbCompressionType::NoCompression),
            None => None,
        },
    }
}

/// The number of background jobs the storage engine is set to:
/// `max_background_jobs` when given; else, when `max_flushes` is given, the
/// flushes plus the subcompactions (one when not given), as an `i32`; else
/// the engine's own default (`None`).
pub fn kv_background_jobs(
    max_background_jobs: Option<i32>,
    max_flushes: Option<u32>,
    max_subcompactions: Option<u32>,
) -> (r: Option<i32>)
    requires
        max_background_jobs is None && max_flushes is Some ==> (match max_subcompactions {
            Some(n) => n,
            None => 1u32,
        }) + max_flushes->0 <= u32::MAX,
    ensures
        r == match max_background_jobs {
            Some(j) => Some(j),
            None => match max_flushes {
                Some(f) => Some(
                    ((match max_subcompactions {
                        Some(n) => n,
                        None => 1u32,
                    }) + f) as u32 as i32,
                ),
                None => None,
            },
        },
{
    match max_background_jobs {
        Some(j) => Some(j),
        None => match max_flushes {
            Some(f) => {
                let sub: u32 = match max_subcompactions {
                    Some(n) => n,
                    None => 1,
                };
                let jobs: u32 = sub + f;
                Some(
                    #[verifier::truncate]
                    (jobs as i32),
                )
            },
            None => None,
        },
    }
}

/// Write-ahead log recovery modes of the storage engine.
#[derive(Clone, Copy, Debug, PartialEq, Eq)]
pub enum DbRecoveryMode {
    TolerateCorruptedTailRecords,
    AbsoluteConsistency,
    PointInTime,
    SkipAnyCorruptedRecord,
}

/// ASCII letters made lowercase, other bytes kept.
pub open spec fn ascii_lowercase(s: Seq<u8>) -> Seq<u8> {
    s.map_values(|c: u8| if 65 <= c <= 90 { (c + 32) as u8 } else { c })
}

/// The bytes of `none`.
pub open spec fn name_none() -> Seq<u8> {
    seq![110u8, 111, 110, 101]
}

/// The bytes of `zstd`.
pub open spec fn name_zstd() -> Seq<u8> {
    seq![122u8, 115, 116, 100]
}

/// The bytes of `tolerate_corrupted_tail_records`.
pub open spec fn name_tolerate_corrupted_tail_records() -> Seq<u8> {
    seq![
        116u8, 111, 108, 101, 114, 97, 116, 101, 95, 99, 111, 114, 114, 117, 112, 116, 101, 100,
        95, 116, 97, 105, 108, 95, 114, 101, 99, 111, 114, 100, 115,
    ]
}

/// The bytes of `absolute_consistency`.
pub open spec fn name_absolute_consistency() -> Seq<u8> {
    seq![
        97u8, 98, 115, 111, 108, 117, 116, 101, 95, 99, 111, 110, 115, 105, 115, 116, 101, 110,
        99, 121,
    ]
}

/// The bytes of `point_in_time`.
pub open spec fn name_point_in_time() -> Seq<u8> {
    seq![112u8, 111, 105, 110, 116, 95, 105, 110, 95, 116, 105, 109, 101]
}

/// The bytes of `skip_any_corrupted_record`.
pub open spec fn name_skip_any_corrupted_record() -> Seq<u8> {
    seq![
        115u8, 107, 105, 112, 95, 97, 110, 121, 95, 99, 111, 114, 114, 117, 112, 116, 101, 100, 95,
        114, 101, 99, 111, 114, 100,
    ]
}

/// Whether `name`, with its ASCII letters made lowercase, is `expected`.
fn lowercase_is(name: &[u8], expected: &[u8]) -> (r: bool)
    ensures
        r == (ascii_lowercase(name@) == expected@),
{
    if name.len() != expected.len() {
        assert(ascii_lowercase(name@).len() != expected@.len());
        return false;
    }
    let mut i: usize = 0;
    while i < name.len()
        invariant
            i <= name@.len(),
            name@.len() == expected@.len(),
            forall|j: int| 0 <= j < i ==> #[trigger] ascii_lowercase(name@)[j] == expected@[j],
        decreases name@.len() - i,
    {
        let c = name[i];
        let lower: u8 = if 65 <= c && c <= 90 {
            c + 32
        } else {
            c
        };
        assert(ascii_lowercase(name@)[i as int] == lower);
        if lower != expected[i] {
            return false;
        }
        i = i + 1;
    }
    assert(ascii_lowercase(name@) =~= expected@);
    true
}

/// The compression type named `name`, in any case of its ASCII letters:
/// `none` or `zstd`.
pub fn parse_rocksdb_compression_type(name: &str) -> (r: Result<DbCompressionType, ()>)
    ensures
        ascii_lowercase(name.spec_bytes()) == name_none() ==> r == Ok::<DbCompressionType, ()>(
            DbCompressionType::NoCompression,
        ),
        ascii_lowercase(name.spec_bytes()) == name_zstd() ==> r == Ok::<DbCompressionType, ()>(
            DbCompressionType::Zstd,
        ),
        ascii_lowercase(name.spec_bytes()) != name_none() && ascii_lowercase(name.spec_bytes())
            != name_zstd() ==> r is Err,
{
    let bytes = name.as_bytes();
    let none: [u8; 4] = [110, 111, 110, 101];
    let zstd: [u8; 4] = [122, 115, 116, 100];
    assert(none@ =~= name_none());
    assert(zstd@ =~= name_zstd());
    if lowercase_is(bytes, &none) {
        Ok(DbCompressionType::NoCompression)
    } else if lowercase_is(bytes, &zstd) {
        Ok(DbCompressionType::Zstd)
    } else {
        Err(())
    }
}

/// The recovery mode named `name`, in any case of its ASCII letters.
pub fn parse_rocksdb_recovery_mode(name: &str) -> (r: Result<DbRecoveryMode, ()>)
    ensures
        ({
            let l = ascii_lowercase(name.spec_bytes());
            &&& l == name_tolerate_corrupted_tail_records() ==> r == Ok::<DbRecoveryMode, ()>(
                DbRecoveryMode::TolerateCorruptedTailRecords,
            )
            &&& l == name_absolute_consistency() ==> r == Ok::<DbRecoveryMode, ()>(
                DbRecoveryMode::AbsoluteConsistency,
            )
            &&& l == name_point_in_time() ==> r == Ok::<DbRecoveryMode, ()>(
                DbRecoveryMode::PointInTime,
            )
            &&& l == name_skip_any_corrupted_record() ==> r == Ok::<DbRecoveryMode, ()>(
                DbRecoveryMode::SkipAnyCorruptedRecord,
            )
            &&& l != name_tolerate_corrupted_tail_records() && l != name_absolute_consistency()
                && l != name_point_in_time() && l != name_skip_any_corrupted_record() ==> r is Err
        }),
{
    let bytes = name.as_bytes();
    let tolerate: [u8; 31] = [
        116, 111, 108, 101, 114, 97, 116, 101, 95, 99, 111, 114, 114, 117, 112, 116, 101, 100, 95,
        116, 97, 105, 108, 95, 114, 101, 99, 111, 114, 100, 115,
    ];
    let absolute: [u8; 20] = [
        97, 98, 115, 111, 108, 117, 116, 101, 95, 99, 111, 110, 115, 105, 115, 116, 101, 110, 99,
        121,
    ];
    let point: [u8; 13] = [112, 111, 105, 110, 116, 95, 105, 110, 95, 116, 105, 109, 101];
    let skip: [u8; 25] = [
        115, 107, 105, 112, 95, 97, 110, 121, 95, 99, 111, 114, 114, 117, 112, 116, 101, 100, 95,
        114, 101, 99, 111, 114, 100,
    ];
    assert(tolerate@ =~= name_tolerate_corrupted_tail_records());
    assert(absolute@ =~= name_absolute_consistency());
    assert(point@ =~= name_point_in_time());
    assert(skip@ =~= name_skip_any_corrupted_record());
    if lowercase_is(bytes, &tolerate) {
        Ok(DbRecoveryMode::TolerateCorruptedTailRecords)
    } else if lowercase_is(bytes, &absolute) {
        Ok(DbRecoveryMode::AbsoluteConsistency)
    } else if lowercase_is(bytes, &point) {
        Ok(DbRecoveryMode::PointInTime)
    } else if lowercase_is(bytes, &skip) {
        Ok(DbRecoveryMode::SkipAnyCorruptedRecord)
    } else {
        Err(())
    }
}

} // verus!
