use sonic::config::{
    kv_background_jobs, kv_compression,
    default_write_buffer_size, parse_rocksdb_compression_type, parse_rocksdb_recovery_mode,
    validate, ConfigError, ConfigLimits, ConfigStoreFSTGraph, DbCompressionType, DbRecoveryMode,
};
use sonic::document::{StoreDuration, StoreFreshBatchTimings, StoreKVHealth};
use sonic::profile::build_upsert_batch_profile;
use sonic::dynamic_config::{DynamicConfig, DynamicConfigStore, RocksDbMemtable};
use sonic::env::{env_var_key, is_env_var};
use sonic::graph::{
    typo_factor, u32_from_base16, word_over_limit, StoreFSTId, StoreFSTKey, StoreFSTMisc,
    StoreFSTPathMode,
};
use sonic::item::bucket;
use sonic::term_dump::{decode_frequency, dump_term_frequencies, TermDumpError};
use sonic::stemming::{snowball_algorithm, StemmingAlgorithm};
use sonic::stopwords::script_langs;
use sonic::text::str_eq;

#[test]
fn it_decodes_little_endian_frequencies() {
    assert_eq!(decode_frequency(&[90, 177, 0, 0]), Some(45_402));
    assert_eq!(decode_frequency(&[1, 2, 3]), None);
}

fn frequency_entry(bucket_id: u32, term: &str, frequency: u32) -> (Vec<u8>, Vec<u8>) {
    let key = sonic::keyer::StoreKeyerBuilder::term_frequency(bucket_id, term);
    (key.as_bytes().to_vec(), frequency.to_le_bytes().to_vec())
}

#[test]
fn it_dumps_term_frequency_rows() {
    let entries = vec![
        frequency_entry(1, "hello", 3),
        (vec![0, 0, 0, 1, 1, 0, 0, 0, 1, b'x', 0, 0], vec![9]),
        frequency_entry(1, "world", 45_402),
    ];
    let mut output = Vec::new();
    assert_eq!(dump_term_frequencies(&entries, &mut output), Ok(2));
    assert_eq!(output, b"hello\t3\nworld\t45402\n".to_vec());
}

#[test]
fn it_stops_dumping_at_invalid_rows() {
    let mut output = Vec::new();
    let entries = vec![
        frequency_entry(1, "a", 1),
        (frequency_entry(1, "b", 2).0, vec![1, 2]),
        frequency_entry(1, "c", 3),
    ];
    assert_eq!(
        dump_term_frequencies(&entries, &mut output),
        Err(TermDumpError::InvalidFrequency("b".to_string()))
    );
    assert_eq!(output, b"a\t1\n".to_vec());
    let mut output = Vec::new();
    let entries = vec![frequency_entry(1, "tab\there", 1)];
    assert_eq!(
        dump_term_frequencies(&entries, &mut output),
        Err(TermDumpError::NotTsv("tab\there".to_string()))
    );
    let mut output = Vec::new();
    let entries = vec![(vec![0, 0, 0, 1, 9, 0, 0, 0, 5, b'a'], vec![1, 0, 0, 0])];
    assert_eq!(
        dump_term_frequencies(&entries, &mut output),
        Err(TermDumpError::InvalidKey)
    );
    assert!(output.is_empty());
}

#[test]
fn it_checks_environment_variable_patterns() {
    assert_eq!(is_env_var("${env.XXX}"), Some(true));
    assert_eq!(is_env_var("${env.XXX"), Some(false));
    assert_eq!(is_env_var("${env.XXX}a"), Some(false));
    assert_eq!(is_env_var("a${env.XXX}"), Some(false));
    assert_eq!(is_env_var("{env.XXX}"), Some(false));
    assert_eq!(is_env_var("$env.XXX}"), Some(false));
    assert_eq!(is_env_var("${envXXX}"), Some(false));
    assert_eq!(is_env_var("${.XXX}"), Some(false));
    assert_eq!(is_env_var("${XXX}"), Some(false));
}

#[test]
fn it_extracts_environment_variable_names() {
    assert_eq!(env_var_key("${env.TEST}"), Some("TEST"));
    assert_eq!(env_var_key("${env}"), None);
}

#[test]
fn it_validates_configuration_limits() {
    let limits = ConfigLimits {
        kv_write_buffer_size: Some(16384),
        kv_flush_after: 900,
        kv_inactive_after: 1800,
        kv_max_flushes_set: false,
        kv_max_background_jobs_set: true,
        fst_consolidate_after: 180,
        fst_inactive_after: 300,
    };
    assert_eq!(validate(&limits), Ok(()));
    assert_eq!(
        validate(&ConfigLimits { kv_write_buffer_size: Some(0), ..limits }),
        Err(ConfigError::ZeroWriteBuffer)
    );
    assert_eq!(
        validate(&ConfigLimits { kv_flush_after: 1800, ..limits }),
        Err(ConfigError::FlushAfterNotBelowInactive)
    );
    assert_eq!(
        validate(&ConfigLimits { kv_max_flushes_set: true, ..limits }),
        Err(ConfigError::FlushesWithBackgroundJobs)
    );
    assert_eq!(
        validate(&ConfigLimits { fst_consolidate_after: 300, ..limits }),
        Err(ConfigError::ConsolidateAfterNotBelowInactive)
    );
    assert_eq!(default_write_buffer_size(), Some(16384));
}

#[test]
fn it_parses_storage_engine_names() {
    assert_eq!(parse_rocksdb_compression_type("ZSTD"), Ok(DbCompressionType::Zstd));
    assert_eq!(parse_rocksdb_compression_type("none"), Ok(DbCompressionType::NoCompression));
    assert!(parse_rocksdb_compression_type("lz4").is_err());
    assert_eq!(
        parse_rocksdb_recovery_mode("Point_In_Time"),
        Ok(DbRecoveryMode::PointInTime)
    );
    assert_eq!(
        parse_rocksdb_recovery_mode("absolute_consistency"),
        Ok(DbRecoveryMode::AbsoluteConsistency)
    );
    assert_eq!(
        parse_rocksdb_recovery_mode("tolerate_corrupted_tail_records"),
        Ok(DbRecoveryMode::TolerateCorruptedTailRecords)
    );
    assert_eq!(
        parse_rocksdb_recovery_mode("SKIP_ANY_CORRUPTED_RECORD"),
        Ok(DbRecoveryMode::SkipAnyCorruptedRecord)
    );
    assert!(parse_rocksdb_recovery_mode("PointInTime").is_err());
}

#[test]
fn it_names_and_limits_graphs() {
    assert_eq!(typo_factor(0), 3);
    assert_eq!(typo_factor(3), 0);
    assert_eq!(typo_factor(4), 1);
    assert_eq!(typo_factor(9), 2);
    assert_eq!(typo_factor(10), 3);
    assert!(word_over_limit(&"x".repeat(41)));
    assert!(!word_over_limit(&"x".repeat(40)));
    let graph = ConfigStoreFSTGraph { consolidate_after: 180, max_size: 2, max_words: 10 };
    assert!(StoreFSTMisc::check_over_limits(2048, 0, &graph));
    assert!(StoreFSTMisc::check_over_limits(0, 10, &graph));
    assert!(!StoreFSTMisc::check_over_limits(2047, 9, &graph));
    assert_eq!(StoreFSTPathMode::Permanent.extension(), ".fst");
    assert_eq!(StoreFSTPathMode::Temporary.extension(), ".fst.tmp");
    assert_eq!(StoreFSTPathMode::Backup.extension(), ".fst.bck");
}

#[test]
fn it_reads_graph_file_names() {
    assert_eq!(u32_from_base16("c8e3a1c0"), Ok(0xc8e3a1c0));
    assert_eq!(u32_from_base16("FF"), Ok(255));
    assert!(u32_from_base16("1ffffffff").is_err());
    assert!(u32_from_base16("xyz").is_err());
    // Trimmed and put in upper case before the digits are read.
    assert_eq!(u32_from_base16(" ff "), Ok(255));
    assert_eq!(u32_from_base16("\u{fb00}"), Ok(255));
    // More digits, once in upper case, than the reading takes: refused.
    assert!(u32_from_base16(&"\u{fb00}".repeat(9)).is_err());
    assert!(u32_from_base16("G000000000000000").is_err());
    assert_eq!(u32_from_base16("000000000000001"), Ok(1));
    let id = StoreFSTId::try_from_hex("a", "1b").unwrap();
    assert_eq!(id, StoreFSTId::from_atoms(10, 27));
    assert_eq!(*id.as_collection_hash(), 10);
    assert_eq!(id.to_string(), "<a>/<1b>");
    assert!(StoreFSTId::try_from_hex("a", "z").is_err());
    let parts = StoreFSTId::from_parts(bucket("key:1"), bucket("key:2"));
    assert_eq!(parts, StoreFSTId::from_atoms(3370353088, 1042559698));
    assert_eq!(StoreFSTKey::from_str("key:1", "key:2"), StoreFSTKey::from_atom(3370353088, 1042559698));
    assert_eq!(*StoreFSTKey::from_atom(1, 2).as_collection_hash(), 1);
}

#[test]
fn it_stores_dynamic_configuration() {
    let mut store = DynamicConfigStore::new();
    assert_eq!(store.get(bucket("c:1")), None);
    let mut config = DynamicConfig::default();
    config.rocksdb.memtable = Some(RocksDbMemtable::Vector);
    store.insert(bucket("c:1"), config);
    assert_eq!(store.get(bucket("c:1")), Some(config));
    assert_eq!(store.get(bucket("c:2")), None);
    let guard = store.read();
    assert_eq!(guard.get(&3370353088), None);
    let all = guard.iter();
    assert_eq!(all.len(), 1);
    assert_eq!(all[0].1, config);
}

#[test]
fn it_compares_texts() {
    assert!(str_eq("none", "none"));
    assert!(!str_eq("none", "nonE"));
    assert!(!str_eq("non", "none"));
}

#[test]
fn it_profiles_bulk_writes() {
    let ms = |m: u64| StoreDuration { secs: m / 1000, nanos: ((m % 1000) * 1_000_000) as u32 };
    let mut kv = StoreFreshBatchTimings::zero();
    kv.metadata_reads = ms(2);
    kv.database_write = ms(3);
    kv.write_wal = ms(1);
    kv.oid_read_count = 4;
    let health = StoreKVHealth { write_stopped: Some(1), ..Default::default() };
    let profile = build_upsert_batch_profile(
        5, true, ms(20), ms(1), ms(0), ms(0), ms(0), ms(0), ms(10), ms(4), &kv, &health,
    );
    assert_eq!(profile.documents, 5);
    assert!(profile.fresh);
    assert_eq!(profile.executor_total_us, 20_000);
    assert_eq!(profile.kv_total_us, 10_000);
    assert_eq!(profile.kv_cpu_other_us, 5_000);
    assert_eq!(profile.rocksdb_write_us, 3_000);
    assert_eq!(profile.write_wal_us, 1_000);
    assert_eq!(profile.oid_read_count, 4);
    assert_eq!(profile.fst_us, 4_000);
    assert_eq!(profile.write_stopped, Some(1));
    assert_eq!(profile.fst_pending_consolidations, 0);
    let short = build_upsert_batch_profile(
        0, false, ms(0), ms(0), ms(0), ms(0), ms(0), ms(0), ms(1), ms(0), &kv, &health,
    );
    assert_eq!(short.kv_cpu_other_us, 0);
}

#[test]
fn it_selects_stemming_algorithms() {
    assert_eq!(snowball_algorithm("eng"), Some(StemmingAlgorithm::English));
    assert_eq!(snowball_algorithm("fra"), Some(StemmingAlgorithm::French));
    assert_eq!(snowball_algorithm("hye"), Some(StemmingAlgorithm::Armenian));
    assert_eq!(snowball_algorithm("nld"), Some(StemmingAlgorithm::Dutch));
    assert_eq!(snowball_algorithm("yid"), Some(StemmingAlgorithm::Yiddish));
    assert_eq!(snowball_algorithm(whatlang::Lang::Deu.code()), Some(StemmingAlgorithm::German));
    assert_eq!(snowball_algorithm("jpn"), None);
    assert_eq!(snowball_algorithm("cmn"), None);
    assert_eq!(snowball_algorithm(""), None);
}

#[test]
fn it_lists_languages_of_scripts() {
    assert_eq!(script_langs("Hebrew"), vec!["heb", "yid"]);
    assert_eq!(script_langs("Arabic"), vec!["ara", "urd", "pes"]);
    assert_eq!(script_langs(whatlang::Script::Katakana.name()), vec!["jpn"]);
    assert_eq!(script_langs(whatlang::Script::Hiragana.name()), vec!["jpn"]);
    let latin = script_langs(whatlang::Script::Latin.name());
    assert_eq!(latin.len(), 37);
    assert!(latin.contains(&"eng") && latin.contains(&"fra"));
    assert!(script_langs("Klingon").is_empty());
}

#[test]
fn it_recognizes_graph_file_names() {
    assert!(StoreFSTPathMode::Permanent.names_file("1a2b.fst"));
    assert!(!StoreFSTPathMode::Permanent.names_file(".fst"));
    assert!(!StoreFSTPathMode::Permanent.names_file("1a2b.fst.tmp"));
    assert!(StoreFSTPathMode::Temporary.names_file("1a2b.fst.tmp"));
    assert!(!StoreFSTPathMode::Backup.names_file("fst.bck"));
    assert!(StoreFSTPathMode::Backup.names_file("f.fst.bck"));
}

#[test]
fn it_derives_storage_engine_settings() {
    assert_eq!(kv_compression(Some(true), None), Some(DbCompressionType::Zstd));
    assert_eq!(kv_compression(Some(false), None), Some(DbCompressionType::NoCompression));
    // The compression type overrides the older switch.
    assert_eq!(kv_compression(Some(true), Some(DbCompressionType::NoCompression)), Some(DbCompressionType::NoCompression));
    assert_eq!(kv_compression(None, None), None);
    assert_eq!(kv_background_jobs(Some(6), Some(2), None), Some(6));
    assert_eq!(kv_background_jobs(None, Some(2), None), Some(3));
    assert_eq!(kv_background_jobs(None, Some(2), Some(4)), Some(6));
    assert_eq!(kv_background_jobs(None, None, Some(4)), None);
}
