//! The profile of one bulk write: where its time went, and what it did.
use vstd::prelude::*;

use crate::document::{
    duration_nanos, duration_wf, lemma_duration_addable, timings_wf, StoreDuration,
    StoreFreshBatchTimings, StoreKVHealth,
};

verus! {

/// Time and work of one bulk write, in microseconds and counts.
#[derive(Clone, Copy, Debug, PartialEq, Eq)]
pub struct IngestProfile {
    pub documents: usize,
    pub fresh: bool,
    pub executor_total_us: u128,
    pub tokenize_us: u128,
    pub kv_access_wait_us: u128,
    pub fst_access_wait_us: u128,
    pub kv_acquire_us: u128,
    pub kv_lock_wait_us: u128,
    pub kv_total_us: u128,
    pub kv_metadata_us: u128,
    pub document_encode_us: u128,
    pub oid_reads_us: u128,
    pub oid_read_count: usize,
    pub term_reads_us: u128,
    pub term_read_count: usize,
    pub posting_reads_us: u128,
    pub posting_read_count: usize,
    pub frequency_reads_us: u128,
    pub frequency_read_count: usize,
    pub time_posting_reads_us: u128,
    pub time_posting_read_count: usize,
    pub batch_finalize_us: u128,
    pub rocksdb_write_us: u128,
    pub write_wal_us: u128,
    pub write_memtable_us: u128,
    pub write_delay_us: u128,
    pub write_pre_and_post_us: u128,
    pub write_db_mutex_us: u128,
    pub write_db_condition_wait_us: u128,
    pub write_merge_operator_us: u128,
    pub batch_index_bytes: u64,
    pub batch_postings_bytes: u64,
    pub batch_documents_bytes: u64,
    pub batch_put_count: u64,
    pub batch_delete_count: u64,
    pub batch_merge_count: u64,
    pub kv_cpu_other_us: u128,
    pub fst_us: u128,
    pub l0_index: Option<u64>,
    pub l0_postings: Option<u64>,
    pub l0_documents: Option<u64>,
    pub pending_compaction_index_bytes: Option<u64>,
    pub pending_compaction_postings_bytes: Option<u64>,
    pub pending_compaction_documents_bytes: Option<u64>,
    pub delayed_write_rate: Option<u64>,
    pub write_stopped: Option<u64>,
    pub fst_pending_consolidations: usize,
}

/// The nanoseconds spent in the measured steps of the key-value work.
pub open spec fn measured_kv_nanos(kv: StoreFreshBatchTimings) -> int {
    duration_nanos(kv.metadata_reads) + duration_nanos(kv.document_encode) + duration_nanos(kv.oid_reads) + duration_nanos(kv.term_reads) + duration_nanos(kv.posting_reads) + duration_nanos(kv.frequency_reads) + duration_nanos(kv.time_posting_reads) + duration_nanos(kv.batch_finalize) + duration_nanos(kv.database_write)
}

/// The measured steps add up without overflowing a duration.
pub open spec fn measured_kv_addable(kv: StoreFreshBatchTimings) -> bool {
    measured_kv_nanos(kv) < (u64::MAX as int + 1) * 1000000000
}

/// The profile of a bulk write of `documents` documents from its timings:
/// durations in whole microseconds, and the key-value time not covered by
/// its measured steps (zero if they cover more).
pub fn build_upsert_batch_profile(
    documents: usize,
    fresh: bool,
    total: StoreDuration,
    tokenization: StoreDuration,
    kv_access_wait: StoreDuration,
    fst_access_wait: StoreDuration,
    kv_acquire: StoreDuration,
    kv_store_lock_wait: StoreDuration,
    kv_total: StoreDuration,
    fst_total: StoreDuration,
    kv: &StoreFreshBatchTimings,
    health: &StoreKVHealth,
) -> (r: IngestProfile)
    requires
        duration_wf(total),
        duration_wf(tokenization),
        duration_wf(kv_access_wait),
        duration_wf(fst_access_wait),
        duration_wf(kv_acquire),
        duration_wf(kv_store_lock_wait),
        duration_wf(kv_total),
        duration_wf(fst_total),
        timings_wf(*kv),
        measured_kv_addable(*kv),
    ensures
        r.documents == documents,
        r.fresh == fresh,
        r.executor_total_us == duration_nanos(total) / 1000,
        r.tokenize_us == duration_nanos(tokenization) / 1000,
        r.kv_access_wait_us == duration_nanos(kv_access_wait) / 1000,
        r.fst_access_wait_us == duration_nanos(fst_access_wait) / 1000,
        r.kv_acquire_us == duration_nanos(kv_acquire) / 1000,
        r.kv_lock_wait_us == duration_nanos(kv_store_lock_wait) / 1000,
        r.kv_total_us == duration_nanos(kv_total) / 1000,
        r.kv_metadata_us == duration_nanos(kv.metadata_reads) / 1000,
        r.document_encode_us == duration_nanos(kv.document_encode) / 1000,
        r.oid_reads_us == duration_nanos(kv.oid_reads) / 1000,
        r.oid_read_count == kv.oid_read_count,
        r.term_reads_us == duration_nanos(kv.term_reads) / 1000,
        r.term_read_count == kv.term_read_count,
        r.posting_reads_us == duration_nanos(kv.posting_reads) / 1000,
        r.posting_read_count == kv.posting_read_count,
        r.frequency_reads_us == duration_nanos(kv.frequency_reads) / 1000,
        r.frequency_read_count == kv.frequency_read_count,
        r.time_posting_reads_us == duration_nanos(kv.time_posting_reads) / 1000,
        r.time_posting_read_count == kv.time_posting_read_count,
        r.batch_finalize_us == duration_nanos(kv.batch_finalize) / 1000,
        r.rocksdb_write_us == duration_nanos(kv.database_write) / 1000,
        r.write_wal_us == duration_nanos(kv.write_wal) / 1000,
        r.write_memtable_us == duration_nanos(kv.write_memtable) / 1000,
        r.write_delay_us == duration_nanos(kv.write_delay) / 1000,
        r.write_pre_and_post_us == duration_nanos(kv.write_pre_and_post) / 1000,
        r.write_db_mutex_us == duration_nanos(kv.write_db_mutex) / 1000,
        r.write_db_condition_wait_us == duration_nanos(kv.write_db_condition_wait) / 1000,
        r.write_merge_operator_us == duration_nanos(kv.write_merge_operator) / 1000,
        r.batch_index_bytes == kv.batch_index_bytes,
        r.batch_postings_bytes == kv.batch_postings_bytes,
        r.batch_documents_bytes == kv.batch_documents_bytes,
        r.batch_put_count == kv.batch_put_count,
        r.batch_delete_count == kv.batch_delete_count,
        r.batch_merge_count == kv.batch_merge_count,
        r.kv_cpu_other_us == (if duration_nanos(kv_total) >= measured_kv_nanos(*kv) { duration_nanos(kv_total) - measured_kv_nanos(*kv) } else { 0 }) / 1000,
        r.fst_us == duration_nanos(fst_total) / 1000,
        r.l0_index == health.index_l0_files,
        r.l0_postings == health.postings_l0_files,
        r.l0_documents == health.documents_l0_files,
        r.pending_compaction_index_bytes == health.index_pending_compaction_bytes,
        r.pending_compaction_postings_bytes == health.postings_pending_compaction_bytes,
        r.pending_compaction_documents_bytes == health.documents_pending_compaction_bytes,
        r.delayed_write_rate == health.delayed_write_rate,
        r.write_stopped == health.write_stopped,
        r.fst_pending_consolidations == 0,
{
    let mut measured = kv.metadata_reads;
    proof {
        lemma_duration_addable(measured, kv.document_encode);
    }
    measured = measured.add(kv.document_encode);
    proof {
        lemma_duration_addable(measured, kv.oid_reads);
    }
    measured = measured.add(kv.oid_reads);
    proof {
        lemma_duration_addable(measured, kv.term_reads);
    }
    measured = measured.add(kv.term_reads);
    proof {
        lemma_duration_addable(measured, kv.posting_reads);
    }
    measured = measured.add(kv.posting_reads);
    proof {
        lemma_duration_addable(measured, kv.frequency_reads);
    }
    measured = measured.add(kv.frequency_reads);
    proof {
        lemma_duration_addable(measured, kv.time_posting_reads);
    }
    measured = measured.add(kv.time_posting_reads);
    proof {
        lemma_duration_addable(measured, kv.batch_finalize);
    }
    measured = measured.add(kv.batch_finalize);
    proof {
        lemma_duration_addable(measured, kv.database_write);
    }
    measured = measured.add(kv.database_write);
    let kv_cpu_other = kv_total.saturating_sub(measured);
    IngestProfile {
        documents: documents,
        fresh: fresh,
        executor_total_us: total.as_micros(),
        tokenize_us: tokenization.as_micros(),
        kv_access_wait_us: kv_access_wait.as_micros(),
        fst_access_wait_us: fst_access_wait.as_micros(),
        kv_acquire_us: kv_acquire.as_micros(),
        kv_lock_wait_us: kv_store_lock_wait.as_micros(),
        kv_total_us: kv_total.as_micros(),
        kv_metadata_us: kv.metadata_reads.as_micros(),
        document_encode_us: kv.document_encode.as_micros(),
        oid_reads_us: kv.oid_reads.as_micros(),
        oid_read_count: kv.oid_read_count,
        term_reads_us: kv.term_reads.as_micros(),
        term_read_count: kv.term_read_count,
        posting_reads_us: kv.posting_reads.as_micros(),
        posting_read_count: kv.posting_read_count,
        frequency_reads_us: kv.frequency_reads.as_micros(),
        frequency_read_count: kv.frequency_read_count,
        time_posting_reads_us: kv.time_posting_reads.as_micros(),
        time_posting_read_count: kv.time_posting_read_count,
        batch_finalize_us: kv.batch_finalize.as_micros(),
        rocksdb_write_us: kv.database_write.as_micros(),
        write_wal_us: kv.write_wal.as_micros(),
        write_memtable_us: kv.write_memtable.as_micros(),
        write_delay_us: kv.write_delay.as_micros(),
        write_pre_and_post_us: kv.write_pre_and_post.as_micros(),
        write_db_mutex_us: kv.write_db_mutex.as_micros(),
        write_db_condition_wait_us: kv.write_db_condition_wait.as_micros(),
        write_merge_operator_us: kv.write_merge_operator.as_micros(),
        batch_index_bytes: kv.batch_index_bytes,
        batch_postings_bytes: kv.batch_postings_bytes,
        batch_documents_bytes: kv.batch_documents_bytes,
        batch_put_count: kv.batch_put_count,
        batch_delete_count: kv.batch_delete_count,
        batch_merge_count: kv.batch_merge_count,
        kv_cpu_other_us: kv_cpu_other.as_micros(),
        fst_us: fst_total.as_micros(),
        l0_index: health.index_l0_files,
        l0_postings: health.postings_l0_files,
        l0_documents: health.documents_l0_files,
        pending_compaction_index_bytes: health.index_pending_compaction_bytes,
        pending_compaction_postings_bytes: health.postings_pending_compaction_bytes,
        pending_compaction_documents_bytes: health.documents_pending_compaction_bytes,
        delayed_write_rate: health.delayed_write_rate,
        write_stopped: health.write_stopped,
        fst_pending_consolidations: 0,
    }
}

} // verus!
