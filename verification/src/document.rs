//! Stored documents and their framing, and the counters a bulk write
//! reports.
//!
//! A document is framed as: a format byte, the timestamp (eight bytes,
//! little-endian), the text length and the metadata length (four bytes
//! each, little-endian), the UTF-8 text, then the metadata as JSON text.
use vstd::prelude::*;

use crate::encoding::{le32, le32_value};
use crate::text::{append_bytes, str_from_utf8};
use vstd::utf8::{decode_utf8, encode_utf8, encode_utf8_decode_utf8, valid_utf8};

verus! {

/// Version byte of the document framing.
pub const DOCUMENT_FORMAT_VERSION: u8 = 1;

/// Bytes before the text: version, timestamp, two lengths.
pub const HEADER_SIZE: usize = 17;

/// Width of the time slices that time postings group documents by.
pub const TIME_SLICE_MS: u64 = 3600000;

/// Largest framed document.
pub const MAX_DOCUMENT_BYTES: usize = 14000;

/// Whether bytes are JSON text whose value is an object, as
/// `serde_json::from_slice` reads them.
pub uninterp spec fn json_object_text(bytes: Seq<u8>) -> bool;

/// `serde_json::from_slice` into a `serde_json::Value`, then `is_object`.
/// Trusted: the result depends on the bytes alone, and is named
/// `json_object_text`; nothing else is claimed of which bytes pass.
#[verifier::external_body]
fn is_json_object(bytes: &[u8]) -> (r: bool)
    ensures
        r == json_object_text(bytes@),
{
    match serde_json::from_slice::<serde_json::Value>(bytes) {
        Ok(value) => value.is_object(),
        Err(_) => false,
    }
}

/// Little-endian bytes of a `u64`.
pub open spec fn le64(v: u64) -> Seq<u8> {
    le32((v % 4294967296) as u32) + le32((v / 4294967296) as u32)
}

/// The `u64` of eight little-endian bytes.
pub open spec fn le64_value(b: Seq<u8>) -> u64 {
    (le32_value(b.take(4)) + 4294967296 * le32_value(b.subrange(4, 8))) as u64
}

/// The framing of a document.
pub open spec fn document_bytes(timestamp_ms: u64, text: Seq<u8>, metadata: Seq<u8>) -> Seq<u8> {
    seq![DOCUMENT_FORMAT_VERSION] + le64(timestamp_ms) + le32(text.len() as u32) + le32(
        metadata.len() as u32,
    ) + text + metadata
}

/// The text length a framing announces.
pub open spec fn framed_text_len(encoded: Seq<u8>) -> nat {
    le32_value(encoded.subrange(9, 13)) as nat
}

/// The metadata length a framing announces.
pub open spec fn framed_metadata_len(encoded: Seq<u8>) -> nat {
    le32_value(encoded.subrange(13, 17)) as nat
}

/// A framing is well formed: the version byte, and lengths that add up to
/// the whole.
pub open spec fn framing_ok(encoded: Seq<u8>) -> bool {
    &&& encoded.len() >= HEADER_SIZE
    &&& encoded[0] == DOCUMENT_FORMAT_VERSION
    &&& HEADER_SIZE + framed_text_len(encoded) + framed_metadata_len(encoded) == encoded.len()
}

/// The text bytes of a well-formed framing.
pub open spec fn framed_text(encoded: Seq<u8>) -> Seq<u8> {
    encoded.subrange(HEADER_SIZE as int, HEADER_SIZE + framed_text_len(encoded))
}

/// The metadata bytes of a well-formed framing.
pub open spec fn framed_metadata(encoded: Seq<u8>) -> Seq<u8> {
    encoded.subrange(HEADER_SIZE + framed_text_len(encoded), encoded.len() as int)
}

/// A framing decodes: well formed, UTF-8 text, metadata a JSON object.
pub open spec fn decodes(encoded: Seq<u8>) -> bool {
    &&& framing_ok(encoded)
    &&& valid_utf8(framed_text(encoded))
    &&& json_object_text(framed_metadata(encoded))
}

/// A stored document: its object name, timestamp, text, and metadata as
/// the JSON text of an object.
#[derive(Clone, Debug, PartialEq, Eq)]
pub struct StoreDocument {
    pub oid: String,
    pub timestamp_ms: u64,
    pub text: String,
    pub metadata: Vec<u8>,
}

impl StoreDocument {
    /// The lengths of the text and of the metadata announced by a framing,
    /// when they add up to its length and its version is known.
    pub fn encoded_lengths(encoded: &[u8]) -> (r: Result<(usize, usize), ()>)
        ensures
            r is Ok <==> framing_ok(encoded@),
            r matches Ok((t, m)) ==> t == framed_text_len(encoded@) && m == framed_metadata_len(
                encoded@,
            ),
    {
        if encoded.len() < HEADER_SIZE || encoded[0] != DOCUMENT_FORMAT_VERSION {
            return Err(());
        }
        let text_len = (encoded[9] as u32) + 256 * (encoded[10] as u32) + 65536 * (
        encoded[11] as u32) + 16777216 * (encoded[12] as u32);
        let metadata_len = (encoded[13] as u32) + 256 * (encoded[14] as u32) + 65536 * (
        encoded[15] as u32) + 16777216 * (encoded[16] as u32);
        proof {
            let a = encoded@.subrange(9, 13);
            let b = encoded@.subrange(13, 17);
            assert(a[0] == encoded@[9] && a[1] == encoded@[10] && a[2] == encoded@[11] && a[3]
                == encoded@[12]);
            assert(b[0] == encoded@[13] && b[1] == encoded@[14] && b[2] == encoded@[15] && b[3]
                == encoded@[16]);
        }
        let text_len = text_len as usize;
        let metadata_len = metadata_len as usize;
        let total = HEADER_SIZE.checked_add(text_len);
        let total = match total {
            Some(size) => size.checked_add(metadata_len),
            None => None,
        };
        match total {
            Some(size) => {
                if size != encoded.len() {
                    return Err(());
                }
            },
            None => {
                return Err(());
            },
        }
        Ok((text_len, metadata_len))
    }

    /// A document, when the metadata is the JSON text of an object.
    pub fn new(oid: String, timestamp_ms: u64, text: String, metadata: Vec<u8>) -> (r: Result<
        Self,
        (),
    >)
        ensures
            r is Ok <==> json_object_text(metadata@),
            r matches Ok(d) ==> d.oid == oid && d.timestamp_ms == timestamp_ms && d.text == text
                && d.metadata@ == metadata@,
    {
        if !is_json_object(metadata.as_slice()) {
            return Err(());
        }
        Ok(StoreDocument { oid, timestamp_ms, text, metadata })
    }

    /// The framing of the document; refused when a length does not fit in
    /// four bytes or the whole exceeds `MAX_DOCUMENT_BYTES`.
    pub fn encode(&self) -> (r: Result<Vec<u8>, ()>)
        ensures
            r is Ok <==> HEADER_SIZE + encode_utf8(self.text@).len() + self.metadata@.len()
                <= MAX_DOCUMENT_BYTES,
            r matches Ok(b) ==> b@ == document_bytes(
                self.timestamp_ms,
                encode_utf8(self.text@),
                self.metadata@,
            ),
    {
        let text = self.text.as_str().as_bytes();
        let metadata = self.metadata.as_slice();
        if text.len() > 4294967295 || metadata.len() > 4294967295 {
            return Err(());
        }
        let text_len = text.len() as u32;
        let metadata_len = metadata.len() as u32;
        let mut encoded: Vec<u8> = Vec::new();
        encoded.push(DOCUMENT_FORMAT_VERSION);
        let low = crate::encoding::encode_u32((self.timestamp_ms % 4294967296) as u32);
        let high = crate::encoding::encode_u32((self.timestamp_ms / 4294967296) as u32);
        append_bytes(&mut encoded, &low);
        append_bytes(&mut encoded, &high);
        append_bytes(&mut encoded, &crate::encoding::encode_u32(text_len));
        append_bytes(&mut encoded, &crate::encoding::encode_u32(metadata_len));
        append_bytes(&mut encoded, text);
        append_bytes(&mut encoded, metadata);
        if encoded.len() > MAX_DOCUMENT_BYTES {
            return Err(());
        }
        assert(encoded@ =~= document_bytes(self.timestamp_ms, text@, metadata@));
        Ok(encoded)
    }

    /// The document of object `oid` framed in `encoded`, when the framing is
    /// well formed, the text is UTF-8 and the metadata a JSON object.
    pub fn decode(oid: String, encoded: &[u8]) -> (r: Result<Self, ()>)
        ensures
            r is Ok <==> decodes(encoded@),
            r matches Ok(d) ==> d.oid == oid && d.timestamp_ms == le64_value(encoded@.subrange(1, 9))
                && d.text@ == decode_utf8(framed_text(encoded@)) && d.metadata@ == framed_metadata(
                encoded@,
            ),
    {
        let (text_len, metadata_len) = match Self::encoded_lengths(encoded) {
            Ok(lengths) => lengths,
            Err(()) => {
                return Err(());
            },
        };
        let low = (encoded[1] as u64) + 256 * (encoded[2] as u64) + 65536 * (encoded[3] as u64)
            + 16777216 * (encoded[4] as u64);
        let high = (encoded[5] as u64) + 256 * (encoded[6] as u64) + 65536 * (encoded[7] as u64)
            + 16777216 * (encoded[8] as u64);
        let timestamp_ms = low + 4294967296 * high;
        proof {
            let t = encoded@.subrange(1, 9);
            let a = t.take(4);
            let b = t.subrange(4, 8);
            assert(a[0] == encoded@[1] && a[1] == encoded@[2] && a[2] == encoded@[3] && a[3]
                == encoded@[4]);
            assert(b[0] == encoded@[5] && b[1] == encoded@[6] && b[2] == encoded@[7] && b[3]
                == encoded@[8]);
        }
        let text_end = HEADER_SIZE + text_len;
        let text_bytes = vstd::slice::slice_subrange(encoded, HEADER_SIZE, text_end);
        let metadata_bytes = vstd::slice::slice_subrange(encoded, text_end, encoded.len());
        let text = match str_from_utf8(text_bytes) {
            Some(text) => text,
            None => {
                return Err(());
            },
        };
        proof {
            encode_utf8_decode_utf8(text@);
        }
        let metadata = vstd::slice::slice_to_vec(metadata_bytes);
        Self::new(oid, timestamp_ms, text.to_owned(), metadata)
    }
}

/// Decoding the framing of a document whose metadata is a JSON object gives
/// the document back.
pub proof fn lemma_document_roundtrip(timestamp_ms: u64, text: Seq<char>, metadata: Seq<u8>)
    requires
        json_object_text(metadata),
        vstd::utf8::encode_utf8(text).len() <= u32::MAX,
        metadata.len() <= u32::MAX,
    ensures
        ({
            let t = vstd::utf8::encode_utf8(text);
            let e = document_bytes(timestamp_ms, t, metadata);
            &&& decodes(e)
            &&& le64_value(e.subrange(1, 9)) == timestamp_ms
            &&& decode_utf8(framed_text(e)) == text
            &&& framed_metadata(e) == metadata
        }),
{
    let t = vstd::utf8::encode_utf8(text);
    let e = document_bytes(timestamp_ms, t, metadata);
    crate::encoding::lemma_le32_value(t.len() as u32);
    crate::encoding::lemma_le32_value(metadata.len() as u32);
    crate::encoding::lemma_le32_value((timestamp_ms % 4294967296) as u32);
    crate::encoding::lemma_le32_value((timestamp_ms / 4294967296) as u32);
    assert(e.subrange(9, 13) =~= le32(t.len() as u32));
    assert(e.subrange(13, 17) =~= le32(metadata.len() as u32));
    assert(e.subrange(1, 9).take(4) =~= le32((timestamp_ms % 4294967296) as u32));
    assert(e.subrange(1, 9).subrange(4, 8) =~= le32((timestamp_ms / 4294967296) as u32));
    assert(framed_text(e) =~= t);
    assert(framed_metadata(e) =~= metadata);
    vstd::utf8::encode_utf8_valid_utf8(text);
    encode_utf8_decode_utf8(text);
}

/// A document to be written, with the bucket it goes to.
#[derive(Clone, Debug, PartialEq, Eq)]
pub struct StoreDocumentRecord {
    pub bucket: String,
    pub document: StoreDocument,
}

/// How many documents a bulk write took and refused.
#[derive(Clone, Copy, Debug, Default, PartialEq, Eq)]
pub struct StoreBulkResult {
    pub written: usize,
    pub rejected: usize,
}

/// A span of time, as `std::time::Duration` holds it: whole seconds and
/// the nanoseconds below one second.
#[derive(Clone, Copy, Debug, PartialEq, Eq)]
pub struct StoreDuration {
    pub secs: u64,
    pub nanos: u32,
}

/// The nanoseconds a duration stands for.
pub open spec fn duration_nanos(d: StoreDuration) -> int {
    d.secs * 1000000000 + d.nanos
}

/// A duration is well formed when its nanoseconds are below one second.
pub open spec fn duration_wf(d: StoreDuration) -> bool {
    d.nanos < 1000000000
}

/// Two durations whose nanoseconds add up below the largest duration add
/// without overflowing the seconds.
pub proof fn lemma_duration_addable(a: StoreDuration, b: StoreDuration)
    requires
        duration_wf(a),
        duration_wf(b),
        duration_nanos(a) + duration_nanos(b) < (u64::MAX as int + 1) * 1000000000,
    ensures
        duration_addable(a, b),
{
}

impl StoreDuration {
    /// The zero duration.
    pub fn zero() -> (r: Self)
        ensures
            duration_wf(r),
            duration_nanos(r) == 0,
    {
        StoreDuration { secs: 0, nanos: 0 }
    }

    /// The whole microseconds of the duration.
    pub fn as_micros(&self) -> (r: u128)
        requires
            duration_wf(*self),
        ensures
            r == duration_nanos(*self) / 1000,
    {
        let r = (self.secs as u128) * 1000000 + (self.nanos / 1000) as u128;
        assert(r == duration_nanos(*self) / 1000) by (nonlinear_arith)
            requires
                r == (self.secs as u128) * 1000000 + (self.nanos / 1000) as u128,
                self.nanos < 1000000000,
        ;
        r
    }

    /// The difference of two durations, or zero when `other` is longer.
    pub fn saturating_sub(self, other: Self) -> (r: Self)
        requires
            duration_wf(self),
            duration_wf(other),
        ensures
            duration_wf(r),
            duration_nanos(r) == if duration_nanos(self) >= duration_nanos(other) {
                duration_nanos(self) - duration_nanos(other)
            } else {
                0
            },
    {
        if self.secs < other.secs || (self.secs == other.secs && self.nanos < other.nanos) {
            assert(duration_nanos(self) < duration_nanos(other)) by (nonlinear_arith)
                requires
                    self.secs < other.secs || (self.secs == other.secs && self.nanos < other.nanos),
                    self.nanos < 1000000000,
                    other.nanos < 1000000000,
            ;
            return StoreDuration { secs: 0, nanos: 0 };
        }
        assert(duration_nanos(self) >= duration_nanos(other)) by (nonlinear_arith)
            requires
                !(self.secs < other.secs || (self.secs == other.secs && self.nanos < other.nanos)),
                self.nanos < 1000000000,
                other.nanos < 1000000000,
        ;
        if self.nanos >= other.nanos {
            StoreDuration { secs: self.secs - other.secs, nanos: self.nanos - other.nanos }
        } else {
            StoreDuration {
                secs: self.secs - other.secs - 1,
                nanos: self.nanos + 1000000000 - other.nanos,
            }
        }
    }

    /// The sum of two durations, as `Duration`'s `+=` computes it (which
    /// panics when the seconds overflow).
    pub fn add(self, other: Self) -> (r: Self)
        requires
            duration_wf(self),
            duration_wf(other),
            self.secs + other.secs + (if self.nanos + other.nanos >= 1000000000 {
                1int
            } else {
                0int
            }) <= u64::MAX,
        ensures
            duration_wf(r),
            duration_nanos(r) == duration_nanos(self) + duration_nanos(other),
    {
        let nanos = self.nanos + other.nanos;
        if nanos >= 1000000000 {
            StoreDuration { secs: self.secs + other.secs + 1, nanos: nanos - 1000000000 }
        } else {
            StoreDuration { secs: self.secs + other.secs, nanos }
        }
    }
}

/// Whether two durations add without overflowing the seconds.
pub open spec fn duration_addable(a: StoreDuration, b: StoreDuration) -> bool {
    a.secs + b.secs + (if a.nanos + b.nanos >= 1000000000 {
        1int
    } else {
        0int
    }) <= u64::MAX
}

/// Time spent and work done by the steps of one fresh batch write.
#[derive(Clone, Copy, Debug, PartialEq, Eq)]
pub struct StoreFreshBatchTimings {
    pub metadata_reads: StoreDuration,
    pub document_encode: StoreDuration,
    pub oid_reads: StoreDuration,
    pub term_reads: StoreDuration,
    pub posting_reads: StoreDuration,
    pub frequency_reads: StoreDuration,
    pub time_posting_reads: StoreDuration,
    pub batch_finalize: StoreDuration,
    pub database_write: StoreDuration,
    pub write_wal: StoreDuration,
    pub write_memtable: StoreDuration,
    pub write_delay: StoreDuration,
    pub write_pre_and_post: StoreDuration,
    pub write_db_mutex: StoreDuration,
    pub write_db_condition_wait: StoreDuration,
    pub write_merge_operator: StoreDuration,
    pub batch_index_bytes: u64,
    pub batch_postings_bytes: u64,
    pub batch_documents_bytes: u64,
    pub batch_put_count: u64,
    pub batch_delete_count: u64,
    pub batch_merge_count: u64,
    pub oid_read_count: usize,
    pub term_read_count: usize,
    pub posting_read_count: usize,
    pub frequency_read_count: usize,
    pub time_posting_read_count: usize,
}

/// Every duration of the timings is well formed.
pub open spec fn timings_wf(t: StoreFreshBatchTimings) -> bool {
    duration_wf(t.metadata_reads)
    && duration_wf(t.document_encode)
    && duration_wf(t.oid_reads)
    && duration_wf(t.term_reads)
    && duration_wf(t.posting_reads)
    && duration_wf(t.frequency_reads)
    && duration_wf(t.time_posting_reads)
    && duration_wf(t.batch_finalize)
    && duration_wf(t.database_write)
    && duration_wf(t.write_wal)
    && duration_wf(t.write_memtable)
    && duration_wf(t.write_delay)
    && duration_wf(t.write_pre_and_post)
    && duration_wf(t.write_db_mutex)
    && duration_wf(t.write_db_condition_wait)
    && duration_wf(t.write_merge_operator)
}

/// Adding the timings `b` to `a` overflows no field.
pub open spec fn timings_addable(a: StoreFreshBatchTimings, b: StoreFreshBatchTimings) -> bool {
    duration_addable(a.metadata_reads, b.metadata_reads)
    && duration_addable(a.document_encode, b.document_encode)
    && duration_addable(a.oid_reads, b.oid_reads)
    && duration_addable(a.term_reads, b.term_reads)
    && duration_addable(a.posting_reads, b.posting_reads)
    && duration_addable(a.frequency_reads, b.frequency_reads)
    && duration_addable(a.time_posting_reads, b.time_posting_reads)
    && duration_addable(a.batch_finalize, b.batch_finalize)
    && duration_addable(a.database_write, b.database_write)
    && duration_addable(a.write_wal, b.write_wal)
    && duration_addable(a.write_memtable, b.write_memtable)
    && duration_addable(a.write_delay, b.write_delay)
    && duration_addable(a.write_pre_and_post, b.write_pre_and_post)
    && duration_addable(a.write_db_mutex, b.write_db_mutex)
    && duration_addable(a.write_db_condition_wait, b.write_db_condition_wait)
    && duration_addable(a.write_merge_operator, b.write_merge_operator)
    && a.batch_index_bytes + b.batch_index_bytes <= u64::MAX
    && a.batch_postings_bytes + b.batch_postings_bytes <= u64::MAX
    && a.batch_documents_bytes + b.batch_documents_bytes <= u64::MAX
    && a.batch_put_count + b.batch_put_count <= u64::MAX
    && a.batch_delete_count + b.batch_delete_count <= u64::MAX
    && a.batch_merge_count + b.batch_merge_count <= u64::MAX
    && a.oid_read_count + b.oid_read_count <= usize::MAX
    && a.term_read_count + b.term_read_count <= usize::MAX
    && a.posting_read_count + b.posting_read_count <= usize::MAX
    && a.frequency_read_count + b.frequency_read_count <= usize::MAX
    && a.time_posting_read_count + b.time_posting_read_count <= usize::MAX
}

/// `r` holds the field-by-field sums of `a` and `b`.
pub open spec fn timings_sum(a: StoreFreshBatchTimings, b: StoreFreshBatchTimings, r: StoreFreshBatchTimings) -> bool {
    duration_nanos(r.metadata_reads) == duration_nanos(a.metadata_reads) + duration_nanos(b.metadata_reads)
    && duration_nanos(r.document_encode) == duration_nanos(a.document_encode) + duration_nanos(b.document_encode)
    && duration_nanos(r.oid_reads) == duration_nanos(a.oid_reads) + duration_nanos(b.oid_reads)
    && duration_nanos(r.term_reads) == duration_nanos(a.term_reads) + duration_nanos(b.term_reads)
    && duration_nanos(r.posting_reads) == duration_nanos(a.posting_reads) + duration_nanos(b.posting_reads)
    && duration_nanos(r.frequency_reads) == duration_nanos(a.frequency_reads) + duration_nanos(b.frequency_reads)
    && duration_nanos(r.time_posting_reads) == duration_nanos(a.time_posting_reads) + duration_nanos(b.time_posting_reads)
    && duration_nanos(r.batch_finalize) == duration_nanos(a.batch_finalize) + duration_nanos(b.batch_finalize)
    && duration_nanos(r.database_write) == duration_nanos(a.database_write) + duration_nanos(b.database_write)
    && duration_nanos(r.write_wal) == duration_nanos(a.write_wal) + duration_nanos(b.write_wal)
    && duration_nanos(r.write_memtable) == duration_nanos(a.write_memtable) + duration_nanos(b.write_memtable)
    && duration_nanos(r.write_delay) == duration_nanos(a.write_delay) + duration_nanos(b.write_delay)
    && duration_nanos(r.write_pre_and_post) == duration_nanos(a.write_pre_and_post) + duration_nanos(b.write_pre_and_post)
    && duration_nanos(r.write_db_mutex) == duration_nanos(a.write_db_mutex) + duration_nanos(b.write_db_mutex)
    && duration_nanos(r.write_db_condition_wait) == duration_nanos(a.write_db_condition_wait) + duration_nanos(b.write_db_condition_wait)
    && duration_nanos(r.write_merge_operator) == duration_nanos(a.write_merge_operator) + duration_nanos(b.write_merge_operator)
    && r.batch_index_bytes == a.batch_index_bytes + b.batch_index_bytes
    && r.batch_postings_bytes == a.batch_postings_bytes + b.batch_postings_bytes
    && r.batch_documents_bytes == a.batch_documents_bytes + b.batch_documents_bytes
    && r.batch_put_count == a.batch_put_count + b.batch_put_count
    && r.batch_delete_count == a.batch_delete_count + b.batch_delete_count
    && r.batch_merge_count == a.batch_merge_count + b.batch_merge_count
    && r.oid_read_count == a.oid_read_count + b.oid_read_count
    && r.term_read_count == a.term_read_count + b.term_read_count
    && r.posting_read_count == a.posting_read_count + b.posting_read_count
    && r.frequency_read_count == a.frequency_read_count + b.frequency_read_count
    && r.time_posting_read_count == a.time_posting_read_count + b.time_posting_read_count
}

impl StoreFreshBatchTimings {
    /// All zero.
    pub fn zero() -> (r: Self)
        ensures
            timings_wf(r),
            duration_nanos(r.metadata_reads) == 0,
            duration_nanos(r.document_encode) == 0,
            duration_nanos(r.oid_reads) == 0,
            duration_nanos(r.term_reads) == 0,
            duration_nanos(r.posting_reads) == 0,
            duration_nanos(r.frequency_reads) == 0,
            duration_nanos(r.time_posting_reads) == 0,
            duration_nanos(r.batch_finalize) == 0,
            duration_nanos(r.database_write) == 0,
            duration_nanos(r.write_wal) == 0,
            duration_nanos(r.write_memtable) == 0,
            duration_nanos(r.write_delay) == 0,
            duration_nanos(r.write_pre_and_post) == 0,
            duration_nanos(r.write_db_mutex) == 0,
            duration_nanos(r.write_db_condition_wait) == 0,
            duration_nanos(r.write_merge_operator) == 0,
            r.batch_index_bytes == 0,
            r.batch_postings_bytes == 0,
            r.batch_documents_bytes == 0,
            r.batch_put_count == 0,
            r.batch_delete_count == 0,
            r.batch_merge_count == 0,
            r.oid_read_count == 0,
            r.term_read_count == 0,
            r.posting_read_count == 0,
            r.frequency_read_count == 0,
            r.time_posting_read_count == 0,
    {
        StoreFreshBatchTimings {
            metadata_reads: StoreDuration::zero(),
            document_encode: StoreDuration::zero(),
            oid_reads: StoreDuration::zero(),
            term_reads: StoreDuration::zero(),
            posting_reads: StoreDuration::zero(),
            frequency_reads: StoreDuration::zero(),
            time_posting_reads: StoreDuration::zero(),
            batch_finalize: StoreDuration::zero(),
            database_write: StoreDuration::zero(),
            write_wal: StoreDuration::zero(),
            write_memtable: StoreDuration::zero(),
            write_delay: StoreDuration::zero(),
            write_pre_and_post: StoreDuration::zero(),
            write_db_mutex: StoreDuration::zero(),
            write_db_condition_wait: StoreDuration::zero(),
            write_merge_operator: StoreDuration::zero(),
            batch_index_bytes: 0,
            batch_postings_bytes: 0,
            batch_documents_bytes: 0,
            batch_put_count: 0,
            batch_delete_count: 0,
            batch_merge_count: 0,
            oid_read_count: 0,
            term_read_count: 0,
            posting_read_count: 0,
            frequency_read_count: 0,
            time_posting_read_count: 0,
        }
    }

    /// Adds each field of `other` to the same field.
    pub fn add_assign(&mut self, other: &Self)
        requires
            timings_wf(*old(self)),
            timings_wf(*other),
            timings_addable(*old(self), *other),
        ensures
            timings_wf(*final(self)),
            timings_sum(*old(self), *other, *final(self)),
    {
        self.metadata_reads = self.metadata_reads.add(other.metadata_reads);
        self.document_encode = self.document_encode.add(other.document_encode);
        self.oid_reads = self.oid_reads.add(other.oid_reads);
        self.term_reads = self.term_reads.add(other.term_reads);
        self.posting_reads = self.posting_reads.add(other.posting_reads);
        self.frequency_reads = self.frequency_reads.add(other.frequency_reads);
        self.time_posting_reads = self.time_posting_reads.add(other.time_posting_reads);
        self.batch_finalize = self.batch_finalize.add(other.batch_finalize);
        self.database_write = self.database_write.add(other.database_write);
        self.write_wal = self.write_wal.add(other.write_wal);
        self.write_memtable = self.write_memtable.add(other.write_memtable);
        self.write_delay = self.write_delay.add(other.write_delay);
        self.write_pre_and_post = self.write_pre_and_post.add(other.write_pre_and_post);
        self.write_db_mutex = self.write_db_mutex.add(other.write_db_mutex);
        self.write_db_condition_wait = self.write_db_condition_wait.add(other.write_db_condition_wait);
        self.write_merge_operator = self.write_merge_operator.add(other.write_merge_operator);
        self.batch_index_bytes = self.batch_index_bytes + other.batch_index_bytes;
        self.batch_postings_bytes = self.batch_postings_bytes + other.batch_postings_bytes;
        self.batch_documents_bytes = self.batch_documents_bytes + other.batch_documents_bytes;
        self.batch_put_count = self.batch_put_count + other.batch_put_count;
        self.batch_delete_count = self.batch_delete_count + other.batch_delete_count;
        self.batch_merge_count = self.batch_merge_count + other.batch_merge_count;
        self.oid_read_count = self.oid_read_count + other.oid_read_count;
        self.term_read_count = self.term_read_count + other.term_read_count;
        self.posting_read_count = self.posting_read_count + other.posting_read_count;
        self.frequency_read_count = self.frequency_read_count + other.frequency_read_count;
        self.time_posting_read_count = self.time_posting_read_count + other.time_posting_read_count;
    }
}

/// Health of the key-value store, as reported by its statistics.
#[derive(Clone, Copy, Debug, Default, PartialEq, Eq)]
pub struct StoreKVHealth {
    pub index_l0_files: Option<u64>,
    pub postings_l0_files: Option<u64>,
    pub documents_l0_files: Option<u64>,
    pub index_pending_compaction_bytes: Option<u64>,
    pub postings_pending_compaction_bytes: Option<u64>,
    pub documents_pending_compaction_bytes: Option<u64>,
    pub delayed_write_rate: Option<u64>,
    pub write_stopped: Option<u64>,
}

/// The larger of two optional values; a value when only one is there.
pub open spec fn max_option_spec(left: Option<u64>, right: Option<u64>) -> Option<u64> {
    match (left, right) {
        (Some(l), Some(r)) => Some(if l >= r { l } else { r }),
        (Some(l), None) => Some(l),
        (None, r) => r,
    }
}

/// The larger of two optional values; a value when only one is there.
pub fn max_option(left: Option<u64>, right: Option<u64>) -> (r: Option<u64>)
    ensures
        r == max_option_spec(left, right),
{
    match (left, right) {
        (Some(l), Some(r)) => Some(if l >= r { l } else { r }),
        (Some(l), None) => Some(l),
        (None, r) => r,
    }
}

impl StoreKVHealth {
    /// Keeps, field by field, the larger of both reports.
    pub fn max_assign(&mut self, other: &Self)
        ensures
            final(self).index_l0_files == max_option_spec(old(self).index_l0_files, other.index_l0_files),
            final(self).postings_l0_files == max_option_spec(old(self).postings_l0_files, other.postings_l0_files),
            final(self).documents_l0_files == max_option_spec(old(self).documents_l0_files, other.documents_l0_files),
            final(self).index_pending_compaction_bytes == max_option_spec(old(self).index_pending_compaction_bytes, other.index_pending_compaction_bytes),
            final(self).postings_pending_compaction_bytes == max_option_spec(old(self).postings_pending_compaction_bytes, other.postings_pending_compaction_bytes),
            final(self).documents_pending_compaction_bytes == max_option_spec(old(self).documents_pending_compaction_bytes, other.documents_pending_compaction_bytes),
            final(self).delayed_write_rate == max_option_spec(old(self).delayed_write_rate, other.delayed_write_rate),
            final(self).write_stopped == max_option_spec(old(self).write_stopped, other.write_stopped),
    {
        self.index_l0_files = max_option(self.index_l0_files, other.index_l0_files);
        self.postings_l0_files = max_option(self.postings_l0_files, other.postings_l0_files);
        self.documents_l0_files = max_option(self.documents_l0_files, other.documents_l0_files);
        self.index_pending_compaction_bytes = max_option(self.index_pending_compaction_bytes, other.index_pending_compaction_bytes);
        self.postings_pending_compaction_bytes = max_option(self.postings_pending_compaction_bytes, other.postings_pending_compaction_bytes);
        self.documents_pending_compaction_bytes = max_option(self.documents_pending_compaction_bytes, other.documents_pending_compaction_bytes);
        self.delayed_write_rate = max_option(self.delayed_write_rate, other.delayed_write_rate);
        self.write_stopped = max_option(self.write_stopped, other.write_stopped);
    }
}

} // verus!
