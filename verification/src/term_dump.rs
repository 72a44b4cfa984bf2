//! Term frequency dump: from the entries of a bucket index, the rows
//! `term<TAB>frequency` of its term frequency family.
use vstd::prelude::*;

use crate::encoding::{be32_value, le32_value};
use crate::keyer::{StoreKeyerBuilder, IDX_TERM_FREQUENCY};
use crate::kv_keys::{decimal, push_decimal};
use vstd::utf8::encode_utf8_decode_utf8;
use crate::text::append_bytes;
use vstd::utf8::{decode_utf8, valid_utf8};

verus! {

/// Why a dump stopped.
#[derive(Clone, Debug, PartialEq, Eq)]
pub enum TermDumpError {
    /// A term frequency key whose route is not a term.
    InvalidKey,
    /// The value of a term frequency is not four bytes.
    InvalidFrequency(String),
    /// The term holds a tab, a line feed or a carriage return.
    NotTsv(String),
}

/// The frequency of four little-endian bytes; `None` for any other length.
pub fn decode_frequency(encoded: &[u8]) -> (r: Option<u32>)
    ensures
        r is Some <==> encoded@.len() == 4,
        r matches Some(v) ==> v == le32_value(encoded@),
{
    if encoded.len() == 4 {
        Some(
            16777216 * (encoded[3] as u32) + 65536 * (encoded[2] as u32) + 256 * (
            encoded[1] as u32) + (encoded[0] as u32),
        )
    } else {
        None
    }
}

/// What one entry gives: nothing, a row, or the reason to stop.
pub enum RowOutcome {
    Skip,
    Row(Seq<u8>),
    InvalidKey,
    InvalidFrequency(Seq<char>),
    NotTsv(Seq<char>),
}

/// The route of a key is a term followed by nothing.
pub open spec fn term_route_ok(route: Seq<u8>) -> bool {
    &&& route.len() >= 4
    &&& route.len() - 4 == be32_value(route.take(4))
    &&& valid_utf8(route.skip(4))
}

/// A term holds a tab, a line feed or a carriage return.
pub open spec fn has_tsv_break(term: Seq<u8>) -> bool {
    exists|i: int| 0 <= i < term.len() && (term[i] == 9 || term[i] == 10 || term[i] == 13)
}

/// What the entry `(key, value)` gives.
pub open spec fn row_outcome(key: Seq<u8>, value: Seq<u8>) -> RowOutcome {
    if !(key.len() > 4 && key[4] == IDX_TERM_FREQUENCY) {
        RowOutcome::Skip
    } else if !term_route_ok(key.skip(5)) {
        RowOutcome::InvalidKey
    } else if value.len() != 4 {
        RowOutcome::InvalidFrequency(decode_utf8(key.skip(9)))
    } else if has_tsv_break(key.skip(9)) {
        RowOutcome::NotTsv(decode_utf8(key.skip(9)))
    } else {
        RowOutcome::Row(key.skip(9) + seq![9u8] + decimal(le32_value(value) as nat) + seq![10u8])
    }
}

/// The state after some entries: the bytes written, the rows counted, and
/// the reason the dump stopped, if it did.
pub open spec fn dump_state(entries: Seq<(Seq<u8>, Seq<u8>)>) -> (Seq<u8>, nat, Option<RowOutcome>)
    decreases entries.len(),
{
    if entries.len() == 0 {
        (seq![], 0, None)
    } else {
        let (out, count, stop) = dump_state(entries.drop_last());
        if stop is Some {
            (out, count, stop)
        } else {
            match row_outcome(entries.last().0, entries.last().1) {
                RowOutcome::Skip => (out, count, None),
                RowOutcome::Row(row) => (out + row, count + 1, None),
                other => (out, count, Some(other)),
            }
        }
    }
}

/// The bytes of each entry.
pub open spec fn entry_bytes(entries: Seq<(Vec<u8>, Vec<u8>)>) -> Seq<(Seq<u8>, Seq<u8>)> {
    entries.map_values(|e: (Vec<u8>, Vec<u8>)| (e.0@, e.1@))
}

/// The error a stop reason is reported as.
pub open spec fn stop_error(stop: RowOutcome, e: TermDumpError) -> bool {
    match stop {
        RowOutcome::InvalidKey => e == TermDumpError::InvalidKey,
        RowOutcome::InvalidFrequency(t) => e matches TermDumpError::InvalidFrequency(s) && s@ == t,
        RowOutcome::NotTsv(t) => e matches TermDumpError::NotTsv(s) && s@ == t,
        _ => false,
    }
}

/// Once stopped, a dump stays stopped.
proof fn lemma_stop_persists(entries: Seq<(Seq<u8>, Seq<u8>)>, k: int)
    requires
        0 <= k <= entries.len(),
        dump_state(entries.take(k)).2 is Some,
    ensures
        dump_state(entries) == dump_state(entries.take(k)),
    decreases entries.len() - k,
{
    if k < entries.len() {
        assert(entries.take(k + 1).drop_last() =~= entries.take(k));
        lemma_stop_persists(entries, k + 1);
    } else {
        assert(entries.take(k) =~= entries);
    }
}

/// The row of one entry, `None` when it is not a term frequency, or the
/// reason to stop.
fn entry_row(key: &[u8], value: &[u8]) -> (r: Result<Option<Vec<u8>>, TermDumpError>)
    ensures
        match row_outcome(key@, value@) {
            RowOutcome::Skip => r matches Ok(None),
            RowOutcome::Row(row) => r matches Ok(Some(v)) && v@ == row,
            other => r matches Err(e) && stop_error(other, e),
        },
{
    match StoreKeyerBuilder::family(key) {
        Some(f) => {
            if f != IDX_TERM_FREQUENCY {
                return Ok(None);
            }
        },
        None => {
            return Ok(None);
        },
    }
    let route = vstd::slice::slice_subrange(key, 5, key.len());
    assert(route@ =~= key@.skip(5));
    let term = match StoreKeyerBuilder::decode_term_route_with_suffix(route, 0) {
        Some(term) => term,
        None => {
            proof {
                if route@.len() >= 4 && route@.len() - 4 == be32_value(route@.take(4)) {
                    assert(route@.subrange(4, 4 + be32_value(route@.take(4))) =~= route@.skip(4));
                }
            }
            return Err(TermDumpError::InvalidKey);
        },
    };
    proof {
        assert(route@.subrange(4, 4 + be32_value(route@.take(4))) =~= route@.skip(4));
        assert(route@.skip(4) =~= key@.skip(9));
        encode_utf8_decode_utf8(term@);
    }
    let frequency = match decode_frequency(value) {
        Some(frequency) => frequency,
        None => {
            return Err(TermDumpError::InvalidFrequency(term.to_owned()));
        },
    };
    let bytes = term.as_bytes();
    assert(bytes@ == key@.skip(9));
    let mut k: usize = 0;
    while k < bytes.len()
        invariant
            k <= bytes@.len(),
            bytes@ == key@.skip(9),
            term@ == decode_utf8(key@.skip(9)),
            key@.len() > 4 && key@[4] == IDX_TERM_FREQUENCY,
            term_route_ok(key@.skip(5)),
            value@.len() == 4,
            forall|j: int| 0 <= j < k ==> !(bytes@[j] == 9 || bytes@[j] == 10 || bytes@[j] == 13),
        decreases bytes@.len() - k,
    {
        if bytes[k] == 9 || bytes[k] == 10 || bytes[k] == 13 {
            assert(key@.skip(9)[k as int] == bytes@[k as int]);
            assert(has_tsv_break(key@.skip(9)));
            return Err(TermDumpError::NotTsv(term.to_owned()));
        }
        k = k + 1;
    }
    let mut row: Vec<u8> = Vec::new();
    append_bytes(&mut row, bytes);
    row.push(9u8);
    push_decimal(&mut row, frequency);
    row.push(10u8);
    Ok(Some(row))
}

/// Appends the rows of the term frequencies among `entries` (key and value
/// pairs of a bucket index, in order) to `output`, as `term<TAB>frequency`
/// lines, and returns how many were written. Stops at the first term
/// frequency whose key is not a term, whose value is not four bytes, or
/// whose term cannot stand in a tab-separated line; the rows before it stay
/// written.
pub fn dump_term_frequencies(entries: &[(Vec<u8>, Vec<u8>)], output: &mut Vec<u8>) -> (r: Result<
    u64,
    TermDumpError,
>)
    requires
        entries@.len() < u64::MAX,
    ensures
        final(output)@ == old(output)@ + dump_state(entry_bytes(entries@)).0,
        match dump_state(entry_bytes(entries@)).2 {
            None => r == Ok::<u64, TermDumpError>(dump_state(entry_bytes(entries@)).1 as u64),
            Some(stop) => r matches Err(e) && stop_error(stop, e),
        },
{
    let ghost es = entry_bytes(entries@);
    let ghost start = output@;
    let mut count: u64 = 0;
    let mut i: usize = 0;
    while i < entries.len()
        invariant
            i <= entries@.len(),
            entries@.len() < u64::MAX,
            es == entry_bytes(entries@),
            start == old(output)@,
            dump_state(es.take(i as int)).2 is None,
            output@ == start + dump_state(es.take(i as int)).0,
            count == dump_state(es.take(i as int)).1,
            count <= i,
        decreases entries@.len() - i,
    {
        let key = entries[i].0.as_slice();
        let value = entries[i].1.as_slice();
        proof {
            assert(es.take(i + 1).drop_last() =~= es.take(i as int));
            assert(es.take(i + 1).last() == es[i as int]);
            assert(es[i as int] == (key@, value@));
        }
        let outcome = entry_row(key, value);
        match outcome {
            Ok(None) => {},
            Ok(Some(row)) => {
                append_bytes(output, row.as_slice());
                count = count + 1;
            },
            Err(e) => {
                proof {
                    let prev = dump_state(es.take(i as int));
                    assert(dump_state(es.take(i + 1)).0 == prev.0);
                    assert(dump_state(es.take(i + 1)).2 is Some);
                    lemma_stop_persists(es, i + 1);
                }
                return Err(e);
            },
        }
        i = i + 1;
    }
    assert(es.take(entries@.len() as int) =~= es);
    Ok(count)
}

} // verus!
