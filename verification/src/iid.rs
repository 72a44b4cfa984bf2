//! Object IIDs: each bucket hands out IIDs from a counter kept in memory,
//! and records the last one handed out in the store through the
//! maximum-keeping merge of its `IIDIncr` meta value.
use vstd::prelude::*;

use crate::encoding::{encode_u32_counter, le32};
use std::collections::HashMap;

verus! {

broadcast use vstd::std_specs::hash::group_hash_axioms;

/// The last IID handed out in each bucket, by the bucket's compact hash.
pub struct IidCounters {
    per_bucket: HashMap<u32, u32>,
}

impl View for IidCounters {
    type V = Map<u32, u32>;

    closed spec fn view(&self) -> Map<u32, u32> {
        self.per_bucket@
    }
}

/// The IID a bucket hands out next: one more than the last (staying at the
/// largest IID once there), or 0 when it has handed none out.
pub open spec fn next_iid_of(counters: Map<u32, u32>, bucket: u32) -> u32 {
    if counters.contains_key(bucket) {
        if counters[bucket] == u32::MAX {
            u32::MAX
        } else {
            (counters[bucket] + 1) as u32
        }
    } else {
        0
    }
}

impl IidCounters {
    /// No IID handed out in any bucket.
    pub fn new() -> (r: Self)
        ensures
            r@ == Map::<u32, u32>::empty(),
    {
        IidCounters { per_bucket: HashMap::new() }
    }

    /// The last IID handed out in a bucket, if any.
    pub fn last_iid(&self, bucket: u32) -> (r: Option<u32>)
        ensures
            r == (if self@.contains_key(bucket) {
                Some(self@[bucket])
            } else {
                None::<u32>
            }),
    {
        match self.per_bucket.get(&bucket) {
            Some(iid) => Some(*iid),
            None => None,
        }
    }

    /// Records the last IID of a bucket, as read from the store.
    pub fn remember(&mut self, bucket: u32, iid: u32)
        ensures
            final(self)@ == old(self)@.insert(bucket, iid),
    {
        self.per_bucket.insert(bucket, iid);
    }

    /// Hands out the next IID of a bucket, with the merge operand that
    /// records it in the bucket's `IIDIncr` meta value.
    pub fn next_iid(&mut self, bucket: u32) -> (r: (u32, [u8; 4]))
        ensures
            r.0 == next_iid_of(old(self)@, bucket),
            final(self)@ == old(self)@.insert(bucket, r.0),
            r.1@ == le32(r.0),
    {
        let iid = match self.per_bucket.get(&bucket) {
            Some(last) => {
                if *last == u32::MAX {
                    u32::MAX
                } else {
                    *last + 1
                }
            },
            None => 0,
        };
        self.per_bucket.insert(bucket, iid);
        (iid, encode_u32_counter(iid))
    }
}

/// IIDs handed out one after the other in a bucket grow, until the largest
/// IID, which then repeats; other buckets are left alone.
pub proof fn lemma_next_iids_grow(counters: Map<u32, u32>, bucket: u32, other: u32)
    ensures
        ({
            let first = next_iid_of(counters, bucket);
            let after = counters.insert(bucket, first);
            let second = next_iid_of(after, bucket);
            &&& first < u32::MAX ==> second == first + 1
            &&& first == u32::MAX ==> second == u32::MAX
            &&& other != bucket ==> next_iid_of(after, other) == next_iid_of(counters, other)
        }),
{
}

} // verus!
