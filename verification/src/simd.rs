//! Lane-batched iteration counting.
//!
//! A [`SimdCounter`] keeps one running count per lane of a fixed-width batch
//! and raises each count by one exactly where a boolean mask is set, the way
//! a vector unit folds a comparison mask into per-lane counters. Lanes whose
//! mask bit is clear are left untouched, so a lane whose sample has already
//! escaped stops counting while the rest of the batch runs on.

use vstd::prelude::*;

verus! {

/// Number of lanes in a batch, chosen to match a 512-bit vector of doubles.
pub const SIMD_LEN: usize = 8;

/// Per-lane iteration counters plus a flag recording whether the most recent
/// mask touched any lane at all.
#[derive(Debug, Clone)]
pub struct SimdCounter {
    counts: Vec<u64>,
    modified: bool,
}

impl SimdCounter {
    /// The counter always carries exactly [`SIMD_LEN`] lanes.
    pub closed spec fn wf(&self) -> bool {
        self.counts@.len() == SIMD_LEN
    }

    /// The running count of each lane.
    pub closed spec fn lane_counts(&self) -> Seq<u64> {
        self.counts@
    }

    /// Whether the most recent mask had any lane set.
    pub closed spec fn was_modified(&self) -> bool {
        self.modified
    }

    /// A fresh counter: every lane at zero, nothing modified yet.
    pub fn new() -> (c: SimdCounter)
        ensures
            c.wf(),
            c.lane_counts() =~= Seq::new(SIMD_LEN as nat, |l: int| 0u64),
            !c.was_modified(),
    {
        let mut counts: Vec<u64> = Vec::with_capacity(SIMD_LEN);
        let mut l: usize = 0;
        while l < SIMD_LEN
            invariant
                l <= SIMD_LEN,
                counts@.len() == l,
                forall|j: int| 0 <= j < l ==> counts@[j] == 0u64,
            decreases SIMD_LEN - l,
        {
            counts.push(0);
            l = l + 1;
        }
        SimdCounter { counts, modified: false }
    }

    /// Raises by one the count of every lane whose mask bit is set, and
    /// records whether any lane was touched.
    pub fn increment_where(&mut self, mask: &Vec<bool>)
        requires
            old(self).wf(),
            mask@.len() == SIMD_LEN,
            forall|l: int| 0 <= l < SIMD_LEN && mask@[l]
                ==> old(self).lane_counts()[l] < u64::MAX,
        ensures
            final(self).wf(),
            forall|l: int| 0 <= l < SIMD_LEN ==> final(self).lane_counts()[l]
                == old(self).lane_counts()[l] + (if mask@[l] { 1int } else { 0int }),
            final(self).was_modified() == exists|l: int| 0 <= l < SIMD_LEN && mask@[l],
    {
        let ghost entry = *old(self);
        let mut any = false;
        let mut l: usize = 0;
        while l < SIMD_LEN
            invariant
                mask@.len() == SIMD_LEN,
                l <= SIMD_LEN,
                any == exists|j: int| 0 <= j < l && mask@[j],
            decreases SIMD_LEN - l,
        {
            if mask[l] {
                any = true;
            }
            l = l + 1;
        }
        self.modified = any;
        let mut l: usize = 0;
        while l < SIMD_LEN
            invariant
                self.wf(),
                entry.wf(),
                mask@.len() == SIMD_LEN,
                forall|j: int| 0 <= j < SIMD_LEN && mask@[j]
                    ==> entry.lane_counts()[j] < u64::MAX,
                l <= SIMD_LEN,
                forall|j: int| 0 <= j < l ==> self.lane_counts()[j]
                    == entry.lane_counts()[j] + (if mask@[j] { 1int } else { 0int }),
                forall|j: int| l <= j < SIMD_LEN ==> self.lane_counts()[j]
                    == entry.lane_counts()[j],
                self.was_modified() == exists|j: int| 0 <= j < SIMD_LEN && mask@[j],
            decreases SIMD_LEN - l,
        {
            if mask[l] {
                let c = self.counts[l];
                self.counts.set(l, c + 1);
            }
            l = l + 1;
        }
    }

    /// The per-lane counts, truncated to bytes the way a vector narrowing
    /// cast would truncate them.
    pub fn counts(&self) -> (out: Vec<u8>)
        requires
            self.wf(),
        ensures
            out@.len() == SIMD_LEN,
            forall|l: int| 0 <= l < SIMD_LEN ==> out@[l] == self.lane_counts()[l] as u8,
    {
        let mut out: Vec<u8> = Vec::with_capacity(SIMD_LEN);
        let mut l: usize = 0;
        while l < SIMD_LEN
            invariant
                self.wf(),
                l <= SIMD_LEN,
                out@.len() == l,
                forall|j: int| 0 <= j < l ==> out@[j] == self.lane_counts()[j] as u8,
            decreases SIMD_LEN - l,
        {
            let c = self.counts[l];
            out.push(c as u8);
            l = l + 1;
        }
        out
    }

    /// Whether the most recent mask had any lane set.
    pub fn modified(&self) -> (m: bool)
        ensures
            m == self.was_modified(),
    {
        self.modified
    }
}

} // verus!
