//! Batched escape-time iteration.
//!
//! An [`IterationRule`] carries a batch of [`SIMD_LEN`](crate::simd::SIMD_LEN)
//! independent samples and knows, for each step of its trajectory, which
//! lanes are still active (not yet escaped or converged). The driver
//! [`iterate`] runs such a rule to the iteration budget, counting one
//! iteration per lane per step in which that lane is still active and
//! stopping the whole batch early once a step finds no lane active.
//!
//! The central fact here is [`lemma_batch_matches_scalar`]: for any rule
//! whose lanes freeze (an escaped lane never comes back), the batched counts
//! equal the counts a scalar loop would produce lane by lane, however
//! unevenly the lanes escape.

use vstd::prelude::*;
use crate::simd::{SimdCounter, SIMD_LEN};

verus! {

/// Iteration budget. Reaching it is saturation, not an error: a sample that
/// never escapes is reported with this count.
pub const MAX_ITERS: u8 = u8::MAX;

/// A batched iteration rule: one fixed trajectory per lane, advanced one
/// step at a time.
///
/// The two spec functions describe the mathematics of the batch: `active`
/// tells whether a lane has still not escaped just before step `t`, a fact
/// about the trajectory the value was created on, which stepping must not
/// rewrite; `time` tells how many steps have run so far.
pub trait IterationRule: Sized {
    /// Steps performed so far. The default leaves the trajectory
    /// unspecified; implementations in need of the driver's exact counting
    /// contract refine this and `active`.
    open spec fn time(&self) -> nat {
        arbitrary()
    }

    /// Whether `lane` is still active just before step `t` of the
    /// trajectory.
    open spec fn active(&self, t: nat, lane: int) -> bool {
        arbitrary()
    }

    /// Reports which lanes are active at the current time, then advances
    /// every lane by one step.
    fn advance(&mut self) -> (mask: Vec<bool>)
        requires
            old(self).time() < MAX_ITERS as nat,
        ensures
            final(self).time() == old(self).time() + 1,
            forall|t: nat, lane: int| #[trigger] final(self).active(t, lane)
                == old(self).active(t, lane),
            mask@.len() == SIMD_LEN,
            forall|lane: int| 0 <= lane < SIMD_LEN
                ==> mask@[lane] == old(self).active(old(self).time(), lane),
    ;
}

/// No lane of the batch is active at step `t`.
pub open spec fn batch_halted<R: IterationRule>(r: R, t: nat) -> bool {
    forall|lane: int| 0 <= lane < SIMD_LEN ==> !(#[trigger] r.active(t, lane))
}

/// Iterations counted for `lane` by the batched loop from step `t` on: one
/// per step in which the lane is active, ending at the budget or as soon as
/// a step finds the whole batch halted.
pub open spec fn lane_count_from<R: IterationRule>(r: R, t: nat, lane: int) -> nat
    decreases MAX_ITERS as int - t,
{
    if t >= MAX_ITERS as nat || batch_halted(r, t) {
        0
    } else if r.active(t, lane) {
        1 + lane_count_from(r, (t + 1) as nat, lane)
    } else {
        lane_count_from(r, (t + 1) as nat, lane)
    }
}

/// Iterations counted for `lane` by the batched loop, from the start.
pub open spec fn lane_count<R: IterationRule>(r: R, lane: int) -> nat {
    lane_count_from(r, 0, lane)
}

/// What a scalar loop would count for `lane` alone from step `t` on: steps
/// until the lane first goes inactive, saturating at the budget.
pub open spec fn scalar_count_from<R: IterationRule>(r: R, t: nat, lane: int) -> nat
    decreases MAX_ITERS as int - t,
{
    if t >= MAX_ITERS as nat || !r.active(t, lane) {
        0
    } else {
        1 + scalar_count_from(r, (t + 1) as nat, lane)
    }
}

/// What a scalar loop would count for `lane` alone, from the start.
pub open spec fn scalar_count<R: IterationRule>(r: R, lane: int) -> nat {
    scalar_count_from(r, 0, lane)
}

/// Lanes freeze: a lane inactive at one step is still inactive at the next.
/// Escape-time rules have this shape, since an escaped sample stays escaped.
pub open spec fn lanes_freeze<R: IterationRule>(r: R) -> bool {
    forall|t: nat, lane: int| 0 <= lane < SIMD_LEN && !(#[trigger] r.active(t, lane))
        ==> !r.active((t + 1) as nat, lane)
}

/// A frozen lane stays inactive at every later step.
proof fn lemma_frozen_stays<R: IterationRule>(r: R, t0: nat, t: nat, lane: int)
    requires
        lanes_freeze(r),
        0 <= lane < SIMD_LEN,
        !r.active(t0, lane),
        t0 <= t,
    ensures
        !r.active(t, lane),
    decreases t - t0,
{
    if t > t0 {
        lemma_frozen_stays(r, t0, (t - 1) as nat, lane);
    }
}

/// A lane that has already escaped contributes nothing more to the batched
/// count.
proof fn lemma_lane_count_zero<R: IterationRule>(r: R, t: nat, lane: int)
    requires
        lanes_freeze(r),
        0 <= lane < SIMD_LEN,
        !r.active(t, lane),
    ensures
        lane_count_from(r, t, lane) == 0,
    decreases MAX_ITERS as int - t,
{
    if t >= MAX_ITERS as nat || batch_halted(r, t) {
    } else {
        lemma_lane_count_zero(r, (t + 1) as nat, lane);
    }
}

proof fn lemma_batch_matches_scalar_from<R: IterationRule>(r: R, t: nat, lane: int)
    requires
        lanes_freeze(r),
        0 <= lane < SIMD_LEN,
    ensures
        lane_count_from(r, t, lane) == scalar_count_from(r, t, lane),
    decreases MAX_ITERS as int - t,
{
    if t >= MAX_ITERS as nat {
    } else if batch_halted(r, t) {
        assert(!r.active(t, lane));
    } else if r.active(t, lane) {
        lemma_batch_matches_scalar_from(r, (t + 1) as nat, lane);
    } else {
        lemma_lane_count_zero(r, (t + 1) as nat, lane);
    }
}

/// Batched counting reproduces the scalar loop exactly, lane by lane, for
/// every rule whose lanes freeze: neither the shared early exit nor uneven
/// escape times across the batch can change any lane's count.
pub proof fn lemma_batch_matches_scalar<R: IterationRule>(r: R, lane: int)
    requires
        lanes_freeze(r),
        0 <= lane < SIMD_LEN,
    ensures
        lane_count(r, lane) == scalar_count(r, lane),
{
    lemma_batch_matches_scalar_from(r, 0, lane);
}

/// A lane that never goes inactive counts down the whole budget from step
/// `t` on.
proof fn lemma_saturated_from<R: IterationRule>(r: R, t: nat, lane: int)
    requires
        forall|s: nat| #[trigger] r.active(s, lane),
        t <= MAX_ITERS as nat,
    ensures
        scalar_count_from(r, t, lane) == MAX_ITERS as nat - t,
    decreases MAX_ITERS as int - t,
{
    if t < MAX_ITERS as nat {
        lemma_saturated_from(r, (t + 1) as nat, lane);
    }
}

/// Saturation is a normal outcome, not an error: a lane that never escapes
/// within the budget is reported with exactly the budget, and a lane that
/// has already escaped at the very first check is reported with zero.
pub proof fn lemma_saturation_boundary<R: IterationRule>(r: R, lane: int)
    requires
        0 <= lane < SIMD_LEN,
    ensures
        (forall|t: nat| #[trigger] r.active(t, lane)) ==> scalar_count(r, lane) == MAX_ITERS as nat,
        !r.active(0, lane) ==> scalar_count(r, lane) == 0,
{
    if forall|t: nat| #[trigger] r.active(t, lane) {
        lemma_saturated_from(r, 0, lane);
    }
}

/// Runs `rule` to the iteration budget and reports how many steps each lane
/// stayed active for, stopping the whole batch early once no lane is.
pub fn iterate<R: IterationRule>(rule: &mut R) -> (counts: Vec<u8>)
    requires
        old(rule).time() == 0,
    ensures
        counts@.len() == SIMD_LEN,
        forall|lane: int| 0 <= lane < SIMD_LEN
            ==> counts@[lane] as nat == lane_count(*old(rule), lane),
{
    let ghost entry = *old(rule);
    let mut cnt = SimdCounter::new();
    let mut t: u8 = 0;
    while t < MAX_ITERS
        invariant_except_break
            rule.time() == t as nat,
            forall|s: nat, lane: int| #[trigger] rule.active(s, lane)
                == entry.active(s, lane),
            t <= MAX_ITERS,
            cnt.wf(),
            forall|lane: int| 0 <= lane < SIMD_LEN
                ==> #[trigger] cnt.lane_counts()[lane] <= t as int,
            forall|lane: int| 0 <= lane < SIMD_LEN
                ==> lane_count(entry, lane)
                    == cnt.lane_counts()[lane] + lane_count_from(entry, t as nat, lane),
        ensures
            cnt.wf(),
            forall|lane: int| 0 <= lane < SIMD_LEN
                ==> #[trigger] cnt.lane_counts()[lane] <= MAX_ITERS as int,
            forall|lane: int| 0 <= lane < SIMD_LEN
                ==> lane_count(entry, lane) == cnt.lane_counts()[lane],
        decreases MAX_ITERS - t,
    {
        let mask = rule.advance();
        cnt.increment_where(&mask);
        if !cnt.modified() {
            proof {
                assert forall|lane: int| 0 <= lane < SIMD_LEN
                    implies !entry.active(t as nat, lane) by {
                    assert(!mask@[lane]);
                }
                assert(batch_halted(entry, t as nat));
                assert(forall|lane: int| 0 <= lane < SIMD_LEN
                    ==> lane_count_from(entry, t as nat, lane) == 0);
            }
            break;
        }
        proof {
            assert(!batch_halted(entry, t as nat)) by {
                let witness = choose|lane: int| 0 <= lane < SIMD_LEN && mask@[lane];
                assert(entry.active(t as nat, witness));
            }
            assert(forall|lane: int| 0 <= lane < SIMD_LEN
                ==> lane_count_from(entry, t as nat, lane)
                    == (if entry.active(t as nat, lane) { 1int } else { 0int })
                        + lane_count_from(entry, (t + 1) as nat, lane));
        }
        t = t + 1;
    }
    proof {
        assert(forall|lane: int| 0 <= lane < SIMD_LEN
            ==> cnt.lane_counts()[lane] as u8 == cnt.lane_counts()[lane]);
    }
    cnt.counts()
}

/// A reference rule with a fixed escape step per lane: lane `lane` stays
/// active for exactly `limits[lane]` steps, whatever the other lanes do.
/// Its lanes freeze by construction, which makes it the natural harness for
/// exercising [`iterate`] on batches with uneven escape times.
pub struct ThresholdRule {
    limits: Vec<u8>,
    elapsed: u8,
}

impl ThresholdRule {
    /// A rule whose lane `lane` escapes after exactly `limits[lane]` steps.
    pub fn new(limits: &Vec<u8>) -> (r: ThresholdRule)
        requires
            limits@.len() == SIMD_LEN,
        ensures
            r.time() == 0,
            forall|t: nat, lane: int| #[trigger] r.active(t, lane)
                == (0 <= lane < SIMD_LEN && t < limits@[lane]),
    {
        let mut own: Vec<u8> = Vec::with_capacity(SIMD_LEN);
        let mut l: usize = 0;
        while l < SIMD_LEN
            invariant
                limits@.len() == SIMD_LEN,
                l <= SIMD_LEN,
                own@.len() == l,
                forall|j: int| 0 <= j < l ==> own@[j] == limits@[j],
            decreases SIMD_LEN - l,
        {
            own.push(limits[l]);
            l = l + 1;
        }
        ThresholdRule { limits: own, elapsed: 0 }
    }
}

impl IterationRule for ThresholdRule {
    closed spec fn time(&self) -> nat {
        self.elapsed as nat
    }

    closed spec fn active(&self, t: nat, lane: int) -> bool {
        0 <= lane < self.limits@.len() && t < self.limits@[lane]
    }

    fn advance(&mut self) -> (mask: Vec<bool>)
    {
        let mut mask: Vec<bool> = Vec::with_capacity(SIMD_LEN);
        let mut l: usize = 0;
        while l < SIMD_LEN
            invariant
                l <= SIMD_LEN,
                mask@.len() == l,
                forall|j: int| 0 <= j < l
                    ==> mask@[j] == self.active(self.time(), j),
            decreases SIMD_LEN - l,
        {
            let bit = if l < self.limits.len() {
                self.elapsed < self.limits[l]
            } else {
                false
            };
            mask.push(bit);
            l = l + 1;
        }
        self.elapsed = self.elapsed + 1;
        mask
    }
}

/// The lanes of a [`ThresholdRule`] freeze: past its limit, a lane never
/// comes back.
pub proof fn lemma_threshold_freezes(r: ThresholdRule)
    ensures
        lanes_freeze(r),
{
}

/// For a lane that escapes after exactly `limit` steps, the scalar loop
/// counts `limit - t` further steps from step `t` on.
proof fn lemma_threshold_scalar_from(r: ThresholdRule, t: nat, lane: int, limit: u8)
    requires
        0 <= lane < SIMD_LEN,
        forall|s: nat| #[trigger] r.active(s, lane) == (s < limit),
        t <= limit,
    ensures
        scalar_count_from(r, t, lane) == limit - t,
    decreases MAX_ITERS as int - t,
{
    if t >= MAX_ITERS as nat || !r.active(t, lane) {
    } else {
        lemma_threshold_scalar_from(r, (t + 1) as nat, lane, limit);
    }
}

/// Runs the batched driver on the rule whose lane `lane` escapes after
/// exactly `limits[lane]` steps, and hands the counts back: they are the
/// limits themselves, each lane's count untouched by every other lane.
pub fn threshold_counts(limits: &Vec<u8>) -> (counts: Vec<u8>)
    requires
        limits@.len() == SIMD_LEN,
    ensures
        counts@ =~= limits@,
{
    let mut rule = ThresholdRule::new(limits);
    let ghost start = rule;
    let counts = iterate(&mut rule);
    proof {
        assert forall|lane: int| 0 <= lane < SIMD_LEN
            implies counts@[lane] == limits@[lane] by {
            lemma_threshold_freezes(start);
            lemma_batch_matches_scalar(start, lane);
            lemma_threshold_scalar_from(start, 0, lane, limits@[lane]);
        }
    }
    counts
}

} // verus!
