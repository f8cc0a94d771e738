//! The computing parts of the sustained-throughput scenario: the batch of
//! pixels it writes, the summary statistics of a run (durations in
//! nanoseconds), and the decisions of its two polling loops.

use vstd::prelude::*;

verus! {

/// The pixels service.
pub const SERVICE_ID: u32 = 2000;

/// Number of pixels written in one run.
pub const BATCH_SIZE: usize = 12;

/// Largest head-to-finalized lag at which the chain counts as settled.
pub const MAX_FINALITY_LAG: u32 = 5;

/// One pixel write: position and colour.
#[derive(Clone, Copy, Debug, PartialEq, Eq, Hash, Structural)]
pub struct PixelSpec {
    pub x: u8,
    pub y: u8,
    pub r: u8,
    pub g: u8,
    pub b: u8,
}

/// The `i`-th pixel of the batch: column `5 + i`, row `80 + i / 6`, and colour
/// channels `16 + 17i`, `32 + 29i`, `48 + 43i` modulo 256.
pub open spec fn batch_pixel(i: int) -> PixelSpec {
    PixelSpec {
        x: (5 + i) as u8,
        y: (80 + i / 6) as u8,
        r: ((16 + 17 * i) % 256) as u8,
        g: ((32 + 29 * i) % 256) as u8,
        b: ((48 + 43 * i) % 256) as u8,
    }
}

/// The batch of pixels a run writes: `BATCH_SIZE` pixels with distinct
/// positions, all in rows 80 and 81.
pub fn throughput_pixels() -> (pixels: Vec<PixelSpec>)
    ensures
        pixels@.len() == BATCH_SIZE,
        forall|i: int| 0 <= i < BATCH_SIZE ==> #[trigger] pixels@[i] == batch_pixel(i),
        forall|i: int, j: int|
            0 <= i < j < BATCH_SIZE ==> (#[trigger] pixels@[i]).x != (#[trigger] pixels@[j]).x
                || pixels@[i].y != pixels@[j].y,
        forall|i: int| 0 <= i < BATCH_SIZE ==> 80 <= (#[trigger] pixels@[i]).y <= 81,
{
    let mut pixels: Vec<PixelSpec> = Vec::new();
    let mut k: usize = 0;
    while k < BATCH_SIZE
        invariant
            k <= BATCH_SIZE,
            pixels@.len() == k,
            forall|i: int| 0 <= i < k ==> #[trigger] pixels@[i] == batch_pixel(i),
        decreases BATCH_SIZE - k,
    {
        let i = k as u8;
        let p = PixelSpec {
            x: 5 + i,
            y: 80 + (i / 6),
            r: 16u8.wrapping_add(i.wrapping_mul(17)),
            g: 32u8.wrapping_add(i.wrapping_mul(29)),
            b: 48u8.wrapping_add(i.wrapping_mul(43)),
        };
        proof {
            let n = k as int;
            assert(p.r == batch_pixel(n).r);
            assert(p.g == batch_pixel(n).g);
            assert(p.b == batch_pixel(n).b);
        }
        pixels.push(p);
        k = k + 1;
    }
    pixels
}

/// Sum of a sequence of durations.
pub open spec fn total(samples: Seq<u128>) -> int
    decreases samples.len(),
{
    if samples.len() == 0 {
        0
    } else {
        total(samples.drop_last()) + samples.last()
    }
}

/// Largest duration of a sequence, 0 for an empty one.
pub open spec fn longest(samples: Seq<u128>) -> u128
    decreases samples.len(),
{
    if samples.len() == 0 {
        0
    } else {
        let rest = longest(samples.drop_last());
        if samples.last() > rest {
            samples.last()
        } else {
            rest
        }
    }
}

/// The largest duration, in nanoseconds, that a `std::time::Duration` holds.
pub open spec fn max_duration_nanos() -> int {
    0xFFFF_FFFF_FFFF_FFFFint * 1_000_000_000int + 999_999_999int
}

proof fn lemma_total_prefix_bounded(samples: Seq<u128>, i: int)
    requires
        0 <= i <= samples.len(),
    ensures
        0 <= total(samples.subrange(0, i)) <= total(samples),
    decreases samples.len(),
{
    if i < samples.len() {
        lemma_total_prefix_bounded(samples.drop_last(), i);
        assert(samples.drop_last().subrange(0, i) =~= samples.subrange(0, i));
    } else {
        assert(samples.subrange(0, i) =~= samples);
    }
    lemma_total_nonnegative(samples);
    lemma_total_nonnegative(samples.subrange(0, i));
}

proof fn lemma_total_nonnegative(samples: Seq<u128>)
    ensures
        total(samples) >= 0,
    decreases samples.len(),
{
    if samples.len() > 0 {
        lemma_total_nonnegative(samples.drop_last());
    }
}

/// Mean of the durations (in nanoseconds), rounded down; zero for no samples.
/// The count divides as a 32-bit number, as `Duration / u32` does.
pub fn average_duration(samples: &[u128]) -> (mean: u128)
    requires
        total(samples@) <= max_duration_nanos(),
        samples@.len() == 0 || (samples@.len() as u32) != 0,
    ensures
        samples@.len() == 0 ==> mean == 0,
        samples@.len() > 0 ==> mean == total(samples@) / ((samples@.len() as u32) as int),
{
    if samples.len() == 0 {
        return 0;
    }
    let mut sum: u128 = 0;
    let mut i: usize = 0;
    while i < samples.len()
        invariant
            i <= samples@.len(),
            total(samples@) <= max_duration_nanos(),
            sum == total(samples@.subrange(0, i as int)),
        decreases samples@.len() - i,
    {
        proof {
            assert(samples@.subrange(0, i + 1).drop_last() =~= samples@.subrange(0, i as int));
            lemma_total_prefix_bounded(samples@, i + 1);
        }
        sum = sum + samples[i];
        i = i + 1;
    }
    proof {
        assert(samples@.subrange(0, samples@.len() as int) =~= samples@);
    }
    let count = samples.len() as u32;
    sum / (count as u128)
}

/// Summary of a throughput run, with durations in nanoseconds.
#[derive(Clone, Copy, Debug, PartialEq, Eq, Structural)]
pub struct ThroughputStats {
    pub submitted: usize,
    pub total_window: u128,
    pub submit_rpc_avg: u128,
    pub confirm_avg: u128,
    pub confirm_max: u128,
    pub slots_elapsed: u32,
}

/// Summarise a run from the submit-RPC durations, the confirmation latencies,
/// the length of the measurement window, and the head slot at its start and end.
pub fn summarize_throughput(
    submit_rpcs: &[u128],
    confirm_durations: &[u128],
    total_window: u128,
    start_head_slot: u32,
    end_head_slot: u32,
) -> (stats: ThroughputStats)
    requires
        total(submit_rpcs@) <= max_duration_nanos(),
        total(confirm_durations@) <= max_duration_nanos(),
        submit_rpcs@.len() == 0 || (submit_rpcs@.len() as u32) != 0,
        confirm_durations@.len() == 0 || (confirm_durations@.len() as u32) != 0,
    ensures
        stats.submitted == confirm_durations@.len(),
        stats.total_window == total_window,
        stats.submit_rpc_avg == (if submit_rpcs@.len() == 0 { 0 } else {
            total(submit_rpcs@) / ((submit_rpcs@.len() as u32) as int)
        }),
        stats.confirm_avg == (if confirm_durations@.len() == 0 { 0 } else {
            total(confirm_durations@) / ((confirm_durations@.len() as u32) as int)
        }),
        stats.confirm_max == longest(confirm_durations@),
        forall|i: int| 0 <= i < confirm_durations@.len() ==> #[trigger] confirm_durations@[i] <= stats.confirm_max,
        confirm_durations@.len() > 0 ==> exists|i: int|
            0 <= i < confirm_durations@.len() && confirm_durations@[i] == stats.confirm_max,
        stats.slots_elapsed == (if end_head_slot >= start_head_slot { end_head_slot - start_head_slot } else { 0 }),
{
    let mut confirm_max: u128 = 0;
    let mut i: usize = 0;
    while i < confirm_durations.len()
        invariant
            i <= confirm_durations@.len(),
            confirm_max == longest(confirm_durations@.subrange(0, i as int)),
        decreases confirm_durations@.len() - i,
    {
        proof {
            assert(confirm_durations@.subrange(0, i + 1).drop_last() =~= confirm_durations@.subrange(0, i as int));
        }
        if confirm_durations[i] > confirm_max {
            confirm_max = confirm_durations[i];
        }
        i = i + 1;
    }
    proof {
        assert(confirm_durations@.subrange(0, confirm_durations@.len() as int) =~= confirm_durations@);
        lemma_longest_is_maximum(confirm_durations@);
    }
    ThroughputStats {
        submitted: confirm_durations.len(),
        total_window,
        submit_rpc_avg: average_duration(submit_rpcs),
        confirm_avg: average_duration(confirm_durations),
        confirm_max,
        slots_elapsed: end_head_slot.saturating_sub(start_head_slot),
    }
}

/// What the finality-settle loop does after reading the node status.
#[derive(Clone, Copy, Debug, PartialEq, Eq, Structural)]
pub enum SettleStep {
    /// The lag is small enough: start measuring.
    Settled,
    /// The lag is still too large and the deadline has passed: give up with this lag.
    TimedOut { lag: u32 },
    /// Sleep and read the status again.
    Wait,
}

/// The finality lag: how far the head is ahead of the finalized slot (0 if behind).
pub open spec fn finality_lag(head_slot: u32, finalized_slot: u32) -> u32 {
    if head_slot >= finalized_slot { (head_slot - finalized_slot) as u32 } else { 0 }
}

/// Decide the next step of waiting for finality to settle, from the node's head
/// and finalized slots and whether the deadline has passed.
pub fn settle_step(head_slot: u32, finalized_slot: u32, past_deadline: bool) -> (step: SettleStep)
    ensures
        finality_lag(head_slot, finalized_slot) <= MAX_FINALITY_LAG ==> step == SettleStep::Settled,
        finality_lag(head_slot, finalized_slot) > MAX_FINALITY_LAG && past_deadline
            ==> step == (SettleStep::TimedOut { lag: finality_lag(head_slot, finalized_slot) }),
        finality_lag(head_slot, finalized_slot) > MAX_FINALITY_LAG && !past_deadline ==> step == SettleStep::Wait,
{
    let lag = head_slot.saturating_sub(finalized_slot);
    if lag <= MAX_FINALITY_LAG {
        SettleStep::Settled
    } else if past_deadline {
        SettleStep::TimedOut { lag }
    } else {
        SettleStep::Wait
    }
}

/// What the pixel-confirmation loop does.
#[derive(Clone, Copy, Debug, PartialEq, Eq, Structural)]
pub enum ConfirmStep {
    /// The deadline has passed before the pixel appeared: give up.
    TimedOut,
    /// The pixel is in storage: the write is confirmed.
    Confirmed,
    /// Sleep and read storage again.
    Wait,
}

/// Decide the next step of waiting for a pixel to appear in storage: the deadline
/// is checked before storage is read; `stored_pixel_matches` is whether the value
/// read holds the pixel.
pub fn confirm_step(past_deadline: bool, stored_pixel_matches: bool) -> (step: ConfirmStep)
    ensures
        past_deadline ==> step == ConfirmStep::TimedOut,
        !past_deadline && stored_pixel_matches ==> step == ConfirmStep::Confirmed,
        !past_deadline && !stored_pixel_matches ==> step == ConfirmStep::Wait,
{
    if past_deadline {
        ConfirmStep::TimedOut
    } else if stored_pixel_matches {
        ConfirmStep::Confirmed
    } else {
        ConfirmStep::Wait
    }
}

/// The longest duration is the maximum: no sample exceeds it, and for a
/// non-empty sequence it is one of the samples (0 for an empty one).
pub proof fn lemma_longest_is_maximum(samples: Seq<u128>)
    ensures
        forall|i: int| 0 <= i < samples.len() ==> #[trigger] samples[i] <= longest(samples),
        samples.len() > 0 ==> exists|i: int| 0 <= i < samples.len() && samples[i] == longest(samples),
        samples.len() == 0 ==> longest(samples) == 0,
    decreases samples.len(),
{
    if samples.len() > 0 {
        let prefix = samples.drop_last();
        lemma_longest_is_maximum(prefix);
        assert forall|i: int| 0 <= i < samples.len() implies #[trigger] samples[i] <= longest(samples) by {
            if i < prefix.len() {
                assert(prefix[i] == samples[i]);
            }
        }
        if samples.last() > longest(prefix) || prefix.len() == 0 {
            assert(samples[samples.len() - 1] == longest(samples));
        } else {
            let i = choose|i: int| 0 <= i < prefix.len() && prefix[i] == longest(prefix);
            assert(samples[i] == longest(samples));
        }
    }
}

} // verus!
