//! The 90 kHz presentation clock.

use vstd::prelude::*;
use crate::error::MuxError;

verus! {

/// Ticks of the presentation clock per second.
pub const TICKS_PER_SECOND: u64 = 90_000;

/// Largest value of a 33-bit timestamp.
pub const MAX_TIMESTAMP: u64 = 0x1_FFFF_FFFF;

/// A frame rate as a fraction: `numerator / denominator` frames per second.
#[derive(Clone, Copy, Debug, PartialEq, Eq, Structural)]
pub struct FrameRate {
    pub numerator: u32,
    pub denominator: u32,
}

impl FrameRate {
    /// A rate is usable when neither part of the fraction is zero.
    pub open spec fn is_valid(self) -> bool {
        self.numerator > 0 && self.denominator > 0
    }

    /// Whether the rate is usable.
    pub fn check(&self) -> (ok: bool)
        ensures
            ok == self.is_valid(),
    {
        self.numerator > 0 && self.denominator > 0
    }
}

/// Clock ticks between frame 0 and frame `sequence_number`:
/// `sequence_number * 90000 / rate`, rounded to the nearest tick, halves up.
pub open spec fn elapsed_ticks(sequence_number: nat, rate: FrameRate) -> nat {
    ((2 * sequence_number * 90_000 * rate.denominator + rate.numerator) / (2 * rate.numerator)) as nat
}

/// The timestamp of frame `sequence_number` of a stream that starts at
/// `base_pts`, before the 33-bit limit is applied.
pub open spec fn presentation_ticks(base_pts: u64, sequence_number: u64, rate: FrameRate) -> nat {
    base_pts as nat + elapsed_ticks(sequence_number as nat, rate)
}

/// Computes the presentation timestamp of a frame.
///
/// Fails with `Configuration` for a zero frame rate and with `ClockOverflow`
/// when the timestamp does not fit in 33 bits.
pub fn presentation_time(base_pts: u64, sequence_number: u64, rate: FrameRate) -> (r: Result<u64, MuxError>)
    ensures
        match r {
            Ok(pts) => rate.is_valid() && pts == presentation_ticks(base_pts, sequence_number, rate)
                && pts <= MAX_TIMESTAMP,
            Err(e) => if !rate.is_valid() {
                e == MuxError::Configuration
            } else {
                e == MuxError::ClockOverflow
                    && presentation_ticks(base_pts, sequence_number, rate) > MAX_TIMESTAMP
            },
        },
{
    if !rate.check() {
        return Err(MuxError::Configuration);
    }
    let n: u128 = sequence_number as u128;
    let den: u128 = rate.denominator as u128;
    let num: u128 = rate.numerator as u128;
    assert(2 * n * 90_000 * den <= 2 * 0xFFFF_FFFF_FFFF_FFFF * 90_000 * 0xFFFF_FFFF) by (nonlinear_arith)
        requires
            0 <= n <= 0xFFFF_FFFF_FFFF_FFFF,
            0 <= den <= 0xFFFF_FFFF,
    ;
    let scaled: u128 = 2 * n * 90_000 * den + num;
    let elapsed: u128 = scaled / (2 * num);
    assert(elapsed == elapsed_ticks(sequence_number as nat, rate));
    let total: u128 = base_pts as u128 + elapsed;
    if total > MAX_TIMESTAMP as u128 {
        Err(MuxError::ClockOverflow)
    } else {
        Ok(total as u64)
    }
}

/// Later frames never get an earlier timestamp.
pub proof fn lemma_elapsed_ticks_monotonic(earlier: nat, later: nat, rate: FrameRate)
    requires
        rate.is_valid(),
        earlier <= later,
    ensures
        elapsed_ticks(earlier, rate) <= elapsed_ticks(later, rate),
{
    let den = rate.denominator as int;
    let num = rate.numerator as int;
    let a = 2 * earlier * 90_000 * den + num;
    let b = 2 * later * 90_000 * den + num;
    assert(0 <= a <= b) by (nonlinear_arith)
        requires
            a == 2 * earlier * 90_000 * den + num,
            b == 2 * later * 90_000 * den + num,
            earlier <= later,
            den > 0,
            num > 0,
    ;
    vstd::arithmetic::div_mod::lemma_div_is_ordered(a, b, 2 * num);
    vstd::arithmetic::div_mod::lemma_div_pos_is_pos(a, 2 * num);
    vstd::arithmetic::div_mod::lemma_div_pos_is_pos(b, 2 * num);
}

/// Timestamps of one stream grow with the frame number.
pub proof fn lemma_presentation_ticks_monotonic(
    base_pts: u64,
    earlier: u64,
    later: u64,
    rate: FrameRate,
)
    requires
        rate.is_valid(),
        earlier <= later,
    ensures
        presentation_ticks(base_pts, earlier, rate) <= presentation_ticks(base_pts, later, rate),
{
    lemma_elapsed_ticks_monotonic(earlier as nat, later as nat, rate);
}

/// At 30 frames per second every frame lasts exactly 3000 ticks.
pub proof fn lemma_thirty_frames_per_second(sequence_number: nat)
    ensures
        elapsed_ticks(sequence_number, FrameRate { numerator: 30, denominator: 1 })
            == 3000 * sequence_number,
{
    let n = sequence_number as int;
    assert(2 * n * 90_000 * 1 + 30 == 60 * (3000 * n) + 30) by (nonlinear_arith);
    assert((60 * (3000 * n) + 30) / 60 == 3000 * n);
}

} // verus!
