//! Fixed-point model of audio samples and gains.
//!
//! A sample is an `i64` count of ten-millionths: `SCALE` stands for the
//! amplitude 1.0, so a source sample lies in `[-SCALE, SCALE]`. A gain is a
//! `u32` count of thousandths in `[0, GAIN_SCALE]`.

use vstd::prelude::*;

verus! {

/// The fixed-point unit: 1.0 as ten-millionths (seven fractional digits).
pub const SCALE: i64 = 10_000_000;

/// The gain unit: 1.0 as thousandths.
pub const GAIN_SCALE: u32 = 1000;

/// The noise-gate threshold, 0.01, in sample units.
pub const NOISE_GATE: i64 = 100_000;

/// Capacity of every broadcast stage.
pub const BUFFER_LENGTH: usize = 1_000_000;

/// Largest backlog a subscriber may reach before it is evicted.
pub const MAX_TOLERATED_MESSAGE_COUNT: usize = 10;

/// Playback ring limit: above this many queued samples everything is dropped.
pub const BUFFER_LIMIT: usize = 900_000;

/// Absolute value of a mathematical integer.
pub open spec fn abs(x: int) -> int {
    if x >= 0 {
        x
    } else {
        -x
    }
}

/// A source sample: an amplitude in [-1.0, 1.0].
pub open spec fn in_unit_range(s: i64) -> bool {
    -(SCALE as int) <= s <= SCALE as int
}

/// A mixed sample: soft clipping can push amplitudes up to 10.0.
pub open spec fn in_mix_range(s: i64) -> bool {
    -10 * (SCALE as int) <= s <= 10 * (SCALE as int)
}

/// A gain value: in [0.0, 1.0].
pub open spec fn valid_gain(g: u32) -> bool {
    g <= GAIN_SCALE
}

/// Ten to the power `e`.
pub open spec fn pow10(e: nat) -> int
    decreases e,
{
    if e == 0 {
        1
    } else {
        10 * pow10((e - 1) as nat)
    }
}

/// Powers of ten are positive.
pub proof fn lemma_pow10_pos(e: nat)
    ensures
        pow10(e) >= 1,
    decreases e,
{
    if e > 0 {
        lemma_pow10_pos((e - 1) as nat);
    }
}

/// Powers of ten multiply by adding exponents.
pub proof fn lemma_pow10_adds(a: nat, b: nat)
    ensures
        pow10(a) * pow10(b) == pow10(a + b),
    decreases a,
{
    if a == 0 {
        assert(pow10(0) * pow10(b) == pow10(b));
    } else {
        lemma_pow10_adds((a - 1) as nat, b);
        assert(pow10(a) * pow10(b) == 10 * pow10((a - 1) as nat) * pow10(b));
        assert(10 * pow10((a - 1) as nat) * pow10(b) == 10 * (pow10((a - 1) as nat) * pow10(b)))
            by (nonlinear_arith);
    }
}

/// Powers of ten grow with the exponent.
pub proof fn lemma_pow10_mono(a: nat, b: nat)
    requires
        a <= b,
    ensures
        pow10(a) <= pow10(b),
    decreases b,
{
    if a < b {
        lemma_pow10_mono(a, (b - 1) as nat);
        lemma_pow10_pos((b - 1) as nat);
    }
}

/// Executable absolute value of a sample.
pub fn sample_abs(s: i64) -> (r: i64)
    requires
        in_mix_range(s),
    ensures
        r == abs(s as int),
{
    if s < 0 {
        -s
    } else {
        s
    }
}

} // verus!
