//! The built-in oscillators and the weighting of what they give.
//!
//! An oscillator gives its wave on 60 binary places; the sine is taken
//! from its series.  A weighted value is rounded once, to the nearest step
//! of the full scale.

use super::effects::clip;
use crate::data::wave::own::FULL_SCALE;
use vstd::prelude::*;

verus! {

/// The number of steps into which one cycle is divided: a tone of one
/// thousandth of a hertz moves on by one step with every sample.
pub const CYCLE: u64 = 44100000;

/// The number that stands for one in what an oscillator gives: two to the
/// power of 60.
pub const WAVE_UNIT: i64 = 1152921504606846976;

/// The angle of one step of the cycle, in radians and in parts of
/// `WAVE_UNIT`: two pi times `WAVE_UNIT`, divided by `CYCLE`.
pub const STEP_ANGLE: i64 = 164263479775;

/// The shape of an oscillator's wave.
#[derive(Clone, Copy, Debug, PartialEq, Eq, Structural)]
pub enum Waveform {
    Sine,
    Triangle,
    Sawtooth,
}

/// `a / b`, rounded to the nearest whole number, and away from zero where
/// two are equally near.
pub open spec fn div_nearest(a: int, b: int) -> int {
    if a >= 0 {
        (2 * a + b) / (2 * b)
    } else {
        -((-2 * a + b) / (2 * b))
    }
}

/// Where in its cycle a tone of `millihertz` stands `n` samples after it
/// began.
pub open spec fn phase_spec(n: int, millihertz: int) -> int {
    (n * millihertz) % (CYCLE as int)
}

/// The sawtooth at `phase`: it rises evenly from minus one at the start of
/// the cycle to one at its end.
pub open spec fn saw_spec(phase: int) -> int {
    div_nearest((2 * phase - CYCLE) * WAVE_UNIT, CYCLE as int)
}

/// The triangle at `phase`: zero at the start of the cycle, it rises
/// evenly to one at a quarter of the cycle, falls to minus one at three
/// quarters and rises to zero again.
pub open spec fn tri_spec(phase: int) -> int {
    let shifted = (phase + 3 * (CYCLE / 4)) % (CYCLE as int);
    let distance = if shifted >= CYCLE / 2 {
        shifted - CYCLE / 2
    } else {
        CYCLE / 2 - shifted
    };
    div_nearest((4 * distance - CYCLE) * WAVE_UNIT, CYCLE as int)
}

/// One factor of the series of the sine in the form of Horner:
/// `1 - square * inner / divisor`.
pub open spec fn series_term(square: int, inner: int, divisor: int) -> int {
    WAVE_UNIT - square * inner / (WAVE_UNIT as int) / divisor
}

/// The sine of the angle `x` by its series up to the power of 15,
/// `x - x^3 / 3! + x^5 / 5! - .. - x^15 / 15!`, the angle and the sine in
/// parts of `WAVE_UNIT`.
pub open spec fn sine_series(x: int) -> int {
    let square = x * x / (WAVE_UNIT as int);
    let to_15 = series_term(square, WAVE_UNIT as int, 14int * 15);
    let to_13 = series_term(square, to_15, 12int * 13);
    let to_11 = series_term(square, to_13, 10int * 11);
    let to_9 = series_term(square, to_11, 8int * 9);
    let to_7 = series_term(square, to_9, 6int * 7);
    let to_5 = series_term(square, to_7, 4int * 5);
    let to_3 = series_term(square, to_5, 2int * 3);
    x * to_3 / (WAVE_UNIT as int)
}

/// The sine in the first quarter of the cycle, `steps` steps after its
/// start: the series of the sine for the angle of these steps, and no
/// more than one.
pub open spec fn quarter_sine(steps: int) -> int {
    let sine = sine_series(steps * STEP_ANGLE);
    if sine > WAVE_UNIT {
        WAVE_UNIT as int
    } else {
        sine
    }
}

/// The steps from `phase` to the nearest zero of the sine.
pub open spec fn steps_to_zero(phase: int) -> int {
    let passed = phase % (CYCLE as int / 2);
    if passed > CYCLE / 4 {
        CYCLE / 2 - passed
    } else {
        passed
    }
}

/// The sine at `phase`: in the first half of the cycle the sine of the
/// first quarter at as many steps as lie between `phase` and the nearest
/// zero, and in the second half the negative of it.
pub open spec fn sin_spec(phase: int) -> int {
    if phase < CYCLE / 2 {
        quarter_sine(steps_to_zero(phase))
    } else {
        -quarter_sine(steps_to_zero(phase))
    }
}

/// The value of an oscillator at `phase`, in parts of `WAVE_UNIT`.
pub open spec fn wave_spec(waveform: Waveform, phase: int) -> int {
    match waveform {
        Waveform::Sine => sin_spec(phase),
        Waveform::Triangle => tri_spec(phase),
        Waveform::Sawtooth => saw_spec(phase),
    }
}

/// A sample weighted by a level in tenths, a volume in thousandths and a
/// weight of pan in thousandths, in the nearest whole number.
pub open spec fn weighted(value: int, tenths: int, vol: int, pan_weight: int) -> int {
    div_nearest(value * tenths * vol * pan_weight, 10000000)
}

/// What an oscillator gives, weighted by a level in tenths, a volume in
/// thousandths and a weight of pan in thousandths: the nearest step of the
/// full scale.
pub open spec fn weighted_wave(wave: int, tenths: int, vol: int, pan_weight: int) -> int {
    div_nearest(wave * FULL_SCALE * tenths * vol * pan_weight, WAVE_UNIT * 10000000)
}

/// The weight of the left channel at a pan of `pan` thousandths.
pub open spec fn left_weight(pan: int) -> int {
    1000 - pan
}

/// The weight of the right channel at a pan of `pan` thousandths.
pub open spec fn right_weight(pan: int) -> int {
    1000 + pan
}

/// The level of the oscillators, in tenths.
pub const OSCILLATOR_TENTHS: i64 = 3;

/// The level of the sampled instruments, in tenths.
pub const SAMPLE_TENTHS: i64 = 5;

/// `a / b` for a dividend that is not negative and less than `b` times
/// the number after `bound` lies between zero and `bound`.
proof fn lemma_quotient_bounded(a: int, b: int, bound: int)
    requires
        0 <= a < (bound + 1) * b,
        0 < b,
    ensures
        0 <= a / b <= bound,
{
    vstd::arithmetic::div_mod::lemma_fundamental_div_mod(a, b);
    vstd::arithmetic::div_mod::lemma_div_pos_is_pos(a, b);
    let q = a / b;
    if q > bound {
        assert((bound + 1) * b <= b * q) by (nonlinear_arith)
            requires
                bound + 1 <= q,
                0 < b,
        ;
    }
}

/// The sine is zero at the start of the cycle and in the middle of it; the
/// second quarter of the cycle is the first seen from its end, and the
/// second half of the cycle is the first turned over.
pub proof fn law_sine_shape(phase: int)
    requires
        0 <= phase <= CYCLE / 2,
    ensures
        sin_spec(0) == 0,
        sin_spec(CYCLE as int / 2) == 0,
        phase < CYCLE / 2 ==> sin_spec(phase + CYCLE / 2) == -sin_spec(phase),
        0 < phase ==> sin_spec(CYCLE / 2 - phase) == sin_spec(phase),
{
    let half = CYCLE as int / 2;
    assert(half == 22050000);
    assert(0int * STEP_ANGLE == 0);
    assert(sine_series(0) == 0);
    assert(steps_to_zero(0) == 0 && steps_to_zero(half) == 0);
    if phase < half {
        vstd::arithmetic::div_mod::lemma_fundamental_div_mod_converse(phase + half, half, 1, phase);
        vstd::arithmetic::div_mod::lemma_fundamental_div_mod_converse(phase, half, 0, phase);
        if 0 < phase {
            vstd::arithmetic::div_mod::lemma_fundamental_div_mod_converse(
                half - phase,
                half,
                0,
                half - phase,
            );
        }
    }
}

/// At its peaks the sine is so near to one that a weight of one gives the
/// full scale, after a quarter of the cycle, and its negative after three
/// quarters.
pub proof fn law_sine_peak()
    ensures
        sin_spec(CYCLE as int / 4) == 1152921504599902445,
        sin_spec(3 * (CYCLE as int / 4)) == -1152921504599902445,
        weighted_wave(sin_spec(CYCLE as int / 4), 10, 1000, 1000) == FULL_SCALE,
        weighted_wave(sin_spec(3 * (CYCLE as int / 4)), 10, 1000, 1000) == -FULL_SCALE,
{
    let unit = WAVE_UNIT as int;
    assert(CYCLE as int / 2 == 22050000 && CYCLE as int / 4 == 11025000);
    assert(steps_to_zero(11025000) == 11025000);
    assert(steps_to_zero(33075000) == 11025000);
    let x = 11025000 * (STEP_ANGLE as int);
    assert(x == 1811004864519375000);
    let square = x * x / unit;
    assert(square == 2844719788994871759);
    let to_15 = series_term(square, unit, 210);
    assert(to_15 == 1139375219897347587);
    let to_13 = series_term(square, to_15, 156);
    assert(to_13 == 1134900378509423598);
    let to_11 = series_term(square, to_13, 110);
    assert(to_11 == 1127464646037447539);
    let to_9 = series_term(square, to_11, 72);
    assert(to_9 == 1114283900326968481);
    let to_7 = series_term(square, to_9, 42);
    assert(to_7 == 1087459949328685015);
    let to_5 = series_term(square, to_7, 20);
    assert(to_5 == 1018761510833048000);
    let to_3 = series_term(square, to_5, 6);
    assert(to_3 == 733972625816041067);
    assert(sine_series(x) == x * to_3 / unit);
    assert(x * to_3 / unit == 1152921504599902445);
    assert(quarter_sine(11025000) == 1152921504599902445);
    assert(1152921504599902445int * FULL_SCALE * 10 * 1000 * 1000
        == 96333336300123758709053250000000);
    assert(unit * 10000000 == 11529215046068469760000000);
    assert((2 * 96333336300123758709053250000000int + 11529215046068469760000000)
        / 23058430092136939520000000 == 8355585);
}

/// Where in its cycle a tone of `millihertz` stands `n` samples after it
/// began.
pub fn phase(n: u64, millihertz: u32) -> (p: u64)
    ensures
        p == phase_spec(n as int, millihertz as int),
        p < CYCLE,
{
    assert(n * millihertz <= 0xffff_ffff_ffff_ffff * 0xffff_ffff) by (nonlinear_arith)
        requires
            0 <= n <= 0xffff_ffff_ffff_ffff,
            0 <= millihertz <= 0xffff_ffff,
    ;
    (((n as u128) * (millihertz as u128)) % (CYCLE as u128)) as u64
}

/// A number so great that no product in this module comes near it, and so
/// small that twice the number can be counted.
const FAR: i128 = 0x1000_0000_0000_0000_0000_0000_0000_0000;

/// `a / b` in the nearest whole number.
fn nearest(a: i128, b: i128) -> (q: i128)
    requires
        0 < b <= 0x1_0000_0000_0000_0000_0000_0000,
        -FAR <= a <= FAR,
    ensures
        q == div_nearest(a as int, b as int),
        a >= 0 ==> 0 <= q <= a,
        a <= 0 ==> a <= q <= 0,
{
    if a >= 0 {
        proof {
            assert(2 * a + b < (a + 1) * (2 * b)) by (nonlinear_arith)
                requires
                    0 <= a,
                    0 < b,
            ;
            lemma_quotient_bounded(2 * a + b, 2 * b, a as int);
        }
        (2 * a + b) / (2 * b)
    } else {
        proof {
            assert(-2 * a + b < (-a + 1) * (2 * b)) by (nonlinear_arith)
                requires
                    a < 0,
                    0 < b,
            ;
            lemma_quotient_bounded(-2 * a + b, 2 * b, -a as int);
        }
        -((-2 * a + b) / (2 * b))
    }
}

/// `rise` parts in `CYCLE` of one.
fn scaled(rise: i64) -> (value: i64)
    requires
        -(CYCLE as int) <= rise <= CYCLE as int,
    ensures
        value == div_nearest(rise * WAVE_UNIT, CYCLE as int),
        -WAVE_UNIT <= value <= WAVE_UNIT,
{
    let unit = WAVE_UNIT as i128;
    proof {
        assert(-(44100000 * unit) <= rise * unit <= 44100000 * unit) by (nonlinear_arith)
            requires
                -44100000 <= rise <= 44100000,
                unit > 0,
        ;
        if rise >= 0 {
            lemma_quotient_bounded(2 * (rise * unit) + CYCLE, 2 * CYCLE, unit as int);
        } else {
            lemma_quotient_bounded(-2 * (rise * unit) + CYCLE, 2 * CYCLE, unit as int);
        }
    }
    let product: i128 = rise as i128 * unit;
    nearest(product, CYCLE as i128) as i64
}

/// The sawtooth at `phase`, in parts of `WAVE_UNIT`.
pub fn saw(phase: u64) -> (value: i64)
    requires
        phase < CYCLE,
    ensures
        value == saw_spec(phase as int),
        -WAVE_UNIT <= value <= WAVE_UNIT,
{
    let rise: i64 = 2 * (phase as i64) - CYCLE as i64;
    scaled(rise)
}

/// The triangle at `phase`, in parts of `WAVE_UNIT`.
pub fn tri(phase: u64) -> (value: i64)
    requires
        phase < CYCLE,
    ensures
        value == tri_spec(phase as int),
        -WAVE_UNIT <= value <= WAVE_UNIT,
{
    let shifted: u64 = (phase + 3 * (CYCLE / 4)) % CYCLE;
    let distance: u64 = if shifted >= CYCLE / 2 {
        shifted - CYCLE / 2
    } else {
        CYCLE / 2 - shifted
    };
    scaled(4 * (distance as i64) - CYCLE as i64)
}

/// One factor of the series of the sine.
fn term(square: u128, inner: u128, divisor: u128) -> (t: u128)
    requires
        square <= 4 * WAVE_UNIT,
        inner <= WAVE_UNIT,
        6 <= divisor,
    ensures
        t == series_term(square as int, inner as int, divisor as int),
        t <= WAVE_UNIT,
{
    let unit = WAVE_UNIT as u128;
    proof {
        assert(0 <= square * inner < (4 * unit + 1) * unit) by (nonlinear_arith)
            requires
                0 <= square <= 4 * unit,
                0 <= inner <= unit,
                unit > 0,
        ;
        lemma_quotient_bounded(square * inner, unit as int, 4 * unit);
        let part = square * inner / (unit as int);
        assert(part < (unit + 1) * divisor) by (nonlinear_arith)
            requires
                0 <= part <= 4 * unit,
                6 <= divisor,
        ;
        lemma_quotient_bounded(part, divisor as int, unit as int);
    }
    unit - square * inner / unit / divisor
}

/// The sine in the first quarter of the cycle, `steps` steps after its
/// start.
fn quarter(steps: u64) -> (value: i64)
    requires
        steps <= CYCLE / 4,
    ensures
        value == quarter_sine(steps as int),
        0 <= value <= WAVE_UNIT,
{
    let unit = WAVE_UNIT as u128;
    proof {
        assert(0 <= steps * STEP_ANGLE <= 11025000 * 164263479775) by (nonlinear_arith)
            requires
                0 <= steps <= 11025000,
                STEP_ANGLE == 164263479775,
        ;
    }
    let x: u128 = steps as u128 * STEP_ANGLE as u128;
    proof {
        assert(0 <= x * x < (4 * unit + 1) * unit) by (nonlinear_arith)
            requires
                0 <= x <= 2 * unit,
                unit > 0,
        ;
        lemma_quotient_bounded(x * x, unit as int, 4 * unit);
    }
    let square: u128 = x * x / unit;
    let to_15 = term(square, unit, 14 * 15);
    let to_13 = term(square, to_15, 12 * 13);
    let to_11 = term(square, to_13, 10 * 11);
    let to_9 = term(square, to_11, 8 * 9);
    let to_7 = term(square, to_9, 6 * 7);
    let to_5 = term(square, to_7, 4 * 5);
    let to_3 = term(square, to_5, 2 * 3);
    proof {
        assert(0 <= x * to_3 < (2 * unit + 1) * unit) by (nonlinear_arith)
            requires
                0 <= x <= 2 * unit,
                0 <= to_3 <= unit,
                unit > 0,
        ;
        lemma_quotient_bounded(x * to_3, unit as int, 2 * unit);
    }
    let sine: u128 = x * to_3 / unit;
    if sine > unit {
        WAVE_UNIT
    } else {
        sine as i64
    }
}

/// The sine at `phase`, in parts of `WAVE_UNIT`.
pub fn sin(phase: u64) -> (value: i64)
    requires
        phase < CYCLE,
    ensures
        value == sin_spec(phase as int),
        -WAVE_UNIT <= value <= WAVE_UNIT,
{
    let half: u64 = CYCLE / 2;
    let passed: u64 = phase % half;
    let steps: u64 = if passed > CYCLE / 4 {
        half - passed
    } else {
        passed
    };
    if phase < half {
        quarter(steps)
    } else {
        -quarter(steps)
    }
}

/// The value of an oscillator at `phase`, in parts of `WAVE_UNIT`.
pub fn wave(waveform: Waveform, phase: u64) -> (value: i64)
    requires
        phase < CYCLE,
    ensures
        value == wave_spec(waveform, phase as int),
        -WAVE_UNIT <= value <= WAVE_UNIT,
{
    match waveform {
        Waveform::Sine => sin(phase),
        Waveform::Triangle => tri(phase),
        Waveform::Sawtooth => saw(phase),
    }
}

/// `acc + part`, clipped.
fn add_clipped(acc: i32, part: i128) -> (sum: i32)
    requires
        -FAR <= part <= FAR,
    ensures
        sum == clip(acc + part),
{
    let sum: i128 = acc as i128 + part;
    if sum < i32::MIN as i128 {
        i32::MIN
    } else if sum > i32::MAX as i128 {
        i32::MAX
    } else {
        sum as i32
    }
}

/// The sample `acc` with the sample `value` added to it, weighted and
/// clipped.
pub fn add_weighted(acc: i32, value: i32, tenths: i64, vol: u16, pan_weight: i64) -> (sum: i32)
    requires
        0 <= tenths <= 10,
        -0x10000 <= pan_weight <= 0x10000,
    ensures
        sum == clip(acc + weighted(value as int, tenths as int, vol as int, pan_weight as int)),
{
    assert(-0x8000_0000 * 10 <= value * tenths <= 0x8000_0000 * 10) by (nonlinear_arith)
        requires
            -0x8000_0000 <= value <= 0x8000_0000,
            0 <= tenths <= 10,
    ;
    let by_level: i128 = (value as i128) * (tenths as i128);
    assert(-0x8000_0000 * 10 * 0x10000 <= by_level * vol <= 0x8000_0000 * 10 * 0x10000)
        by (nonlinear_arith)
        requires
            -0x8000_0000 * 10 <= by_level <= 0x8000_0000 * 10,
            0 <= vol <= 0x10000,
    ;
    let by_volume: i128 = by_level * (vol as i128);
    assert(-0x8000_0000 * 10 * 0x10000 * 0x10000 <= by_volume * pan_weight <= 0x8000_0000 * 10
        * 0x10000 * 0x10000) by (nonlinear_arith)
        requires
            -0x8000_0000 * 10 * 0x10000 <= by_volume <= 0x8000_0000 * 10 * 0x10000,
            -0x10000 <= pan_weight <= 0x10000,
    ;
    let product: i128 = by_volume * (pan_weight as i128);
    add_clipped(acc, nearest(product, 10000000))
}

/// The sample `acc` with what an oscillator gives added to it, weighted
/// and clipped.
pub fn add_weighted_wave(acc: i32, wave: i64, tenths: i64, vol: u16, pan_weight: i64) -> (sum: i32)
    requires
        -WAVE_UNIT <= wave <= WAVE_UNIT,
        0 <= tenths <= 10,
        -0x10000 <= pan_weight <= 0x10000,
    ensures
        sum == clip(
            acc + weighted_wave(wave as int, tenths as int, vol as int, pan_weight as int),
        ),
{
    let bound: i128 = WAVE_UNIT as i128 * FULL_SCALE as i128;
    assert(-bound <= wave * FULL_SCALE <= bound) by (nonlinear_arith)
        requires
            -WAVE_UNIT <= wave <= WAVE_UNIT,
            bound == WAVE_UNIT * FULL_SCALE,
            FULL_SCALE > 0,
    ;
    let at_scale: i128 = (wave as i128) * (FULL_SCALE as i128);
    assert(-bound * 10 <= at_scale * tenths <= bound * 10) by (nonlinear_arith)
        requires
            -bound <= at_scale <= bound,
            0 <= tenths <= 10,
    ;
    let by_level: i128 = at_scale * (tenths as i128);
    assert(-bound * 10 * 0x10000 <= by_level * vol <= bound * 10 * 0x10000) by (nonlinear_arith)
        requires
            -bound * 10 <= by_level <= bound * 10,
            0 <= vol <= 0x10000,
    ;
    let by_volume: i128 = by_level * (vol as i128);
    assert(-bound * 10 * 0x10000 * 0x10000 <= by_volume * pan_weight <= bound * 10 * 0x10000
        * 0x10000) by (nonlinear_arith)
        requires
            -bound * 10 * 0x10000 <= by_volume <= bound * 10 * 0x10000,
            -0x10000 <= pan_weight <= 0x10000,
    ;
    let product: i128 = by_volume * (pan_weight as i128);
    add_clipped(acc, nearest(product, WAVE_UNIT as i128 * 10000000))
}

} // verus!
