//! A wave read at another sample rate.

use super::own::{Data, Wave};
use vstd::prelude::*;

verus! {

/// The sample of `v` at the position `idx + frac / den`: the samples at
/// `idx` and at `idx + 1`, weighted by their nearness and rounded down.  A
/// neighbour that `v` does not have counts as zero.
pub open spec fn interpolated(v: Seq<i32>, idx: int, frac: int, den: int) -> int {
    let left = if 0 <= idx < v.len() {
        v[idx] as int
    } else {
        0
    };
    let right = if 0 <= idx + 1 < v.len() {
        v[idx + 1] as int
    } else {
        0
    };
    ((den - frac) * left + frac * right) / den
}

/// The number of samples that a channel of `n` samples has after a change
/// of rate from `old` to `new`: one for each multiple of `old / new` that
/// is less than `n - 1`.  At a new rate of zero the step `old / new` is
/// beyond all measure, and the only position read is the first.
pub open spec fn resampled_len(n: int, old: int, new: int) -> int {
    if n <= 1 {
        0
    } else if new == 0 {
        1
    } else {
        ((n - 1) * new + old - 1) / old
    }
}

/// The channel `v` after a change of rate from `old` to `new`: sample `k`
/// is read at the position `k * old / new` of `v`, the first sample at the
/// first position.
pub open spec fn resample_spec(v: Seq<i32>, old: int, new: int) -> Seq<i32> {
    Seq::new(
        resampled_len(v.len() as int, old, new) as nat,
        |k: int|
            if new == 0 {
                v[0]
            } else {
                interpolated(v, (k * old) / new, (k * old) % new, new) as i32
            },
    )
}

/// A value between two samples, weighted, lies between them.
proof fn lemma_interpolated_between(left: int, right: int, frac: int, den: int)
    requires
        0 <= frac < den,
    ensures
        left <= right ==> left <= ((den - frac) * left + frac * right) / den <= right,
        right <= left ==> right <= ((den - frac) * left + frac * right) / den <= left,
        left <= right ==> den * left <= (den - frac) * left + frac * right <= den * right,
        right <= left ==> den * right <= (den - frac) * left + frac * right <= den * left,
{
    let num = (den - frac) * left + frac * right;
    assert(num == den * left + frac * (right - left)) by (nonlinear_arith)
        requires
            num == (den - frac) * left + frac * right,
    ;
    assert(num == den * right - (den - frac) * (right - left)) by (nonlinear_arith)
        requires
            num == (den - frac) * left + frac * right,
    ;
    if left <= right {
        assert(0 <= frac * (right - left)) by (nonlinear_arith)
            requires
                0 <= frac,
                left <= right,
        ;
        assert(0 <= (den - frac) * (right - left)) by (nonlinear_arith)
            requires
                frac < den,
                left <= right,
        ;
    } else {
        assert(frac * (right - left) <= 0) by (nonlinear_arith)
            requires
                0 <= frac,
                right <= left,
        ;
        assert((den - frac) * (right - left) <= 0) by (nonlinear_arith)
            requires
                frac < den,
                right <= left,
        ;
    }
    let lo = if left <= right { left } else { right };
    let hi = if left <= right { right } else { left };
    assert(den * lo <= num <= den * hi);
    vstd::arithmetic::div_mod::lemma_div_is_ordered(den * lo, num, den);
    vstd::arithmetic::div_mod::lemma_div_is_ordered(num, den * hi, den);
    vstd::arithmetic::div_mod::lemma_div_multiples_vanish(lo, den);
    vstd::arithmetic::div_mod::lemma_div_multiples_vanish(hi, den);
}

/// `a / b`, rounded down.
fn div_floor(a: i64, b: i64) -> (q: i64)
    requires
        b > 0,
    ensures
        q == a as int / b as int,
{
    if a >= 0 {
        a / b
    } else {
        let below: i64 = -(a + 1);
        let t: i64 = below / b;
        proof {
            let r = below as int % b as int;
            vstd::arithmetic::div_mod::lemma_fundamental_div_mod(below as int, b as int);
            assert(a as int == (-(t + 1)) * b + (b - 1 - r)) by (nonlinear_arith)
                requires
                    below as int == b * t + r,
                    below as int == -(a as int + 1),
            ;
            vstd::arithmetic::div_mod::lemma_fundamental_div_mod_converse(
                a as int,
                b as int,
                -(t + 1),
                b - 1 - r,
            );
        }
        -t - 1
    }
}

/// The sample of `v` at the position `idx + frac / den`.
fn interpolate(v: &Vec<i32>, idx: usize, frac: u32, den: u32) -> (sample: i32)
    requires
        frac < den,
    ensures
        sample == interpolated(v@, idx as int, frac as int, den as int),
{
    let left: i64 = if idx < v.len() {
        v[idx] as i64
    } else {
        0
    };
    let right: i64 = if idx < v.len() && idx + 1 < v.len() {
        v[idx + 1] as i64
    } else {
        0
    };
    proof {
        lemma_interpolated_between(left as int, right as int, frac as int, den as int);
        assert(-0x8000_0000 * (den as int) <= (den as int) * (left as int) <= 0x8000_0000 * (
        den as int) && -0x8000_0000 * (den as int) <= (den as int) * (right as int) <= 0x8000_0000
            * (den as int)) by (nonlinear_arith)
            requires
                -0x8000_0000 <= left <= 0x8000_0000,
                -0x8000_0000 <= right <= 0x8000_0000,
                0 < den,
        ;
        assert(0 <= (den - frac) * left <= den * left || den * left <= (den - frac) * left <= 0)
            by (nonlinear_arith)
            requires
                0 <= frac < den,
        ;
        assert(0 <= frac * right <= den * right || den * right <= frac * right <= 0)
            by (nonlinear_arith)
            requires
                0 <= frac < den,
        ;
    }
    let near: i64 = (den as i64 - frac as i64) * left;
    let far: i64 = (frac as i64) * right;
    div_floor(near + far, den as i64) as i32
}

/// The channel `v` after a change of rate from `old` to `new`.
fn resample_channel(v: &Vec<i32>, old: u32, new: u32) -> (out: Vec<i32>)
    requires
        old > 0,
        resampled_len(v@.len() as int, old as int, new as int) <= usize::MAX,
    ensures
        out@ == resample_spec(v@, old as int, new as int),
{
    let mut out: Vec<i32> = Vec::new();
    let n = v.len();
    if n <= 1 {
        assert(out@ =~= resample_spec(v@, old as int, new as int));
        return out;
    }
    if new == 0 {
        out.push(v[0]);
        assert(out@ =~= resample_spec(v@, old as int, new as int));
        return out;
    }
    let mut idx: u128 = 0;
    let mut frac: u32 = 0;
    let ghost mut k: int = 0;
    while idx < (n - 1) as u128
        invariant
            n == v@.len(),
            n >= 2,
            old > 0,
            new > 0,
            resampled_len(n as int, old as int, new as int) <= usize::MAX,
            0 <= k,
            out@.len() == k,
            idx * new + frac == k * old,
            frac < new,
            idx <= n + 0x2_0000_0000,
            k * old < (n - 1) * new + old,
            forall|j: int|
                0 <= j < k ==> out@[j] == interpolated(
                    v@,
                    (j * old) / (new as int),
                    (j * old) % (new as int),
                    new as int,
                ) as i32,
        decreases resampled_len(n as int, old as int, new as int) - k,
    {
        proof {
            let total = (n - 1) * new + old - 1;
            let len = resampled_len(n as int, old as int, new as int);
            vstd::arithmetic::div_mod::lemma_fundamental_div_mod(total, old as int);
            assert((idx + 1) * new <= (n - 1) * new) by (nonlinear_arith)
                requires
                    idx + 1 <= n - 1,
                    new > 0,
            ;
            assert((idx + 1) * new == idx * new + new) by (nonlinear_arith);
            assert(k < len) by (nonlinear_arith)
                requires
                    k * old < (n - 1) * new,
                    total == old * len + total % (old as int),
                    total == (n - 1) * new + old - 1,
                    0 <= total % (old as int) < old,
            ;
            vstd::arithmetic::div_mod::lemma_fundamental_div_mod_converse(
                k * old,
                new as int,
                idx as int,
                frac as int,
            );
        }
        out.push(interpolate(v, idx as usize, frac, new));
        let moved: u64 = frac as u64 + old as u64;
        let whole: u64 = moved / (new as u64);
        proof {
            vstd::arithmetic::div_mod::lemma_fundamental_div_mod(moved as int, new as int);
            assert((idx + whole) * new + (moved % (new as u64)) == (k + 1) * old)
                by (nonlinear_arith)
                requires
                    idx * new + frac == k * old,
                    moved == frac + old,
                    moved as int == new * (moved as int / new as int) + moved as int % new as int,
                    whole == moved as int / new as int,
                    (moved % (new as u64)) as int == moved as int % new as int,
            ;
            assert(whole <= moved);
        }
        idx = idx + whole as u128;
        frac = (moved % (new as u64)) as u32;
        proof {
            k = k + 1;
            assert((k - 1) * old + old == k * old) by (nonlinear_arith);
        }
    }
    proof {
        assert((n - 1) * new <= idx * new) by (nonlinear_arith)
            requires
                n - 1 <= idx,
                new > 0,
        ;
        let total = (n - 1) * new + old - 1;
        assert(total == old * k + (total - k * old)) by (nonlinear_arith);
        vstd::arithmetic::div_mod::lemma_fundamental_div_mod_converse(
            total,
            old as int,
            k,
            total - k * old,
        );
        assert(out@ =~= resample_spec(v@, old as int, new as int));
    }
    out
}

impl Wave {
    /// The wave at another sample rate.
    ///
    /// Sample `k` of the result is read at the position
    /// `k * old rate / new rate` of this wave, between the two samples
    /// nearest to it, for as long as that position is less than
    /// `sample_num - 1`.  The wave must have a sample rate, or the
    /// positions would never move on.
    pub fn change_sample_rate(&self, sample_rate: u32) -> (wave: Wave)
        requires
            self.wf(),
            self.sample_rate > 0,
            resampled_len(self.sample_num as int, self.sample_rate as int, sample_rate as int)
                <= usize::MAX,
        ensures
            wave.wf(),
            wave.sample_rate == sample_rate,
            wave.sample_num == resampled_len(
                self.sample_num as int,
                self.sample_rate as int,
                sample_rate as int,
            ),
            wave.data.channels() == self.data.channels(),
            wave.data.left() == resample_spec(
                self.data.left(),
                self.sample_rate as int,
                sample_rate as int,
            ),
            wave.data.right() == resample_spec(
                self.data.right(),
                self.sample_rate as int,
                sample_rate as int,
            ),
    {
        let new_data = match &self.data {
            Data::Monoral(wave) => {
                Data::Monoral(resample_channel(wave, self.sample_rate, sample_rate))
            },
            Data::Stereo(waves) => {
                let new_left_wave = resample_channel(&waves.0, self.sample_rate, sample_rate);
                let new_right_wave = resample_channel(&waves.1, self.sample_rate, sample_rate);
                Data::Stereo((new_left_wave, new_right_wave))
            },
        };
        let new_sample_num = match &new_data {
            Data::Monoral(wave) => wave.len(),
            Data::Stereo(waves) => waves.0.len(),
        };
        Wave { data: new_data, sample_num: new_sample_num, sample_rate }
    }
}

/// After a change of rate, the last sample was read before the position
/// `n - 1` of the old wave, and the next one would be read at or after it.
/// The new length is therefore the ideal length `n * new / old` less an
/// amount between `new / old - 1`, excluded, and `new / old`, included.
pub proof fn law_resampled_len_bounds(n: int, old: int, new: int)
    requires
        n >= 1,
        old > 0,
        new > 0,
    ensures
        resampled_len(n, old, new) >= 0,
        (n - 1) * new <= resampled_len(n, old, new) * old < (n - 1) * new + old,
        -new <= resampled_len(n, old, new) * old - n * new < old - new,
{
    if n == 1 {
        assert(resampled_len(n, old, new) * old == 0) by (nonlinear_arith)
            requires
                resampled_len(n, old, new) == 0,
        ;
        assert((n - 1) * new == 0) by (nonlinear_arith)
            requires
                n == 1,
        ;
        assert(n * new == new) by (nonlinear_arith)
            requires
                n == 1,
        ;
    } else {
        let total = (n - 1) * new + old - 1;
        let len = resampled_len(n, old, new);
        assert(0 <= (n - 1) * new) by (nonlinear_arith)
            requires
                n >= 1,
                new > 0,
        ;
        vstd::arithmetic::div_mod::lemma_fundamental_div_mod(total, old);
        vstd::arithmetic::div_mod::lemma_div_pos_is_pos(total, old);
        assert(len * old == old * len) by (nonlinear_arith);
        assert(n * new == (n - 1) * new + new) by (nonlinear_arith);
    }
}

/// Where the new rate is half the old one, the new length is within half a
/// sample of the ideal length `n * new / old`.
pub proof fn law_resampled_len_near_half(n: int, old: int, new: int)
    requires
        n >= 0,
        old > 0,
        new > 0,
        old - 2 <= 2 * new <= old,
    ensures
        2 * (resampled_len(n, old, new) * old - n * new) <= old,
        2 * (n * new - resampled_len(n, old, new) * old) <= old,
{
    if n == 0 {
        assert(resampled_len(n, old, new) * old == 0) by (nonlinear_arith)
            requires
                resampled_len(n, old, new) == 0,
        ;
        assert(n * new == 0) by (nonlinear_arith)
            requires
                n == 0,
        ;
    } else {
        law_resampled_len_bounds(n, old, new);
    }
}

} // verus!
