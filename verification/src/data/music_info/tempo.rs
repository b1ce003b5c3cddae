use super::beat::Beat;
use vstd::prelude::*;

verus! {

/// The number of samples that one second takes.
pub const SAMPLE_RATE: u64 = 44100;

/// The number of steps of tempo in one beat per minute.
pub const STEPS_PER_BPM: u64 = 1024;

/// A tempo, in 1024ths of a beat per minute: the number of ticks that one
/// sample takes.
#[derive(Clone, Copy, Debug, PartialEq, Eq, Structural)]
pub struct Tempo {
    pub ticks_per_sample: u64,
}

/// The ticks that pass in `samples` samples at a tempo of
/// `ticks_per_sample`, as far as a beat can count them.
pub open spec fn ticks_in(ticks_per_sample: int, samples: int) -> int {
    if samples * ticks_per_sample > i64::MAX {
        i64::MAX as int
    } else {
        samples * ticks_per_sample
    }
}

/// The whole samples that pass in `ticks` ticks at a tempo of
/// `ticks_per_sample`: none in no time or less, and more than can be
/// counted at a tempo of zero.
pub open spec fn samples_in(ticks_per_sample: int, ticks: int) -> int {
    if ticks <= 0 {
        0
    } else if ticks_per_sample == 0 {
        u64::MAX as int
    } else {
        ticks / ticks_per_sample
    }
}

impl Tempo {
    /// A tempo of a whole number of beats per minute.
    pub fn from_bpm(bpm: u32) -> (tempo: Tempo)
        ensures
            tempo.ticks_per_sample == bpm * STEPS_PER_BPM,
    {
        Tempo { ticks_per_sample: bpm as u64 * STEPS_PER_BPM }
    }

    /// The tempo at which one sample takes `ticks_per_sample` ticks.
    pub fn from_ticks_per_sample(ticks_per_sample: u64) -> (tempo: Tempo)
        ensures
            tempo.ticks_per_sample == ticks_per_sample,
    {
        Tempo { ticks_per_sample }
    }

    /// The time that passes in `samples` samples.
    pub fn beats_in(&self, samples: u64) -> (beat: Beat)
        ensures
            beat.num == ticks_in(self.ticks_per_sample as int, samples as int),
            beat.num >= 0,
    {
        assert(0 <= samples * self.ticks_per_sample <= 0xffff_ffff_ffff_ffff
            * 0xffff_ffff_ffff_ffff) by (nonlinear_arith)
            requires
                0 <= samples <= 0xffff_ffff_ffff_ffff,
                0 <= self.ticks_per_sample <= 0xffff_ffff_ffff_ffff,
        ;
        let ticks: u128 = (samples as u128) * (self.ticks_per_sample as u128);
        if ticks > i64::MAX as u128 {
            Beat::from_ticks(i64::MAX)
        } else {
            Beat::from_ticks(ticks as i64)
        }
    }

    /// The samples that pass in the time `beat`, rounded down.
    pub fn samples_in(&self, beat: Beat) -> (samples: u64)
        ensures
            samples == samples_in(self.ticks_per_sample as int, beat.num as int),
    {
        if beat.num <= 0 {
            0
        } else if self.ticks_per_sample == 0 {
            u64::MAX
        } else {
            beat.num as u64 / self.ticks_per_sample
        }
    }
}

} // verus!
