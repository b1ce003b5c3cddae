use vstd::prelude::*;
use vstd::std_specs::convert::FromSpecImpl;

verus! {

/// The height of a tone, in semitones; 69 is the A of 440 Hz.
#[derive(Clone, Copy, Debug, PartialEq, Eq, Structural, PartialOrd, Ord, Hash)]
pub struct Pitch {
    pub pitch: i32,
}

/// The lowest pitch that sounds.
pub const LOWEST: i32 = 0;

/// The highest pitch that sounds.
pub const HIGHEST: i32 = 127;

/// The frequency, in millionths of a hertz, of the semitone `class` of
/// the octave that begins at pitch 120, in equal temperament.
pub open spec fn top_octave_microhertz(class: int) -> int {
    if class == 0 {
        8372018090
    } else if class == 1 {
        8869844191
    } else if class == 2 {
        9397272573
    } else if class == 3 {
        9956063479
    } else if class == 4 {
        10548081821
    } else if class == 5 {
        11175303406
    } else if class == 6 {
        11839821527
    } else if class == 7 {
        12543853951
    } else if class == 8 {
        13289750323
    } else if class == 9 {
        14080000000
    } else if class == 10 {
        14917240369
    } else {
        15804265640
    }
}

/// Two to the power of `n`, for `n` up to 10.
pub open spec fn octaves_down(n: int) -> int {
    if n <= 0 {
        1
    } else if n == 1 {
        2
    } else if n == 2 {
        4
    } else if n == 3 {
        8
    } else if n == 4 {
        16
    } else if n == 5 {
        32
    } else if n == 6 {
        64
    } else if n == 7 {
        128
    } else if n == 8 {
        256
    } else if n == 9 {
        512
    } else {
        1024
    }
}

/// The pitch nearest to `pitch` among those that sound.
pub open spec fn nearest_pitch(pitch: int) -> int {
    if pitch < LOWEST {
        LOWEST as int
    } else if pitch > HIGHEST {
        HIGHEST as int
    } else {
        pitch
    }
}

/// The frequency of a pitch in thousandths of a hertz: that of its
/// semitone in the top octave, halved once for each octave below it, in
/// the nearest thousandth.
pub open spec fn millihertz_spec(pitch: int) -> int {
    let top = top_octave_microhertz(nearest_pitch(pitch) % 12);
    let parts = 1000 * octaves_down(10 - nearest_pitch(pitch) / 12);
    (2 * top + parts) / (2 * parts)
}

fn top_octave(class: u8) -> (f: u64)
    ensures
        f == top_octave_microhertz(class as int),
{
    match class {
        0 => 8372018090,
        1 => 8869844191,
        2 => 9397272573,
        3 => 9956063479,
        4 => 10548081821,
        5 => 11175303406,
        6 => 11839821527,
        7 => 12543853951,
        8 => 13289750323,
        9 => 14080000000,
        10 => 14917240369,
        _ => 15804265640,
    }
}

fn power_of_two(n: u8) -> (p: u64)
    ensures
        p == octaves_down(n as int),
{
    match n {
        0 => 1,
        1 => 2,
        2 => 4,
        3 => 8,
        4 => 16,
        5 => 32,
        6 => 64,
        7 => 128,
        8 => 256,
        9 => 512,
        _ => 1024,
    }
}

impl Pitch {
    /// The pitch as a number from 0 to 127: pitches beyond either end
    /// count as that end.
    pub fn get_u8_pitch(&self) -> (pitch: u8)
        ensures
            pitch == nearest_pitch(self.pitch as int),
    {
        if self.pitch < LOWEST {
            LOWEST as u8
        } else if self.pitch > HIGHEST {
            HIGHEST as u8
        } else {
            self.pitch as u8
        }
    }

    /// The frequency of the pitch in thousandths of a hertz.
    pub fn get_millihertz(&self) -> (f: u32)
        ensures
            f == millihertz_spec(self.pitch as int),
            0 < f <= 15804266,
    {
        let pitch = self.get_u8_pitch();
        let top: u64 = top_octave(pitch % 12);
        let parts: u64 = 1000 * power_of_two(10 - pitch / 12);
        proof {
            let sum = 2 * top + parts;
            let q = sum / (2 * parts);
            vstd::arithmetic::div_mod::lemma_fundamental_div_mod(sum, 2 * parts);
            assert(0 < q <= 15804266) by (nonlinear_arith)
                requires
                    sum == (2 * parts) * q + sum % (2 * parts),
                    0 <= sum % (2 * parts) < 2 * parts,
                    sum == 2 * top + parts,
                    8372018090 <= top <= 15804265640,
                    1000 <= parts <= 1024000,
            ;
        }
        ((2 * top + parts) / (2 * parts)) as u32
    }
}

impl From<i32> for Pitch {
    fn from(pitch: i32) -> (p: Pitch) {
        Pitch { pitch }
    }
}

impl FromSpecImpl<i32> for Pitch {
    open spec fn obeys_from_spec() -> bool {
        true
    }

    open spec fn from_spec(pitch: i32) -> Pitch {
        Pitch { pitch }
    }
}

} // verus!
