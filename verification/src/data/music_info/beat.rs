use vstd::prelude::*;
use vstd::std_specs::convert::FromSpecImpl;
use vstd::std_specs::ops::{AddSpecImpl, RemSpecImpl, SubSpecImpl};

verus! {

/// The number of ticks in one beat.
///
/// A tick is the time that one sample takes at a tempo of a 1024th of a
/// beat per minute: a beat then takes the samples of a minute, 60 times
/// 44100, 1024 times over.  At any tempo that is a whole number of 1024ths
/// of a beat per minute, a sample therefore takes a whole number of ticks.
/// The halves, thirds, fifths and sevenths of a beat, and their halves down
/// to the 16384th, are whole numbers of ticks too.
pub const TICKS_PER_BEAT: i64 = 2709504000;

/// A point in, or a span of, musical time, counted in ticks.
///
/// Ticks are integers, so sums and remainders of beats are exact and a
/// position in a loop compares reliably with the loop's bounds.
#[derive(Clone, Copy, Debug, PartialEq, Eq, Structural, PartialOrd, Ord, Hash)]
pub struct Beat {
    pub num: i64,
}

impl Beat {
    /// The beat that lasts `num` ticks.
    pub fn from_ticks(num: i64) -> (beat: Beat)
        ensures
            beat.num == num,
    {
        Beat { num }
    }

    /// The length of this beat in ticks.
    pub fn ticks(&self) -> (num: i64)
        ensures
            num == self.num,
    {
        self.num
    }

    /// The position of this beat within a loop of the given length.
    pub open spec fn position_in(self, length: Beat) -> Beat {
        Beat { num: (self.num as int % length.num as int) as i64 }
    }

    /// Whether this beat comes strictly before `other`.
    pub fn is_before(&self, other: &Beat) -> (before: bool)
        ensures
            before == (self.num < other.num),
    {
        self.num < other.num
    }

    /// Whether this beat is longer than no time at all.
    pub fn is_positive(&self) -> (positive: bool)
        ensures
            positive == (self.num > 0),
    {
        self.num > 0
    }
}

impl From<i32> for Beat {
    /// A whole number of beats.
    fn from(beats: i32) -> (beat: Beat) {
        Beat { num: (beats as i64) * TICKS_PER_BEAT }
    }
}

impl FromSpecImpl<i32> for Beat {
    open spec fn obeys_from_spec() -> bool {
        true
    }

    open spec fn from_spec(beats: i32) -> Beat {
        Beat { num: (beats * TICKS_PER_BEAT) as i64 }
    }
}

impl std::ops::Add for Beat {
    type Output = Beat;

    fn add(self, rhs: Beat) -> (sum: Beat) {
        Beat { num: self.num + rhs.num }
    }
}

impl AddSpecImpl for Beat {
    open spec fn obeys_add_spec() -> bool {
        true
    }

    open spec fn add_req(self, rhs: Beat) -> bool {
        i64::MIN <= self.num + rhs.num <= i64::MAX
    }

    open spec fn add_spec(self, rhs: Beat) -> Beat {
        Beat { num: (self.num + rhs.num) as i64 }
    }
}

impl std::ops::Sub for Beat {
    type Output = Beat;

    fn sub(self, rhs: Beat) -> (difference: Beat) {
        Beat { num: self.num - rhs.num }
    }
}

impl SubSpecImpl for Beat {
    open spec fn obeys_sub_spec() -> bool {
        true
    }

    open spec fn sub_req(self, rhs: Beat) -> bool {
        i64::MIN <= self.num - rhs.num <= i64::MAX
    }

    open spec fn sub_spec(self, rhs: Beat) -> Beat {
        Beat { num: (self.num - rhs.num) as i64 }
    }
}

impl std::ops::Rem for Beat {
    type Output = Beat;

    /// The position of `self` within a loop of length `rhs`.
    fn rem(self, rhs: Beat) -> (position: Beat) {
        if self.num >= 0 {
            Beat { num: self.num % rhs.num }
        } else {
            let below: i64 = -(self.num + 1);
            let r: i64 = below % rhs.num;
            proof {
                let m = rhs.num as int;
                let q = below as int / m;
                vstd::arithmetic::div_mod::lemma_fundamental_div_mod(below as int, m);
                assert(self.num as int == (-(q + 1)) * m + (m - 1 - r)) by (nonlinear_arith)
                    requires
                        below as int == m * q + r,
                        below as int == -(self.num as int + 1),
                ;
                vstd::arithmetic::div_mod::lemma_fundamental_div_mod_converse(
                    self.num as int,
                    m,
                    -(q + 1),
                    m - 1 - r,
                );
            }
            Beat { num: rhs.num - 1 - r }
        }
    }
}

impl RemSpecImpl for Beat {
    open spec fn obeys_rem_spec() -> bool {
        true
    }

    open spec fn rem_req(self, rhs: Beat) -> bool {
        rhs.num > 0
    }

    open spec fn rem_spec(self, rhs: Beat) -> Beat {
        self.position_in(rhs)
    }
}

/// The position of a beat within a loop lies in the loop: it is not
/// negative, and it is strictly less than the loop's length.
pub proof fn lemma_rem_in_loop(beat: Beat, length: Beat)
    requires
        length.num > 0,
    ensures
        0 <= beat.position_in(length).num < length.num,
        (beat.num - beat.position_in(length).num) % (length.num as int) == 0,
{
    vstd::arithmetic::div_mod::lemma_fundamental_div_mod(beat.num as int, length.num as int);
    vstd::arithmetic::div_mod::lemma_mod_multiples_basic(
        beat.num as int / length.num as int,
        length.num as int,
    );
}

} // verus!
