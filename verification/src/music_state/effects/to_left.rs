use super::{clip, mix, Effect};
use crate::data::wave::own::FULL_SCALE;
use vstd::prelude::*;

verus! {

/// Sums both channels into the left one and leaves the right one silent.
#[derive(Clone, Copy, Debug, PartialEq, Eq, Structural)]
pub struct ToLeftEffect {}

/// The number of samples that two channels both have.
pub open spec fn common_len(left: Seq<i32>, right: Seq<i32>) -> nat {
    if left.len() <= right.len() {
        left.len()
    } else {
        right.len()
    }
}

/// Both channels summed into the left one: the left channel is the sum of
/// both channels, sample by sample and clipped; the right channel is zero.
/// Both are as long as the shorter of the two channels given.
pub open spec fn to_left(left: Seq<i32>, right: Seq<i32>) -> (Seq<i32>, Seq<i32>) {
    (
        Seq::new(common_len(left, right), |i: int| clip(left[i] + right[i]) as i32),
        Seq::new(common_len(left, right), |i: int| 0i32),
    )
}

impl Effect for ToLeftEffect {
    fn effect(&mut self, left_wave: &Vec<i32>, right_wave: &Vec<i32>) -> (out: (
        Vec<i32>,
        Vec<i32>,
    ))
        ensures
            (out.0@, out.1@) == to_left(left_wave@, right_wave@),
            out.0@.len() == common_len(left_wave@, right_wave@),
            out.1@.len() == common_len(left_wave@, right_wave@),
            forall|k: int|
                0 <= k < common_len(left_wave@, right_wave@) ==> out.0@[k] == clip(
                    left_wave@[k] + right_wave@[k],
                ) && out.1@[k] == 0,
            *final(self) == *old(self),
    {
        let mut new_left_wave: Vec<i32> = Vec::new();
        let mut new_right_wave: Vec<i32> = Vec::new();
        let n = if left_wave.len() <= right_wave.len() {
            left_wave.len()
        } else {
            right_wave.len()
        };
        let mut i: usize = 0;
        while i < n
            invariant
                n == common_len(left_wave@, right_wave@),
                i <= n,
                *self == *old(self),
                new_left_wave@.len() == i,
                new_right_wave@.len() == i,
                forall|j: int|
                    0 <= j < i ==> new_left_wave@[j] == clip(left_wave@[j] + right_wave@[j]),
                forall|j: int| 0 <= j < i ==> new_right_wave@[j] == 0,
            decreases n - i,
        {
            new_left_wave.push(mix(left_wave[i], right_wave[i]));
            new_right_wave.push(0);
            i += 1;
        }
        proof {
            let o = to_left(left_wave@, right_wave@);
            assert(new_left_wave@ =~= o.0);
            assert(new_right_wave@ =~= o.1);
        }
        (new_left_wave, new_right_wave)
    }
}

/// What the effect gives: the right channel is silent, and wherever the
/// sum of the two samples is a sample, the left channel is that sum.  It
/// is so for all samples of up to a hundred times the full scale.
pub proof fn law_to_left(left: Seq<i32>, right: Seq<i32>, i: int)
    requires
        0 <= i < common_len(left, right),
    ensures
        to_left(left, right).0.len() == common_len(left, right),
        to_left(left, right).1.len() == common_len(left, right),
        to_left(left, right).1[i] == 0,
        i32::MIN <= left[i] + right[i] <= i32::MAX ==> to_left(left, right).0[i] == left[i]
            + right[i],
        -100 * FULL_SCALE <= left[i] <= 100 * FULL_SCALE && -100 * FULL_SCALE <= right[i] <= 100
            * FULL_SCALE ==> to_left(left, right).0[i] == left[i] + right[i],
{
}

} // verus!
