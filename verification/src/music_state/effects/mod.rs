pub mod to_left;

pub use to_left::ToLeftEffect;

use crate::resource_management::resource_manager::ResourceManager;
use std::sync::Arc;
use vstd::prelude::*;

verus! {

/// A sample as near to `x` as a sample can be.
pub open spec fn clip(x: int) -> int {
    if x < i32::MIN {
        i32::MIN as int
    } else if x > i32::MAX {
        i32::MAX as int
    } else {
        x
    }
}

/// The sum of two samples, clipped.
pub fn mix(a: i32, b: i32) -> (sum: i32)
    ensures
        sum == clip(a + b),
{
    let sum: i64 = a as i64 + b as i64;
    if sum < i32::MIN as i64 {
        i32::MIN
    } else if sum > i32::MAX as i64 {
        i32::MAX
    } else {
        sum as i32
    }
}

/// Something that turns one block of stereo samples into another.
///
/// An effect may keep a state from block to block.
pub trait Effect {
    /// Gives the block for `left_wave` and `right_wave`.
    fn effect(&mut self, left_wave: &Vec<i32>, right_wave: &Vec<i32>) -> (Vec<i32>, Vec<i32>);
}

/// The description of an effect, from which the effect is made.
#[derive(Clone, Copy, Debug, PartialEq, Eq, Structural)]
pub enum EffectInfo {
    /// Both channels summed into the left one.
    ToLeftEffect,
}

/// An effect at work.
#[derive(Debug)]
pub enum EffectInstance {
    ToLeft(ToLeftEffect),
}

impl EffectInfo {
    /// The effect that is made from this description.
    pub open spec fn instance(&self) -> EffectInstance {
        match self {
            EffectInfo::ToLeftEffect => EffectInstance::ToLeft(ToLeftEffect {  }),
        }
    }

    /// Makes the effect; what it needs of resources it takes from
    /// `resource_manager`.
    pub fn get_effect<R: ResourceManager>(&self, resource_manager: Arc<R>) -> (effect:
        EffectInstance)
        ensures
            effect == self.instance(),
    {
        match self {
            EffectInfo::ToLeftEffect => EffectInstance::ToLeft(ToLeftEffect {  }),
        }
    }
}

impl EffectInstance {
    /// The block that the effect gives for `left` and `right`.
    pub open spec fn output(&self, left: Seq<i32>, right: Seq<i32>) -> (Seq<i32>, Seq<i32>) {
        match self {
            EffectInstance::ToLeft(e) => to_left::to_left(left, right),
        }
    }

    /// The effect after it was given `left` and `right`.
    pub open spec fn after(&self, left: Seq<i32>, right: Seq<i32>) -> Self {
        match self {
            EffectInstance::ToLeft(e) => *self,
        }
    }
}

impl Effect for EffectInstance {
    fn effect(&mut self, left_wave: &Vec<i32>, right_wave: &Vec<i32>) -> (out: (Vec<i32>, Vec<i32>))
        ensures
            (out.0@, out.1@) == old(self).output(left_wave@, right_wave@),
            *final(self) == old(self).after(left_wave@, right_wave@),
    {
        match self {
            EffectInstance::ToLeft(e) => e.effect(left_wave, right_wave),
        }
    }
}

/// The block that a chain of effects gives for `left` and `right`: each
/// effect is given what the one before it gave.
pub open spec fn chain_output(chain: Seq<EffectInstance>, left: Seq<i32>, right: Seq<i32>) -> (
    Seq<i32>,
    Seq<i32>,
)
    decreases chain.len(),
{
    if chain.len() == 0 {
        (left, right)
    } else {
        let before = chain_output(chain.drop_last(), left, right);
        chain.last().output(before.0, before.1)
    }
}

/// The chain of effects after it was given `left` and `right`.
pub open spec fn chain_after(chain: Seq<EffectInstance>, left: Seq<i32>, right: Seq<i32>) -> Seq<
    EffectInstance,
>
    decreases chain.len(),
{
    if chain.len() == 0 {
        chain
    } else {
        let before = chain_output(chain.drop_last(), left, right);
        chain_after(chain.drop_last(), left, right).push(chain.last().after(before.0, before.1))
    }
}

/// A chain of effects has as many effects after a block as before it.
pub proof fn lemma_chain_after_len(chain: Seq<EffectInstance>, left: Seq<i32>, right: Seq<i32>)
    ensures
        chain_after(chain, left, right).len() == chain.len(),
    decreases chain.len(),
{
    if chain.len() > 0 {
        lemma_chain_after_len(chain.drop_last(), left, right);
    }
}

/// Gives a block to each effect of a chain in turn.
pub fn apply_chain(chain: &mut Vec<EffectInstance>, left: Vec<i32>, right: Vec<i32>) -> (out: (
    Vec<i32>,
    Vec<i32>,
))
    ensures
        (out.0@, out.1@) == chain_output(old(chain)@, left@, right@),
        final(chain)@ == chain_after(old(chain)@, left@, right@),
        final(chain)@.len() == old(chain)@.len(),
{
    let mut left_wave = left;
    let mut right_wave = right;
    let n = chain.len();
    let mut i: usize = 0;
    assert(chain@.take(0) =~= Seq::<EffectInstance>::empty());
    while i < n
        invariant
            n == old(chain)@.len(),
            chain@.len() == n,
            i <= n,
            (left_wave@, right_wave@) == chain_output(old(chain)@.take(i as int), left@, right@),
            chain@.take(i as int) == chain_after(old(chain)@.take(i as int), left@, right@),
            chain@.skip(i as int) == old(chain)@.skip(i as int),
        decreases n - i,
    {
        let ghost before = chain@;
        assert(chain@[i as int] == chain@.skip(i as int)[0]);
        let out = chain[i].effect(&left_wave, &right_wave);
        proof {
            assert(old(chain)@.take(i + 1).drop_last() =~= old(chain)@.take(i as int));
            assert(chain@.take(i + 1) =~= before.take(i as int).push(chain@[i as int]));
            assert(chain@.skip(i + 1) =~= before.skip(i as int).drop_first());
            assert(old(chain)@.skip(i + 1) =~= old(chain)@.skip(i as int).drop_first());
        }
        left_wave = out.0;
        right_wave = out.1;
        i += 1;
    }
    assert(old(chain)@.take(n as int) =~= old(chain)@);
    assert(chain@.take(n as int) =~= chain@);
    (left_wave, right_wave)
}

} // verus!
