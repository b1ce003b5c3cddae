use super::note::Note;
use super::phrase::Phrase;
use crate::music_state::effects::EffectInfo;
use vstd::prelude::*;

verus! {

/// What a track sounds like.
#[derive(Debug)]
pub enum Instrument {
    /// A sine oscillator.
    Sin,
    /// A triangle oscillator.
    Tri,
    /// A sawtooth oscillator.
    Saw,
    /// A sampled instrument: the name of its resource and the number of a
    /// preset in it.
    SF2(String, usize),
    /// A kit of sampled sounds, which plays no pitches.
    Sample,
}

/// The unit of volume and of pan: a thousand stands for one.
pub const UNIT: i64 = 1000;

/// A phrase and how it sounds.
///
/// The volume is given in thousandths, from 0 to 1000; the pan in
/// thousandths too, from -1000, all to the left, to 1000, all to the right.
#[derive(Debug)]
pub struct Track<N: Note> {
    pub phrase: Phrase<N>,
    pub instrument: Instrument,
    pub vol: u16,
    pub pan: i16,
    pub effects: Vec<EffectInfo>,
}

impl Clone for Instrument {
    fn clone(&self) -> (instrument: Self)
        ensures
            instrument == *self,
    {
        match self {
            Instrument::Sin => Instrument::Sin,
            Instrument::Tri => Instrument::Tri,
            Instrument::Saw => Instrument::Saw,
            Instrument::SF2(name, preset_idx) => Instrument::SF2(name.clone(), *preset_idx),
            Instrument::Sample => Instrument::Sample,
        }
    }
}

impl<N: Note> Clone for Track<N> {
    fn clone(&self) -> (track: Self)
        ensures
            track.phrase.notes@ == self.phrase.notes@,
            track.phrase.length == self.phrase.length,
            track.instrument == self.instrument,
            track.vol == self.vol,
            track.pan == self.pan,
            track.effects@ == self.effects@,
    {
        let mut effects: Vec<EffectInfo> = Vec::new();
        let mut i: usize = 0;
        while i < self.effects.len()
            invariant
                i <= self.effects@.len(),
                effects@ == self.effects@.take(i as int),
            decreases self.effects@.len() - i,
        {
            effects.push(self.effects[i]);
            proof {
                assert(self.effects@.take(i as int).push(self.effects@[i as int])
                    =~= self.effects@.take(i + 1));
            }
            i += 1;
        }
        assert(self.effects@.take(i as int) =~= self.effects@);
        Track {
            phrase: self.phrase.clone(),
            instrument: self.instrument.clone(),
            vol: self.vol,
            pan: self.pan,
            effects,
        }
    }
}

} // verus!
