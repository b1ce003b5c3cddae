//! The player of one track of pitched notes: block after block, it takes
//! up the notes that begin, lets the notes that sound be heard, and drops
//! the notes that have ended.

use super::active_notes::{
    collect_soundings, index_of, register_all, retire, retire_notes, soundings, ActiveIndex,
    ActiveNotes, Sounding,
};
use super::effects::{apply_chain, chain_after, chain_output, EffectInfo, EffectInstance};
use super::oscillator::{left_weight, right_weight, Waveform};
use super::render::{
    is_sampled_block, render_samples, render_tones, silence, silent_block, tones,
};
use super::schedule::{schedule_block, scheduled};
use crate::data::music_info::tempo::ticks_in;
use crate::data::music_info::{Beat, Instrument, PitchNote, Tempo, Track};
use crate::resource_management::resource_manager::ResourceManager;
use std::collections::BTreeMap;
use std::sync::Arc;
use vstd::prelude::*;

verus! {

/// The number of samples in a block.
pub const WAVE_LENGTH: usize = 512;

/// The player of one track of pitched notes.
///
/// It holds the notes that sound, and the effects of the track that it
/// played last: their descriptions, and for each description the effect
/// that was made from it.
pub struct PitchTrackPlayer {
    played_notes: ActiveNotes,
    chain: (Vec<EffectInfo>, Vec<EffectInstance>),
}

/// The wave of an instrument that is an oscillator.
pub open spec fn waveform_of(instrument: Instrument) -> Option<Waveform> {
    match instrument {
        Instrument::Sin => Some(Waveform::Sine),
        Instrument::Tri => Some(Waveform::Triangle),
        Instrument::Saw => Some(Waveform::Sawtooth),
        _ => None,
    }
}

/// The notes that sound once the notes that begin in a block are taken
/// up: the block begins at the sample `cum_samples`, when the time
/// `cum_beats` has passed, and lasts for `WAVE_LENGTH` samples.
pub open spec fn taken_up(
    active: ActiveIndex,
    track: Track<PitchNote>,
    cum_samples: u64,
    cum_beats: Beat,
    tempo: Tempo,
) -> ActiveIndex {
    register_all(
        active,
        scheduled(
            track.phrase.notes@,
            track.phrase.length.num as int,
            cum_beats.num as int,
            ticks_in(tempo.ticks_per_sample as int, WAVE_LENGTH as int),
            cum_samples,
            tempo.ticks_per_sample as int,
        ),
    )
}

/// The block that the notes of `active` give on a track before its
/// effects: the tones of the notes on an oscillator; silence on an
/// instrument that plays no pitches.
pub open spec fn dry_block(active: ActiveIndex, track: Track<PitchNote>, cum_samples: u64) -> (
    Seq<i32>,
    Seq<i32>,
) {
    match waveform_of(track.instrument) {
        Some(waveform) => (
            tones(
                soundings(active),
                waveform,
                cum_samples,
                track.vol as int,
                left_weight(track.pan as int),
                WAVE_LENGTH as nat,
            ),
            tones(
                soundings(active),
                waveform,
                cum_samples,
                track.vol as int,
                right_weight(track.pan as int),
                WAVE_LENGTH as nat,
            ),
        ),
        None => (silence(WAVE_LENGTH as nat), silence(WAVE_LENGTH as nat)),
    }
}

/// Whether `block` is what the notes of `active` give on the preset
/// `preset_idx` of the sampled instrument of the name `name`: the holder of
/// the instruments was asked for the instrument; if it gave one, the block
/// is what the notes give on it, and if it gave none, the block is silent.
pub open spec fn is_sampled_dry_block<R: ResourceManager>(
    active: ActiveIndex,
    resource_manager: &R,
    name: String,
    preset_idx: usize,
    track: Track<PitchNote>,
    cum_samples: u64,
    block: (Seq<i32>, Seq<i32>),
) -> bool {
    exists|lookup: Result<Arc<R::Resource>, String>|
        {
            &&& call_ensures(R::get_sample_resource, (resource_manager, &name), lookup)
            &&& match lookup {
                Ok(sf2) => is_sampled_block(
                    soundings(active),
                    &*sf2,
                    preset_idx,
                    cum_samples,
                    track.vol as int,
                    track.pan as int,
                    WAVE_LENGTH as nat,
                    block,
                ),
                Err(_) => block == (silence(WAVE_LENGTH as nat), silence(WAVE_LENGTH as nat)),
            }
        }
}

/// The effects that are made from descriptions.
pub open spec fn instances(infos: Seq<EffectInfo>) -> Seq<EffectInstance> {
    infos.map_values(|info: EffectInfo| info.instance())
}

/// The effects through which a block is sent: those at hand if they were
/// made from the descriptions `wanted`, else new ones made from `wanted`.
pub open spec fn chain_for(
    infos: Seq<EffectInfo>,
    effects: Seq<EffectInstance>,
    wanted: Seq<EffectInfo>,
) -> Seq<EffectInstance> {
    if infos == wanted {
        effects
    } else {
        instances(wanted)
    }
}

/// A chain of effects that is given as many samples on the left as on the
/// right gives as many on either side.
pub proof fn lemma_chain_keeps_len(chain: Seq<EffectInstance>, left: Seq<i32>, right: Seq<i32>)
    requires
        left.len() == right.len(),
    ensures
        chain_output(chain, left, right).0.len() == left.len(),
        chain_output(chain, left, right).1.len() == left.len(),
    decreases chain.len(),
{
    if chain.len() > 0 {
        lemma_chain_keeps_len(chain.drop_last(), left, right);
    }
}

/// Whether two lists of descriptions are the same.
fn same_infos(a: &Vec<EffectInfo>, b: &Vec<EffectInfo>) -> (same: bool)
    ensures
        same == (a@ == b@),
{
    if a.len() != b.len() {
        return false;
    }
    let mut i: usize = 0;
    while i < a.len()
        invariant
            i <= a@.len(),
            a@.len() == b@.len(),
            forall|j: int| 0 <= j < i ==> a@[j] == b@[j],
        decreases a@.len() - i,
    {
        if a[i] != b[i] {
            return false;
        }
        i += 1;
    }
    assert(a@ =~= b@);
    true
}

impl PitchTrackPlayer {
    /// The notes that sound: for each sample at which notes end, the notes
    /// that end there, each with the sample at which it began.
    pub closed spec fn active(&self) -> ActiveIndex {
        index_of(self.played_notes@)
    }

    /// The descriptions from which the effects at hand were made.
    pub closed spec fn effect_infos(&self) -> Seq<EffectInfo> {
        self.chain.0@
    }

    /// The effects at hand.
    pub closed spec fn effects(&self) -> Seq<EffectInstance> {
        self.chain.1@
    }

    /// There is one effect at hand for each description.
    #[verifier::type_invariant]
    spec fn one_effect_for_each_description(&self) -> bool {
        self.chain.0@.len() == self.chain.1@.len()
    }

    /// A player in which no note sounds and that has no effects at hand.
    pub fn new() -> (player: Self)
        ensures
            player.active() == Map::<u64, Seq<(u64, PitchNote)>>::empty(),
            player.effect_infos() == Seq::<EffectInfo>::empty(),
            player.effects() == Seq::<EffectInstance>::empty(),
            player.effects().len() == player.effect_infos().len(),
    {
        let player = Self { played_notes: BTreeMap::new(), chain: (Vec::new(), Vec::new()) };
        assert(player.active() =~= Map::<u64, Seq<(u64, PitchNote)>>::empty());
        player
    }

    /// Forgets the notes that sound and the effects at hand: the player is
    /// as it was when it was made.
    pub fn clean(&mut self)
        ensures
            final(self).active() == Map::<u64, Seq<(u64, PitchNote)>>::empty(),
            final(self).effect_infos() == Seq::<EffectInfo>::empty(),
            final(self).effects() == Seq::<EffectInstance>::empty(),
            final(self).effects().len() == final(self).effect_infos().len(),
    {
        self.chain = (Vec::new(), Vec::new());
        self.played_notes = BTreeMap::new();
        assert(self.active() =~= Map::<u64, Seq<(u64, PitchNote)>>::empty());
    }

    /// The notes that sound: those that end first come first, and of those
    /// that end together the one that was taken up first.  Each is given
    /// as the sample at which it ends, the sample at which it began, and
    /// the note.
    pub fn active_notes(&self) -> (notes: Vec<Sounding>)
        ensures
            notes@ == soundings(self.active()),
    {
        collect_soundings(&self.played_notes)
    }

    /// Has the effects at hand that are made from `wanted`.
    fn refresh_effects<R: ResourceManager>(
        &mut self,
        wanted: &Vec<EffectInfo>,
        resource_manager: &Arc<R>,
    )
        ensures
            final(self).played_notes == old(self).played_notes,
            final(self).chain.0@ == wanted@,
            final(self).chain.1@ == chain_for(old(self).chain.0@, old(self).chain.1@, wanted@),
            final(self).chain.1@.len() == wanted@.len(),
    {
        proof {
            use_type_invariant(&*self);
        }
        if !same_infos(&self.chain.0, wanted) {
            let mut infos: Vec<EffectInfo> = Vec::new();
            let mut effects: Vec<EffectInstance> = Vec::new();
            let mut i: usize = 0;
            while i < wanted.len()
                invariant
                    i <= wanted@.len(),
                    infos@ == wanted@.take(i as int),
                    effects@ == instances(wanted@.take(i as int)),
                decreases wanted@.len() - i,
            {
                let efi = wanted[i];
                infos.push(efi);
                effects.push(efi.get_effect(Arc::clone(resource_manager)));
                proof {
                    assert(wanted@.take(i + 1) =~= wanted@.take(i as int).push(efi));
                    assert(instances(wanted@.take(i + 1)) =~= instances(
                        wanted@.take(i as int),
                    ).push(efi.instance()));
                }
                i += 1;
            }
            assert(wanted@.take(i as int) =~= wanted@);
            self.chain = (infos, effects);
        }
    }

    /// Plays one block of a track: `WAVE_LENGTH` samples for the left and
    /// for the right.
    ///
    /// The block begins at the sample `cum_current_samples`, when the time
    /// `cum_current_beats` has passed.  The notes of the track's phrase
    /// that begin in the block are taken up.  Then every note that sounds
    /// is heard on the track's instrument, for as long as it lasts within
    /// the block, and the block is sent through the track's effects.
    /// At last the notes that end in the block are dropped.
    ///
    /// A sampled instrument is asked of `resource_manager`; where it, or
    /// the samples of a note, cannot be had, nothing is heard of them.
    pub fn play<R: ResourceManager>(
        &mut self,
        track: &Track<PitchNote>,
        resource_manager: Arc<R>,
        cum_current_samples: &u64,
        cum_current_beats: &Beat,
        current_bpm: &Tempo,
    ) -> (out: (Vec<i32>, Vec<i32>))
        ensures
            out.0@.len() == WAVE_LENGTH,
            out.1@.len() == WAVE_LENGTH,
            final(self).active() == retire(
                taken_up(
                    old(self).active(),
                    *track,
                    *cum_current_samples,
                    *cum_current_beats,
                    *current_bpm,
                ),
                *cum_current_samples,
                WAVE_LENGTH as u64,
            ),
            final(self).effect_infos() == track.effects@,
            final(self).effects().len() == final(self).effect_infos().len(),
            !(track.instrument is SF2) ==> ({
                let dry = dry_block(
                    taken_up(
                        old(self).active(),
                        *track,
                        *cum_current_samples,
                        *cum_current_beats,
                        *current_bpm,
                    ),
                    *track,
                    *cum_current_samples,
                );
                let chain = chain_for(
                    old(self).effect_infos(),
                    old(self).effects(),
                    track.effects@,
                );
                &&& (out.0@, out.1@) == chain_output(chain, dry.0, dry.1)
                &&& final(self).effects() == chain_after(chain, dry.0, dry.1)
                &&& track.effects@.len() == 0 ==> (out.0@, out.1@) == dry
            }),
            track.instrument matches Instrument::SF2(name, preset_idx) ==> ({
                let chain = chain_for(
                    old(self).effect_infos(),
                    old(self).effects(),
                    track.effects@,
                );
                exists|dry: (Seq<i32>, Seq<i32>)|
                    {
                        &&& #[trigger] is_sampled_dry_block(
                            taken_up(
                                old(self).active(),
                                *track,
                                *cum_current_samples,
                                *cum_current_beats,
                                *current_bpm,
                            ),
                            &*resource_manager,
                            name,
                            preset_idx,
                            *track,
                            *cum_current_samples,
                            dry,
                        )
                        &&& (out.0@, out.1@) == chain_output(chain, dry.0, dry.1)
                        &&& final(self).effects() == chain_after(chain, dry.0, dry.1)
                    }
            }),
    {
        let cum_samples = *cum_current_samples;
        let block_beats = current_bpm.beats_in(WAVE_LENGTH as u64);

        proof {
            use_type_invariant(&*self);
        }

        // the notes that begin in this block
        let mut played: ActiveNotes = BTreeMap::new();
        std::mem::swap(&mut self.played_notes, &mut played);
        schedule_block(
            &mut played,
            &track.phrase,
            cum_samples,
            *cum_current_beats,
            block_beats,
            current_bpm,
        );

        // the notes that sound
        let ghost taken = index_of(played@);
        let sounding = collect_soundings(&played);
        let (left_wave, right_wave) = match &track.instrument {
            Instrument::Sin => render_tones(
                &sounding,
                Waveform::Sine,
                cum_samples,
                track.vol,
                track.pan,
                WAVE_LENGTH,
            ),
            Instrument::Tri => render_tones(
                &sounding,
                Waveform::Triangle,
                cum_samples,
                track.vol,
                track.pan,
                WAVE_LENGTH,
            ),
            Instrument::Saw => render_tones(
                &sounding,
                Waveform::Sawtooth,
                cum_samples,
                track.vol,
                track.pan,
                WAVE_LENGTH,
            ),
            Instrument::SF2(sf2_name, preset_idx) => {
                let lookup = resource_manager.get_sample_resource(sf2_name);
                let block = match lookup {
                    Ok(sf2) => render_samples(
                        &sounding,
                        &*sf2,
                        *preset_idx,
                        cum_samples,
                        track.vol,
                        track.pan,
                        WAVE_LENGTH,
                    ),
                    Err(_) => (silent_block(WAVE_LENGTH), silent_block(WAVE_LENGTH)),
                };
                assert(is_sampled_dry_block(
                    index_of(played@),
                    &*resource_manager,
                    *sf2_name,
                    *preset_idx,
                    *track,
                    cum_samples,
                    (block.0@, block.1@),
                ));
                block
            },
            Instrument::Sample => (silent_block(WAVE_LENGTH), silent_block(WAVE_LENGTH)),
        };

        // the effects
        let ghost dry = (left_wave@, right_wave@);
        self.refresh_effects(&track.effects, &resource_manager);
        let mut chain: (Vec<EffectInfo>, Vec<EffectInstance>) = (Vec::new(), Vec::new());
        std::mem::swap(&mut self.chain, &mut chain);
        proof {
            lemma_chain_keeps_len(chain.1@, left_wave@, right_wave@);
        }
        let out = apply_chain(&mut chain.1, left_wave, right_wave);
        std::mem::swap(&mut self.chain, &mut chain);

        // the notes that have ended
        retire_notes(&mut played, cum_samples, WAVE_LENGTH as u64);
        std::mem::swap(&mut self.played_notes, &mut played);
        proof {
            let before = taken_up(
                old(self).active(),
                *track,
                *cum_current_samples,
                *cum_current_beats,
                *current_bpm,
            );
            assert(taken == before);
            match &track.instrument {
                Instrument::SF2(name, preset_idx) => {
                    assert(is_sampled_dry_block(
                        before,
                        &*resource_manager,
                        *name,
                        *preset_idx,
                        *track,
                        *cum_current_samples,
                        dry,
                    ));
                    assert((out.0@, out.1@) == chain_output(
                        chain_for(old(self).effect_infos(), old(self).effects(), track.effects@),
                        dry.0,
                        dry.1,
                    ));
                },
                _ => {},
            }
        }
        out
    }
}

} // verus!
