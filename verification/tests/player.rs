use std::sync::Arc;
use toid::data::music_info::beat::TICKS_PER_BEAT;
use toid::data::music_info::{Beat, Instrument, Phrase, Pitch, PitchNote, Tempo, Track};
use toid::data::wave::own::FULL_SCALE;
use toid::music_state::effects::EffectInfo;
use toid::music_state::oscillator::{add_weighted_wave, phase, saw, tri, OSCILLATOR_TENTHS};
use toid::music_state::pitch_track_player::WAVE_LENGTH;
use toid::music_state::schedule::position_after;
use toid::music_state::PitchTrackPlayer;
use toid::resource_management::resource_manager::{ResourceManager, SampleResource};

struct Ramp {}

impl SampleResource for Ramp {
    fn get_samples(
        &self,
        preset_idx: usize,
        pitch: u8,
        start: usize,
        end: usize,
    ) -> Result<(Vec<i32>, Vec<i32>), String> {
        if preset_idx != 3 {
            return Err("no such preset".to_string());
        }
        let left = (start..end).map(|i| (i as i32 + 1) * 1000).collect();
        let right = (start..end).map(|_| pitch as i32 * 1000).collect();
        Ok((left, right))
    }
}

struct Shelf {
    ramp: Arc<Ramp>,
}

impl ResourceManager for Shelf {
    type Resource = Ramp;

    fn get_sample_resource(&self, name: &String) -> Result<Arc<Ramp>, String> {
        if name == "ramp" {
            Ok(Arc::clone(&self.ramp))
        } else {
            Err("no such resource".to_string())
        }
    }
}

fn shelf() -> Arc<Shelf> {
    Arc::new(Shelf { ramp: Arc::new(Ramp {}) })
}

/// The beat of `parts` 960ths of a beat.
fn beat(parts: i64) -> Beat {
    Beat::from_ticks(parts * (TICKS_PER_BEAT / 960))
}

/// A note; its start and its duration are given in 960ths of a beat.
fn note(pitch: i32, start: i64, duration: i64) -> PitchNote {
    PitchNote { pitch: Pitch::from(pitch), start: beat(start), duration: beat(duration) }
}

/// A track; the length of its phrase is given in 960ths of a beat.
fn track(instrument: Instrument, notes: &[PitchNote], length: i64) -> Track<PitchNote> {
    let mut phrase = Phrase::new().set_length(beat(length));
    for n in notes {
        phrase = phrase.add_note(*n);
    }
    Track { phrase, instrument, vol: 1000, pan: 0, effects: vec![] }
}

/// A tempo at which a block of 512 samples lasts for half a beat.
fn half_beat_blocks() -> Tempo {
    Tempo::from_ticks_per_sample(2646000)
}

#[test]
fn a_sine_note_that_spans_the_block() {
    let mut track = track(Instrument::Sin, &[note(69, 0, 4 * 960)], 8 * 960);
    track.vol = 800;
    track.pan = 250;
    let mut player = PitchTrackPlayer::new();
    let (left, right) =
        player.play(&track, shelf(), &0, &Beat::from(0), &Tempo::from_bpm(120));
    assert_eq!(left.len(), 512);
    assert_eq!(right.len(), 512);
    for i in 0..512 {
        let tone = (2.0 * std::f64::consts::PI * 440.0 * i as f64 / 44100.0).sin();
        let expected_left = 0.3 * 0.8 * tone * (1.0 - 0.25);
        let expected_right = 0.3 * 0.8 * tone * (1.0 + 0.25);
        // every sample is the step of the full scale nearest to what it
        // should be
        let off_left = left[i] as f64 - expected_left * FULL_SCALE as f64;
        let off_right = right[i] as f64 - expected_right * FULL_SCALE as f64;
        assert!(off_left.abs() <= 0.5001, "left sample {}", i);
        assert!(off_right.abs() <= 0.5001, "right sample {}", i);
    }
}

#[test]
fn a_sawtooth_note_sounds_from_its_start_to_its_end() {
    // at 120 beats per minute a 960th of a beat takes 22.96875 samples
    let track = track(Instrument::Saw, &[note(57, 5, 10)], 960);
    let mut player = PitchTrackPlayer::new();
    let (left, right) =
        player.play(&track, shelf(), &0, &Beat::from(0), &Tempo::from_bpm(120));
    // the note begins 114 samples into the block and lasts for 229 samples
    for i in 0..512 {
        let expected = if 114 <= i && i < 343 {
            add_weighted_wave(0, saw(phase(i as u64 - 114, 220000)), OSCILLATOR_TENTHS, 1000, 1000)
        } else {
            0
        };
        assert_eq!(left[i], expected, "left sample {}", i);
        assert_eq!(right[i], expected, "right sample {}", i);
    }
    assert_eq!(left[114], -2506676);
    assert_eq!(left[115], -2481666);
}

#[test]
fn the_pan_weights_the_channels() {
    let mut track = track(Instrument::Tri, &[note(69, 0, 960)], 960);
    track.vol = 500;
    track.pan = -1000;
    let mut player = PitchTrackPlayer::new();
    let (left, right) =
        player.play(&track, shelf(), &0, &Beat::from(0), &Tempo::from_bpm(60));
    for i in 0..512 {
        let tone = tri(phase(i as u64, 440000));
        assert_eq!(left[i], add_weighted_wave(0, tone, OSCILLATOR_TENTHS, 500, 2000));
        assert_eq!(right[i], 0);
    }
    // a quarter of the cycle of 440 Hz is passed after 25 samples and a bit
    assert_eq!(tri(phase(25, 440000)), 1150307170129280430);
    assert_eq!(left[25], 2500991);
}

#[test]
fn notes_that_sound_together_are_summed() {
    let both = track(Instrument::Saw, &[note(60, 0, 960), note(64, 0, 960)], 960);
    let low = track(Instrument::Saw, &[note(60, 0, 960)], 960);
    let high = track(Instrument::Saw, &[note(64, 0, 960)], 960);
    let tempo = Tempo::from_bpm(60);
    let (both_left, _) = PitchTrackPlayer::new().play(&both, shelf(), &0, &Beat::from(0), &tempo);
    let (low_left, _) = PitchTrackPlayer::new().play(&low, shelf(), &0, &Beat::from(0), &tempo);
    let (high_left, _) = PitchTrackPlayer::new().play(&high, shelf(), &0, &Beat::from(0), &tempo);
    for i in 0..512 {
        assert_eq!(both_left[i], low_left[i] + high_left[i]);
    }
}

#[test]
fn a_note_is_registered_once_in_the_block_of_its_start() {
    let track = track(Instrument::Saw, &[note(69, 720, 96)], 960);
    let tempo = half_beat_blocks();
    let mut player = PitchTrackPlayer::new();

    // the first block covers the first half of the beat
    let (left, _) = player.play(&track, shelf(), &0, &beat(0), &tempo);
    assert!(left.iter().all(|s| *s == 0));
    assert_eq!(player.active_notes(), vec![]);

    // the second block covers the second half: the note begins a quarter
    // of a beat, 256 samples, into it and lasts for a tenth, 102 samples
    let (left, _) = player.play(&track, shelf(), &512, &beat(480), &tempo);
    for i in 0..512 {
        let expected = if 256 <= i && i < 358 {
            add_weighted_wave(0, saw(phase(i as u64 - 256, 440000)), OSCILLATOR_TENTHS, 1000, 1000)
        } else {
            0
        };
        assert_eq!(left[i], expected, "sample {}", i);
    }
    // the note has ended within the block, and is gone
    assert_eq!(player.active_notes(), vec![]);

    // the third block covers the first half of the next pass
    let (left, _) = player.play(&track, shelf(), &1024, &beat(960), &tempo);
    assert!(left.iter().all(|s| *s == 0));
    assert_eq!(player.active_notes(), vec![]);
}

#[test]
fn a_note_stays_until_the_block_in_which_it_ends() {
    let long = note(69, 720, 960);
    let track = track(Instrument::Saw, &[long], 960);
    let tempo = half_beat_blocks();
    let mut player = PitchTrackPlayer::new();
    player.play(&track, shelf(), &0, &beat(0), &tempo);
    assert_eq!(player.active_notes(), vec![]);
    player.play(&track, shelf(), &512, &beat(480), &tempo);
    // it begins at sample 512 + 256 and lasts for 1024 samples
    assert_eq!(player.active_notes(), vec![(1792, 768, long)]);
    player.play(&track, shelf(), &1024, &beat(960), &tempo);
    assert_eq!(player.active_notes(), vec![(1792, 768, long)]);
    let (left, _) = player.play(&track, shelf(), &1536, &beat(1440), &tempo);
    // the note ends 256 samples into this block, where its next
    // occurrence begins
    assert_eq!(player.active_notes(), vec![(2816, 1792, long)]);
    assert_eq!(
        left[255],
        add_weighted_wave(0, saw(phase(1536 + 255 - 768, 440000)), OSCILLATOR_TENTHS, 1000, 1000)
    );
    assert_eq!(left[256], add_weighted_wave(0, saw(phase(0, 440000)), OSCILLATOR_TENTHS, 1000, 1000));
}

#[test]
fn every_pass_of_the_phrase_registers_the_note_once() {
    // a phrase of four and a half blocks: the blocks begin and end
    // anywhere in the passes, and every second pass ends with a block
    let tempo = Tempo::from_bpm(120);
    let block = tempo.beats_in(512).num;
    let length = 9 * block / 2;
    let start = 13 * block / 10;
    let n = PitchNote {
        pitch: Pitch::from(60),
        start: Beat::from_ticks(start),
        duration: Beat::from_ticks(9 * block),
    };
    let phrase = Phrase::new().set_length(Beat::from_ticks(length)).add_note(n);
    let track = Track { phrase, instrument: Instrument::Saw, vol: 1000, pan: 0, effects: vec![] };
    let mut player = PitchTrackPlayer::new();
    let mut starts: Vec<u64> = Vec::new();
    for k in 0..1000u64 {
        let position = Beat::from_ticks(block * k as i64);
        player.play(&track, shelf(), &(512 * k), &position, &tempo);
        let active = player.active_notes();
        for i in 0..active.len() {
            // no occurrence is held twice
            for j in 0..i {
                assert_ne!(active[i].1, active[j].1);
            }
            if !starts.contains(&active[i].1) {
                // a new occurrence begins in this block, at its tick
                let into_block = (start - block * k as i64).rem_euclid(length);
                assert!(into_block < block);
                assert_eq!(active[i].1, 512 * k + (into_block / 122880) as u64);
                assert_eq!(active[i].0, active[i].1 + 9 * 512);
                starts.push(active[i].1);
            }
        }
    }
    // the note begins 1.3 blocks into each pass of 4.5 blocks: 222 times
    // in a thousand blocks
    assert_eq!(starts.len(), 222);
}

#[test]
fn a_block_at_the_end_of_the_phrase_takes_up_both_ends() {
    let last = note(60, 950, 5000);
    let first = note(62, 0, 5000);
    let middle = note(64, 400, 5000);
    let track = track(Instrument::Saw, &[last, first, middle], 960);
    let mut player = PitchTrackPlayer::new();
    // at 120 beats per minute a block takes a little more than 22 960ths
    // of a beat: it reaches from 940 to the end of the phrase and on to 2
    player.play(&track, shelf(), &0, &beat(940), &Tempo::from_bpm(120));
    assert_eq!(
        player.active_notes(),
        vec![(229 + 114843, 229, last), (459 + 114843, 459, first)]
    );
}

#[test]
fn a_note_at_the_first_tick_of_a_block_is_in_and_one_at_the_last_is_out() {
    let tempo = Tempo::from_bpm(120);
    let block = tempo.beats_in(512);
    let first = beat(480);
    let second = first + block;
    let at_lo = PitchNote { pitch: Pitch::from(60), start: first, duration: beat(9600) };
    let at_hi = PitchNote { pitch: Pitch::from(62), start: second, duration: beat(9600) };
    let before_hi = PitchNote {
        pitch: Pitch::from(64),
        start: second - Beat::from_ticks(1),
        duration: beat(9600),
    };
    let phrase = Phrase::new().set_length(beat(960)).add_note(at_lo).add_note(at_hi).add_note(before_hi);
    let track = Track { phrase, instrument: Instrument::Saw, vol: 1000, pan: 0, effects: vec![] };
    let mut player = PitchTrackPlayer::new();
    player.play(&track, shelf(), &0, &first, &tempo);
    assert_eq!(player.active_notes(), vec![(220500, 0, at_lo), (220500 + 511, 511, before_hi)]);
    player.play(&track, shelf(), &512, &second, &tempo);
    assert_eq!(
        player.active_notes(),
        vec![(220500, 0, at_lo), (220500 + 511, 511, before_hi), (221012, 512, at_hi)]
    );
}

#[test]
fn notes_that_end_together_keep_the_order_of_their_registration() {
    let a = note(72, 0, 100);
    let b = note(60, 0, 100);
    let c = note(66, 10, 50);
    let track = track(Instrument::Saw, &[a, b, c], 960);
    let mut player = PitchTrackPlayer::new();
    player.play(&track, shelf(), &0, &Beat::from_ticks(0), &Tempo::from_bpm(120));
    // c ends first; of b and a, which end together, b was registered first
    assert_eq!(
        player.active_notes(),
        vec![(229 + 1148, 229, c), (2296, 0, b), (2296, 0, a)]
    );
}

#[test]
fn a_phrase_without_length_is_not_played() {
    let track = track(Instrument::Saw, &[note(60, 0, 960)], 0);
    let mut player = PitchTrackPlayer::new();
    let (left, right) = player.play(&track, shelf(), &0, &Beat::from(0), &Tempo::from_bpm(120));
    assert_eq!(left, vec![0; 512]);
    assert_eq!(right, vec![0; 512]);
    assert_eq!(player.active_notes(), vec![]);
}

#[test]
fn a_note_without_duration_is_dropped_unheard() {
    let track = track(Instrument::Saw, &[note(60, 0, 0), note(62, 1, -5)], 960);
    let mut player = PitchTrackPlayer::new();
    let (left, _) = player.play(&track, shelf(), &0, &Beat::from(0), &Tempo::from_bpm(120));
    assert_eq!(left, vec![0; 512]);
    assert_eq!(player.active_notes(), vec![]);
}

#[test]
fn clean_forgets_the_notes_that_sound() {
    let n = note(60, 0, 9600);
    let track = track(Instrument::Saw, &[n], 96000);
    let mut player = PitchTrackPlayer::new();
    player.play(&track, shelf(), &0, &Beat::from(0), &Tempo::from_bpm(120));
    assert_eq!(player.active_notes(), vec![(220500, 0, n)]);
    player.clean();
    assert_eq!(player.active_notes(), vec![]);
    let second = Tempo::from_bpm(120).beats_in(512);
    let (left, _) = player.play(&track, shelf(), &512, &second, &Tempo::from_bpm(120));
    assert_eq!(left, vec![0; 512]);
}

#[test]
fn the_effects_of_the_track_are_applied() {
    let mut with_effect = track(Instrument::Saw, &[note(60, 0, 960)], 960);
    with_effect.pan = 300;
    with_effect.effects = vec![EffectInfo::ToLeftEffect];
    let mut plain = track(Instrument::Saw, &[note(60, 0, 960)], 960);
    plain.pan = 300;
    let tempo = Tempo::from_bpm(60);
    let mut player = PitchTrackPlayer::new();
    let (left, right) = player.play(&with_effect, shelf(), &0, &Beat::from(0), &tempo);
    let (dry_left, dry_right) =
        PitchTrackPlayer::new().play(&plain, shelf(), &0, &Beat::from(0), &tempo);
    for i in 0..512 {
        assert_eq!(left[i], dry_left[i] + dry_right[i]);
        assert_eq!(right[i], 0);
    }
    // the same player, a track without effects
    let (left, right) = player.play(&plain, shelf(), &512, &tempo.beats_in(512), &tempo);
    assert!(right.iter().any(|s| *s != 0));
    assert!(left.iter().any(|s| *s != 0));
}

#[test]
fn a_sampled_instrument_is_asked_for_the_samples_of_each_note() {
    let n = note(60, 0, 9600);
    let mut track = track(Instrument::SF2("ramp".to_string(), 3), &[n], 96000);
    track.vol = 1000;
    track.pan = 500;
    let mut player = PitchTrackPlayer::new();
    let (left, right) = player.play(&track, shelf(), &0, &Beat::from(0), &Tempo::from_bpm(120));
    assert_eq!(left.len(), WAVE_LENGTH);
    for i in 0..512 {
        // the samples at half their level, weighted by the pan
        assert_eq!(left[i], (i as i32 + 1) * 1000 / 2 / 2);
        assert_eq!(right[i], 60 * 1000 / 2 * 3 / 2);
    }
    let second = Tempo::from_bpm(120).beats_in(512);
    let (left, _) = player.play(&track, shelf(), &512, &second, &Tempo::from_bpm(120));
    assert_eq!(left[0], 513 * 1000 / 4);
    assert_eq!(player.active_notes(), vec![(220500, 0, n)]);
}

#[test]
fn a_sampled_instrument_that_cannot_be_had_is_silent() {
    let n = note(60, 0, 9600);
    let tempo = Tempo::from_bpm(120);
    let missing = track(Instrument::SF2("other".to_string(), 3), &[n], 96000);
    let mut player = PitchTrackPlayer::new();
    let (left, right) = player.play(&missing, shelf(), &0, &Beat::from(0), &tempo);
    assert_eq!(left, vec![0; 512]);
    assert_eq!(right, vec![0; 512]);
    assert_eq!(player.active_notes(), vec![(220500, 0, n)]);
    let no_preset = track(Instrument::SF2("ramp".to_string(), 4), &[n], 96000);
    let (left, right) = PitchTrackPlayer::new().play(&no_preset, shelf(), &0, &Beat::from(0), &tempo);
    assert_eq!(left, vec![0; 512]);
    assert_eq!(right, vec![0; 512]);
}

#[test]
fn an_instrument_that_plays_no_pitches_is_silent() {
    let n = note(60, 0, 9600);
    let track = track(Instrument::Sample, &[n], 96000);
    let mut player = PitchTrackPlayer::new();
    let (left, right) = player.play(&track, shelf(), &0, &Beat::from(0), &Tempo::from_bpm(120));
    assert_eq!(left, vec![0; 512]);
    assert_eq!(right, vec![0; 512]);
    assert_eq!(player.active_notes(), vec![(220500, 0, n)]);
}

#[test]
fn volume_and_pan_are_taken_as_they_are() {
    let mut loud = track(Instrument::Saw, &[note(60, 0, 960)], 960);
    loud.vol = 2000;
    loud.pan = 2000;
    let tempo = Tempo::from_bpm(60);
    let (left, right) = PitchTrackPlayer::new().play(&loud, shelf(), &0, &Beat::from(0), &tempo);
    for i in 0..512 {
        let tone = saw(phase(i as u64, 261626));
        // twice the volume; the left channel turned over, the right one threefold
        assert_eq!(left[i], add_weighted_wave(0, tone, OSCILLATOR_TENTHS, 2000, -1000));
        assert_eq!(right[i], add_weighted_wave(0, tone, OSCILLATOR_TENTHS, 2000, 3000));
    }
    assert_eq!(left[0], 5013351);
    assert_eq!(right[0], -15040053);
}

#[test]
fn a_block_is_clipped_where_the_notes_are_too_many() {
    let notes: Vec<PitchNote> = (0..400).map(|d| note(60, 0, 960 + d)).collect();
    let mut many = track(Instrument::Saw, &notes, 960);
    many.vol = 65535;
    many.pan = 0;
    let tempo = Tempo::from_bpm(60);
    let (left, _) = PitchTrackPlayer::new().play(&many, shelf(), &0, &Beat::from(0), &tempo);
    assert_eq!(left[0], i32::MIN);
    assert_eq!(left[511], i32::MIN);
}

#[test]
fn a_block_is_played_at_the_end_of_all_counting() {
    let n = note(69, 0, 960);
    let track = track(Instrument::Saw, &[n], 960);
    let tempo = Tempo::from_bpm(120);
    let mut player = PitchTrackPlayer::new();
    // the note begins at the block's first tick, 200 samples before the
    // last sample that can be counted
    let origin = u64::MAX - 200;
    let position = Beat::from_ticks(i64::MAX / TICKS_PER_BEAT * TICKS_PER_BEAT);
    let (left, right) = player.play(&track, shelf(), &origin, &position, &tempo);
    assert_eq!(left.len(), 512);
    assert_eq!(right.len(), 512);
    for i in 0..512 {
        let expected = if i < 200 {
            add_weighted_wave(0, saw(phase(i as u64, 440000)), OSCILLATOR_TENTHS, 1000, 1000)
        } else {
            0
        };
        assert_eq!(left[i], expected, "sample {}", i);
    }
    // it ends at the last sample that can be counted, within the block
    assert_eq!(player.active_notes(), vec![]);
}

#[test]
fn a_note_that_began_long_ago_keeps_its_phase() {
    // a note that is held for all of a phrase as long as can be
    let n = PitchNote {
        pitch: Pitch::from(69),
        start: Beat::from_ticks(0),
        duration: Beat::from_ticks(i64::MAX),
    };
    let phrase = Phrase::new().set_length(Beat::from_ticks(i64::MAX)).add_note(n);
    let track = Track { phrase, instrument: Instrument::Saw, vol: 1000, pan: 0, effects: vec![] };
    let slow = Tempo::from_ticks_per_sample(1);
    let mut player = PitchTrackPlayer::new();
    player.play(&track, shelf(), &0, &Beat::from_ticks(0), &slow);
    assert_eq!(player.active_notes(), vec![(i64::MAX as u64, 0, n)]);
    // the block in which the phrase ends and begins again
    let origin = i64::MAX as u64 - 100;
    let position = Beat::from_ticks(i64::MAX - 100);
    let (left, _) = player.play(&track, shelf(), &origin, &position, &slow);
    for i in 0..512u64 {
        let since = if i < 100 { origin + i } else { i - 100 };
        let expected = add_weighted_wave(0, saw(phase(since, 440000)), OSCILLATOR_TENTHS, 1000, 1000);
        assert_eq!(left[i as usize], expected, "sample {}", i);
    }
    assert_eq!(player.active_notes(), vec![(u64::MAX - 1, i64::MAX as u64, n)]);
}

#[test]
fn notes_are_dropped_up_to_the_last_sample_that_can_be_counted() {
    // at a tempo of zero a note after the block's first tick begins, and
    // ends, at the last sample that can be counted
    let n = note(69, 1, 960);
    let track = track(Instrument::Saw, &[n], 960);
    let mut player = PitchTrackPlayer::new();
    player.play(&track, shelf(), &0, &beat(0), &Tempo::from_bpm(0));
    assert_eq!(player.active_notes(), vec![(u64::MAX, u64::MAX, n)]);
    // a block that ends just before that sample
    player.play(&track, shelf(), &(u64::MAX - 512), &beat(2), &Tempo::from_bpm(120));
    assert_eq!(player.active_notes(), vec![(u64::MAX, u64::MAX, n)]);
    // a block that reaches beyond it
    player.play(&track, shelf(), &(u64::MAX - 100), &beat(2), &Tempo::from_bpm(120));
    assert_eq!(player.active_notes(), vec![]);
}

#[test]
fn the_position_after_a_block_is_found_beyond_the_range_of_a_beat() {
    let far = Beat::from_ticks(i64::MAX);
    assert_eq!(position_after(far, far, Beat::from_ticks(1000)), Beat::from_ticks(614));
    assert_eq!(
        position_after(Beat::from_ticks(i64::MIN), Beat::from_ticks(-1), Beat::from_ticks(1000)),
        Beat::from_ticks(191)
    );
    assert_eq!(position_after(beat(950), beat(20), beat(960)), beat(10));
    // a block that begins at the last tick that can be counted
    let n = note(69, 0, 960);
    let track = track(Instrument::Saw, &[n], 960);
    let mut player = PitchTrackPlayer::new();
    let (left, _) = player.play(&track, shelf(), &0, &far, &Tempo::from_bpm(120));
    assert_eq!(left.len(), 512);
    // that tick lies 2704375807 ticks into a pass of the phrase, which
    // begins again in this block
    let into_block = (2709504000u64 - 2704375807) / 122880;
    assert_eq!(player.active_notes(), vec![(into_block + 22050, into_block, n)]);
}

/// Three tenths of the sine of a tone of 440 Hz, `n` samples after its
/// start, in steps of the full scale.
fn three_tenths_of_the_sine(n: usize) -> f64 {
    0.3 * (2.0 * std::f64::consts::PI * 440.0 * n as f64 / 44100.0).sin() * FULL_SCALE as f64
}

#[test]
fn a_sine_note_at_full_volume() {
    let track = track(Instrument::Sin, &[note(69, 0, 4 * 960)], 8 * 960);
    let mut player = PitchTrackPlayer::new();
    let (left, right) = player.play(&track, shelf(), &0, &Beat::from(0), &Tempo::from_bpm(120));
    assert_eq!(left[0], 0);
    assert_eq!(left[1], 157039);
    assert_eq!(right[1], 157039);
    for i in 0..512 {
        assert!((left[i] as f64 - three_tenths_of_the_sine(i)).abs() <= 0.5001, "sample {}", i);
        assert_eq!(right[i], left[i]);
    }
}

#[test]
fn a_sine_note_after_the_end_of_the_phrase() {
    // a phrase of one beat, and a block of half a beat that begins a
    // quarter of a beat before the end of the phrase
    let track = track(Instrument::Sin, &[note(69, 0, 480)], 960);
    let mut player = PitchTrackPlayer::new();
    let (left, right) = player.play(&track, shelf(), &768, &beat(720), &half_beat_blocks());
    // the note begins with the phrase, at the sample 1024
    assert_eq!(player.active_notes(), vec![(1536, 1024, note(69, 0, 480))]);
    for i in 0..512 {
        if i <= 256 {
            assert_eq!(left[i], 0, "sample {}", i);
        } else {
            assert!(
                (left[i] as f64 - three_tenths_of_the_sine(i - 256)).abs() <= 0.5001,
                "sample {}",
                i
            );
        }
        assert_eq!(right[i], left[i]);
    }
    assert_eq!(left[257], 157039);
}

#[test]
fn a_sine_note_in_the_second_half_of_the_beat() {
    let track = track(Instrument::Sin, &[note(69, 720, 96)], 960);
    let tempo = half_beat_blocks();
    let mut player = PitchTrackPlayer::new();
    let (left, _) = player.play(&track, shelf(), &0, &beat(0), &tempo);
    assert_eq!(left, vec![0; 512]);
    let (left, right) = player.play(&track, shelf(), &512, &beat(480), &tempo);
    for i in 0..512 {
        if i <= 256 || i >= 358 {
            assert_eq!(left[i], 0, "sample {}", i);
        } else {
            assert!(
                (left[i] as f64 - three_tenths_of_the_sine(i - 256)).abs() <= 0.5001,
                "sample {}",
                i
            );
        }
        assert_eq!(right[i], left[i]);
    }
    assert_eq!(left[257], 157039);
    assert_eq!(player.active_notes(), vec![]);
}
