//! The block of samples that the sounding notes give.

use super::active_notes::Sounding;
use super::effects::clip;
use super::oscillator::{
    add_weighted, add_weighted_wave, left_weight, phase, phase_spec, right_weight, wave,
    wave_spec, weighted, weighted_wave, Waveform, OSCILLATOR_TENTHS, SAMPLE_TENTHS,
};
use crate::data::music_info::pitch::{millihertz_spec, nearest_pitch};
use crate::resource_management::resource_manager::SampleResource;
use vstd::prelude::*;

verus! {

/// The first sample of the block at which a note sounds: the sample at
/// which it begins, or the block's first sample if it began before.
pub open spec fn first_index(sounding: Sounding, origin: u64) -> int {
    if sounding.1 <= origin {
        0
    } else {
        sounding.1 - origin
    }
}

/// The sample of the block before which a note falls silent: the sample
/// at which it ends, or the end of the block if it ends later, or the
/// start of the block if it ended before.
pub open spec fn end_index(sounding: Sounding, origin: u64, len: int) -> int {
    if sounding.0 >= origin + len {
        len
    } else if sounding.0 >= origin {
        sounding.0 - origin
    } else {
        0
    }
}

/// What the oscillator gives for a note at sample `i` of the block: its
/// wave at the phase that the tone has reached since the note began.
pub open spec fn tone_at(waveform: Waveform, sounding: Sounding, origin: u64, i: int) -> int {
    wave_spec(
        waveform,
        phase_spec(origin + i - sounding.1, millihertz_spec(sounding.2.pitch.pitch as int)),
    )
}

/// The channel `block` with the tone of a note added to it, weighted, from
/// the first sample at which the note sounds up to the one before which it
/// falls silent.
pub open spec fn add_tone(
    block: Seq<i32>,
    waveform: Waveform,
    sounding: Sounding,
    origin: u64,
    vol: int,
    pan_weight: int,
) -> Seq<i32> {
    Seq::new(
        block.len(),
        |i: int|
            if first_index(sounding, origin) <= i < end_index(
                sounding,
                origin,
                block.len() as int,
            ) {
                clip(
                    block[i] + weighted_wave(
                        tone_at(waveform, sounding, origin, i),
                        OSCILLATOR_TENTHS as int,
                        vol,
                        pan_weight,
                    ),
                ) as i32
            } else {
                block[i]
            },
    )
}

/// A channel of `len` samples of silence.
pub open spec fn silence(len: nat) -> Seq<i32> {
    Seq::new(len, |i: int| 0i32)
}

/// A channel of `len` samples with the tones of the notes `soundings`
/// added to silence, one after the other.
pub open spec fn tones(
    soundings: Seq<Sounding>,
    waveform: Waveform,
    origin: u64,
    vol: int,
    pan_weight: int,
    len: nat,
) -> Seq<i32>
    decreases soundings.len(),
{
    if soundings.len() == 0 {
        silence(len)
    } else {
        add_tone(
            tones(soundings.drop_last(), waveform, origin, vol, pan_weight, len),
            waveform,
            soundings.last(),
            origin,
            vol,
            pan_weight,
        )
    }
}

/// The sample `i` of `samples`, or zero where there is none.
pub open spec fn sample_or_silence(samples: Seq<i32>, i: int) -> int {
    if 0 <= i < samples.len() {
        samples[i] as int
    } else {
        0
    }
}

/// The channel `block` with `samples` added to it, weighted, from the
/// sample `first` of the block up to the sample `end`.
pub open spec fn add_sampled(
    block: Seq<i32>,
    samples: Seq<i32>,
    first: int,
    end: int,
    vol: int,
    pan_weight: int,
) -> Seq<i32> {
    Seq::new(
        block.len(),
        |i: int|
            if first <= i < end {
                clip(
                    block[i] + weighted(
                        sample_or_silence(samples, i - first),
                        SAMPLE_TENTHS as int,
                        vol,
                        pan_weight,
                    ),
                ) as i32
            } else {
                block[i]
            },
    )
}

/// A channel of `len` samples of silence.
pub fn silent_block(len: usize) -> (block: Vec<i32>)
    ensures
        block@ == silence(len as nat),
{
    let mut block: Vec<i32> = Vec::new();
    while block.len() < len
        invariant
            block@.len() <= len,
            block@ == silence(block@.len()),
        decreases len - block@.len(),
    {
        block.push(0);
        assert(block@ =~= silence(block@.len()));
    }
    block
}

/// The samples of a block of `len` samples at which a note sounds: from
/// the first up to the second.
pub fn sounding_range(sounding: &Sounding, origin: u64, len: usize) -> (range: (usize, usize))
    ensures
        range.1 == end_index(*sounding, origin, len as int),
        range.0 <= len,
        range.0 == first_index(*sounding, origin) || (range.0 == len && first_index(
            *sounding,
            origin,
        ) > len),
{
    let start_idx: usize = if sounding.1 <= origin {
        0
    } else if sounding.1 - origin >= len as u64 {
        len
    } else {
        (sounding.1 - origin) as usize
    };
    let end_idx: usize = if sounding.0 < origin {
        0
    } else if sounding.0 - origin >= len as u64 {
        len
    } else {
        (sounding.0 - origin) as usize
    };
    (start_idx, end_idx)
}

/// Adds the tone of a note to a channel.
pub fn add_tone_to(
    block: &mut Vec<i32>,
    waveform: Waveform,
    sounding: &Sounding,
    origin: u64,
    vol: u16,
    pan_weight: i64,
)
    requires
        -0x10000 <= pan_weight <= 0x10000,
    ensures
        final(block)@ == add_tone(
            old(block)@,
            waveform,
            *sounding,
            origin,
            vol as int,
            pan_weight as int,
        ),
{
    let len = block.len();
    let (start_idx, end_idx) = sounding_range(sounding, origin, len);
    let millihertz = sounding.2.pitch.get_millihertz();
    let ghost target = add_tone(
        old(block)@,
        waveform,
        *sounding,
        origin,
        vol as int,
        pan_weight as int,
    );
    let mut i: usize = start_idx;
    while i < end_idx
        invariant
            block@.len() == len,
            len == old(block)@.len(),
            -0x10000 <= pan_weight <= 0x10000,
            start_idx <= len,
            end_idx <= len,
            end_idx == end_index(*sounding, origin, len as int),
            start_idx == first_index(*sounding, origin) || (start_idx == len && first_index(
                *sounding,
                origin,
            ) > len),
            start_idx <= i,
            millihertz == millihertz_spec(sounding.2.pitch.pitch as int),
            target == add_tone(
                old(block)@,
                waveform,
                *sounding,
                origin,
                vol as int,
                pan_weight as int,
            ),
            forall|j: int| 0 <= j < len && (j < i || j >= end_idx) ==> block@[j] == target[j],
            forall|j: int| i <= j < end_idx ==> block@[j] == old(block)@[j],
        decreases end_idx - i,
    {
        // a sample at which the note sounds comes before the sample at
        // which it ends, so it can be counted
        let since: u64 = origin + i as u64 - sounding.1;
        let value = wave(waveform, phase(since, millihertz));
        let sum = add_weighted_wave(block[i], value, OSCILLATOR_TENTHS, vol, pan_weight);
        block.set(i, sum);
        i += 1;
    }
    assert(block@ =~= target);
}

/// Adds samples to a channel, from the sample `first` of the channel up to
/// the sample `end`.
pub fn add_samples_to(
    block: &mut Vec<i32>,
    samples: &Vec<i32>,
    first: usize,
    end: usize,
    vol: u16,
    pan_weight: i64,
)
    requires
        end <= old(block)@.len(),
        -0x10000 <= pan_weight <= 0x10000,
    ensures
        final(block)@ == add_sampled(
            old(block)@,
            samples@,
            first as int,
            end as int,
            vol as int,
            pan_weight as int,
        ),
{
    let ghost target = add_sampled(
        old(block)@,
        samples@,
        first as int,
        end as int,
        vol as int,
        pan_weight as int,
    );
    let mut i: usize = first;
    while i < end
        invariant
            block@.len() == old(block)@.len(),
            end <= block@.len(),
            -0x10000 <= pan_weight <= 0x10000,
            first <= i,
            target == add_sampled(
                old(block)@,
                samples@,
                first as int,
                end as int,
                vol as int,
                pan_weight as int,
            ),
            forall|j: int|
                0 <= j < block@.len() && (j < i || j >= end) ==> block@[j] == target[j],
            forall|j: int| i <= j < end ==> block@[j] == old(block)@[j],
        decreases end - i,
    {
        let sample: i32 = if i - first < samples.len() {
            samples[i - first]
        } else {
            0
        };
        let sum = add_weighted(block[i], sample, SAMPLE_TENTHS, vol, pan_weight);
        block.set(i, sum);
        i += 1;
    }
    assert(block@ =~= target);
}

/// The block of `len` samples that the notes `soundings` give on an
/// oscillator, from the sample `origin` on.
pub fn render_tones(
    soundings: &Vec<Sounding>,
    waveform: Waveform,
    origin: u64,
    vol: u16,
    pan: i16,
    len: usize,
) -> (out: (Vec<i32>, Vec<i32>))
    ensures
        out.0@.len() == len,
        out.1@.len() == len,
        out.0@ == tones(
            soundings@,
            waveform,
            origin,
            vol as int,
            left_weight(pan as int),
            len as nat,
        ),
        out.1@ == tones(
            soundings@,
            waveform,
            origin,
            vol as int,
            right_weight(pan as int),
            len as nat,
        ),
{
    let mut left_wave = silent_block(len);
    let mut right_wave = silent_block(len);
    let to_left: i64 = 1000 - pan as i64;
    let to_right: i64 = 1000 + pan as i64;
    let mut i: usize = 0;
    assert(soundings@.take(0) =~= Seq::<Sounding>::empty());
    while i < soundings.len()
        invariant
            i <= soundings@.len(),
            to_left == left_weight(pan as int),
            to_right == right_weight(pan as int),
            left_wave@.len() == len,
            right_wave@.len() == len,
            left_wave@ == tones(
                soundings@.take(i as int),
                waveform,
                origin,
                vol as int,
                to_left as int,
                len as nat,
            ),
            right_wave@ == tones(
                soundings@.take(i as int),
                waveform,
                origin,
                vol as int,
                to_right as int,
                len as nat,
            ),
        decreases soundings@.len() - i,
    {
        proof {
            assert(soundings@.take(i + 1).drop_last() =~= soundings@.take(i as int));
        }
        add_tone_to(&mut left_wave, waveform, &soundings[i], origin, vol, to_left);
        add_tone_to(&mut right_wave, waveform, &soundings[i], origin, vol, to_right);
        i += 1;
    }
    assert(soundings@.take(i as int) =~= soundings@);
    (left_wave, right_wave)
}

/// What is asked of a sampled instrument for a note, and where in the
/// block the answer is put.
#[derive(Clone, Copy, Debug, PartialEq, Eq, Structural)]
pub struct SampleRequest {
    /// The pitch of the note, from 0 to 127.
    pub pitch: u8,
    /// The first sample of the tone that is asked for.
    pub start: usize,
    /// The sample of the tone before which what is asked for ends.
    pub end: usize,
    /// The sample of the block at which the answer begins.
    pub first_index: usize,
    /// The sample of the block before which the answer ends.
    pub end_index: usize,
}

/// What is asked of a sampled instrument for a note that sounds in the
/// block of `len` samples from `origin` on: the samples of the tone from
/// as many samples after its start as the first sample of the block at
/// which the note sounds, up to as many as the sample before which it
/// falls silent.  Nothing is asked for a note that does not sound in the
/// block.
pub open spec fn request_spec(sounding: Sounding, origin: u64, len: int) -> Option<SampleRequest> {
    let first = first_index(sounding, origin);
    let end = end_index(sounding, origin, len);
    if first < end && origin + end - sounding.1 <= usize::MAX {
        Some(
            SampleRequest {
                pitch: nearest_pitch(sounding.2.pitch.pitch as int) as u8,
                start: (origin + first - sounding.1) as usize,
                end: (origin + end - sounding.1) as usize,
                first_index: first as usize,
                end_index: end as usize,
            },
        )
    } else {
        None
    }
}

/// What is asked of a sampled instrument for a note.
pub fn sample_request(sounding: &Sounding, origin: u64, len: usize) -> (request: Option<
    SampleRequest,
>)
    ensures
        request == request_spec(*sounding, origin, len as int),
        request matches Some(r) ==> r.first_index < r.end_index <= len && r.start < r.end,
{
    let (start_idx, end_idx) = sounding_range(sounding, origin, len);
    if start_idx < end_idx {
        let start_idx_for_sample: u64 = origin + start_idx as u64 - sounding.1;
        let end_idx_for_sample: u64 = origin + end_idx as u64 - sounding.1;
        if end_idx_for_sample <= usize::MAX as u64 {
            return Some(
                SampleRequest {
                    pitch: sounding.2.pitch.get_u8_pitch(),
                    start: start_idx_for_sample as usize,
                    end: end_idx_for_sample as usize,
                    first_index: start_idx,
                    end_index: end_idx,
                },
            );
        }
    }
    None
}

/// What a sampled instrument gave when it was asked for samples.
pub type Answer = Result<(Vec<i32>, Vec<i32>), String>;

/// Whether `answer` is what the instrument `resource` may have given when
/// it was asked for the samples of a note: what `get_samples` can give for
/// what `request_spec` asks.  Where nothing is asked, any answer will do.
pub open spec fn answered<S: SampleResource>(
    resource: &S,
    preset_idx: usize,
    sounding: Sounding,
    origin: u64,
    len: int,
    answer: Answer,
) -> bool {
    match request_spec(sounding, origin, len) {
        Some(request) => call_ensures(
            S::get_samples,
            (resource, preset_idx, request.pitch, request.start, request.end),
            answer,
        ),
        None => true,
    }
}

/// The two channels `block` with the answer for a note added: the samples
/// that were given, on either side, where they were asked for.  Where
/// nothing was asked or nothing given, the block stays as it is.
pub open spec fn add_answer(
    block: (Seq<i32>, Seq<i32>),
    sounding: Sounding,
    answer: Answer,
    origin: u64,
    vol: int,
    pan: int,
) -> (Seq<i32>, Seq<i32>) {
    match (request_spec(sounding, origin, block.0.len() as int), answer) {
        (Some(request), Ok(data)) => (
            add_sampled(
                block.0,
                data.0@,
                request.first_index as int,
                request.end_index as int,
                vol,
                left_weight(pan),
            ),
            add_sampled(
                block.1,
                data.1@,
                request.first_index as int,
                request.end_index as int,
                vol,
                right_weight(pan),
            ),
        ),
        _ => block,
    }
}

/// Two channels of `len` samples with the answers for the notes
/// `soundings` added to silence, one after the other.
pub open spec fn sampled(
    soundings: Seq<Sounding>,
    answers: Seq<Answer>,
    origin: u64,
    vol: int,
    pan: int,
    len: nat,
) -> (Seq<i32>, Seq<i32>)
    decreases soundings.len(),
{
    if soundings.len() == 0 || answers.len() != soundings.len() {
        (silence(len), silence(len))
    } else {
        add_answer(
            sampled(soundings.drop_last(), answers.drop_last(), origin, vol, pan, len),
            soundings.last(),
            answers.last(),
            origin,
            vol,
            pan,
        )
    }
}

/// Whether `block` is what the notes `soundings` give on the preset
/// `preset_idx` of the sampled instrument `resource`: there are answers
/// that the instrument may have given, one for each note, and the block is
/// what those answers give.
pub open spec fn is_sampled_block<S: SampleResource>(
    soundings: Seq<Sounding>,
    resource: &S,
    preset_idx: usize,
    origin: u64,
    vol: int,
    pan: int,
    len: nat,
    block: (Seq<i32>, Seq<i32>),
) -> bool {
    exists|answers: Seq<Answer>|
        {
            &&& answers.len() == soundings.len()
            &&& forall|k: int|
                0 <= k < soundings.len() ==> answered(
                    resource,
                    preset_idx,
                    soundings[k],
                    origin,
                    len as int,
                    #[trigger] answers[k],
                )
            &&& block == sampled(soundings, answers, origin, vol, pan, len)
        }
}

/// The block of `len` samples that the notes `soundings` give on the
/// preset `preset_idx` of a sampled instrument, from the sample `origin` on.
///
/// For each note in turn, the instrument is asked what `sample_request`
/// says, and what it gives is added by `add_samples_to`.  A note for which
/// the instrument gives no samples stays silent.
pub fn render_samples<S: SampleResource>(
    soundings: &Vec<Sounding>,
    resource: &S,
    preset_idx: usize,
    origin: u64,
    vol: u16,
    pan: i16,
    len: usize,
) -> (out: (Vec<i32>, Vec<i32>))
    ensures
        out.0@.len() == len,
        out.1@.len() == len,
        is_sampled_block(
            soundings@,
            resource,
            preset_idx,
            origin,
            vol as int,
            pan as int,
            len as nat,
            (out.0@, out.1@),
        ),
{
    let mut left_wave = silent_block(len);
    let mut right_wave = silent_block(len);
    let to_left: i64 = 1000 - pan as i64;
    let to_right: i64 = 1000 + pan as i64;
    let ghost mut answers: Seq<Answer> = Seq::empty();
    let mut i: usize = 0;
    assert(soundings@.take(0) =~= Seq::<Sounding>::empty());
    while i < soundings.len()
        invariant
            i <= soundings@.len(),
            left_wave@.len() == len,
            right_wave@.len() == len,
            to_left == left_weight(pan as int),
            to_right == right_weight(pan as int),
            answers.len() == i,
            forall|k: int|
                0 <= k < i ==> answered(
                    resource,
                    preset_idx,
                    soundings@[k],
                    origin,
                    len as int,
                    #[trigger] answers[k],
                ),
            (left_wave@, right_wave@) == sampled(
                soundings@.take(i as int),
                answers,
                origin,
                vol as int,
                pan as int,
                len as nat,
            ),
        decreases soundings@.len() - i,
    {
        let ghost before = answers;
        proof {
            assert(soundings@.take(i + 1).drop_last() =~= soundings@.take(i as int));
        }
        match sample_request(&soundings[i], origin, len) {
            Some(request) => {
                let sample_data = resource.get_samples(
                    preset_idx,
                    request.pitch,
                    request.start,
                    request.end,
                );
                proof {
                    answers = before.push(sample_data);
                }
                match sample_data {
                    Ok(sample_data) => {
                        add_samples_to(
                            &mut left_wave,
                            &sample_data.0,
                            request.first_index,
                            request.end_index,
                            vol,
                            to_left,
                        );
                        add_samples_to(
                            &mut right_wave,
                            &sample_data.1,
                            request.first_index,
                            request.end_index,
                            vol,
                            to_right,
                        );
                    },
                    Err(_) => {},
                }
            },
            None => {
                proof {
                    answers = before.push(arbitrary());
                }
            },
        }
        proof {
            assert(answers.drop_last() =~= before);
        }
        i += 1;
    }
    assert(soundings@.take(i as int) =~= soundings@);
    (left_wave, right_wave)
}

} // verus!
