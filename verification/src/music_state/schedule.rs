//! Which notes of a looping phrase begin in a block, and at which samples
//! they begin and end.

use super::active_notes::{
    index_of, register_all, register_note, ActiveIndex, ActiveNotes, Sounding,
};
use crate::data::music_info::tempo::samples_in;
use crate::data::music_info::{Beat, Phrase, PitchNote, Tempo};
use vstd::prelude::*;

verus! {

/// A count of samples as far as 64 bits can count.
pub open spec fn counted(samples: int) -> u64 {
    if samples > u64::MAX {
        u64::MAX
    } else {
        samples as u64
    }
}

/// The note `note` as it sounds when it begins `offset` ticks after the
/// sample `origin`: it begins after the samples of `offset` and ends after
/// the samples of its duration.
pub open spec fn sounding_of(
    note: PitchNote,
    offset: int,
    origin: u64,
    ticks_per_sample: int,
) -> Sounding {
    let start = counted(origin + samples_in(ticks_per_sample, offset));
    let end = counted(start + samples_in(ticks_per_sample, note.duration.num as int));
    (end, start, note)
}

/// Whether a note starts at `lo` or later and before `hi`.
pub open spec fn starts_in(lo: int, hi: int) -> spec_fn(PitchNote) -> bool {
    |note: PitchNote| lo <= note.start.num < hi
}

/// A note as it sounds when tick `-shift` of the phrase falls on the
/// sample `origin`.
pub open spec fn shifted(shift: int, origin: u64, ticks_per_sample: int) -> spec_fn(
    PitchNote,
) -> Sounding {
    |note: PitchNote| sounding_of(note, note.start.num + shift, origin, ticks_per_sample)
}

/// The notes of `notes` that start at `lo` or later and before `hi`, in
/// the order of `notes`, as they sound when tick `-shift` of the phrase
/// falls on the sample `origin`.
pub open spec fn window(
    notes: Seq<PitchNote>,
    lo: int,
    hi: int,
    shift: int,
    origin: u64,
    ticks_per_sample: int,
) -> Seq<Sounding> {
    notes.filter(starts_in(lo, hi)).map_values(shifted(shift, origin, ticks_per_sample))
}

/// The notes that begin in a block.
///
/// The block begins at the sample `origin`, when `position` ticks have
/// passed, and lasts for `block` ticks; the phrase repeats after `length`
/// ticks.  Where the block lies within one pass of the phrase, the notes
/// are those that start from the block's first tick on and before its
/// last.  Where the block reaches the end of the phrase, they are the
/// notes up to the end of the phrase, followed by the notes from the start
/// of the phrase on and before the block's last tick.  A phrase without
/// length gives no notes.
pub open spec fn scheduled(
    notes: Seq<PitchNote>,
    length: int,
    position: int,
    block: int,
    origin: u64,
    ticks_per_sample: int,
) -> Seq<Sounding> {
    if length <= 0 {
        Seq::empty()
    } else {
        let current = position % length;
        let next = (position + block) % length;
        if current < next {
            window(notes, current, next, -current, origin, ticks_per_sample)
        } else {
            window(notes, current, length, -current, origin, ticks_per_sample) + window(
                notes,
                0,
                next,
                length - current,
                origin,
                ticks_per_sample,
            )
        }
    }
}

/// Registering two runs of notes one after the other is registering the
/// one run that they make together.
pub proof fn lemma_register_all_add(index: ActiveIndex, first: Seq<Sounding>, second: Seq<Sounding>)
    ensures
        register_all(index, first + second) == register_all(register_all(index, first), second),
    decreases second.len(),
{
    if second.len() == 0 {
        assert(first + second =~= first);
    } else {
        lemma_register_all_add(index, first, second.drop_last());
        assert((first + second).drop_last() =~= first + second.drop_last());
        assert((first + second).last() == second.last());
    }
}

/// Registers the notes of `notes` that start at `lo` or later and before
/// `hi`, as they sound when tick `-shift` of the phrase falls on the sample
/// `origin`.
pub fn register_notes(
    played: &mut ActiveNotes,
    notes: &Vec<PitchNote>,
    lo: Beat,
    hi: Beat,
    shift: Beat,
    origin: u64,
    tempo: &Tempo,
)
    requires
        i64::MIN <= lo.num + shift.num,
        hi.num + shift.num <= i64::MAX,
    ensures
        index_of(final(played)@) == register_all(
            index_of(old(played)@),
            window(
                notes@,
                lo.num as int,
                hi.num as int,
                shift.num as int,
                origin,
                tempo.ticks_per_sample as int,
            ),
        ),
{
    let ghost pred = starts_in(lo.num as int, hi.num as int);
    let ghost f = shifted(shift.num as int, origin, tempo.ticks_per_sample as int);
    let mut i: usize = 0;
    assert(notes@.take(0).filter(pred) =~= Seq::<PitchNote>::empty()) by {
        reveal(Seq::filter);
    }
    assert(notes@.take(0).filter(pred).map_values(f) =~= Seq::<Sounding>::empty());
    while i < notes.len()
        invariant
            i <= notes@.len(),
            i64::MIN <= lo.num + shift.num,
            hi.num + shift.num <= i64::MAX,
            pred == starts_in(lo.num as int, hi.num as int),
            f == shifted(shift.num as int, origin, tempo.ticks_per_sample as int),
            index_of(played@) == register_all(
                index_of(old(played)@),
                notes@.take(i as int).filter(pred).map_values(f),
            ),
        decreases notes@.len() - i,
    {
        let note = notes[i];
        let ghost seen = notes@.take(i as int);
        proof {
            assert(notes@.take(i + 1) =~= seen.push(note));
            seen.lemma_filter_push(note, pred);
        }
        if lo.num <= note.start.num && note.start.num < hi.num {
            let offset = Beat::from_ticks(note.start.num + shift.num);
            let start = origin.saturating_add(tempo.samples_in(offset));
            let end = start.saturating_add(tempo.samples_in(note.duration));
            register_note(played, end, start, note);
            proof {
                let before = seen.filter(pred).map_values(f);
                let now = notes@.take(i + 1).filter(pred).map_values(f);
                assert(now =~= before.push(f(note)));
                assert(now.drop_last() =~= before);
                assert(f(note) == (end, start, note));
            }
        }
        i += 1;
    }
    assert(notes@.take(i as int) =~= notes@);
}

/// The position in a loop of the length `length` that is reached when the
/// time `block` has passed since the time `position`, however great the
/// two are.
pub fn position_after(position: Beat, block: Beat, length: Beat) -> (next: Beat)
    requires
        length.num > 0,
    ensures
        next.num == (position.num + block.num) % (length.num as int),
        0 <= next.num < length.num,
{
    let sum: i128 = position.num as i128 + block.num as i128;
    let m: i128 = length.num as i128;
    proof {
        vstd::arithmetic::div_mod::lemma_mod_bound(sum as int, m as int);
    }
    if sum >= 0 {
        Beat::from_ticks((sum % m) as i64)
    } else {
        let below: i128 = -(sum + 1);
        let r: i128 = below % m;
        proof {
            let q = below as int / m as int;
            vstd::arithmetic::div_mod::lemma_fundamental_div_mod(below as int, m as int);
            assert(sum as int == (-(q + 1)) * m + (m - 1 - r)) by (nonlinear_arith)
                requires
                    below as int == m * q + r,
                    below as int == -(sum as int + 1),
            ;
            vstd::arithmetic::div_mod::lemma_fundamental_div_mod_converse(
                sum as int,
                m as int,
                -(q + 1),
                m - 1 - r,
            );
        }
        Beat::from_ticks((m - 1 - r) as i64)
    }
}

/// Registers the notes of `phrase` that begin in the block which begins
/// at the sample `origin`, when the time `position` has passed, and lasts
/// for the time `block`.
pub fn schedule_block(
    played: &mut ActiveNotes,
    phrase: &Phrase<PitchNote>,
    origin: u64,
    position: Beat,
    block: Beat,
    tempo: &Tempo,
)
    ensures
        index_of(final(played)@) == register_all(
            index_of(old(played)@),
            scheduled(
                phrase.notes@,
                phrase.length.num as int,
                position.num as int,
                block.num as int,
                origin,
                tempo.ticks_per_sample as int,
            ),
        ),
{
    if phrase.length.is_positive() {
        let length = phrase.length;
        let rep_current_beats = position % length;
        let rep_next_beats = position_after(position, block, length);
        proof {
            crate::data::music_info::beat::lemma_rem_in_loop(position, length);
        }
        if rep_current_beats.is_before(&rep_next_beats) {
            let shift = Beat::from_ticks(-rep_current_beats.num);
            register_notes(
                played,
                &phrase.notes,
                rep_current_beats,
                rep_next_beats,
                shift,
                origin,
                tempo,
            );
        } else {
            let shift = Beat::from_ticks(-rep_current_beats.num);
            register_notes(played, &phrase.notes, rep_current_beats, length, shift, origin, tempo);
            let wrapped = length - rep_current_beats;
            register_notes(
                played,
                &phrase.notes,
                Beat::from_ticks(0),
                rep_next_beats,
                wrapped,
                origin,
                tempo,
            );
            proof {
                lemma_register_all_add(
                    index_of(old(played)@),
                    window(
                        phrase.notes@,
                        rep_current_beats.num as int,
                        length.num as int,
                        -rep_current_beats.num,
                        origin,
                        tempo.ticks_per_sample as int,
                    ),
                    window(
                        phrase.notes@,
                        0,
                        rep_next_beats.num as int,
                        length.num - rep_current_beats.num,
                        origin,
                        tempo.ticks_per_sample as int,
                    ),
                );
            }
        }
    }
}

/// Whether a sounding is one of the note `note`.
pub open spec fn is_note(note: PitchNote) -> spec_fn(Sounding) -> bool {
    |sounding: Sounding| sounding.2 == note
}

/// Whether an occurrence of a note that starts at tick `start` of a phrase
/// of length `length` falls into the block that begins when `position`
/// ticks have passed and lasts for `block` ticks.
pub open spec fn begins_in_block(start: int, length: int, position: int, block: int) -> bool {
    (start - position) % length < block
}

/// Of notes that are all different, a window holds a given note once if
/// the note is among them and starts in the window, and else not at all.
pub proof fn lemma_window_of_note(
    notes: Seq<PitchNote>,
    note: PitchNote,
    lo: int,
    hi: int,
    shift: int,
    origin: u64,
    ticks_per_sample: int,
)
    requires
        notes.no_duplicates(),
    ensures
        window(notes, lo, hi, shift, origin, ticks_per_sample).filter(is_note(note)) == if
            notes.contains(note) && lo <= note.start.num < hi {
            seq![sounding_of(note, note.start.num + shift, origin, ticks_per_sample)]
        } else {
            Seq::<Sounding>::empty()
        },
    decreases notes.len(),
{
    let pred = starts_in(lo, hi);
    let f = shifted(shift, origin, ticks_per_sample);
    let p = is_note(note);
    if notes.len() == 0 {
        reveal(Seq::filter);
        assert(notes.filter(pred) =~= Seq::<PitchNote>::empty());
        assert(notes.filter(pred).map_values(f) =~= Seq::<Sounding>::empty());
        assert(!notes.contains(note));
    } else {
        let before = notes.drop_last();
        let last = notes.last();
        assert(notes =~= before.push(last));
        lemma_window_of_note(before, note, lo, hi, shift, origin, ticks_per_sample);
        before.lemma_filter_push(last, pred);
        assert(notes.contains(note) <==> before.contains(note) || last == note) by {
            if before.contains(note) {
                let i = choose|i: int| 0 <= i < before.len() && before[i] == note;
                assert(notes[i] == note);
            }
            if last == note {
                assert(notes[notes.len() - 1] == note);
            }
            if notes.contains(note) {
                let i = choose|i: int| 0 <= i < notes.len() && notes[i] == note;
                if i < before.len() {
                    assert(before[i] == note);
                }
            }
        }
        assert(!(before.contains(note) && last == note)) by {
            if before.contains(note) && last == note {
                let i = choose|i: int| 0 <= i < before.len() && before[i] == note;
                assert(notes[i] == notes[notes.len() - 1]);
            }
        }
        let w_before = before.filter(pred).map_values(f);
        if pred(last) {
            assert(notes.filter(pred).map_values(f) =~= w_before.push(f(last)));
            w_before.lemma_filter_push(f(last), p);
            if last == note {
                assert(w_before.filter(p).push(f(last)) =~= seq![f(note)]);
            }
        }
    }
}

/// How the ticks of a block lie in the loop.
pub proof fn lemma_block_in_loop(start: int, length: int, position: int, block: int)
    requires
        0 < block <= length,
        0 <= start < length,
    ensures
        ({
            let current = position % length;
            let next = (position + block) % length;
            let offset = (start - position) % length;
            &&& 0 <= current < length
            &&& 0 <= next < length
            &&& 0 <= offset < length
            &&& current < next ==> (current <= start < next <==> offset < block)
            &&& current >= next ==> (current <= start || start < next <==> offset < block)
            &&& current >= next ==> !(current <= start && start < next)
            &&& current <= start ==> offset == start - current
            &&& start < current ==> offset == length - current + start
        }),
{
    let current = position % length;
    let q = position / length;
    vstd::arithmetic::div_mod::lemma_fundamental_div_mod(position, length);
    assert(position == q * length + current) by (nonlinear_arith)
        requires
            position == length * q + current,
    ;
    if current <= start {
        assert(start - position == (-q) * length + (start - current)) by (nonlinear_arith)
            requires
                position == q * length + current,
        ;
        vstd::arithmetic::div_mod::lemma_fundamental_div_mod_converse(
            start - position,
            length,
            -q,
            start - current,
        );
    } else {
        assert(start - position == (-q - 1) * length + (length - current + start))
            by (nonlinear_arith)
            requires
                position == q * length + current,
        ;
        vstd::arithmetic::div_mod::lemma_fundamental_div_mod_converse(
            start - position,
            length,
            -q - 1,
            length - current + start,
        );
    }
    if current + block < length {
        assert(position + block == q * length + (current + block));
        vstd::arithmetic::div_mod::lemma_fundamental_div_mod_converse(
            position + block,
            length,
            q,
            current + block,
        );
    } else {
        assert(position + block == (q + 1) * length + (current + block - length))
            by (nonlinear_arith)
            requires
                position == q * length + current,
        ;
        vstd::arithmetic::div_mod::lemma_fundamental_div_mod_converse(
            position + block,
            length,
            q + 1,
            current + block - length,
        );
    }
}

/// A block that is no longer than the phrase registers a note of the
/// phrase once if an occurrence of the note falls into the block, and else
/// not at all.  The note then begins as many samples after the block's
/// first sample as the ticks from the block's first tick to the occurrence
/// take.
pub proof fn law_block_registers_note(
    notes: Seq<PitchNote>,
    note: PitchNote,
    length: int,
    position: int,
    block: int,
    origin: u64,
    ticks_per_sample: int,
)
    requires
        notes.no_duplicates(),
        notes.contains(note),
        0 < block <= length,
        0 <= note.start.num < length,
    ensures
        scheduled(notes, length, position, block, origin, ticks_per_sample).filter(
            is_note(note),
        ) == if begins_in_block(
            note.start.num as int,
            length,
            position,
            block,
        ) {
            seq![
                sounding_of(note, (note.start.num - position) % length, origin, ticks_per_sample),
            ]
        } else {
            Seq::<Sounding>::empty()
        },
{
    let start = note.start.num as int;
    let current = position % length;
    let next = (position + block) % length;
    lemma_block_in_loop(start, length, position, block);
    if current < next {
        lemma_window_of_note(notes, note, current, next, -current, origin, ticks_per_sample);
    } else {
        let first = window(notes, current, length, -current, origin, ticks_per_sample);
        let second = window(notes, 0, next, length - current, origin, ticks_per_sample);
        lemma_window_of_note(notes, note, current, length, -current, origin, ticks_per_sample);
        lemma_window_of_note(notes, note, 0, next, length - current, origin, ticks_per_sample);
        Seq::filter_distributes_over_add(first, second, is_note(note));
        assert(first.filter(is_note(note)) + second.filter(is_note(note)) =~= if begins_in_block(
            start,
            length,
            position,
            block,
        ) {
            seq![sounding_of(note, (start - position) % length, origin, ticks_per_sample)]
        } else {
            Seq::<Sounding>::empty()
        });
    }
}

/// Of the blocks that follow one another from the tick `first` on, each
/// `block` ticks long and none longer than the phrase, one and only one
/// registers the occurrence of a note at the tick `occurrence`: the block
/// into which that tick falls.  So every pass of the phrase has the note
/// registered once, wherever in the pass the blocks begin and end.
pub proof fn law_occurrence_registered_once(
    start: int,
    length: int,
    first: int,
    block: int,
    occurrence: int,
    k: int,
)
    requires
        0 < block <= length,
        0 <= start < length,
        first <= occurrence,
        (occurrence - start) % length == 0,
        0 <= k,
    ensures
        ({
            let position = first + k * block;
            (begins_in_block(start, length, position, block) && position + (start - position)
                % length == occurrence) <==> k == (occurrence - first) / block
        }),
{
    let position = first + k * block;
    let offset = (start - position) % length;
    let into = occurrence - first;
    vstd::arithmetic::div_mod::lemma_fundamental_div_mod(into, block);
    vstd::arithmetic::div_mod::lemma_fundamental_div_mod(start - position, length);
    vstd::arithmetic::div_mod::lemma_mod_bound(start - position, length);
    if k == into / block {
        assert(occurrence - position == into % block) by (nonlinear_arith)
            requires
                into == block * (into / block) + into % block,
                position == first + k * block,
                k == into / block,
                into == occurrence - first,
        ;
        // the tick of the occurrence lies in the block, and is a start of the note
        let m = (occurrence - start) / length;
        vstd::arithmetic::div_mod::lemma_fundamental_div_mod(occurrence - start, length);
        assert(start - position == (-m) * length + (occurrence - position)) by (nonlinear_arith)
            requires
                occurrence - start == length * m,
        ;
        vstd::arithmetic::div_mod::lemma_fundamental_div_mod_converse(
            start - position,
            length,
            -m,
            occurrence - position,
        );
    } else if begins_in_block(start, length, position, block) && position + offset == occurrence {
        assert(into == k * block + offset);
        assert(into == block * k + offset) by (nonlinear_arith)
            requires
                into == k * block + offset,
        ;
        vstd::arithmetic::div_mod::lemma_fundamental_div_mod_converse(into, block, k, offset);
    }
}

} // verus!
