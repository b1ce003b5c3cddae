//! A line of drum notation: every character is a step of half a beat, and
//! the characters `x`, `o` and `-` each trigger the sound of their name.

use crate::data::music_info::note::compare_keys;
use crate::data::music_info::phrase::{insert_note, notes_before};
use crate::data::music_info::{Beat, Phrase, SampleNote, SamplePhrase};
use vstd::prelude::*;
use vstd::utf8::encode_utf8;

verus! {

/// The number of ticks in a step: half a beat.
pub const STEP_TICKS: i64 = 1354752000;

/// The greatest number of bytes in a line: as many as steps fit into the
/// range of a beat.
pub const MAX_LINE_LEN: u64 = 6808162701;

/// Whether a character triggers a sound.
pub open spec fn is_sound(c: char) -> bool {
    c == 'x' || c == 'o' || c == '-'
}

/// The triggers of a line: for each step whose character triggers a sound,
/// the name of the sound and the tick at which the step begins, in the
/// order of the steps.
pub open spec fn triggers(line: Seq<char>) -> Seq<(Seq<char>, int)>
    decreases line.len(),
{
    if line.len() == 0 {
        Seq::empty()
    } else if is_sound(line.last()) {
        triggers(line.drop_last()).push((seq![line.last()], (line.len() - 1) * STEP_TICKS))
    } else {
        triggers(line.drop_last())
    }
}

/// The names and starts of notes.
pub open spec fn triggers_of(notes: Seq<SampleNote>) -> Seq<(Seq<char>, int)> {
    notes.map_values(|note: SampleNote| (note.sound@, note.start.num as int))
}

/// A line has no more characters than bytes.
pub proof fn lemma_chars_in_bytes(chars: Seq<char>)
    ensures
        chars.len() <= encode_utf8(chars).len(),
    decreases chars.len(),
{
    if chars.len() > 0 {
        lemma_chars_in_bytes(chars.drop_first());
    }
}

/// A note that starts after all the notes of a phrase is put behind them.
pub proof fn lemma_later_note_is_last(notes: Seq<SampleNote>, note: SampleNote)
    requires
        forall|j: int| 0 <= j < notes.len() ==> (#[trigger] notes[j]).start.num < note.start.num,
    ensures
        insert_note(notes, note) == notes.push(note),
        notes_before(notes, crate::data::music_info::Note::sort_key(&note)) == notes.len(),
    decreases notes.len(),
{
    let key = crate::data::music_info::Note::sort_key(&note);
    if notes.len() > 0 {
        let rest = notes.drop_first();
        assert forall|j: int| 0 <= j < rest.len() implies (#[trigger] rest[j]).start.num
            < note.start.num by {
            assert(rest[j] == notes[j + 1]);
        }
        lemma_later_note_is_last(rest, note);
        let first = crate::data::music_info::Note::sort_key(&notes[0]);
        assert(first[0] == notes[0].start.num);
        assert(key[0] == note.start.num);
        assert(compare_keys(first, key) is Less);
    }
    assert(notes.insert(notes.len() as int, note) =~= notes.push(note));
}

/// The phrase that a line of drum notation describes.
///
/// The phrase is as long as the bytes of the line are steps.
pub fn parse_sample_lang(s: String) -> (phrase: SamplePhrase)
    requires
        encode_utf8(s@).len() <= MAX_LINE_LEN,
    ensures
        phrase.wf(),
        phrase.length.num == encode_utf8(s@).len() * STEP_TICKS,
        triggers_of(phrase.notes@) == triggers(s@),
{
    let mut now: Beat = Beat::from_ticks(0);
    let length_unit: Beat = Beat::from_ticks(STEP_TICKS);
    let mut phrase: SamplePhrase = Phrase::new();

    let bytes: usize = s.as_str().as_bytes().len();
    phrase = phrase.set_length(Beat::from_ticks(bytes as i64 * STEP_TICKS));

    proof {
        lemma_chars_in_bytes(s@);
        reveal_strlit("x");
        reveal_strlit("o");
        reveal_strlit("-");
        assert(triggers_of(phrase.notes@) =~= triggers(s@.take(0)));
    }
    for c in it: s.as_str().chars()
        invariant
            it.seq() == s@,
            s@.len() <= MAX_LINE_LEN,
            length_unit.num == STEP_TICKS,
            "x"@ == seq!['x'],
            "o"@ == seq!['o'],
            "-"@ == seq!['-'],
            phrase.wf(),
            phrase.length.num == encode_utf8(s@).len() * STEP_TICKS,
            now.num == it.index() * STEP_TICKS,
            forall|j: int|
                0 <= j < phrase.notes@.len() ==> (#[trigger] phrase.notes@[j]).start.num < now.num,
            triggers_of(phrase.notes@) == triggers(s@.take(it.index())),
    {
        let ghost step = it.index();
        let ghost before = phrase.notes@;
        proof {
            assert(s@.take(step + 1).drop_last() =~= s@.take(step));
            assert(s@.take(step + 1).last() == c);
        }
        let sound = match c {
            'x' => Some("x".to_string()),
            'o' => Some("o".to_string()),
            '-' => Some("-".to_string()),
            _ => None,
        };

        match sound {
            Some(sound) => {
                let note = SampleNote { sound, start: now };
                proof {
                    lemma_later_note_is_last(before, note);
                }
                phrase = phrase.add_note(note);
                proof {
                    assert(triggers_of(phrase.notes@) =~= triggers_of(before).push(
                        (note.sound@, note.start.num as int),
                    ));
                    assert(note.sound@ =~= seq![c]);
                }
            },
            None => {},
        }

        now = now + length_unit;
    }
    proof {
        assert(s@.take(s@.len() as int) =~= s@);
    }
    phrase
}

} // verus!
