use toid::data::music_info::{Beat, Note, NoteOrder, Phrase, Pitch, PitchNote, SampleNote};

fn note(pitch: i32, start: i64, duration: i64) -> PitchNote {
    PitchNote {
        pitch: Pitch::from(pitch),
        start: Beat::from_ticks(start),
        duration: Beat::from_ticks(duration),
    }
}

#[test]
fn test_eq() {
    let phrase1 = Phrase::new();

    let phrase1 = phrase1.add_note(PitchNote {
        pitch: Pitch::from(60),
        start: Beat::from(0),
        duration: Beat::from(1),
    });
    let phrase1 = phrase1.add_note(PitchNote {
        pitch: Pitch::from(62),
        start: Beat::from(1),
        duration: Beat::from(1),
    });
    let phrase2 = phrase1.clone();
    let phrase3 = phrase2.add_note(PitchNote {
        pitch: Pitch::from(64),
        start: Beat::from(2),
        duration: Beat::from(1),
    });

    assert_eq!(phrase1, phrase2);
    assert_ne!(phrase1, phrase3);
}

#[test]
fn a_new_phrase_is_empty_and_does_not_loop() {
    let phrase: Phrase<PitchNote> = Phrase::new();
    assert_eq!(phrase.note_vec(), vec![]);
    assert_eq!(phrase.length, Beat::from(0));
}

#[test]
fn note_vec_gives_the_notes_by_start() {
    let at_0 = PitchNote { pitch: Pitch::from(60), start: Beat::from(0), duration: Beat::from(1) };
    let at_1 = PitchNote { pitch: Pitch::from(60), start: Beat::from(1), duration: Beat::from(1) };
    let phrase = Phrase::new().add_note(at_0).add_note(at_1).set_length(Beat::from(2));
    assert_eq!(phrase.note_vec(), vec![at_0, at_1]);
    assert_eq!(phrase.length, Beat::from(2));
    let backwards = Phrase::new().add_note(at_1).add_note(at_0).set_length(Beat::from(2));
    assert_eq!(backwards.note_vec(), vec![at_0, at_1]);
    assert_eq!(backwards, phrase);
}

#[test]
fn note_vec_orders_notes_of_one_start_by_pitch_then_duration() {
    let phrase = Phrase::new()
        .add_note(note(64, 960, 10))
        .add_note(note(60, 960, 20))
        .add_note(note(60, 960, 10))
        .add_note(note(72, 0, 5))
        .add_note(note(-3, 960, 10));
    assert_eq!(
        phrase.note_vec(),
        vec![note(72, 0, 5), note(-3, 960, 10), note(60, 960, 10), note(60, 960, 20), note(64, 960, 10)]
    );
}

#[test]
fn a_note_added_twice_stands_once() {
    let once = Phrase::new().add_note(note(60, 0, 960));
    let twice = once.add_note(note(60, 0, 960));
    assert_eq!(twice.note_vec(), vec![note(60, 0, 960)]);
    assert_eq!(once, twice);
}

#[test]
fn notes_that_differ_in_one_field_both_stay() {
    let phrase = Phrase::new()
        .add_note(note(60, 0, 960))
        .add_note(note(60, 0, 961))
        .add_note(note(61, 0, 960))
        .add_note(note(60, 1, 960));
    assert_eq!(phrase.note_vec().len(), 4);
}

#[test]
fn add_note_leaves_the_phrase_as_it_was() {
    let before = Phrase::new().add_note(note(60, 0, 960)).set_length(Beat::from(4));
    let after = before.add_note(note(62, 480, 960));
    assert_eq!(before.note_vec(), vec![note(60, 0, 960)]);
    assert_eq!(after.note_vec(), vec![note(60, 0, 960), note(62, 480, 960)]);
    assert_eq!(after.length, Beat::from(4));
}

#[test]
fn set_length_leaves_the_phrase_as_it_was() {
    let before = Phrase::new().add_note(note(60, 0, 960)).set_length(Beat::from(4));
    let after = before.set_length(Beat::from(8));
    assert_eq!(before.length, Beat::from(4));
    assert_eq!(after.length, Beat::from(8));
    assert_eq!(after.note_vec(), before.note_vec());
    assert_ne!(before, after);
}

#[test]
fn phrases_built_by_the_same_additions_are_equal() {
    let notes = [note(60, 0, 1), note(62, 5, 1), note(60, 0, 1), note(64, 3, 2), note(59, 3, 2)];
    let mut first = Phrase::new();
    let mut second = Phrase::new();
    for n in notes {
        first = first.add_note(n);
        second = second.add_note(n);
    }
    assert_eq!(first, second);
    let mut third = Phrase::new();
    for n in notes.iter().rev() {
        third = third.add_note(*n);
    }
    assert_eq!(first, third);
    let other = first.add_note(note(59, 3, 3));
    assert_ne!(first, other);
}

#[test]
fn pitch_notes_are_ordered_by_start_first() {
    assert_eq!(note(90, 0, 9).order(&note(10, 1, 1)), NoteOrder::Less);
    assert_eq!(note(10, 1, 1).order(&note(90, 0, 9)), NoteOrder::Greater);
    assert_eq!(note(10, 1, 1).order(&note(11, 1, 0)), NoteOrder::Less);
    assert_eq!(note(10, 1, 2).order(&note(10, 1, 1)), NoteOrder::Greater);
    assert_eq!(note(10, 1, 2).order(&note(10, 1, 2)), NoteOrder::Equal);
    assert_eq!(note(10, 1, 2).get_start(), Beat::from_ticks(1));
    assert_eq!(note(10, 1, 2).duplicate(), note(10, 1, 2));
}

fn trigger(sound: &str, start: i64) -> SampleNote {
    SampleNote { sound: sound.to_string(), start: Beat::from_ticks(start) }
}

#[test]
fn sample_notes_are_ordered_by_start_then_by_name() {
    assert_eq!(trigger("z", 0).order(&trigger("a", 1)), NoteOrder::Less);
    assert_eq!(trigger("a", 1).order(&trigger("b", 1)), NoteOrder::Less);
    assert_eq!(trigger("b", 1).order(&trigger("a", 1)), NoteOrder::Greater);
    assert_eq!(trigger("a", 1).order(&trigger("ab", 1)), NoteOrder::Less);
    assert_eq!(trigger("ab", 1).order(&trigger("a", 1)), NoteOrder::Greater);
    assert_eq!(trigger("ab", 1).order(&trigger("ab", 1)), NoteOrder::Equal);
    assert_eq!(trigger("", 1).order(&trigger("", 1)), NoteOrder::Equal);
    assert_eq!(trigger("kick", 7).duplicate(), trigger("kick", 7));
    assert_eq!(trigger("kick", 7).get_start(), Beat::from_ticks(7));
}

#[test]
fn a_phrase_of_sample_notes() {
    let phrase = Phrase::new()
        .add_note(trigger("snare", 480))
        .add_note(trigger("kick", 0))
        .add_note(trigger("hat", 480))
        .add_note(trigger("kick", 0));
    assert_eq!(
        phrase.note_vec(),
        vec![trigger("kick", 0), trigger("hat", 480), trigger("snare", 480)]
    );
}
