use super::beat::Beat;
use super::note::{
    compare_keys, lemma_compare_equal, lemma_compare_reversed, lemma_compare_transitive, Note,
    NoteOrder, PitchNote, SampleNote,
};
use vstd::prelude::*;
use vstd::std_specs::cmp::PartialEqSpecImpl;

verus! {

/// A set of notes and the length after which they repeat.
///
/// The notes stand in their order, each once.  A length of zero means that
/// the phrase does not repeat, and nothing of it is played.
#[derive(Debug)]
pub struct Phrase<N: Note> {
    pub notes: Vec<N>,
    pub length: Beat,
}

/// A phrase of tones.
pub type PitchPhrase = Phrase<PitchNote>;

/// A phrase of sample triggers.
pub type SamplePhrase = Phrase<SampleNote>;

/// The keys of the notes of `s`, in the order of `s`.
pub open spec fn keys<N: Note>(s: Seq<N>) -> Seq<Seq<int>> {
    s.map_values(|n: N| n.sort_key())
}

/// Whether every note of `s` comes before all that follow it.
pub open spec fn strictly_sorted<N: Note>(s: Seq<N>) -> bool {
    forall|i: int, j: int|
        0 <= i < j < s.len() ==> compare_keys(
            #[trigger] s[i].sort_key(),
            #[trigger] s[j].sort_key(),
        ) is Less
}

/// The number of notes at the head of `s` that come before `key`.
pub open spec fn notes_before<N: Note>(s: Seq<N>, key: Seq<int>) -> int
    decreases s.len(),
{
    if s.len() > 0 && compare_keys(s[0].sort_key(), key) is Less {
        1 + notes_before(s.drop_first(), key)
    } else {
        0
    }
}

/// The notes `s` with `note` among them: where `s` has a note with the key
/// of `note` already, `s` itself; else `s` with `note` put after the notes
/// that come before it.
pub open spec fn insert_note<N: Note>(s: Seq<N>, note: N) -> Seq<N> {
    let at = notes_before(s, note.sort_key());
    if at < s.len() && s[at].sort_key() == note.sort_key() {
        s
    } else {
        s.insert(at, note)
    }
}

/// The notes that stand before the place of `key` come before it, and the
/// note at that place, if there is one, does not.
pub proof fn lemma_notes_before<N: Note>(s: Seq<N>, key: Seq<int>)
    ensures
        0 <= notes_before(s, key) <= s.len(),
        forall|j: int|
            0 <= j < notes_before(s, key) ==> compare_keys(#[trigger] s[j].sort_key(), key)
                is Less,
        notes_before(s, key) < s.len() ==> !(compare_keys(
            s[notes_before(s, key)].sort_key(),
            key,
        ) is Less),
    decreases s.len(),
{
    if s.len() > 0 && compare_keys(s[0].sort_key(), key) is Less {
        let rest = s.drop_first();
        lemma_notes_before(rest, key);
        assert forall|j: int| 0 <= j < notes_before(s, key) implies compare_keys(
            #[trigger] s[j].sort_key(),
            key,
        ) is Less by {
            if j > 0 {
                assert(s[j] == rest[j - 1]);
            }
        }
        if notes_before(s, key) < s.len() {
            assert(s[notes_before(s, key)] == rest[notes_before(rest, key)]);
        }
    }
}

/// Putting a note among sorted notes leaves them sorted, and adds the key
/// of the note to their keys.
pub proof fn lemma_insert_note<N: Note>(s: Seq<N>, note: N)
    requires
        strictly_sorted(s),
    ensures
        strictly_sorted(insert_note(s, note)),
        keys(insert_note(s, note)).to_set() == keys(s).to_set().insert(note.sort_key()),
{
    let key = note.sort_key();
    let at = notes_before(s, key);
    let r = insert_note(s, note);
    lemma_notes_before(s, key);
    if at < s.len() && s[at].sort_key() == key {
        assert(keys(s)[at] == key);
        assert(keys(s).to_set().contains(key));
        assert(keys(r).to_set() =~= keys(s).to_set().insert(key));
    } else {
        assert forall|j: int| at <= j < s.len() implies compare_keys(
            key,
            #[trigger] s[j].sort_key(),
        ) is Less by {
            lemma_compare_equal(s[at].sort_key(), key);
            lemma_compare_reversed(key, s[at].sort_key());
            if j > at {
                lemma_compare_transitive(key, s[at].sort_key(), s[j].sort_key());
            }
        }
        assert forall|i: int, j: int| 0 <= i < j < r.len() implies compare_keys(
            #[trigger] r[i].sort_key(),
            #[trigger] r[j].sort_key(),
        ) is Less by {
            if j < at {
                assert(r[i] == s[i] && r[j] == s[j]);
            } else if j == at {
                assert(r[i] == s[i] && r[j] == note);
            } else if i < at {
                assert(r[i] == s[i] && r[j] == s[j - 1]);
            } else if i == at {
                assert(r[i] == note && r[j] == s[j - 1]);
            } else {
                assert(r[i] == s[i - 1] && r[j] == s[j - 1]);
            }
        }
        assert forall|k: Seq<int>|
            keys(r).to_set().contains(k) <==> keys(s).to_set().insert(key).contains(k) by {
            if keys(r).to_set().contains(k) {
                let i = choose|i: int| 0 <= i < keys(r).len() && keys(r)[i] == k;
                if i < at {
                    assert(keys(s)[i] == k);
                } else if i > at {
                    assert(keys(s)[i - 1] == k);
                }
            }
            if keys(s).to_set().contains(k) {
                let i = choose|i: int| 0 <= i < keys(s).len() && keys(s)[i] == k;
                if i < at {
                    assert(keys(r)[i] == k);
                } else {
                    assert(keys(r)[i + 1] == k);
                }
            }
            if k == key {
                assert(keys(r)[at] == k);
            }
        }
        assert(keys(r).to_set() =~= keys(s).to_set().insert(key));
    }
}

impl<N: Note> Phrase<N> {
    /// Every note comes before all that follow it: the notes are in their
    /// order, and no note stands twice.
    pub open spec fn wf(&self) -> bool {
        strictly_sorted(self.notes@)
    }

    /// A phrase without notes, of length zero.
    pub fn new() -> (phrase: Self)
        ensures
            phrase.wf(),
            phrase.notes@ == Seq::<N>::empty(),
            phrase.length.num == 0,
    {
        Self { notes: Vec::new(), length: Beat::from_ticks(0) }
    }

    /// The phrase with `note` among its notes; this phrase stays as it is.
    ///
    /// A note that the phrase has already leaves it unchanged.
    pub fn add_note(&self, note: N) -> (phrase: Self)
        requires
            self.wf(),
        ensures
            phrase.wf(),
            phrase.length == self.length,
            phrase.notes@ == insert_note(self.notes@, note),
            keys(phrase.notes@).to_set() == keys(self.notes@).to_set().insert(note.sort_key()),
    {
        let ghost key = note.sort_key();
        let ghost s = self.notes@;
        let ghost at = notes_before(s, key);
        let n = self.notes.len();
        let mut new_notes: Vec<N> = Vec::new();
        let mut i: usize = 0;
        let mut found = NoteOrder::Greater;
        assert(s.skip(0) =~= s);
        while i < n
            invariant_except_break
                new_notes@ == s.take(i as int),
                notes_before(s, key) == i + notes_before(s.skip(i as int), key),
            invariant
                n == s.len(),
                s == self.notes@,
                key == note.sort_key(),
                i <= n,
            ensures
                i <= n,
                new_notes@ == s.take(i as int),
                notes_before(s, key) == i,
                i < n ==> found == compare_keys(s[i as int].sort_key(), key),
                i < n ==> !(found is Less),
            decreases n - i,
        {
            let o = self.notes[i].order(&note);
            assert(s.skip(i as int)[0] == s[i as int]);
            match o {
                NoteOrder::Less => {},
                _ => {
                    found = o;
                    break ;
                },
            }
            new_notes.push(self.notes[i].duplicate());
            proof {
                assert(s.skip(i as int).drop_first() =~= s.skip(i + 1));
                assert(s.take(i as int).push(s[i as int]) =~= s.take(i + 1));
            }
            i += 1;
        }
        let present = i < n && match found {
            NoteOrder::Equal => true,
            _ => false,
        };
        proof {
            if i < n {
                lemma_compare_equal(s[i as int].sort_key(), key);
            }
        }
        if !present {
            new_notes.push(note);
        }
        let ghost head = new_notes@;
        while i < n
            invariant
                n == s.len(),
                s == self.notes@,
                i <= n,
                new_notes@ == head + s.subrange(at, i as int),
                0 <= at <= i,
            decreases n - i,
        {
            new_notes.push(self.notes[i].duplicate());
            proof {
                assert(s.subrange(at, i as int).push(s[i as int]) =~= s.subrange(at, i + 1));
            }
            i += 1;
        }
        proof {
            if present {
                assert(new_notes@ =~= s);
            } else {
                assert(new_notes@ =~= s.insert(at, note));
            }
            lemma_insert_note(s, note);
        }
        Phrase { notes: new_notes, length: self.length }
    }

    /// The phrase at another length; this phrase stays as it is.
    pub fn set_length(&self, length: Beat) -> (phrase: Self)
        ensures
            phrase.notes@ == self.notes@,
            phrase.length == length,
    {
        Phrase { notes: self.note_vec(), length }
    }

    /// The notes of the phrase in their order: by start time first.
    pub fn note_vec(&self) -> (vec: Vec<N>)
        ensures
            vec@ == self.notes@,
    {
        let mut vec: Vec<N> = Vec::new();
        let mut i: usize = 0;
        while i < self.notes.len()
            invariant
                i <= self.notes@.len(),
                vec@ == self.notes@.take(i as int),
            decreases self.notes@.len() - i,
        {
            vec.push(self.notes[i].duplicate());
            proof {
                assert(self.notes@.take(i as int).push(self.notes@[i as int]) =~= self.notes@.take(
                    i + 1,
                ));
            }
            i += 1;
        }
        assert(self.notes@.take(i as int) =~= self.notes@);
        vec
    }
}

impl<N: Note> Clone for Phrase<N> {
    fn clone(&self) -> (phrase: Self)
        ensures
            phrase.notes@ == self.notes@,
            phrase.length == self.length,
    {
        Phrase { notes: self.note_vec(), length: self.length }
    }
}

impl<N: Note> PartialEq for Phrase<N> {
    /// Two phrases are equal when they have the same length and the same
    /// notes.
    fn eq(&self, other: &Self) -> (equal: bool) {
        if self.length.num != other.length.num || self.notes.len() != other.notes.len() {
            proof {
                if self.notes.len() != other.notes.len() {
                    assert(keys(self.notes@).len() != keys(other.notes@).len());
                }
            }
            return false;
        }
        let mut i: usize = 0;
        while i < self.notes.len()
            invariant
                i <= self.notes@.len(),
                self.notes@.len() == other.notes@.len(),
                forall|j: int|
                    0 <= j < i ==> (#[trigger] self.notes@[j]).sort_key()
                        == other.notes@[j].sort_key(),
            decreases self.notes@.len() - i,
        {
            match self.notes[i].order(&other.notes[i]) {
                NoteOrder::Equal => {},
                _ => {
                    proof {
                        lemma_compare_equal(
                            self.notes@[i as int].sort_key(),
                            other.notes@[i as int].sort_key(),
                        );
                        assert(keys(self.notes@)[i as int] != keys(other.notes@)[i as int]);
                    }
                    return false;
                },
            }
            proof {
                lemma_compare_equal(
                    self.notes@[i as int].sort_key(),
                    other.notes@[i as int].sort_key(),
                );
            }
            i += 1;
        }
        assert(keys(self.notes@) =~= keys(other.notes@));
        true
    }
}

impl<N: Note> PartialEqSpecImpl for Phrase<N> {
    open spec fn obeys_eq_spec() -> bool {
        true
    }

    open spec fn eq_spec(&self, other: &Self) -> bool {
        self.length == other.length && keys(self.notes@) == keys(other.notes@)
    }
}

impl<N: Note> Eq for Phrase<N> {

}

/// Whether every key of `ks` comes before all that follow it.
pub open spec fn sorted_keys(ks: Seq<Seq<int>>) -> bool {
    forall|i: int, j: int| 0 <= i < j < ks.len() ==> compare_keys(ks[i], ks[j]) is Less
}

/// Sorted keys are determined by their set: there is one order only in
/// which the keys of a set can stand.
pub proof fn lemma_sorted_keys_unique(a: Seq<Seq<int>>, b: Seq<Seq<int>>)
    requires
        sorted_keys(a),
        sorted_keys(b),
        a.to_set() == b.to_set(),
    ensures
        a == b,
    decreases a.len(),
{
    if a.len() == 0 {
        if b.len() > 0 {
            assert(b.to_set().contains(b[0]));
            assert(a.to_set().contains(b[0]));
        }
        assert(a =~= b);
    } else {
        assert(a.to_set().contains(a[0]));
        assert(b.to_set().contains(a[0]));
        let j = choose|j: int| 0 <= j < b.len() && b[j] == a[0];
        assert(b.to_set().contains(b[0]));
        assert(a.to_set().contains(b[0]));
        let i = choose|i: int| 0 <= i < a.len() && a[i] == b[0];
        if j > 0 {
            // b[0] comes before b[j], which is a[0]
            lemma_compare_equal(a[0], a[0]);
            if i > 0 {
                lemma_compare_transitive(a[0], a[i], a[0]);
            }
        }
        assert(a[0] == b[0]);
        let ta = a.drop_first();
        let tb = b.drop_first();
        assert forall|k: Seq<int>| ta.to_set().contains(k) <==> tb.to_set().contains(k) by {
            lemma_compare_equal(a[0], k);
            if ta.to_set().contains(k) {
                let x = choose|x: int| 0 <= x < ta.len() && ta[x] == k;
                assert(a[x + 1] == k);
                assert(compare_keys(a[0], a[x + 1]) is Less);
                assert(a.to_set().contains(k));
                assert(b.to_set().contains(k));
                let y = choose|y: int| 0 <= y < b.len() && b[y] == k;
                assert(y > 0);
                assert(tb[y - 1] == k);
            }
            if tb.to_set().contains(k) {
                let y = choose|y: int| 0 <= y < tb.len() && tb[y] == k;
                assert(b[y + 1] == k);
                assert(compare_keys(b[0], b[y + 1]) is Less);
                assert(b.to_set().contains(k));
                assert(a.to_set().contains(k));
                let x = choose|x: int| 0 <= x < a.len() && a[x] == k;
                assert(x > 0);
                assert(ta[x - 1] == k);
            }
        }
        assert(ta.to_set() =~= tb.to_set());
        assert forall|x: int, y: int| 0 <= x < y < ta.len() implies compare_keys(ta[x], ta[y])
            is Less by {
            assert(ta[x] == a[x + 1] && ta[y] == a[y + 1]);
        }
        assert forall|x: int, y: int| 0 <= x < y < tb.len() implies compare_keys(tb[x], tb[y])
            is Less by {
            assert(tb[x] == b[x + 1] && tb[y] == b[y + 1]);
        }
        lemma_sorted_keys_unique(ta, tb);
        assert(a =~= seq![a[0]] + ta);
        assert(b =~= seq![b[0]] + tb);
    }
}

/// The notes of the phrase that is built from nothing by adding the notes
/// of `added`, one after the other.
pub open spec fn built<N: Note>(added: Seq<N>) -> Seq<N>
    decreases added.len(),
{
    if added.len() == 0 {
        Seq::empty()
    } else {
        insert_note(built(added.drop_last()), added.last())
    }
}

/// A phrase that was built holds the notes that were added, each once and
/// in their order.
pub proof fn lemma_built<N: Note>(added: Seq<N>)
    ensures
        strictly_sorted(built(added)),
        sorted_keys(keys(built(added))),
        keys(built(added)).to_set() == keys(added).to_set(),
    decreases added.len(),
{
    if added.len() == 0 {
        assert(keys(built(added)).to_set() =~= keys(added).to_set());
    } else {
        let before = added.drop_last();
        lemma_built(before);
        lemma_insert_note(built(before), added.last());
        assert(keys(added) =~= keys(before).push(added.last().sort_key()));
        assert(keys(before).push(added.last().sort_key()).to_set() =~= keys(before).to_set().insert(
            added.last().sort_key(),
        )) by {
            let pushed = keys(before).push(added.last().sort_key());
            assert forall|k: Seq<int>|
                pushed.to_set().contains(k) <==> keys(before).to_set().insert(
                    added.last().sort_key(),
                ).contains(k) by {
                if pushed.to_set().contains(k) {
                    let i = choose|i: int| 0 <= i < pushed.len() && pushed[i] == k;
                    if i < keys(before).len() {
                        assert(keys(before)[i] == k);
                    }
                }
                if keys(before).to_set().contains(k) {
                    let i = choose|i: int| 0 <= i < keys(before).len() && keys(before)[i] == k;
                    assert(pushed[i] == k);
                }
                if k == added.last().sort_key() {
                    assert(pushed[pushed.len() - 1] == k);
                }
            }
        }
    }
    let r = built(added);
    assert forall|i: int, j: int| 0 <= i < j < keys(r).len() implies compare_keys(
        keys(r)[i],
        keys(r)[j],
    ) is Less by {
        assert(compare_keys(r[i].sort_key(), r[j].sort_key()) is Less);
    }
}

/// Two phrases built by adding notes hold the same notes in the same
/// order exactly when the same notes were added, in whatever order and
/// however often.  Phrases built by the same additions are therefore
/// equal, and phrases built from additions of which one has a note that the
/// other lacks are not.
pub proof fn law_built_equal<N: Note>(first: Seq<N>, second: Seq<N>)
    ensures
        keys(built(first)) == keys(built(second)) <==> keys(first).to_set() == keys(
            second,
        ).to_set(),
{
    lemma_built(first);
    lemma_built(second);
    if keys(first).to_set() == keys(second).to_set() {
        lemma_sorted_keys_unique(keys(built(first)), keys(built(second)));
    }
}

/// Adding a note that a phrase lacks gives another phrase.
pub proof fn law_new_note_changes_phrase<N: Note>(notes: Seq<N>, note: N)
    requires
        strictly_sorted(notes),
        !keys(notes).to_set().contains(note.sort_key()),
    ensures
        keys(insert_note(notes, note)) != keys(notes),
{
    lemma_insert_note(notes, note);
    assert(keys(notes).to_set().insert(note.sort_key()).contains(note.sort_key()));
}

} // verus!
