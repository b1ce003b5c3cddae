use super::beat::Beat;
use super::pitch::Pitch;
use vstd::prelude::*;
use vstd::utf8::encode_utf8;

verus! {

/// How one note stands to another in the order of notes.
#[derive(Clone, Copy, Debug, PartialEq, Eq, Structural)]
pub enum NoteOrder {
    Less,
    Equal,
    Greater,
}

/// The order of two keys: that of the first numbers in which they differ;
/// a key that is the beginning of another comes before it.
pub open spec fn compare_keys(a: Seq<int>, b: Seq<int>) -> NoteOrder
    decreases a.len(),
{
    if a.len() == 0 {
        if b.len() == 0 {
            NoteOrder::Equal
        } else {
            NoteOrder::Less
        }
    } else if b.len() == 0 {
        NoteOrder::Greater
    } else if a[0] < b[0] {
        NoteOrder::Less
    } else if a[0] > b[0] {
        NoteOrder::Greater
    } else {
        compare_keys(a.drop_first(), b.drop_first())
    }
}

/// Two keys are of equal order exactly when they are the same key.
pub proof fn lemma_compare_equal(a: Seq<int>, b: Seq<int>)
    ensures
        compare_keys(a, b) is Equal <==> a == b,
    decreases a.len(),
{
    if a.len() == 0 || b.len() == 0 {
        if a.len() == 0 && b.len() == 0 {
            assert(a =~= b);
        }
    } else if a[0] == b[0] {
        lemma_compare_equal(a.drop_first(), b.drop_first());
        if a.drop_first() == b.drop_first() {
            assert(a =~= seq![a[0]] + a.drop_first());
            assert(b =~= seq![b[0]] + b.drop_first());
        }
    }
}

/// A key comes before another exactly when the other comes after it.
pub proof fn lemma_compare_reversed(a: Seq<int>, b: Seq<int>)
    ensures
        compare_keys(a, b) is Less <==> compare_keys(b, a) is Greater,
        compare_keys(a, b) is Equal <==> compare_keys(b, a) is Equal,
    decreases a.len(),
{
    if a.len() != 0 && b.len() != 0 && a[0] == b[0] {
        lemma_compare_reversed(a.drop_first(), b.drop_first());
    }
}

/// A key that comes before a second, which comes before a third, comes
/// before the third.
pub proof fn lemma_compare_transitive(a: Seq<int>, b: Seq<int>, c: Seq<int>)
    requires
        compare_keys(a, b) is Less,
        compare_keys(b, c) is Less,
    ensures
        compare_keys(a, c) is Less,
    decreases a.len(),
{
    if a.len() != 0 && b.len() != 0 && c.len() != 0 && a[0] == b[0] && b[0] == c[0] {
        lemma_compare_transitive(a.drop_first(), b.drop_first(), c.drop_first());
    }
}

/// What a phrase asks of its notes.
///
/// Notes of one type stand in a total order, given by their keys: a key
/// begins with the note's start time in ticks, so that notes are ordered by
/// start time first, and two notes with the same key are the same note.
pub trait Note: Sized {
    /// The note's place in the order of notes.
    spec fn sort_key(&self) -> Seq<int>;

    /// The time at which the note begins.
    fn get_start(&self) -> (start: Beat)
        ensures
            self.sort_key().len() > 0,
            start.num == self.sort_key()[0],
    ;

    /// How this note stands to `other` in the order of notes.
    fn order(&self, other: &Self) -> (o: NoteOrder)
        ensures
            o == compare_keys(self.sort_key(), other.sort_key()),
    ;

    /// A copy of the note.
    fn duplicate(&self) -> (copy: Self)
        ensures
            copy == *self,
    ;
}

/// A tone: it has a pitch, begins at `start` and lasts for `duration`.
#[derive(Clone, Copy, Debug, PartialEq, Eq, Structural, PartialOrd, Ord, Hash)]
pub struct PitchNote {
    pub pitch: Pitch,
    pub start: Beat,
    pub duration: Beat,
}

impl Note for PitchNote {
    open spec fn sort_key(&self) -> Seq<int> {
        seq![self.start.num as int, self.pitch.pitch as int, self.duration.num as int]
    }

    fn get_start(&self) -> (start: Beat) {
        self.start
    }

    fn order(&self, other: &Self) -> (o: NoteOrder) {
        proof {
            reveal_with_fuel(compare_keys, 4);
            let a = self.sort_key();
            let b = other.sort_key();
            assert(a.drop_first() =~= seq![self.pitch.pitch as int, self.duration.num as int]);
            assert(b.drop_first() =~= seq![other.pitch.pitch as int, other.duration.num as int]);
            assert(a.drop_first().drop_first() =~= seq![self.duration.num as int]);
            assert(b.drop_first().drop_first() =~= seq![other.duration.num as int]);
            assert(a.drop_first().drop_first().drop_first() =~= Seq::<int>::empty());
            assert(b.drop_first().drop_first().drop_first() =~= Seq::<int>::empty());
        }
        if self.start.num < other.start.num {
            NoteOrder::Less
        } else if self.start.num > other.start.num {
            NoteOrder::Greater
        } else if self.pitch.pitch < other.pitch.pitch {
            NoteOrder::Less
        } else if self.pitch.pitch > other.pitch.pitch {
            NoteOrder::Greater
        } else if self.duration.num < other.duration.num {
            NoteOrder::Less
        } else if self.duration.num > other.duration.num {
            NoteOrder::Greater
        } else {
            NoteOrder::Equal
        }
    }

    fn duplicate(&self) -> (copy: Self) {
        *self
    }
}

/// The trigger of a sampled sound: it names the sound and begins at `start`.
#[derive(Debug, PartialEq, Eq, PartialOrd, Ord, Hash)]
pub struct SampleNote {
    pub sound: String,
    pub start: Beat,
}

impl Clone for SampleNote {
    fn clone(&self) -> (note: Self)
        ensures
            note == *self,
    {
        SampleNote { sound: self.sound.clone(), start: self.start }
    }
}

/// The bytes of a name as numbers.
pub open spec fn name_key(bytes: Seq<u8>) -> Seq<int> {
    bytes.map_values(|b: u8| b as int)
}

/// How the bytes `a` from `at` on stand to the bytes `b` from `at` on.
fn order_bytes(a: &[u8], b: &[u8]) -> (o: NoteOrder)
    ensures
        o == compare_keys(name_key(a@), name_key(b@)),
{
    let mut at: usize = 0;
    assert(name_key(a@).skip(0) =~= name_key(a@));
    assert(name_key(b@).skip(0) =~= name_key(b@));
    loop
        invariant
            at <= a@.len(),
            at <= b@.len(),
            compare_keys(name_key(a@), name_key(b@)) == compare_keys(
                name_key(a@).skip(at as int),
                name_key(b@).skip(at as int),
            ),
        decreases a@.len() - at,
    {
        let ghost ka = name_key(a@).skip(at as int);
        let ghost kb = name_key(b@).skip(at as int);
        if at >= a.len() {
            return if at >= b.len() {
                NoteOrder::Equal
            } else {
                NoteOrder::Less
            };
        }
        if at >= b.len() {
            return NoteOrder::Greater;
        }
        if a[at] < b[at] {
            return NoteOrder::Less;
        }
        if a[at] > b[at] {
            return NoteOrder::Greater;
        }
        proof {
            assert(ka.drop_first() =~= name_key(a@).skip(at + 1));
            assert(kb.drop_first() =~= name_key(b@).skip(at + 1));
        }
        at += 1;
    }
}

impl Note for SampleNote {
    open spec fn sort_key(&self) -> Seq<int> {
        seq![self.start.num as int] + name_key(encode_utf8(self.sound@))
    }

    fn get_start(&self) -> (start: Beat) {
        self.start
    }

    fn order(&self, other: &Self) -> (o: NoteOrder) {
        proof {
            assert(self.sort_key().drop_first() =~= name_key(encode_utf8(self.sound@)));
            assert(other.sort_key().drop_first() =~= name_key(encode_utf8(other.sound@)));
        }
        if self.start.num < other.start.num {
            NoteOrder::Less
        } else if self.start.num > other.start.num {
            NoteOrder::Greater
        } else {
            order_bytes(self.sound.as_str().as_bytes(), other.sound.as_str().as_bytes())
        }
    }

    fn duplicate(&self) -> (copy: Self) {
        self.clone()
    }
}

} // verus!
