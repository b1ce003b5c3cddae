//! The notes that sound: for each sample at which notes end, the notes that
//! end there, each with the sample at which it began.

use super::key_order::lemma_keys_increase;
use crate::data::music_info::PitchNote;
use std::collections::BTreeMap;
use vstd::prelude::*;
use vstd::std_specs::btree::{increasing_seq, spec_btree_map_iter};
use vstd::std_specs::iter::IteratorSpec;

verus! {

broadcast use {vstd::std_specs::btree::group_btree_axioms, vstd::laws_cmp::group_laws_cmp};

/// The notes that sound, as the player holds them.
pub type ActiveNotes = BTreeMap<u64, Vec<(u64, PitchNote)>>;

/// The notes that sound, as the contracts speak of them.
pub type ActiveIndex = Map<u64, Seq<(u64, PitchNote)>>;

/// A note that sounds: the sample at which it ends, the sample at which
/// it began, and the note.
pub type Sounding = (u64, u64, PitchNote);

/// What `played` holds.
pub open spec fn index_of(played: Map<u64, Vec<(u64, PitchNote)>>) -> ActiveIndex {
    Map::new(|end: u64| played.contains_key(end), |end: u64| played[end]@)
}

/// The index with one more note: it is put behind the notes that end at
/// the same sample.
pub open spec fn register(index: ActiveIndex, sounding: Sounding) -> ActiveIndex {
    index.insert(
        sounding.0,
        (if index.contains_key(sounding.0) {
            index[sounding.0]
        } else {
            Seq::empty()
        }).push((sounding.1, sounding.2)),
    )
}

/// The index with the notes of `soundings`, registered one after the other.
pub open spec fn register_all(index: ActiveIndex, soundings: Seq<Sounding>) -> ActiveIndex
    decreases soundings.len(),
{
    if soundings.len() == 0 {
        index
    } else {
        register(register_all(index, soundings.drop_last()), soundings.last())
    }
}

/// The index without the notes that end in the `len` samples from `from` on.
pub open spec fn retire(index: ActiveIndex, from: u64, len: u64) -> ActiveIndex {
    Map::new(
        |end: u64| index.contains_key(end) && !(from <= end < from + len),
        |end: u64| index[end],
    )
}

/// The notes of the index that end at `end`, in the order in which they
/// were registered.
pub open spec fn ending_at(index: ActiveIndex, end: u64) -> Seq<Sounding> {
    if index.contains_key(end) {
        index[end].map_values(|s: (u64, PitchNote)| (end, s.0, s.1))
    } else {
        Seq::empty()
    }
}

/// The notes of the index that end at `from` or later: those that end
/// first come first.
pub open spec fn soundings_from(index: ActiveIndex, from: int) -> Seq<Sounding>
    decreases 0x1_0000_0000_0000_0000 - from,
{
    if 0 <= from <= u64::MAX {
        ending_at(index, from as u64) + soundings_from(index, from + 1)
    } else {
        Seq::empty()
    }
}

/// All the notes of the index: those that end first come first, and of
/// those that end together the one that was registered first.
pub open spec fn soundings(index: ActiveIndex) -> Seq<Sounding> {
    soundings_from(index, 0)
}

/// Where no note ends from `from` up to `to`, the notes that end at `from`
/// or later are those that end at `to` or later.
pub proof fn lemma_soundings_skip(index: ActiveIndex, from: int, to: int)
    requires
        0 <= from <= to <= 0x1_0000_0000_0000_0000,
        forall|end: u64| from <= end < to ==> !index.contains_key(end),
    ensures
        soundings_from(index, from) == soundings_from(index, to),
    decreases to - from,
{
    if from < to {
        lemma_soundings_skip(index, from + 1, to);
        assert(ending_at(index, from as u64) =~= Seq::<Sounding>::empty());
        assert(soundings_from(index, from) =~= soundings_from(index, from + 1));
    }
}

/// Adds the note `note`, which began at `start` and ends at `end`.
pub fn register_note(played: &mut ActiveNotes, end: u64, start: u64, note: PitchNote)
    ensures
        index_of(final(played)@) == register(index_of(old(played)@), (end, start, note)),
{
    let mut list: Vec<(u64, PitchNote)> = match played.remove(&end) {
        Some(list) => list,
        None => Vec::new(),
    };
    list.push((start, note));
    played.insert(end, list);
    assert(index_of(played@) =~= register(index_of(old(played)@), (end, start, note)));
}

/// Drops the notes that end in the `len` samples from `from` on.
pub fn retire_notes(played: &mut ActiveNotes, from: u64, len: u64)
    ensures
        index_of(final(played)@) == retire(index_of(old(played)@), from, len),
{
    let mut done: u64 = 0;
    assert(index_of(played@) =~= retire(index_of(old(played)@), from, 0));
    while done < len
        invariant
            done <= len,
            index_of(played@) == retire(index_of(old(played)@), from, done),
        decreases len - done,
    {
        let ghost before = played@;
        if from <= u64::MAX - done {
            let end: u64 = from + done;
            played.remove(&end);
            assert(played@ == before.remove(end));
        }
        proof {
            let was = index_of(before);
            let now = index_of(played@);
            let target = retire(index_of(old(played)@), from, (done + 1) as u64);
            assert forall|k: u64| now.contains_key(k) <==> target.contains_key(k) by {
                assert(was.contains_key(k) <==> before.contains_key(k));
                assert(now.contains_key(k) <==> played@.contains_key(k));
            }
            assert forall|k: u64| now.contains_key(k) implies now[k] == target[k] by {
                assert(was.contains_key(k));
                assert(was[k] == before[k]@);
            }
            assert(now =~= target);
        }
        done += 1;
    }
}

/// All the notes that sound: those that end first come first, and of
/// those that end together the one that was registered first.
pub fn collect_soundings(played: &ActiveNotes) -> (out: Vec<Sounding>)
    ensures
        out@ == soundings(index_of(played@)),
{
    let ghost index = index_of(played@);
    let ghost all = spec_btree_map_iter(played).remaining();
    let ghost keys = all.map_values(|kv: (&u64, &Vec<(u64, PitchNote)>)| *kv.0);
    let mut out: Vec<Sounding> = Vec::new();
    let ghost mut from: int = 0;
    assert(out@ + soundings_from(index, 0) =~= soundings(index));
    for kv in it: played.iter()
        invariant
            index == index_of(played@),
            all == spec_btree_map_iter(played).remaining(),
            keys == all.map_values(|kv: (&u64, &Vec<(u64, PitchNote)>)| *kv.0),
            it.seq() == all,
            increasing_seq(keys),
            0 <= from <= 0x1_0000_0000_0000_0000,
            forall|j: int| 0 <= j < it.index() ==> *(#[trigger] all[j]).0 < from,
            forall|j: int| it.index() <= j < all.len() ==> from <= *(#[trigger] all[j]).0,
            out@ + soundings_from(index, from) == soundings(index),
    {
        let end: u64 = *kv.0;
        let list = kv.1;
        proof {
            lemma_keys_increase(keys);
            let at = it.index();
            assert(all[at] == kv);
            assert(played@.contains_key(*all[at].0) && played@[*all[at].0] == *all[at].1);
            assert forall|k: u64| from <= k < end implies !index.contains_key(k) by {
                if index.contains_key(k) {
                    assert(played@.contains_key(k));
                    assert(all.contains((&k, &played@[k])));
                    let j = choose|j: int| 0 <= j < all.len() && all[j] == (&k, &played@[k]);
                    assert(keys[j] == k && keys[at] == end);
                }
            }
            lemma_soundings_skip(index, from, end as int);
            assert forall|j: int| at + 1 <= j < all.len() implies end + 1 <= *(#[trigger] all[j]).0
            by {
                assert(keys[j] == *all[j].0 && keys[at] == end);
            }
        }
        let ghost before = out@;
        let mut i: usize = 0;
        while i < list.len()
            invariant
                i <= list@.len(),
                index.contains_key(end),
                index[end] == list@,
                out@ == before + ending_at(index, end).take(i as int),
            decreases list@.len() - i,
        {
            let sounding = list[i];
            out.push((end, sounding.0, sounding.1));
            proof {
                let e = ending_at(index, end);
                assert(e.take(i + 1) =~= e.take(i as int).push(e[i as int]));
                assert(out@ =~= before + e.take(i + 1));
            }
            i += 1;
        }
        proof {
            let e = ending_at(index, end);
            assert(e.take(i as int) =~= e);
            assert(out@ + soundings_from(index, end + 1) =~= before + (e + soundings_from(
                index,
                end + 1,
            )));
            from = end + 1;
        }
    }
    proof {
        assert forall|k: u64| from <= k < 0x1_0000_0000_0000_0000 implies !index.contains_key(
            k,
        ) by {
            if index.contains_key(k) {
                assert(played@.contains_key(k));
                assert(all.contains((&k, &played@[k])));
            }
        }
        lemma_soundings_skip(index, from, 0x1_0000_0000_0000_0000);
        assert(soundings_from(index, 0x1_0000_0000_0000_0000) =~= Seq::<Sounding>::empty());
        assert(out@ + Seq::<Sounding>::empty() =~= out@);
    }
    out
}

} // verus!
