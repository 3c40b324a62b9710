//! The order of the notes of a voice: by position, and among notes of one
//! position as they were met.

use crate::sequencing::data::Note;
use vstd::prelude::*;
use vstd::seq_lib::to_multiset_build;

verus! {

/// An ordered list with one more note: behind all notes that do not start
/// after it, before all that do.
pub open spec fn place(sorted: Seq<Note>, note: Note) -> Seq<Note>
    decreases sorted.len(),
{
    if sorted.len() == 0 || sorted.last().position <= note.position {
        sorted.push(note)
    } else {
        place(sorted.drop_last(), note).push(sorted.last())
    }
}

/// The notes in order of position; notes of one position keep the order in
/// which they were met.
pub open spec fn in_order(notes: Seq<Note>) -> Seq<Note>
    decreases notes.len(),
{
    if notes.len() == 0 {
        Seq::empty()
    } else {
        place(in_order(notes.drop_last()), notes.last())
    }
}

/// Whether no note starts before a note that stands before it.
pub open spec fn is_ordered(notes: Seq<Note>) -> bool {
    forall|i: int, j: int| 0 <= i <= j < notes.len() ==> notes[i].position <= notes[j].position
}

/// The test for a note that starts at a given position.
pub open spec fn starts_at(position: u32) -> spec_fn(Note) -> bool {
    |note: Note| note.position == position
}

/// Where the notes from `at` on start after `note`, and the one before `at`
/// does not, placing `note` is inserting it at `at`.
pub proof fn lemma_place_is_insert(sorted: Seq<Note>, note: Note, at: int)
    requires
        0 <= at <= sorted.len(),
        forall|k: int| at <= k < sorted.len() ==> sorted[k].position > note.position,
        at > 0 ==> sorted[at - 1].position <= note.position,
    ensures
        place(sorted, note) == sorted.insert(at, note),
    decreases sorted.len() - at,
{
    if at < sorted.len() {
        lemma_place_is_insert(sorted.drop_last(), note, at);
    }
}

/// Placing a note has all notes that were there, and the new one.
pub proof fn lemma_place_has(sorted: Seq<Note>, note: Note)
    ensures
        place(sorted, note).len() == sorted.len() + 1,
        place(sorted, note).to_multiset() == sorted.to_multiset().insert(note),
    decreases sorted.len(),
{
    if sorted.len() == 0 || sorted.last().position <= note.position {
        to_multiset_build(sorted, note);
    } else {
        let front = sorted.drop_last();
        lemma_place_has(front, note);
        to_multiset_build(place(front, note), sorted.last());
        to_multiset_build(front, sorted.last());
        assert(front.push(sorted.last()) =~= sorted);
    }
}

/// Placing a note in an ordered list gives an ordered list.
pub proof fn lemma_place_keeps_order(sorted: Seq<Note>, note: Note)
    requires
        is_ordered(sorted),
    ensures
        is_ordered(place(sorted, note)),
        forall|k: int|
            0 <= k < place(sorted, note).len() ==> #[trigger] place(sorted, note)[k] == note || (
            exists|i: int| 0 <= i < sorted.len() && sorted[i] == place(sorted, note)[k]),
    decreases sorted.len(),
{
    if sorted.len() > 0 && sorted.last().position > note.position {
        lemma_place_keeps_order(sorted.drop_last(), note);
    }
}

/// Placing a note changes the notes of its own position only, and comes
/// last among them.
pub proof fn lemma_place_is_stable(sorted: Seq<Note>, note: Note, position: u32)
    ensures
        place(sorted, note).filter(starts_at(position)) == if note.position == position {
            sorted.filter(starts_at(position)).push(note)
        } else {
            sorted.filter(starts_at(position))
        },
    decreases sorted.len(),
{
    let test = starts_at(position);
    if sorted.len() == 0 || sorted.last().position <= note.position {
        sorted.lemma_filter_push(note, test);
    } else {
        let front = sorted.drop_last();
        lemma_place_is_stable(front, note, position);
        place(front, note).lemma_filter_push(sorted.last(), test);
        front.lemma_filter_push(sorted.last(), test);
        assert(front.push(sorted.last()) =~= sorted);
    }
}

/// The notes in order are ordered by position.
pub proof fn lemma_in_order_is_ordered(notes: Seq<Note>)
    ensures
        is_ordered(in_order(notes)),
    decreases notes.len(),
{
    if notes.len() > 0 {
        lemma_in_order_is_ordered(notes.drop_last());
        lemma_place_keeps_order(in_order(notes.drop_last()), notes.last());
    }
}

/// The notes in order are the same notes, each as often as before.
pub proof fn lemma_in_order_permutes(notes: Seq<Note>)
    ensures
        in_order(notes).len() == notes.len(),
        in_order(notes).to_multiset() == notes.to_multiset(),
    decreases notes.len(),
{
    if notes.len() > 0 {
        let front = notes.drop_last();
        lemma_in_order_permutes(front);
        lemma_place_has(in_order(front), notes.last());
        to_multiset_build(front, notes.last());
        assert(front.push(notes.last()) =~= notes);
    } else {
        assert(in_order(notes) =~= notes);
    }
}

/// The order is stable: the notes of any one position stand in the order in
/// which they were met.
pub proof fn lemma_in_order_is_stable(notes: Seq<Note>, position: u32)
    ensures
        in_order(notes).filter(starts_at(position)) == notes.filter(starts_at(position)),
    decreases notes.len(),
{
    let test = starts_at(position);
    if notes.len() > 0 {
        let front = notes.drop_last();
        lemma_in_order_is_stable(front, position);
        lemma_place_is_stable(in_order(front), notes.last(), position);
        front.lemma_filter_push(notes.last(), test);
        assert(front.push(notes.last()) =~= notes);
    }
}

/// Puts the notes in order of position, keeping notes of one position in
/// the order in which they stand.
pub fn sort_by_position(notes: Vec<Note>) -> (sorted: Vec<Note>)
    ensures
        sorted@ == in_order(notes@),
{
    let mut sorted: Vec<Note> = Vec::new();
    let mut i: usize = 0;
    while i < notes.len()
        invariant
            i <= notes@.len(),
            sorted@ == in_order(notes@.take(i as int)),
            sorted@.len() == i,
        decreases notes@.len() - i,
    {
        let note = notes[i];
        let mut at: usize = sorted.len();
        while at > 0 && sorted[at - 1].position > note.position
            invariant
                at <= sorted@.len(),
                forall|k: int| at <= k < sorted@.len() ==> sorted@[k].position > note.position,
            decreases at,
        {
            at -= 1;
        }
        proof {
            lemma_place_is_insert(sorted@, note, at as int);
            assert(notes@.take(i + 1).drop_last() =~= notes@.take(i as int));
        }
        sorted.insert(at, note);
        i += 1;
    }
    assert(notes@.take(i as int) =~= notes@);
    sorted
}

} // verus!
