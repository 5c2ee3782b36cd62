//! The score: a growable list of notes.

use crate::note::Note;
use vstd::prelude::*;

verus! {

/// A list of notes.
///
/// The order of the list carries no musical meaning: notes are put in time
/// order when the score is compiled. It matters only to [`Score::remove`],
/// which takes out the first of several equal notes.
#[derive(Debug, Eq)]
pub struct Score(Vec<Note>);

impl View for Score {
    type V = Seq<Note>;

    /// The notes, in the order in which the score holds them.
    closed spec fn view(&self) -> Seq<Note> {
        self.0@
    }
}

/// `value` is something that `into` may turn into `note`.
///
/// For a `Note` that is the note itself, for a tuple the note with those
/// fields.
pub open spec fn converts_to<T: Into<Note>>(value: T, note: Note) -> bool {
    call_ensures(T::into, (value,), note)
}

/// `notes` is `values` converted one by one.
pub open spec fn all_convert_to<T: Into<Note>>(values: Seq<T>, notes: Seq<Note>) -> bool {
    &&& notes.len() == values.len()
    &&& forall|i: int|
        #![trigger values[i]]
        #![trigger notes[i]]
        0 <= i < values.len() ==> converts_to(values[i], notes[i])
}

/// `i` is the first place at which `note` stands in `notes`.
pub open spec fn is_first_position(notes: Seq<Note>, note: Note, i: int) -> bool {
    &&& 0 <= i < notes.len()
    &&& notes[i] == note
    &&& forall|j: int| 0 <= j < i ==> notes[j] != note
}

/// The first place at which `note` stands in `notes`; meaningful only where
/// `notes` contains it.
pub open spec fn first_position(notes: Seq<Note>, note: Note) -> int {
    choose|i: int| is_first_position(notes, note, i)
}

/// `notes` after the first occurrence of `note` has been taken out by moving
/// the last note into its place. Without an occurrence nothing changes.
pub open spec fn removed(notes: Seq<Note>, note: Note) -> Seq<Note> {
    if notes.contains(note) {
        notes.update(first_position(notes, note), notes.last()).drop_last()
    } else {
        notes
    }
}

/// `notes` after each of `gone` has been taken out in turn, first to last.
pub open spec fn purged(notes: Seq<Note>, gone: Seq<Note>) -> Seq<Note>
    decreases gone.len(),
{
    if gone.len() == 0 {
        notes
    } else {
        removed(purged(notes, gone.drop_last()), gone.last())
    }
}

/// `Vec::capacity`. Std promises that the vector can hold that many elements
/// without reallocating, so it is never below the length; the number itself
/// is the allocator's business and nothing more is said of it.
#[verifier::external_body]
fn vec_capacity(notes: &Vec<Note>) -> (capacity: usize)
    ensures
        capacity >= notes@.len(),
{
    notes.capacity()
}

/// `Vec::shrink_to`: gives memory back, keeps the elements.
#[verifier::external_body]
fn vec_shrink_to(notes: &mut Vec<Note>, min_capacity: usize)
    ensures
        final(notes)@ == old(notes)@,
{
    notes.shrink_to(min_capacity)
}

/// `Vec::shrink_to_fit`: gives memory back, keeps the elements.
#[verifier::external_body]
fn vec_shrink_to_fit(notes: &mut Vec<Note>)
    ensures
        final(notes)@ == old(notes)@,
{
    notes.shrink_to_fit()
}

impl Score {
    /// An empty score.
    pub fn new() -> (score: Self)
        ensures
            score@ == Seq::<Note>::empty(),
    {
        Score(Vec::new())
    }

    /// An empty score with room set aside for `capacity` notes.
    pub fn with_capacity(capacity: usize) -> (score: Self)
        ensures
            score@ == Seq::<Note>::empty(),
    {
        Score(Vec::with_capacity(capacity))
    }

    /// How many notes the score can hold before it has to grow.
    pub fn capacity(&self) -> (capacity: usize)
        ensures
            capacity >= self@.len(),
    {
        vec_capacity(&self.0)
    }

    /// The number of notes.
    pub fn len(&self) -> (len: usize)
        ensures
            len == self@.len(),
    {
        self.0.len()
    }

    /// Whether the score holds no note.
    pub fn is_empty(&self) -> (empty: bool)
        ensures
            empty <==> self@.len() == 0,
    {
        self.0.is_empty()
    }

    /// The notes, to read.
    pub fn as_slice(&self) -> (notes: &[Note])
        ensures
            notes@ == self@,
    {
        self.0.as_slice()
    }

    /// The notes, to change in place. What the caller leaves in the slice is
    /// what the score holds afterwards.
    pub fn as_mut_slice(&mut self) -> (notes: &mut [Note])
        ensures
            notes@ == old(self)@,
            final(self)@ == final(notes)@,
    {
        self.0.as_mut_slice()
    }

    /// Sets room aside for `additional` more notes. The notes stay as they are.
    pub fn reserve(&mut self, additional: usize)
        ensures
            final(self)@ == old(self)@,
    {
        self.0.reserve(additional)
    }

    /// Gives spare room back, down to `min_capacity`. The notes stay as they are.
    pub fn shrink_to(&mut self, min_capacity: usize)
        ensures
            final(self)@ == old(self)@,
    {
        vec_shrink_to(&mut self.0, min_capacity)
    }

    /// Gives all spare room back. The notes stay as they are.
    pub fn shrink_to_fit(&mut self)
        ensures
            final(self)@ == old(self)@,
    {
        vec_shrink_to_fit(&mut self.0)
    }

    /// Takes every note out.
    pub fn clear(&mut self)
        ensures
            final(self)@ == Seq::<Note>::empty(),
    {
        self.0.clear()
    }

    /// Appends a note and hands the score back for the next call.
    pub fn add<T: Into<Note>>(&mut self, note: T) -> (score: &mut Self)
        ensures
            exists|n: Note| #[trigger] converts_to(note, n) && score@ == old(self)@.push(n),
            *final(self) == *final(score),
    {
        let converted: Note = note.into();
        assert(converts_to(note, converted));
        self.0.push(converted);
        self
    }

    /// Appends the note with these four fields.
    pub fn add_note(&mut self, pitch: u8, duration: u16, position: u16, channel: u8) -> (score:
        &mut Self)
        ensures
            score@ == old(self)@.push(Note { pitch, duration, position, channel }),
            *final(self) == *final(score),
    {
        self.add(Note { pitch, duration, position, channel })
    }

    /// Appends every note of `notes`, in the order in which they come.
    pub fn extend<T: Into<Note>>(&mut self, notes: Vec<T>) -> (score: &mut Self)
        ensures
            exists|added: Seq<Note>| #[trigger]
                all_convert_to(notes@, added) && score@ == old(self)@ + added,
            *final(self) == *final(score),
    {
        let ghost mut added: Seq<Note> = Seq::empty();
        for note in it: notes
            invariant
                added.len() == it.index(),
                forall|k: int| 0 <= k < added.len() ==> converts_to(#[trigger] notes@[k], added[k]),
                self@ == old(self)@ + added,
        {
            let converted: Note = note.into();
            proof {
                added = added.push(converted);
            }
            self.0.push(converted);
        }
        assert(all_convert_to(notes@, added));
        self
    }

    /// Takes out the note with these four fields, if the score holds one.
    pub fn remove_note(&mut self, pitch: u8, duration: u16, position: u16, channel: u8) -> (score:
        &mut Self)
        ensures
            score@ == removed(old(self)@, Note { pitch, duration, position, channel }),
            *final(self) == *final(score),
    {
        self.remove(Note { pitch, duration, position, channel })
    }

    /// Takes out the first note equal to `note` and moves the last note into
    /// the gap, so the order of the rest is not kept. A score without such a
    /// note is left as it is.
    pub fn remove<T: Into<Note>>(&mut self, note: T) -> (score: &mut Self)
        ensures
            exists|n: Note| #[trigger] converts_to(note, n) && score@ == removed(old(self)@, n),
            *final(self) == *final(score),
    {
        let wanted: Note = note.into();
        assert(converts_to(note, wanted));
        let mut i: usize = 0;
        while i < self.0.len()
            invariant
                i <= self@.len(),
                self@ == old(self)@,
                converts_to(note, wanted),
                forall|j: int| 0 <= j < i ==> self@[j] != wanted,
            decreases self@.len() - i,
        {
            if self.0[i] == wanted {
                proof {
                    lemma_first_position_is(self@, wanted, i as int);
                }
                self.0.swap_remove(i);
                return self;
            }
            i += 1;
        }
        self
    }

    /// Takes out each note of `notes` in turn, as [`Score::remove`] does. A
    /// note that the score does not hold is passed over.
    pub fn purge<T: Into<Note>>(&mut self, notes: Vec<T>) -> (score: &mut Self)
        ensures
            exists|gone: Seq<Note>| #[trigger]
                all_convert_to(notes@, gone) && score@ == purged(old(self)@, gone),
            *final(self) == *final(score),
    {
        let ghost mut gone: Seq<Note> = Seq::empty();
        for note in it: notes
            invariant
                gone.len() == it.index(),
                forall|k: int| 0 <= k < gone.len() ==> converts_to(#[trigger] notes@[k], gone[k]),
                self@ == purged(old(self)@, gone),
        {
            let ghost before = self@;
            let ghost so_far = gone;
            self.remove(note);
            proof {
                let n = choose|n: Note| #[trigger] converts_to(note, n) && self@ == removed(before, n);
                gone = so_far.push(n);
                assert(gone.drop_last() == so_far);
            }
        }
        assert(all_convert_to(notes@, gone));
        self
    }
}

/// Where `i` is the first place of `note`, `first_position` names it.
pub proof fn lemma_first_position_is(notes: Seq<Note>, note: Note, i: int)
    requires
        is_first_position(notes, note, i),
    ensures
        notes.contains(note),
        first_position(notes, note) == i,
{
    let chosen = first_position(notes, note);
    assert(is_first_position(notes, note, chosen));
    if chosen < i {
        assert(notes[chosen] != note);
    }
    if i < chosen {
        assert(notes[i] != note);
    }
}

/// Taking `note` out removes exactly one copy of it, if there is one, and
/// touches no other note: which notes are left, and how often, does not
/// depend on the order in which the score held them.
pub proof fn lemma_removed_takes_one(notes: Seq<Note>, note: Note)
    ensures
        removed(notes, note).to_multiset() == notes.to_multiset().remove(note),
        notes.contains(note) ==> removed(notes, note).len() == notes.len() - 1,
        !notes.contains(note) ==> removed(notes, note) == notes,
{
    broadcast use vstd::multiset::group_multiset_axioms;

    if notes.contains(note) {
        let k = choose|k: int| 0 <= k < notes.len() && notes[k] == note;
        let i = first_occurrence(notes, note, k);
        lemma_first_position_is(notes, note, i);
        let last = notes.last();
        let moved = notes.update(i, last);
        vstd::seq_lib::to_multiset_update(notes, i, last);
        assert(moved.drop_last() == moved.remove(notes.len() - 1));
        vstd::seq_lib::to_multiset_remove(moved, notes.len() - 1);
        assert(moved[notes.len() - 1] == last);
        assert(removed(notes, note).to_multiset() =~= notes.to_multiset().remove(note));
    } else {
        vstd::seq_lib::to_multiset_contains(notes, note);
        assert(notes.to_multiset().remove(note) =~= notes.to_multiset());
    }
}

/// The first place of `note` at or before `k`, where `notes[k]` is `note`.
proof fn first_occurrence(notes: Seq<Note>, note: Note, k: int) -> (i: int)
    requires
        0 <= k < notes.len(),
        notes[k] == note,
    ensures
        is_first_position(notes, note, i),
    decreases k,
{
    if exists|j: int| 0 <= j < k && notes[j] == note {
        let j = choose|j: int| 0 <= j < k && notes[j] == note;
        first_occurrence(notes, note, j)
    } else {
        k
    }
}

/// Taking a note out of a score that holds it and appending it again gives
/// a score of the same length with the same notes, each as often as before.
/// The order may have changed.
pub proof fn lemma_remove_then_add_restores(notes: Seq<Note>, note: Note)
    requires
        notes.contains(note),
    ensures
        removed(notes, note).push(note).len() == notes.len(),
        removed(notes, note).push(note).to_multiset() == notes.to_multiset(),
{
    broadcast use vstd::multiset::group_multiset_axioms;

    lemma_removed_takes_one(notes, note);
    vstd::seq_lib::to_multiset_build(removed(notes, note), note);
    vstd::seq_lib::to_multiset_contains(notes, note);
    assert(notes.to_multiset().remove(note).insert(note) =~= notes.to_multiset());
}

/// Purging notes that the score does not hold leaves the score as it is.
pub proof fn lemma_purge_absent_changes_nothing(notes: Seq<Note>, gone: Seq<Note>)
    requires
        forall|k: int| 0 <= k < gone.len() ==> !notes.contains(#[trigger] gone[k]),
    ensures
        purged(notes, gone) == notes,
    decreases gone.len(),
{
    if gone.len() > 0 {
        lemma_purge_absent_changes_nothing(notes, gone.drop_last());
        assert(!notes.contains(gone[gone.len() - 1]));
    }
}

impl<T: Into<Note>> From<Vec<T>> for Score {
    /// The score that holds `notes`, each converted, in their order.
    fn from(notes: Vec<T>) -> (score: Self)
        ensures
            all_convert_to(notes@, score@),
    {
        let mut score = Score::new();
        score.extend(notes);
        score
    }
}

impl<T: Into<Note>> vstd::std_specs::convert::FromSpecImpl<Vec<T>> for Score {
    /// Two scores with the same notes may still differ in the room they have
    /// set aside, so no single score is named as the result; what `from`
    /// returns is stated on `from` itself.
    open spec fn obeys_from_spec() -> bool {
        false
    }

    open spec fn from_spec(notes: Vec<T>) -> Self {
        arbitrary()
    }
}

impl Clone for Score {
    /// A score with the same notes in the same order.
    fn clone(&self) -> (copy: Self)
        ensures
            copy@ == self@,
    {
        let notes = self.0.clone();
        assert(notes@ =~= self.0@);
        Score(notes)
    }
}

impl PartialEq for Score {
    /// Whether both scores hold the same notes in the same order.
    fn eq(&self, other: &Self) -> (same: bool) {
        if self.0.len() != other.0.len() {
            return false;
        }
        let mut i: usize = 0;
        while i < self.0.len()
            invariant
                i <= self@.len(),
                self@.len() == other@.len(),
                forall|j: int| 0 <= j < i ==> self@[j] == other@[j],
            decreases self@.len() - i,
        {
            if self.0[i] != other.0[i] {
                return false;
            }
            i += 1;
        }
        assert(self@ =~= other@);
        true
    }
}

impl vstd::std_specs::cmp::PartialEqSpecImpl for Score {
    open spec fn obeys_eq_spec() -> bool {
        true
    }

    open spec fn eq_spec(&self, other: &Self) -> bool {
        self@ == other@
    }
}

impl Default for Score {
    /// An empty score.
    fn default() -> (score: Self)
        ensures
            score@ == Seq::<Note>::empty(),
    {
        Score(Vec::new())
    }
}

} // verus!
