use midi_practice::Note;
use midi_practice::Score;

fn sorted_quads(score: &Score) -> Vec<(u8, u16, u16, u8)> {
    let mut quads: Vec<(u8, u16, u16, u8)> =
        score.as_slice().iter().map(|note| (*note).into()).collect();
    quads.sort();
    quads
}

#[test]
fn new_score_is_empty() {
    let score = Score::new();
    assert_eq!(score.len(), 0);
    assert!(score.is_empty());
    assert_eq!(score.as_slice(), &[] as &[Note]);
}

#[test]
fn default_score_is_empty() {
    let score = Score::default();
    assert!(score.is_empty());
    assert_eq!(score, Score::new());
}

#[test]
fn with_capacity_is_empty_and_has_the_room() {
    let score = Score::with_capacity(32);
    assert!(score.is_empty());
    assert!(score.capacity() >= 32);
}

#[test]
fn capacity_is_never_below_len() {
    let mut score = Score::new();
    assert!(score.capacity() >= score.len());
    for pitch in 0..100u8 {
        score.add_note(pitch, 1, 0, 0);
        assert!(score.capacity() >= score.len());
    }
}

#[test]
fn add_appends_and_chains() {
    let mut score = Score::new();
    score.add((60u8, 4u16, 0u16)).add((62u8, 4u16, 4u16, 3u8)).add(Note::new(64, 2, 8, 1));
    assert_eq!(
        score.as_slice(),
        &[Note::new(60, 4, 0, 0), Note::new(62, 4, 4, 3), Note::new(64, 2, 8, 1)]
    );
    assert_eq!(score.len(), 3);
    assert!(!score.is_empty());
}

#[test]
fn add_takes_a_note_as_it_is() {
    let note = Note::new(200, 7, 9, 99);
    let mut score = Score::new();
    score.add(note);
    assert_eq!(score.as_slice(), &[note]);
}

#[test]
fn add_note_appends_the_four_fields() {
    let mut score = Score::new();
    score.add_note(60, 4, 0, 0).add_note(61, 5, 6, 7);
    assert_eq!(score.as_slice(), &[Note::new(60, 4, 0, 0), Note::new(61, 5, 6, 7)]);
}

#[test]
fn add_keeps_duplicates() {
    let mut score = Score::new();
    score.add_note(60, 4, 0, 0).add_note(60, 4, 0, 0);
    assert_eq!(score.len(), 2);
}

#[test]
fn extend_appends_in_order() {
    let mut score = Score::new();
    score.add_note(1, 1, 1, 1);
    score.extend(vec![(2u8, 2u16, 2u16), (3u8, 3u16, 3u16)]);
    score.extend(vec![(4u8, 4u16, 4u16, 4u8)]).extend(vec![Note::new(5, 5, 5, 5)]);
    assert_eq!(
        score.as_slice(),
        &[
            Note::new(1, 1, 1, 1),
            Note::new(2, 2, 2, 0),
            Note::new(3, 3, 3, 0),
            Note::new(4, 4, 4, 4),
            Note::new(5, 5, 5, 5),
        ]
    );
}

#[test]
fn extend_with_nothing_changes_nothing() {
    let mut score = Score::new();
    score.add_note(1, 1, 1, 1);
    score.extend(Vec::<Note>::new());
    assert_eq!(score.as_slice(), &[Note::new(1, 1, 1, 1)]);
}

#[test]
fn from_converts_every_element() {
    let score = Score::from(vec![(48u8, 4u16, 0u16), (52u8, 4u16, 4u16)]);
    assert_eq!(score.as_slice(), &[Note::new(48, 4, 0, 0), Note::new(52, 4, 4, 0)]);
    let score = Score::from(vec![(48u8, 16u16, 32u16, 9u8)]);
    assert_eq!(score.as_slice(), &[Note::new(48, 16, 32, 9)]);
    let score = Score::from(Vec::<Note>::new());
    assert!(score.is_empty());
}

#[test]
fn remove_takes_the_first_match_and_moves_the_last_in() {
    let a = Note::new(1, 1, 1, 1);
    let b = Note::new(2, 2, 2, 2);
    let c = Note::new(3, 3, 3, 3);
    let mut score = Score::from(vec![a, b, a, c]);
    score.remove(a);
    assert_eq!(score.as_slice(), &[c, b, a]);
}

#[test]
fn remove_of_the_last_note_just_drops_it() {
    let a = Note::new(1, 1, 1, 1);
    let b = Note::new(2, 2, 2, 2);
    let mut score = Score::from(vec![a, b]);
    score.remove(b);
    assert_eq!(score.as_slice(), &[a]);
    score.remove(a);
    assert!(score.is_empty());
}

#[test]
fn remove_needs_all_four_fields_to_match() {
    let mut score = Score::from(vec![Note::new(60, 4, 0, 0)]);
    score.remove((61u8, 4u16, 0u16, 0u8));
    score.remove((60u8, 5u16, 0u16, 0u8));
    score.remove((60u8, 4u16, 1u16, 0u8));
    score.remove((60u8, 4u16, 0u16, 1u8));
    assert_eq!(score.len(), 1);
    score.remove((60u8, 4u16, 0u16));
    assert_eq!(score.len(), 0);
}

#[test]
fn remove_of_a_missing_note_changes_nothing() {
    let mut score = Score::from(vec![(1u8, 1u16, 1u16), (2u8, 2u16, 2u16)]);
    let before = score.clone();
    score.remove((9u8, 9u16, 9u16));
    assert_eq!(score, before);
    let mut empty = Score::new();
    empty.remove((9u8, 9u16, 9u16));
    assert!(empty.is_empty());
}

#[test]
fn remove_chains() {
    let mut score = Score::from(vec![(1u8, 1u16, 1u16), (2u8, 2u16, 2u16), (3u8, 3u16, 3u16)]);
    score.remove((1u8, 1u16, 1u16)).remove((3u8, 3u16, 3u16));
    assert_eq!(score.as_slice(), &[Note::new(2, 2, 2, 0)]);
}

#[test]
fn remove_note_takes_the_note_with_these_fields() {
    let mut score = Score::new();
    score.add_note(1, 1, 1, 1).add_note(2, 2, 2, 2).add_note(3, 3, 3, 3);
    score.remove_note(1, 1, 1, 1);
    assert_eq!(score.as_slice(), &[Note::new(3, 3, 3, 3), Note::new(2, 2, 2, 2)]);
    score.remove_note(7, 7, 7, 7);
    assert_eq!(score.len(), 2);
}

#[test]
fn remove_then_add_restores_length_and_notes_but_not_order() {
    let a = Note::new(1, 1, 1, 1);
    let b = Note::new(2, 2, 2, 2);
    let c = Note::new(3, 3, 3, 3);
    let mut score = Score::from(vec![a, b, c]);
    let before = score.clone();
    score.remove(a).add(a);
    assert_eq!(score.len(), before.len());
    assert_eq!(sorted_quads(&score), sorted_quads(&before));
    assert_eq!(score.as_slice(), &[c, b, a]);
}

#[test]
fn purge_takes_each_note_out_in_turn() {
    let a = Note::new(1, 1, 1, 1);
    let b = Note::new(2, 2, 2, 2);
    let c = Note::new(3, 3, 3, 3);
    let mut score = Score::from(vec![a, b, a, c]);
    score.purge(vec![a, a]);
    assert_eq!(sorted_quads(&score), vec![(2, 2, 2, 2), (3, 3, 3, 3)]);
    assert_eq!(score.as_slice(), &[c, b]);
}

#[test]
fn purge_takes_one_copy_for_each_mention() {
    let a = Note::new(1, 1, 1, 1);
    let mut score = Score::from(vec![a, a, a]);
    score.purge(vec![a, a]);
    assert_eq!(score.as_slice(), &[a]);
}

#[test]
fn purge_of_absent_notes_changes_nothing() {
    let mut score = Score::from(vec![(1u8, 1u16, 1u16), (2u8, 2u16, 2u16)]);
    let before = score.clone();
    score.purge(vec![(9u8, 9u16, 9u16), (8u8, 8u16, 8u16)]);
    assert_eq!(score, before);
    score.purge(Vec::<Note>::new());
    assert_eq!(score, before);
}

#[test]
fn purge_passes_over_a_miss_and_goes_on() {
    let mut score = Score::from(vec![(1u8, 1u16, 1u16), (2u8, 2u16, 2u16)]);
    score.purge(vec![(9u8, 9u16, 9u16), (2u8, 2u16, 2u16)]);
    assert_eq!(score.as_slice(), &[Note::new(1, 1, 1, 0)]);
}

#[test]
fn clear_takes_everything_out() {
    let mut score = Score::from(vec![(1u8, 1u16, 1u16), (2u8, 2u16, 2u16)]);
    score.clear();
    assert!(score.is_empty());
    assert_eq!(score.len(), 0);
}

#[test]
fn reserve_and_shrink_keep_the_notes() {
    let mut score = Score::from(vec![(1u8, 1u16, 1u16), (2u8, 2u16, 2u16)]);
    let before = score.clone();
    score.reserve(100);
    assert!(score.capacity() >= 102);
    assert_eq!(score, before);
    score.shrink_to(10);
    assert!(score.capacity() >= 10);
    assert_eq!(score, before);
    score.shrink_to_fit();
    assert!(score.capacity() >= 2);
    assert_eq!(score, before);
}

#[test]
fn as_mut_slice_writes_through() {
    let mut score = Score::from(vec![(1u8, 1u16, 1u16), (2u8, 2u16, 2u16)]);
    {
        let notes = score.as_mut_slice();
        assert_eq!(notes.len(), 2);
        notes[0].pitch = 99;
        notes.swap(0, 1);
    }
    assert_eq!(score.as_slice(), &[Note::new(2, 2, 2, 0), Note::new(99, 1, 1, 0)]);
}

#[test]
fn clone_is_equal_and_independent() {
    let mut score = Score::from(vec![(1u8, 1u16, 1u16)]);
    let copy = score.clone();
    assert_eq!(score, copy);
    score.add_note(2, 2, 2, 2);
    assert_ne!(score, copy);
    assert_eq!(copy.len(), 1);
}

#[test]
fn shrinking_gives_room_back() {
    let mut score = Score::from(vec![(1u8, 1u16, 1u16), (2u8, 2u16, 2u16)]);
    score.reserve(1000);
    let roomy = score.capacity();
    assert!(roomy >= 1002);
    score.shrink_to(10);
    assert!(score.capacity() >= 10);
    assert!(score.capacity() < roomy);
    score.shrink_to_fit();
    assert!(score.capacity() >= 2);
    assert!(score.capacity() < 10);
    assert_eq!(score.as_slice(), &[Note::new(1, 1, 1, 0), Note::new(2, 2, 2, 0)]);
}

#[test]
fn equal_scores_hold_the_same_notes_in_the_same_order() {
    let a = Note::new(1, 1, 1, 1);
    let b = Note::new(2, 2, 2, 2);
    assert_eq!(Score::from(vec![a, b]), Score::from(vec![a, b]));
    assert_ne!(Score::from(vec![a, b]), Score::from(vec![b, a]));
    assert_ne!(Score::from(vec![a, b]), Score::from(vec![a]));
    assert_ne!(Score::from(vec![a]), Score::from(vec![b]));
    assert_eq!(Score::new(), Score::with_capacity(8));
}
