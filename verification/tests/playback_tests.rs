use midi_practice::playback::delay_millis;
use midi_practice::playback::playback_step;
use midi_practice::playback::wire_message;
use midi_practice::playback::PlaybackStep;
use midi_practice::playback::BEATS_PER_MINUTE;
use midi_practice::playback::NOTE_OFF;
use midi_practice::playback::NOTE_ON;
use midi_practice::event::DeltaEvent;
use midi_practice::event::EventKind;
use midi_practice::Score;

#[test]
fn tempo_is_120() {
    assert_eq!(BEATS_PER_MINUTE, 120);
    assert_eq!(NOTE_ON, 0x90);
    assert_eq!(NOTE_OFF, 0x80);
}

#[test]
fn delay_is_exact_for_whole_beats() {
    assert_eq!(delay_millis(0), 0);
    assert_eq!(delay_millis(24), 500);
    assert_eq!(delay_millis(48), 1000);
}

#[test]
fn delay_drops_the_fraction() {
    assert_eq!(delay_millis(1), 20);
    assert_eq!(delay_millis(5), 104);
    assert_eq!(delay_millis(6), 125);
    assert_eq!(delay_millis(7), 145);
}

#[test]
fn delay_of_the_largest_delta_does_not_overflow() {
    assert_eq!(delay_millis(u32::MAX), 4294967295u64 * 60000 / 24 / 120);
}

#[test]
fn note_on_message_has_status_key_velocity() {
    let kind = EventKind::NoteOn { channel: 3, key: 60, vel: 127 };
    assert_eq!(wire_message(kind), Some([0x93, 60, 127]));
}

#[test]
fn note_off_message_has_status_key_velocity() {
    let kind = EventKind::NoteOff { channel: 15, key: 1, vel: 0 };
    assert_eq!(wire_message(kind), Some([0x8f, 1, 0]));
}

#[test]
fn end_of_track_sends_nothing() {
    assert_eq!(wire_message(EventKind::EndOfTrack), None);
}

#[test]
fn step_pairs_wait_and_message() {
    let event = DeltaEvent { delta: 24, kind: EventKind::NoteOn { channel: 0, key: 48, vel: 127 } };
    assert_eq!(
        playback_step(event),
        PlaybackStep { wait_millis: 500, message: Some([0x90, 48, 127]) }
    );
    let event = DeltaEvent { delta: 0, kind: EventKind::EndOfTrack };
    assert_eq!(playback_step(event), PlaybackStep { wait_millis: 0, message: None });
}

#[test]
fn playback_of_two_notes() {
    let score = Score::from(vec![(48u8, 4u16, 0u16, 0u8), (52u8, 4u16, 4u16, 9u8)]);
    assert_eq!(
        score.playback(),
        vec![
            PlaybackStep { wait_millis: 0, message: Some([0x90, 48, 127]) },
            PlaybackStep { wait_millis: 500, message: Some([0x80, 48, 0]) },
            PlaybackStep { wait_millis: 0, message: Some([0x99, 52, 127]) },
            PlaybackStep { wait_millis: 500, message: Some([0x89, 52, 0]) },
            PlaybackStep { wait_millis: 0, message: None },
        ]
    );
}

#[test]
fn playback_of_an_empty_score_is_one_silent_step() {
    assert_eq!(
        Score::new().playback(),
        vec![PlaybackStep { wait_millis: 0, message: None }]
    );
}

#[test]
fn playback_follows_the_track() {
    let score = Score::from(vec![(60u8, 3u16, 1u16, 2u8), (62u8, 1u16, 0u16, 3u8)]);
    let track = score.to_track();
    let steps = score.playback();
    assert_eq!(steps.len(), track.len());
    for (step, event) in steps.iter().zip(track.iter()) {
        assert_eq!(*step, playback_step(*event));
    }
}
