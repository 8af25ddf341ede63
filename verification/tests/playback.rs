use pianoverse_midi::events::{
    transpose, ConfigError, MidiEvent, ParseError, PlayEvent, RawEvent, TimedEvent, TimingFormat,
};
use pianoverse_midi::merge::merge_tracks;
use pianoverse_midi::player::MidiPlayer;
use pianoverse_midi::session::{Session, Step};

fn ev(delta: u32, event: RawEvent) -> TimedEvent {
    TimedEvent { delta, event }
}

fn note_on(key: u8, velocity: u8) -> RawEvent {
    RawEvent::NoteOn { key, velocity }
}

fn note_off(key: u8) -> RawEvent {
    RawEvent::NoteOff { key }
}

fn two_track_doc() -> MidiPlayer {
    // ticks-per-quarter 480, tempo left at the default 500000 us/quarter.
    let track_a = vec![ev(0, note_on(60, 100)), ev(480, note_off(60))];
    let track_b = vec![ev(240, note_on(64, 90))];
    MidiPlayer { timing: TimingFormat::TicksPerQuarter(480), tracks: vec![track_a, track_b] }
}

fn expect_emit(s: &mut Session) -> (u128, Vec<MidiEvent>) {
    match s.next_step() {
        Step::Emit { sleep_micros, events } => (sleep_micros, events),
        other => panic!("expected an emitting step, got {:?}", other),
    }
}

#[test]
fn scenario_two_tracks_no_transpose() {
    let doc = two_track_doc();
    let mut s = doc.play(vec![0, 1], 0).unwrap();

    let (sleep, events) = expect_emit(&mut s);
    assert_eq!(sleep, 0);
    assert_eq!(events, vec![MidiEvent::Press(60, 100)]);

    let (sleep, events) = expect_emit(&mut s);
    assert_eq!(sleep, 250000);
    assert_eq!(events, vec![MidiEvent::Press(64, 90)]);

    let (sleep, events) = expect_emit(&mut s);
    assert_eq!(sleep, 250000);
    assert_eq!(events, vec![MidiEvent::Release(60)]);

    assert_eq!(s.next_step(), Step::End);
    assert_eq!(s.next_step(), Step::Done);
    assert_eq!(s.next_step(), Step::Done);
}

#[test]
fn scenario_two_tracks_transposed_up_two() {
    let doc = two_track_doc();
    let mut s = doc.play(vec![0, 1], 2).unwrap();

    let (_, events) = expect_emit(&mut s);
    assert_eq!(events, vec![MidiEvent::Press(62, 100)]);
    let (_, events) = expect_emit(&mut s);
    assert_eq!(events, vec![MidiEvent::Press(66, 90)]);
    let (_, events) = expect_emit(&mut s);
    assert_eq!(events, vec![MidiEvent::Release(62)]);
    assert_eq!(s.next_step(), Step::End);
}

#[test]
fn scenario_tempo_change_mid_stream() {
    // The tempo change sits in the same moment as track B's note: the delay
    // into that moment uses the old tempo, the delay after it the new one.
    let track_a = vec![ev(0, note_on(60, 100)), ev(480, note_off(60))];
    let track_b = vec![
        ev(240, RawEvent::TempoChange { micros_per_quarter: 1000000 }),
        ev(0, note_on(64, 90)),
    ];
    let doc = MidiPlayer { timing: TimingFormat::TicksPerQuarter(480), tracks: vec![
        track_a, track_b,
    ] };
    let mut s = doc.play(vec![0, 1], 0).unwrap();

    let (sleep, events) = expect_emit(&mut s);
    assert_eq!(sleep, 0);
    assert_eq!(events, vec![MidiEvent::Press(60, 100)]);

    let (sleep, events) = expect_emit(&mut s);
    assert_eq!(sleep, 250000);
    assert_eq!(events, vec![MidiEvent::Press(64, 90)]);

    let (sleep, events) = expect_emit(&mut s);
    assert_eq!(sleep, 500000);
    assert_eq!(events, vec![MidiEvent::Release(60)]);

    assert_eq!(s.next_step(), Step::End);
}

#[test]
fn same_tick_events_follow_selection_order() {
    let track_a = vec![ev(0, note_on(60, 100))];
    let track_b = vec![ev(0, note_on(64, 90))];
    let doc = MidiPlayer { timing: TimingFormat::TicksPerQuarter(96), tracks: vec![
        track_a, track_b,
    ] };

    let mut s = doc.play(vec![1, 0], 0).unwrap();
    let (_, events) = expect_emit(&mut s);
    assert_eq!(events, vec![MidiEvent::Press(64, 90), MidiEvent::Press(60, 100)]);

    let mut s = doc.play(vec![0, 1], 0).unwrap();
    let (_, events) = expect_emit(&mut s);
    assert_eq!(events, vec![MidiEvent::Press(60, 100), MidiEvent::Press(64, 90)]);
}

#[test]
fn ignored_events_fold_into_next_delta() {
    // An event that playback ignores must not produce a zero-duration step:
    // its ticks flow into the next real moment's delta.
    let track = vec![ev(100, RawEvent::Other), ev(100, note_on(72, 50))];
    let doc = MidiPlayer { timing: TimingFormat::TicksPerQuarter(100), tracks: vec![track] };
    let mut s = doc.play(vec![0], 0).unwrap();

    let (sleep, events) = expect_emit(&mut s);
    assert_eq!(sleep, 1000000);
    assert_eq!(events, vec![MidiEvent::Press(72, 50)]);
    assert_eq!(s.next_step(), Step::End);
}

#[test]
fn merged_moments_are_ordered_and_nonempty() {
    let doc = two_track_doc();
    let moments = merge_tracks(&doc.tracks, &vec![0, 1]);
    assert_eq!(moments.len(), 3);
    assert_eq!(moments[0].delta, 0);
    assert_eq!(moments[1].delta, 240);
    assert_eq!(moments[2].delta, 240);
    assert_eq!(moments[0].events, vec![PlayEvent::NoteOn { key: 60, velocity: 100 }]);
    assert_eq!(moments[1].events, vec![PlayEvent::NoteOn { key: 64, velocity: 90 }]);
    assert_eq!(moments[2].events, vec![PlayEvent::NoteOff { key: 60 }]);
    // the deltas up to each moment sum to its absolute tick
    let ticks: Vec<u128> = moments
        .iter()
        .scan(0u128, |acc, m| {
            *acc += m.delta;
            Some(*acc)
        })
        .collect();
    assert_eq!(ticks, vec![0, 240, 480]);
    assert!(moments.iter().all(|m| !m.events.is_empty()));
}

#[test]
fn empty_selection_ends_immediately() {
    let doc = two_track_doc();
    let mut s = doc.play(vec![], 0).unwrap();
    assert_eq!(s.next_step(), Step::End);
    assert_eq!(s.next_step(), Step::Done);
}

#[test]
fn track_names_first_match_and_placeholder() {
    let named = vec![
        ev(0, RawEvent::TrackName("Piano".to_string())),
        ev(0, RawEvent::TrackName("Later".to_string())),
        ev(0, note_on(60, 100)),
    ];
    let unnamed = vec![ev(0, note_on(64, 90))];
    let late_name = vec![ev(0, note_on(62, 80)), ev(10, RawEvent::TrackName("Lead".to_string()))];
    let doc = MidiPlayer { timing: TimingFormat::TicksPerQuarter(480), tracks: vec![
        named, unnamed, late_name,
    ] };
    let names = doc.track_names();
    assert_eq!(names, vec!["Piano".to_string(), "Unnamed".to_string(), "Lead".to_string()]);
}

#[test]
fn track_names_empty_document() {
    let doc = MidiPlayer { timing: TimingFormat::TicksPerQuarter(480), tracks: vec![] };
    assert_eq!(doc.track_names(), Vec::<String>::new());
}

#[test]
fn transpose_shifts_and_clamps() {
    let on = PlayEvent::NoteOn { key: 60, velocity: 100 };
    assert_eq!(transpose(&on, 2), PlayEvent::NoteOn { key: 62, velocity: 100 });
    assert_eq!(transpose(&on, -12), PlayEvent::NoteOn { key: 48, velocity: 100 });

    let high = PlayEvent::NoteOn { key: 126, velocity: 10 };
    assert_eq!(transpose(&high, 5), PlayEvent::NoteOn { key: 127, velocity: 10 });
    let low = PlayEvent::NoteOff { key: 1 };
    assert_eq!(transpose(&low, -5), PlayEvent::NoteOff { key: 0 });

    let tempo = PlayEvent::TempoChange { micros_per_quarter: 500000 };
    assert_eq!(transpose(&tempo, 40), tempo);
}

#[test]
fn transpose_round_trip_without_clamping() {
    let e = PlayEvent::NoteOn { key: 60, velocity: 100 };
    let up = transpose(&e, 7);
    assert_eq!(transpose(&up, -7), e);
}

#[test]
fn unsupported_timing_is_rejected() {
    let doc = MidiPlayer { timing: TimingFormat::FrameBased, tracks: vec![vec![ev(
        0,
        note_on(60, 100),
    )]] };
    assert_eq!(doc.play(vec![0], 0).unwrap_err(), ConfigError::UnsupportedTiming);

    let doc = MidiPlayer { timing: TimingFormat::TicksPerQuarter(0), tracks: vec![] };
    assert_eq!(doc.play(vec![], 0).unwrap_err(), ConfigError::UnsupportedTiming);
}

#[test]
fn load_rejects_malformed_bytes() {
    assert_eq!(MidiPlayer::load(b"this is not a midi file").unwrap_err(), ParseError);
    assert_eq!(MidiPlayer::load(&[]).unwrap_err(), ParseError);
}

#[test]
fn load_parses_a_real_file() {
    // A minimal format-0 file: 480 ticks per quarter, one track named "Solo"
    // holding a middle-C press and, 480 ticks later, its release.
    let mut bytes: Vec<u8> = Vec::new();
    bytes.extend_from_slice(b"MThd");
    bytes.extend_from_slice(&[0, 0, 0, 6, 0, 0, 0, 1, 0x01, 0xE0]);
    bytes.extend_from_slice(b"MTrk");
    let track: &[u8] = &[
        0x00, 0xFF, 0x03, 0x04, b'S', b'o', b'l', b'o', // track name "Solo"
        0x00, 0x90, 0x3C, 0x64, // note on, key 60, velocity 100
        0x83, 0x60, 0x80, 0x3C, 0x00, // after 480 ticks: note off, key 60
        0x00, 0xFF, 0x2F, 0x00, // end of track
    ];
    bytes.extend_from_slice(&[0, 0, 0, track.len() as u8]);
    bytes.extend_from_slice(track);

    let doc = MidiPlayer::load(&bytes).unwrap();
    assert_eq!(doc.timing, TimingFormat::TicksPerQuarter(480));
    assert_eq!(doc.track_names(), vec!["Solo".to_string()]);

    let mut s = doc.play(vec![0], 0).unwrap();
    let (sleep, events) = expect_emit(&mut s);
    assert_eq!(sleep, 0);
    assert_eq!(events, vec![MidiEvent::Press(60, 100)]);
    let (sleep, events) = expect_emit(&mut s);
    assert_eq!(sleep, 500000);
    assert_eq!(events, vec![MidiEvent::Release(60)]);
    assert_eq!(s.next_step(), Step::End);
}
