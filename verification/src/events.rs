use vstd::prelude::*;

verus! {

/// An event handed to the playback consumer: a key press with its velocity,
/// a key release, or the end of the stream.
#[derive(Debug, Clone, Copy, PartialEq, Eq, Structural)]
pub enum MidiEvent {
    Press(u32, u32),
    Release(u32),
    End,
}

/// One decoded track event, as it stands in the file: note messages, tempo
/// changes, the track-name meta event, and everything playback ignores.
#[derive(Debug, Clone, PartialEq)]
pub enum RawEvent {
    NoteOn { key: u8, velocity: u8 },
    NoteOff { key: u8 },
    TempoChange { micros_per_quarter: u32 },
    TrackName(String),
    Other,
}

/// An event together with the tick delta since the previous event of its track.
#[derive(Debug, Clone, PartialEq)]
pub struct TimedEvent {
    pub delta: u32,
    pub event: RawEvent,
}

/// The events that survive merging and drive playback.
#[derive(Debug, Clone, Copy, PartialEq, Eq, Structural)]
pub enum PlayEvent {
    NoteOn { key: u8, velocity: u8 },
    NoteOff { key: u8 },
    TempoChange { micros_per_quarter: u32 },
}

/// The document's global timing: ticks per quarter note, or the frame-based
/// (SMPTE) format this engine does not support.
#[derive(Debug, Clone, Copy, PartialEq, Eq, Structural)]
pub enum TimingFormat {
    TicksPerQuarter(u16),
    FrameBased,
}

/// The file's container structure is malformed; nothing was loaded.
#[derive(Debug, Clone, Copy, PartialEq, Eq, Structural)]
pub struct ParseError;

/// The document's timing format cannot drive playback: it is frame-based, or
/// its tick resolution is zero.
#[derive(Debug, Clone, Copy, PartialEq, Eq, Structural)]
pub enum ConfigError {
    UnsupportedTiming,
}

/// Which raw events take part in playback; `TrackName` and `Other` do not.
pub open spec fn play_event_of(e: RawEvent) -> Option<PlayEvent> {
    match e {
        RawEvent::NoteOn { key, velocity } => Some(PlayEvent::NoteOn { key, velocity }),
        RawEvent::NoteOff { key } => Some(PlayEvent::NoteOff { key }),
        RawEvent::TempoChange { micros_per_quarter } => Some(
            PlayEvent::TempoChange { micros_per_quarter },
        ),
        RawEvent::TrackName(_) => None,
        RawEvent::Other => None,
    }
}

/// A shifted key, clamped into the playable range 0..=127.
pub open spec fn clamp_key(k: int) -> int {
    if k < 0 {
        0
    } else if k > 127 {
        127
    } else {
        k
    }
}

/// A note event shifted by `k` semitones, its key clamped to 0..=127;
/// a tempo change passes through unchanged.
pub open spec fn transpose_spec(e: PlayEvent, k: int) -> PlayEvent {
    match e {
        PlayEvent::NoteOn { key, velocity } => PlayEvent::NoteOn {
            key: clamp_key(key + k) as u8,
            velocity,
        },
        PlayEvent::NoteOff { key } => PlayEvent::NoteOff { key: clamp_key(key + k) as u8 },
        PlayEvent::TempoChange { micros_per_quarter } => PlayEvent::TempoChange {
            micros_per_quarter,
        },
    }
}

/// Shifts a note event by `offset` semitones. A result outside 0..=127 is
/// clamped to that range rather than dropped, so no musical content is lost.
pub fn transpose(e: &PlayEvent, offset: i8) -> (r: PlayEvent)
    ensures
        r == transpose_spec(*e, offset as int),
{
    match *e {
        PlayEvent::NoteOn { key, velocity } => {
            PlayEvent::NoteOn { key: shift_key(key, offset), velocity }
        },
        PlayEvent::NoteOff { key } => PlayEvent::NoteOff { key: shift_key(key, offset) },
        PlayEvent::TempoChange { micros_per_quarter } => {
            PlayEvent::TempoChange { micros_per_quarter }
        },
    }
}

fn shift_key(key: u8, offset: i8) -> (r: u8)
    ensures
        r == clamp_key(key + offset),
{
    let shifted: i32 = key as i32 + offset as i32;
    if shifted < 0 {
        0
    } else if shifted > 127 {
        127
    } else {
        shifted as u8
    }
}

/// Law: for a note event whose key lies in 0..=127, transposing up by `k` and
/// back down by `k` returns the original event whenever the first shift does
/// not clamp; tempo changes are untouched either way.
pub proof fn lemma_transpose_round_trip(e: PlayEvent, k: int)
    requires
        match e {
            PlayEvent::NoteOn { key, .. } => key <= 127 && 0 <= key + k <= 127,
            PlayEvent::NoteOff { key } => key <= 127 && 0 <= key + k <= 127,
            PlayEvent::TempoChange { .. } => true,
        },
    ensures
        transpose_spec(transpose_spec(e, k), -k) == e,
{
}

/// Law: a transposed note event always carries a key in 0..=127.
pub proof fn lemma_transpose_clamped(e: PlayEvent, k: int)
    ensures
        match transpose_spec(e, k) {
            PlayEvent::NoteOn { key, .. } => 0 <= key <= 127,
            PlayEvent::NoteOff { key } => 0 <= key <= 127,
            PlayEvent::TempoChange { .. } => true,
        },
{
}

} // verus!
