use vstd::prelude::*;

use crate::events::{ConfigError, MidiEvent, ParseError, RawEvent, TimingFormat, TimedEvent};
use crate::merge::{merge_tracks, merged_moments, moments_view};
use crate::session::Session;
use crate::timing::Ticker;

verus! {

/// A loaded document: its timing format and its tracks, each an ordered
/// sequence of delta-timed events. Immutable once loaded; any number of
/// playback sessions may read it.
#[derive(Debug, Clone, PartialEq)]
pub struct MidiPlayer {
    pub timing: TimingFormat,
    pub tracks: Vec<Vec<TimedEvent>>,
}

/// Declares midly's TrackEvent so that the conversion wrappers below can
/// take borrowed midly tracks; the type stays opaque here.
#[verifier::external_type_specification]
#[verifier::external_body]
pub struct ExTrackEvent<'a>(midly::TrackEvent<'a>);

/// Declares midly's TrackEventKind, opaque, for the same purpose.
#[verifier::external_type_specification]
#[verifier::external_body]
pub struct ExTrackEventKind<'a>(midly::TrackEventKind<'a>);

/// The document that a well-formed byte sequence parses to, if any: a
/// function of the bytes alone.
pub uninterp spec fn parsed_midi(bytes: Seq<u8>) -> Option<MidiPlayer>;

/// Relies on midly's Smf::parse: parses a standard MIDI file, returning its
/// header and tracks or an error for a malformed container; the result
/// depends on the bytes alone.
#[verifier::external_body]
fn parse_smf(bytes: &[u8]) -> (r: Option<MidiPlayer>)
    ensures
        r == parsed_midi(bytes@),
{
    let smf = midly::Smf::parse(bytes).ok()?;
    let timing = match smf.header.timing {
        midly::Timing::Metrical(t) => TimingFormat::TicksPerQuarter(t.as_int()),
        midly::Timing::Timecode(_, _) => TimingFormat::FrameBased,
    };
    let tracks = smf.tracks.iter().map(|t| convert_track(t)).collect();
    Some(MidiPlayer { timing, tracks })
}

/// Relies on midly's track events: each carries its delta ticks (28 bits)
/// and its kind.
#[verifier::external_body]
fn convert_track(track: &midly::Track<'_>) -> (r: Vec<TimedEvent>)
{
    track.iter().map(
        |ev| TimedEvent { delta: ev.delta.as_int(), event: convert_kind(&ev.kind) },
    ).collect()
}

/// Relies on midly's TrackEventKind: note keys and velocities are 7 bits,
/// tempos 24 bits, and a track name is a byte string, read here as UTF-8 with
/// replacement.
#[verifier::external_body]
fn convert_kind(kind: &midly::TrackEventKind<'_>) -> (r: RawEvent)
{
    match kind {
        midly::TrackEventKind::Midi { message: midly::MidiMessage::NoteOn { key, vel }, .. } => {
            RawEvent::NoteOn { key: key.as_int(), velocity: vel.as_int() }
        },
        midly::TrackEventKind::Midi { message: midly::MidiMessage::NoteOff { key, .. }, .. } => {
            RawEvent::NoteOff { key: key.as_int() }
        },
        midly::TrackEventKind::Meta(midly::MetaMessage::Tempo(t)) => {
            RawEvent::TempoChange { micros_per_quarter: t.as_int() }
        },
        midly::TrackEventKind::Meta(midly::MetaMessage::TrackName(n)) => {
            RawEvent::TrackName(String::from_utf8_lossy(n).to_string())
        },
        _ => RawEvent::Other,
    }
}

/// The name a track reports: the text of its first `TrackName` meta event,
/// or `"Unnamed"` if it has none.
pub open spec fn track_name_spec(track: Seq<TimedEvent>) -> Seq<char>
    decreases track.len(),
{
    if track.len() == 0 {
        "Unnamed"@
    } else {
        match track[0].event {
            RawEvent::TrackName(s) => s@,
            _ => track_name_spec(track.skip(1)),
        }
    }
}

impl MidiPlayer {
    /// Loads a document from raw bytes; a malformed container yields
    /// `ParseError` and nothing is loaded.
    pub fn load(bytes: &[u8]) -> (r: Result<MidiPlayer, ParseError>)
        ensures
            match parsed_midi(bytes@) {
                Some(d) => r == Ok::<MidiPlayer, ParseError>(d),
                None => r == Err::<MidiPlayer, ParseError>(ParseError),
            },
    {
        match parse_smf(bytes) {
            Some(d) => Ok(d),
            None => Err(ParseError),
        }
    }

    /// One name per track, in track order: the text of the track's first
    /// `TrackName` meta event, or `"Unnamed"` if it has none.
    pub fn track_names(&self) -> (r: Vec<String>)
        ensures
            r@.len() == self.tracks@.len(),
            forall|i: int|
                0 <= i < r@.len() ==> (#[trigger] r@[i])@ == track_name_spec(self.tracks@[i]@),
    {
        let mut names: Vec<String> = Vec::new();
        let mut i: usize = 0;
        while i < self.tracks.len()
            invariant
                i <= self.tracks@.len(),
                names@.len() == i,
                forall|k: int|
                    0 <= k < i ==> (#[trigger] names@[k])@ == track_name_spec(self.tracks@[k]@),
            decreases self.tracks@.len() - i,
        {
            let track = &self.tracks[i];
            let mut j: usize = 0;
            let mut name: Option<String> = None;
            proof {
                assert(track@.skip(0) =~= track@);
            }
            while j < track.len() && name.is_none()
                invariant
                    j <= track@.len(),
                    name is None ==> track_name_spec(track@) == track_name_spec(
                        track@.skip(j as int),
                    ),
                    match name {
                        Some(s) => s@ == track_name_spec(track@),
                        None => true,
                    },
                decreases track@.len() - j,
            {
                match &track[j].event {
                    RawEvent::TrackName(s) => {
                        name = Some(s.clone());
                    },
                    _ => {},
                }
                proof {
                    assert(track@.skip(j as int)[0] == track@[j as int]);
                    assert(track@.skip(j as int).skip(1) =~= track@.skip(j + 1));
                }
                j = j + 1;
            }
            match name {
                Some(s) => names.push(s),
                None => {
                    proof {
                        assert(track@.skip(j as int) =~= Seq::<TimedEvent>::empty());
                    }
                    names.push("Unnamed".to_owned());
                },
            }
            i = i + 1;
        }
        names
    }

    /// Starts a playback session over the chosen tracks, transposed by
    /// `transpose` semitones. Fails with `ConfigError` when the document's
    /// timing is frame-based or has a zero tick resolution; otherwise the
    /// session starts at the default tempo with the merged moment sequence.
    pub fn play(&self, track_idx: Vec<usize>, transpose: i8) -> (r: Result<Session, ConfigError>)
        requires
            forall|i: int| 0 <= i < track_idx@.len() ==> (#[trigger] track_idx@[i]) < self.tracks@.len(),
        ensures
            match self.timing {
                TimingFormat::TicksPerQuarter(tpq) => if tpq >= 1 {
                    match r {
                        Ok(s) => {
                            &&& s.wf()
                            &&& s.ticker.ticks_per_quarter == tpq
                            &&& s.ticker.micros_per_quarter
                                == crate::timing::DEFAULT_TEMPO_MICROS
                            &&& s.idx == 0
                            &&& !s.ended
                            &&& s.transpose == transpose
                            &&& moments_view(s.moments@) == merged_moments(
                                self.tracks@,
                                track_idx@,
                            )
                        },
                        Err(_) => false,
                    }
                } else {
                    r == Err::<Session, ConfigError>(ConfigError::UnsupportedTiming)
                },
                TimingFormat::FrameBased => r == Err::<Session, ConfigError>(
                    ConfigError::UnsupportedTiming,
                ),
            },
    {
        let ticker = match Ticker::new(&self.timing) {
            Ok(t) => t,
            Err(e) => {
                return Err(e);
            },
        };
        let moments = merge_tracks(&self.tracks, &track_idx);
        Ok(Session { moments, idx: 0, ended: false, ticker, transpose })
    }
}

} // verus!
