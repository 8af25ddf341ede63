//! A verified playback core for multi-track, tick-timed note sequences:
//! track-structure parsing, stable track merging, tempo-aware tick-to-time
//! conversion, transposition, and a cancellable event-emission state machine.

#![allow(unused_imports)]

pub mod events;
pub mod merge;
pub mod player;
pub mod session;
pub mod timing;

pub use events::{ConfigError, MidiEvent, ParseError};
pub use player::MidiPlayer;
pub use session::{Session, Step};
