use vstd::prelude::*;

use crate::events::{ConfigError, TimingFormat};

verus! {

/// The tempo a session starts with when the document sets none:
/// 500000 microseconds per quarter note, that is 120 beats per minute.
pub const DEFAULT_TEMPO_MICROS: u32 = 500000;

/// Tick deltas never exceed this bound: a track holds fewer than 2^64 events,
/// each advancing by fewer than 2^32 ticks.
pub const MAX_TICKS: u128 = 0xFFFF_FFFF_FFFF_FFFF_FFFF_FFFF;

/// Wall-clock micros that `delta` ticks last under `tempo` micros per quarter
/// note at `tpq` ticks per quarter note.
pub open spec fn dur_micros(delta: int, tempo: u32, tpq: u16) -> int
    recommends
        tpq >= 1,
{
    delta * tempo / tpq as int
}

/// Converts accumulated tick deltas into wall-clock durations under the
/// currently active tempo.
#[derive(Debug, Clone, Copy, PartialEq, Eq, Structural)]
pub struct Ticker {
    pub ticks_per_quarter: u16,
    pub micros_per_quarter: u32,
}

impl Ticker {
    pub open spec fn wf(self) -> bool {
        self.ticks_per_quarter >= 1
    }

    /// Fails when the timing format is frame-based or its tick resolution is
    /// zero; otherwise starts at the default tempo.
    pub fn new(timing: &TimingFormat) -> (r: Result<Ticker, ConfigError>)
        ensures
            match *timing {
                TimingFormat::TicksPerQuarter(tpq) => if tpq >= 1 {
                    r == Ok::<Ticker, ConfigError>(
                        (Ticker { ticks_per_quarter: tpq, micros_per_quarter: DEFAULT_TEMPO_MICROS }),
                    )
                } else {
                    r == Err::<Ticker, ConfigError>(ConfigError::UnsupportedTiming)
                },
                TimingFormat::FrameBased => r == Err::<Ticker, ConfigError>(
                    ConfigError::UnsupportedTiming,
                ),
            },
    {
        match *timing {
            TimingFormat::TicksPerQuarter(tpq) => {
                if tpq >= 1 {
                    Ok(Ticker { ticks_per_quarter: tpq, micros_per_quarter: DEFAULT_TEMPO_MICROS })
                } else {
                    Err(ConfigError::UnsupportedTiming)
                }
            },
            TimingFormat::FrameBased => Err(ConfigError::UnsupportedTiming),
        }
    }

    /// The wall-clock duration, in microseconds, of `delta_ticks` ticks under
    /// the currently active tempo.
    pub fn duration_for(&self, delta_ticks: u128) -> (r: u128)
        requires
            self.wf(),
            delta_ticks <= MAX_TICKS,
        ensures
            r == dur_micros(delta_ticks as int, self.micros_per_quarter, self.ticks_per_quarter),
    {
        proof {
            assert(delta_ticks as int * self.micros_per_quarter as int <= MAX_TICKS as int
                * 0xFFFF_FFFFint) by (nonlinear_arith)
                requires
                    delta_ticks <= MAX_TICKS,
                    self.micros_per_quarter <= 0xFFFF_FFFFu32,
            ;
        }
        (delta_ticks * self.micros_per_quarter as u128) / self.ticks_per_quarter as u128
    }

    /// Makes `micros_per_quarter` the active tempo for all later conversions.
    pub fn set_tempo(&mut self, micros_per_quarter: u32)
        ensures
            final(self).micros_per_quarter == micros_per_quarter,
            final(self).ticks_per_quarter == old(self).ticks_per_quarter,
    {
        self.micros_per_quarter = micros_per_quarter;
    }
}

} // verus!
