use vstd::prelude::*;

use crate::events::{transpose, transpose_spec, MidiEvent, PlayEvent};
use crate::merge::Moment;
use crate::timing::{dur_micros, Ticker, MAX_TICKS};

verus! {

/// What a playback session asks its driver to do next: sleep and then emit
/// the given events in order, emit the final `End` marker, or nothing — the
/// session is over.
#[derive(Debug, Clone, PartialEq)]
pub enum Step {
    Emit { sleep_micros: u128, events: Vec<MidiEvent> },
    End,
    Done,
}

/// A step as a session's remaining plan records it. `Step::Done` never stands
/// in a plan: it only reports that the plan is exhausted.
pub enum PlanStep {
    Emit { sleep_micros: int, events: Seq<MidiEvent> },
    End,
}

pub open spec fn plan_step_of(r: Step) -> PlanStep {
    match r {
        Step::Emit { sleep_micros, events } => PlanStep::Emit {
            sleep_micros: sleep_micros as int,
            events: events@,
        },
        Step::End => PlanStep::End,
        Step::Done => PlanStep::End,
    }
}

/// The events a moment emits: note events transposed by `off` and turned into
/// presses and releases, in order; tempo changes are applied, never emitted.
pub open spec fn moment_emits(events: Seq<PlayEvent>, off: int) -> Seq<MidiEvent>
    decreases events.len(),
{
    if events.len() == 0 {
        Seq::empty()
    } else {
        let head = match transpose_spec(events[0], off) {
            PlayEvent::NoteOn { key, velocity } => seq![
                MidiEvent::Press(key as u32, velocity as u32),
            ],
            PlayEvent::NoteOff { key } => seq![MidiEvent::Release(key as u32)],
            PlayEvent::TempoChange { .. } => Seq::empty(),
        };
        head + moment_emits(events.skip(1), off)
    }
}

/// The active tempo after a moment's tempo changes are applied in order to a
/// session whose tempo was `t0`.
pub open spec fn moment_tempo(events: Seq<PlayEvent>, t0: u32) -> u32
    decreases events.len(),
{
    if events.len() == 0 {
        t0
    } else {
        moment_tempo(
            events.skip(1),
            match events[0] {
                PlayEvent::TempoChange { micros_per_quarter } => micros_per_quarter,
                _ => t0,
            },
        )
    }
}

/// Every step a run over `ms` will ask for, threading the tempo: each
/// moment's sleep uses the tempo active before that moment's own changes.
pub open spec fn plan_moments(ms: Seq<Moment>, tempo: u32, tpq: u16, off: int) -> Seq<PlanStep>
    decreases ms.len(),
{
    if ms.len() == 0 {
        Seq::empty()
    } else {
        seq![
            PlanStep::Emit {
                sleep_micros: dur_micros(ms[0].delta as int, tempo, tpq),
                events: moment_emits(ms[0].events@, off),
            },
        ] + plan_moments(ms.skip(1), moment_tempo(ms[0].events@, tempo), tpq, off)
    }
}

/// One playback run over a merged moment sequence: an exhaustible, one-shot
/// cursor that applies tempo changes and transposition as it goes.
#[derive(Debug)]
pub struct Session {
    pub moments: Vec<Moment>,
    pub idx: usize,
    pub ended: bool,
    pub ticker: Ticker,
    pub transpose: i8,
}

impl Session {
    pub open spec fn wf(self) -> bool {
        &&& self.ticker.wf()
        &&& self.idx <= self.moments@.len()
        &&& forall|k: int|
            0 <= k < self.moments@.len() ==> (#[trigger] self.moments@[k]).delta <= MAX_TICKS
        &&& self.ended ==> self.idx == self.moments@.len()
    }

    /// Everything this session will still ask of its driver, in order.
    pub open spec fn plan(self) -> Seq<PlanStep> {
        if self.ended {
            Seq::empty()
        } else {
            plan_moments(
                self.moments@.skip(self.idx as int),
                self.ticker.micros_per_quarter,
                self.ticker.ticks_per_quarter,
                self.transpose as int,
            ) + seq![PlanStep::End]
        }
    }

    /// The session's next step. For a pending moment: the sleep for its delta
    /// under the tempo active before the moment, and its transposed note
    /// events, applying the moment's tempo changes to the session. After the
    /// last moment: `End`, exactly once. After that: `Done`, with no change.
    pub fn next_step(&mut self) -> (r: Step)
        requires
            old(self).wf(),
        ensures
            final(self).wf(),
            final(self).moments == old(self).moments,
            final(self).transpose == old(self).transpose,
            final(self).ticker.ticks_per_quarter == old(self).ticker.ticks_per_quarter,
            old(self).ended ==> r == Step::Done && *final(self) == *old(self),
            !old(self).ended && old(self).idx < old(self).moments@.len() ==> ({
                let m = old(self).moments@[old(self).idx as int];
                &&& (match r {
                    Step::Emit { sleep_micros, events } => {
                        &&& sleep_micros == dur_micros(
                            m.delta as int,
                            old(self).ticker.micros_per_quarter,
                            old(self).ticker.ticks_per_quarter,
                        )
                        &&& events@ == moment_emits(m.events@, old(self).transpose as int)
                    },
                    _ => false,
                })
                &&& final(self).idx == old(self).idx + 1
                &&& !final(self).ended
                &&& final(self).ticker.micros_per_quarter == moment_tempo(
                    m.events@,
                    old(self).ticker.micros_per_quarter,
                )
            }),
            !old(self).ended && old(self).idx == old(self).moments@.len() ==> r == Step::End
                && final(self).ended && final(self).idx == old(self).idx
                && final(self).ticker == old(self).ticker,
            !old(self).ended ==> old(self).plan() == seq![plan_step_of(r)] + final(self).plan(),
    {
        if self.ended {
            return Step::Done;
        }
        if self.idx >= self.moments.len() {
            self.ended = true;
            proof {
                assert(old(self).moments@.skip(old(self).idx as int) =~= Seq::<Moment>::empty());
                assert(old(self).plan() =~= seq![plan_step_of(Step::End)] + final(self).plan());
            }
            return Step::End;
        }
        let i = self.idx;
        let ghost m = self.moments@[i as int];
        let ghost t0 = self.ticker.micros_per_quarter;
        let ghost off = self.transpose as int;
        let delta = self.moments[i].delta;
        let sleep_micros = self.ticker.duration_for(delta);
        let mut events: Vec<MidiEvent> = Vec::new();
        let mut j: usize = 0;
        proof {
            assert(m.events@.skip(0) =~= m.events@);
            assert(events@ =~= Seq::<MidiEvent>::empty());
        }
        while j < self.moments[i].events.len()
            invariant
                j <= m.events@.len(),
                i < self.moments@.len(),
                self.moments == old(self).moments,
                self.idx == old(self).idx,
                self.ended == old(self).ended,
                self.transpose == old(self).transpose,
                self.ticker.ticks_per_quarter == old(self).ticker.ticks_per_quarter,
                m == self.moments@[i as int],
                moment_emits(m.events@, off) =~= events@ + moment_emits(m.events@.skip(j as int), off),
                moment_tempo(m.events@, t0) == moment_tempo(
                    m.events@.skip(j as int),
                    self.ticker.micros_per_quarter,
                ),
                off == old(self).transpose as int,
                t0 == old(self).ticker.micros_per_quarter,
            decreases m.events@.len() - j,
        {
            let ghost prev_events = events@;
            let e = self.moments[i].events[j];
            proof {
                assert(m.events@.skip(j as int)[0] == m.events@[j as int]);
                assert(m.events@.skip(j as int).skip(1) =~= m.events@.skip(j + 1));
            }
            match e {
                PlayEvent::TempoChange { micros_per_quarter } => {
                    self.ticker.set_tempo(micros_per_quarter);
                },
                _ => {
                    let te = transpose(&e, self.transpose);
                    match te {
                        PlayEvent::NoteOn { key, velocity } => {
                            events.push(MidiEvent::Press(key as u32, velocity as u32));
                        },
                        PlayEvent::NoteOff { key } => {
                            events.push(MidiEvent::Release(key as u32));
                        },
                        PlayEvent::TempoChange { .. } => {},
                    }
                },
            }
            proof {
                assert(moment_emits(m.events@, off) =~= events@ + moment_emits(
                    m.events@.skip(j + 1),
                    off,
                ));
            }
            j = j + 1;
        }
        proof {
            assert(m.events@.skip(j as int) =~= Seq::<PlayEvent>::empty());
            assert(events@ =~= moment_emits(m.events@, off));
        }
        self.idx = i + 1;
        let r = Step::Emit { sleep_micros, events };
        proof {
            let rest = old(self).moments@.skip(old(self).idx as int);
            assert(rest[0] == m);
            assert(rest.skip(1) =~= old(self).moments@.skip(old(self).idx + 1));
            assert(plan_moments(rest, t0, old(self).ticker.ticks_per_quarter, off) == seq![
                plan_step_of(r),
            ] + plan_moments(
                final(self).moments@.skip(final(self).idx as int),
                final(self).ticker.micros_per_quarter,
                final(self).ticker.ticks_per_quarter,
                off,
            ));
            assert(old(self).plan() =~= seq![plan_step_of(r)] + final(self).plan());
        }
        r
    }
}

proof fn lemma_plan_moments_all_emit(ms: Seq<Moment>, tempo: u32, tpq: u16, off: int)
    ensures
        plan_moments(ms, tempo, tpq, off).len() == ms.len(),
        forall|k: int|
            0 <= k < ms.len() ==> (#[trigger] plan_moments(ms, tempo, tpq, off)[k]) is Emit,
    decreases ms.len(),
{
    if ms.len() > 0 {
        lemma_plan_moments_all_emit(ms.skip(1), moment_tempo(ms[0].events@, tempo), tpq, off);
    }
}

/// Law: a session that has not ended has `End` as the very last step of its
/// plan and nowhere else — a run that is driven to completion sees exactly one
/// `End`, and a run abandoned early sees none.
pub proof fn lemma_plan_single_end(s: Session)
    requires
        !s.ended,
    ensures
        s.plan().len() > 0,
        s.plan().last() == PlanStep::End,
        forall|k: int| 0 <= k < s.plan().len() - 1 ==> !((#[trigger] s.plan()[k]) is End),
{
    lemma_plan_moments_all_emit(
        s.moments@.skip(s.idx as int),
        s.ticker.micros_per_quarter,
        s.ticker.ticks_per_quarter,
        s.transpose as int,
    );
}

} // verus!
