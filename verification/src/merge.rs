use vstd::prelude::*;

use crate::events::{play_event_of, PlayEvent, RawEvent, TimedEvent};
use crate::timing::MAX_TICKS;

verus! {

/// One playable event placed at its absolute tick.
#[derive(Debug, Clone, Copy, PartialEq, Eq, Structural)]
pub struct AbsEvent {
    pub tick: u128,
    pub event: PlayEvent,
}

/// The events of one absolute tick across all selected tracks, carrying the
/// tick delta since the previous moment (since the start, for the first).
#[derive(Debug, Clone, PartialEq)]
pub struct Moment {
    pub delta: u128,
    pub events: Vec<PlayEvent>,
}

/// A sequence of placed events as mathematical (tick, event) pairs.
pub open spec fn rec_view(s: Seq<AbsEvent>) -> Seq<(int, PlayEvent)> {
    s.map(|i: int, a: AbsEvent| (a.tick as int, a.event))
}

/// A sequence of moments as mathematical (delta, events) pairs.
pub open spec fn moments_view(ms: Seq<Moment>) -> Seq<(int, Seq<PlayEvent>)> {
    ms.map(|i: int, m: Moment| (m.delta as int, m.events@))
}

/// The playable events of one track placed at absolute ticks, counting from
/// `base`: each event's tick is `base` plus the deltas up to and including its
/// own; `TrackName` and `Other` events are left out.
pub open spec fn abs_seq(track: Seq<TimedEvent>, base: int) -> Seq<(int, PlayEvent)>
    decreases track.len(),
{
    if track.len() == 0 {
        Seq::empty()
    } else {
        let t = base + track[0].delta;
        let tail = abs_seq(track.skip(1), t);
        match play_event_of(track[0].event) {
            Some(p) => seq![(t, p)] + tail,
            None => tail,
        }
    }
}

/// A stable two-way merge by tick: on a tie the left side goes first.
pub open spec fn merge2_spec(a: Seq<(int, PlayEvent)>, b: Seq<(int, PlayEvent)>) -> Seq<
    (int, PlayEvent),
>
    decreases a.len() + b.len(),
{
    if a.len() == 0 {
        b
    } else if b.len() == 0 {
        a
    } else if a[0].0 <= b[0].0 {
        seq![a[0]] + merge2_spec(a.skip(1), b)
    } else {
        seq![b[0]] + merge2_spec(a, b.skip(1))
    }
}

/// All playable events of the selected tracks, merged in tick order; ties are
/// broken by the track's position in the selection, then by its own order.
pub open spec fn merged_recs(tracks: Seq<Vec<TimedEvent>>, sel: Seq<usize>) -> Seq<
    (int, PlayEvent),
>
    decreases sel.len(),
{
    if sel.len() == 0 {
        Seq::empty()
    } else {
        merge2_spec(merged_recs(tracks, sel.drop_last()), abs_seq(tracks[sel.last() as int]@, 0))
    }
}

/// Placed events grouped by absolute tick, in order of first appearance.
pub open spec fn groups_abs(recs: Seq<(int, PlayEvent)>) -> Seq<(int, Seq<PlayEvent>)>
    decreases recs.len(),
{
    if recs.len() == 0 {
        Seq::empty()
    } else {
        let init = groups_abs(recs.drop_last());
        let x = recs.last();
        if init.len() > 0 && init.last().0 == x.0 {
            init.update(init.len() - 1, (x.0, init.last().1.push(x.1)))
        } else {
            init.push((x.0, seq![x.1]))
        }
    }
}

/// Tick-placed groups rewritten so that each carries the delta from the group
/// before it (from tick zero, for the first).
pub open spec fn deltas_spec(g: Seq<(int, Seq<PlayEvent>)>) -> Seq<(int, Seq<PlayEvent>)>
    decreases g.len(),
{
    if g.len() == 0 {
        Seq::empty()
    } else {
        let prev: int = if g.len() >= 2 {
            g[g.len() - 2].0
        } else {
            0
        };
        deltas_spec(g.drop_last()).push((g.last().0 - prev, g.last().1))
    }
}

/// The merged moment sequence of the selected tracks.
pub open spec fn merged_moments(tracks: Seq<Vec<TimedEvent>>, sel: Seq<usize>) -> Seq<
    (int, Seq<PlayEvent>),
> {
    deltas_spec(groups_abs(merged_recs(tracks, sel)))
}

pub open spec fn sorted_recs(s: Seq<(int, PlayEvent)>) -> bool {
    forall|i: int, j: int| #![trigger s[i], s[j]] 0 <= i <= j < s.len() ==> s[i].0 <= s[j].0
}

pub open spec fn recs_ge(s: Seq<(int, PlayEvent)>, t: int) -> bool {
    forall|i: int| 0 <= i < s.len() ==> t <= (#[trigger] s[i]).0
}

pub open spec fn recs_le(s: Seq<(int, PlayEvent)>, t: int) -> bool {
    forall|i: int| 0 <= i < s.len() ==> (#[trigger] s[i]).0 <= t
}

proof fn lemma_abs_seq_props(track: Seq<TimedEvent>, base: int)
    ensures
        sorted_recs(abs_seq(track, base)),
        recs_ge(abs_seq(track, base), base),
        recs_le(abs_seq(track, base), base + track.len() * 0xFFFF_FFFF),
    decreases track.len(),
{
    if track.len() > 0 {
        let t = base + track[0].delta;
        lemma_abs_seq_props(track.skip(1), t);
        assert(track.skip(1).len() == track.len() - 1);
        assert(t + (track.len() - 1) * 0xFFFF_FFFF <= base + track.len() * 0xFFFF_FFFF) by {
            assert(track.len() * 0xFFFF_FFFF == (track.len() - 1) * 0xFFFF_FFFF + 0xFFFF_FFFF)
                by (nonlinear_arith);
        }
    }
}

proof fn lemma_merge2_ge(a: Seq<(int, PlayEvent)>, b: Seq<(int, PlayEvent)>, t: int)
    requires
        recs_ge(a, t),
        recs_ge(b, t),
    ensures
        recs_ge(merge2_spec(a, b), t),
    decreases a.len() + b.len(),
{
    if a.len() > 0 && b.len() > 0 {
        if a[0].0 <= b[0].0 {
            lemma_merge2_ge(a.skip(1), b, t);
        } else {
            lemma_merge2_ge(a, b.skip(1), t);
        }
    }
}

proof fn lemma_merge2_le(a: Seq<(int, PlayEvent)>, b: Seq<(int, PlayEvent)>, t: int)
    requires
        recs_le(a, t),
        recs_le(b, t),
    ensures
        recs_le(merge2_spec(a, b), t),
    decreases a.len() + b.len(),
{
    if a.len() > 0 && b.len() > 0 {
        if a[0].0 <= b[0].0 {
            lemma_merge2_le(a.skip(1), b, t);
        } else {
            lemma_merge2_le(a, b.skip(1), t);
        }
    }
}

proof fn lemma_merge2_sorted(a: Seq<(int, PlayEvent)>, b: Seq<(int, PlayEvent)>)
    requires
        sorted_recs(a),
        sorted_recs(b),
    ensures
        sorted_recs(merge2_spec(a, b)),
    decreases a.len() + b.len(),
{
    if a.len() > 0 && b.len() > 0 {
        if a[0].0 <= b[0].0 {
            lemma_merge2_sorted(a.skip(1), b);
            lemma_merge2_ge(a.skip(1), b, a[0].0);
        } else {
            lemma_merge2_sorted(a, b.skip(1));
            lemma_merge2_ge(a, b.skip(1), b[0].0);
        }
    }
}

proof fn lemma_merged_recs_sorted(tracks: Seq<Vec<TimedEvent>>, sel: Seq<usize>)
    ensures
        sorted_recs(merged_recs(tracks, sel)),
        recs_ge(merged_recs(tracks, sel), 0),
    decreases sel.len(),
{
    if sel.len() > 0 {
        lemma_merged_recs_sorted(tracks, sel.drop_last());
        lemma_abs_seq_props(tracks[sel.last() as int]@, 0);
        lemma_merge2_sorted(merged_recs(tracks, sel.drop_last()), abs_seq(tracks[sel.last() as int]@, 0));
        lemma_merge2_ge(merged_recs(tracks, sel.drop_last()), abs_seq(tracks[sel.last() as int]@, 0), 0);
    }
}

/// The raw event's playable core, if it has one.
pub fn play_of(e: &RawEvent) -> (r: Option<PlayEvent>)
    ensures
        r == play_event_of(*e),
{
    match *e {
        RawEvent::NoteOn { key, velocity } => Some(PlayEvent::NoteOn { key, velocity }),
        RawEvent::NoteOff { key } => Some(PlayEvent::NoteOff { key }),
        RawEvent::TempoChange { micros_per_quarter } => Some(
            PlayEvent::TempoChange { micros_per_quarter },
        ),
        RawEvent::TrackName(_) => None,
        RawEvent::Other => None,
    }
}

/// One track's delta stream turned into an absolute-tick stream of its
/// playable events.
fn track_abs_events(track: &Vec<TimedEvent>) -> (r: Vec<AbsEvent>)
    ensures
        rec_view(r@) == abs_seq(track@, 0),
        forall|k: int| 0 <= k < r@.len() ==> (#[trigger] r@[k]).tick <= MAX_TICKS,
{
    let mut r: Vec<AbsEvent> = Vec::new();
    let mut cur: u128 = 0;
    let mut i: usize = 0;
    let n = track.len();
    proof {
        assert(rec_view(r@) =~= Seq::<(int, PlayEvent)>::empty());
        assert(track@.skip(0) =~= track@);
        assert(track@.len() == n <= usize::MAX);
    }
    while i < track.len()
        invariant
            i <= track@.len(),
            track@.len() <= usize::MAX,
            cur <= i as int * 0xFFFF_FFFF,
            abs_seq(track@, 0) =~= rec_view(r@) + abs_seq(track@.skip(i as int), cur as int),
            forall|k: int| 0 <= k < r@.len() ==> (#[trigger] r@[k]).tick <= MAX_TICKS,
        decreases track@.len() - i,
    {
        let ghost prev_r = r@;
        let ghost prev_cur = cur as int;
        let delta = track[i].delta;
        proof {
            assert(cur as int + delta as int <= i as int * 0xFFFF_FFFF + 0xFFFF_FFFF);
            assert(i as int * 0xFFFF_FFFF + 0xFFFF_FFFF == (i + 1) as int * 0xFFFF_FFFF)
                by (nonlinear_arith);
            assert((i + 1) as int * 0xFFFF_FFFF <= usize::MAX as int * 0xFFFF_FFFF)
                by (nonlinear_arith)
                requires
                    i + 1 <= usize::MAX as int,
            ;
            assert(usize::MAX as int * 0xFFFF_FFFF <= MAX_TICKS as int);
        }
        cur = cur + delta as u128;
        match play_of(&track[i].event) {
            Some(p) => {
                r.push(AbsEvent { tick: cur, event: p });
                proof {
                    assert(rec_view(r@) =~= rec_view(prev_r).push((cur as int, p)));
                }
            },
            None => {},
        }
        i = i + 1;
        proof {
            assert(track@.skip(i - 1).skip(1) =~= track@.skip(i as int));
            assert(track@.skip(i - 1)[0] == track@[i - 1]);
            assert(abs_seq(track@.skip(i - 1), prev_cur) == match play_event_of(track@[i - 1].event) {
                Some(p) => seq![(cur as int, p)] + abs_seq(track@.skip(i as int), cur as int),
                None => abs_seq(track@.skip(i as int), cur as int),
            });
            assert(abs_seq(track@, 0) =~= rec_view(r@) + abs_seq(track@.skip(i as int), cur as int));
        }
    }
    proof {
        assert(abs_seq(track@.skip(i as int), cur as int) =~= Seq::<(int, PlayEvent)>::empty());
        assert(abs_seq(track@, 0) =~= rec_view(r@));
    }
    r
}

/// A stable two-way merge of two tick-placed streams; on a tie the left
/// stream's events go first.
fn merge2(a: &Vec<AbsEvent>, b: &Vec<AbsEvent>) -> (r: Vec<AbsEvent>)
    ensures
        rec_view(r@) == merge2_spec(rec_view(a@), rec_view(b@)),
{
    let ghost va = rec_view(a@);
    let ghost vb = rec_view(b@);
    let mut r: Vec<AbsEvent> = Vec::new();
    let mut i: usize = 0;
    let mut j: usize = 0;
    proof {
        assert(rec_view(r@) =~= Seq::<(int, PlayEvent)>::empty());
        assert(va.skip(0) =~= va);
        assert(vb.skip(0) =~= vb);
    }
    while i < a.len() || j < b.len()
        invariant
            i <= a@.len(),
            j <= b@.len(),
            va == rec_view(a@),
            vb == rec_view(b@),
            merge2_spec(va, vb) =~= rec_view(r@) + merge2_spec(
                va.skip(i as int),
                vb.skip(j as int),
            ),
        decreases a@.len() - i + b@.len() - j,
    {
        let ghost prev_r = r@;
        let take_a = if j >= b.len() {
            true
        } else if i >= a.len() {
            false
        } else {
            a[i].tick <= b[j].tick
        };
        if take_a {
            let x = a[i];
            r.push(x);
            proof {
                assert(va.skip(i as int)[0] == va[i as int]);
                assert(va.skip(i as int).skip(1) =~= va.skip(i + 1));
                assert(rec_view(r@) =~= rec_view(prev_r).push(va[i as int]));
                if j < b@.len() {
                    assert(vb.skip(j as int)[0] == vb[j as int]);
                    assert(merge2_spec(va.skip(i as int), vb.skip(j as int)) == seq![
                        va[i as int],
                    ] + merge2_spec(va.skip(i + 1), vb.skip(j as int)));
                } else {
                    assert(vb.skip(j as int) =~= Seq::<(int, PlayEvent)>::empty());
                    assert(merge2_spec(va.skip(i as int), vb.skip(j as int)) == va.skip(i as int));
                    assert(va.skip(i as int) =~= seq![va[i as int]] + merge2_spec(
                        va.skip(i + 1),
                        vb.skip(j as int),
                    ));
                }
            }
            i = i + 1;
        } else {
            let x = b[j];
            r.push(x);
            proof {
                assert(vb.skip(j as int)[0] == vb[j as int]);
                assert(vb.skip(j as int).skip(1) =~= vb.skip(j + 1));
                assert(rec_view(r@) =~= rec_view(prev_r).push(vb[j as int]));
                if i < a@.len() {
                    assert(va.skip(i as int)[0] == va[i as int]);
                    assert(merge2_spec(va.skip(i as int), vb.skip(j as int)) == seq![
                        vb[j as int],
                    ] + merge2_spec(va.skip(i as int), vb.skip(j + 1)));
                } else {
                    assert(va.skip(i as int) =~= Seq::<(int, PlayEvent)>::empty());
                    assert(merge2_spec(va.skip(i as int), vb.skip(j as int)) == vb.skip(j as int));
                    assert(vb.skip(j as int) =~= seq![vb[j as int]] + merge2_spec(
                        va.skip(i as int),
                        vb.skip(j + 1),
                    ));
                }
            }
            j = j + 1;
        }
        proof {
            assert(merge2_spec(va, vb) =~= rec_view(r@) + merge2_spec(
                va.skip(i as int),
                vb.skip(j as int),
            ));
        }
    }
    proof {
        assert(va.skip(i as int) =~= Seq::<(int, PlayEvent)>::empty());
        assert(vb.skip(j as int) =~= Seq::<(int, PlayEvent)>::empty());
        assert(merge2_spec(va, vb) =~= rec_view(r@));
    }
    r
}

/// Sorted tick-placed events folded into moments: events of one tick become
/// one moment, and each moment carries the delta from the one before it.
fn group_moments(recs: &Vec<AbsEvent>) -> (r: Vec<Moment>)
    requires
        sorted_recs(rec_view(recs@)),
        forall|k: int| 0 <= k < recs@.len() ==> (#[trigger] recs@[k]).tick <= MAX_TICKS,
    ensures
        moments_view(r@) == deltas_spec(groups_abs(rec_view(recs@))),
        forall|k: int| 0 <= k < r@.len() ==> (#[trigger] r@[k]).delta <= MAX_TICKS,
{
    let ghost vr = rec_view(recs@);
    let mut out: Vec<Moment> = Vec::new();
    let mut cur_events: Vec<PlayEvent> = Vec::new();
    let mut cur_tick: u128 = 0;
    let mut prev_tick: u128 = 0;
    let mut k: usize = 0;
    proof {
        assert(rec_view(recs@.take(0)) =~= Seq::<(int, PlayEvent)>::empty());
    }
    while k < recs.len()
        invariant
            k <= recs@.len(),
            vr == rec_view(recs@),
            sorted_recs(vr),
            forall|k2: int| 0 <= k2 < recs@.len() ==> (#[trigger] recs@[k2]).tick <= MAX_TICKS,
            forall|k2: int| 0 <= k2 < out@.len() ==> (#[trigger] out@[k2]).delta <= MAX_TICKS,
            k == 0 ==> out@.len() == 0 && cur_events@.len() == 0 && prev_tick == 0,
            k > 0 ==> ({
                let gs = groups_abs(vr.take(k as int));
                &&& cur_events@.len() > 0
                &&& gs.len() == out@.len() + 1
                &&& moments_view(out@) == deltas_spec(gs.drop_last())
                &&& gs.last() == (cur_tick as int, cur_events@)
                &&& prev_tick as int == (if gs.len() >= 2 {
                    gs[gs.len() - 2].0
                } else {
                    0int
                })
                &&& prev_tick <= cur_tick
                &&& cur_tick == recs@[k - 1].tick
            }),
        decreases recs@.len() - k,
    {
        let t = recs[k].tick;
        let e = recs[k].event;
        let ghost gs = groups_abs(vr.take(k as int));
        proof {
            assert(vr.take(k + 1).drop_last() =~= vr.take(k as int));
            assert(vr.take(k + 1).last() == vr[k as int]);
            assert(vr[k as int] == (t as int, e));
            if k > 0 {
                assert(vr[k - 1].0 <= vr[k as int].0);
            }
        }
        let ghost gs2 = groups_abs(vr.take(k + 1));
        if cur_events.len() > 0 && t == cur_tick {
            let ghost prev_events = cur_events@;
            cur_events.push(e);
            proof {
                assert(gs2 == gs.update(gs.len() - 1, (cur_tick as int, prev_events.push(e))));
                assert(gs2.drop_last() =~= gs.drop_last());
                assert(gs2.last() == (cur_tick as int, cur_events@));
                assert(gs2.len() == gs.len());
                if gs2.len() >= 2 {
                    assert(gs2[gs2.len() - 2] == gs[gs.len() - 2]);
                }
            }
        } else {
            if cur_events.len() > 0 {
                let ghost prev_out = out@;
                let delta = cur_tick - prev_tick;
                out.push(Moment { delta, events: cur_events });
                cur_events = Vec::new();
                proof {
                    assert(moments_view(out@) =~= moments_view(prev_out).push(
                        (delta as int, gs.last().1),
                    ));
                    assert(moments_view(out@) == deltas_spec(gs));
                }
                prev_tick = cur_tick;
            }
            cur_events.push(e);
            cur_tick = t;
            proof {
                if k > 0 {
                    assert(gs.len() > 0);
                    assert(!(gs.last().0 == t as int));
                    assert(gs2 == gs.push((t as int, seq![e])));
                    assert(gs2.drop_last() =~= gs);
                    assert(gs2[gs2.len() - 2] == gs.last());
                } else {
                    assert(vr.take(1).drop_last() =~= Seq::<(int, PlayEvent)>::empty());
                    assert(groups_abs(vr.take(1).drop_last()) =~= Seq::<
                        (int, Seq<PlayEvent>),
                    >::empty());
                    assert(gs2 == Seq::<(int, Seq<PlayEvent>)>::empty().push((t as int, seq![e])));
                    assert(moments_view(out@) =~= deltas_spec(gs2.drop_last()));
                }
                assert(gs2.last() == (cur_tick as int, cur_events@));
            }
        }
        k = k + 1;
    }
    if cur_events.len() > 0 {
        let ghost gs = groups_abs(vr);
        let ghost prev_out = out@;
        let delta = cur_tick - prev_tick;
        out.push(Moment { delta, events: cur_events });
        proof {
            assert(vr.take(k as int) =~= vr);
            assert(moments_view(out@) =~= moments_view(prev_out).push((delta as int, gs.last().1)));
            assert(moments_view(out@) == deltas_spec(gs));
        }
    } else {
        proof {
            assert(vr.take(k as int) =~= vr);
            assert(k == 0 ==> vr =~= Seq::<(int, PlayEvent)>::empty());
            assert(moments_view(out@) =~= deltas_spec(groups_abs(vr)));
        }
    }
    out
}

/// Merges the chosen tracks of a document into one chronologically ordered
/// moment sequence: events are keyed by absolute tick, same-tick events form
/// one moment, ties are broken by position in `sel` and then by the original
/// order within a track, and only playable events are kept.
pub fn merge_tracks(tracks: &Vec<Vec<TimedEvent>>, sel: &Vec<usize>) -> (r: Vec<Moment>)
    requires
        forall|i: int| 0 <= i < sel@.len() ==> (#[trigger] sel@[i]) < tracks@.len(),
    ensures
        moments_view(r@) == merged_moments(tracks@, sel@),
        forall|k: int| 0 <= k < r@.len() ==> (#[trigger] r@[k]).delta <= MAX_TICKS,
{
    let mut acc: Vec<AbsEvent> = Vec::new();
    let mut s: usize = 0;
    proof {
        assert(rec_view(acc@) =~= Seq::<(int, PlayEvent)>::empty());
        assert(sel@.take(0) =~= Seq::<usize>::empty());
        assert(merged_recs(tracks@, sel@.take(0)) =~= Seq::<(int, PlayEvent)>::empty());
    }
    while s < sel.len()
        invariant
            s <= sel@.len(),
            forall|i: int| 0 <= i < sel@.len() ==> (#[trigger] sel@[i]) < tracks@.len(),
            rec_view(acc@) == merged_recs(tracks@, sel@.take(s as int)),
            forall|k: int| 0 <= k < acc@.len() ==> (#[trigger] acc@[k]).tick <= MAX_TICKS,
        decreases sel@.len() - s,
    {
        let idx = sel[s];
        let t = track_abs_events(&tracks[idx]);
        let merged = merge2(&acc, &t);
        proof {
            assert(sel@.take(s + 1).drop_last() =~= sel@.take(s as int));
            assert(sel@.take(s + 1).last() == sel@[s as int]);
            assert(recs_le(rec_view(acc@), MAX_TICKS as int)) by {
                assert(forall|k: int|
                    0 <= k < acc@.len() ==> rec_view(acc@)[k].0 == (
                    #[trigger] acc@[k]).tick as int);
            }
            assert(recs_le(rec_view(t@), MAX_TICKS as int)) by {
                assert(forall|k: int|
                    0 <= k < t@.len() ==> rec_view(t@)[k].0 == (#[trigger] t@[k]).tick as int);
            }
            lemma_merge2_le(rec_view(acc@), rec_view(t@), MAX_TICKS as int);
            assert(forall|k: int|
                0 <= k < merged@.len() ==> (#[trigger] merged@[k]).tick <= MAX_TICKS) by {
                assert(forall|k: int|
                    0 <= k < merged@.len() ==> rec_view(merged@)[k].0 <= MAX_TICKS as int);
                assert(forall|k: int|
                    0 <= k < merged@.len() ==> rec_view(merged@)[k].0 == (
                    #[trigger] merged@[k]).tick as int);
            }
        }
        acc = merged;
        s = s + 1;
    }
    proof {
        assert(sel@.take(s as int) =~= sel@);
        lemma_merged_recs_sorted(tracks@, sel@);
    }
    group_moments(&acc)
}

/// The tick delta of moment `i` plus all the deltas before it: the absolute
/// tick at which moment `i` falls.
pub open spec fn sum_deltas(ms: Seq<(int, Seq<PlayEvent>)>, i: int) -> int
    decreases i + 1,
{
    if i < 0 {
        0
    } else {
        sum_deltas(ms, i - 1) + ms[i].0
    }
}

proof fn lemma_deltas_sums(g: Seq<(int, Seq<PlayEvent>)>)
    requires
        forall|i: int, j: int| #![trigger g[i], g[j]] 0 <= i < j < g.len() ==> g[i].0 < g[j].0,
        forall|i: int| 0 <= i < g.len() ==> (#[trigger] g[i]).0 >= 0,
    ensures
        deltas_spec(g).len() == g.len(),
        forall|i: int| 0 <= i < g.len() ==> (#[trigger] deltas_spec(g)[i]).1 == g[i].1,
        forall|i: int| 0 <= i < g.len() ==> sum_deltas(deltas_spec(g), i) == (#[trigger] g[i]).0,
        forall|i: int| 1 <= i < g.len() ==> (#[trigger] deltas_spec(g)[i]).0 > 0,
        g.len() > 0 ==> deltas_spec(g)[0].0 >= 0,
    decreases g.len(),
{
    if g.len() > 0 {
        let init = g.drop_last();
        lemma_deltas_sums(init);
        let d = deltas_spec(g);
        let di = deltas_spec(init);
        assert(d == di.push((g.last().0 - (if g.len() >= 2 {
            g[g.len() - 2].0
        } else {
            0int
        }), g.last().1)));
        assert(forall|i: int| 0 <= i < init.len() ==> init[i] == g[i]);
        assert(forall|i: int| 0 <= i < di.len() ==> d[i] == di[i]);
        assert forall|j: int| #![trigger sum_deltas(d, j)] -1 <= j < init.len() implies sum_deltas(
            d,
            j,
        ) == sum_deltas(di, j) by {
            lemma_sum_deltas_prefix(di, d, j);
        }
        if g.len() >= 2 {
            assert(sum_deltas(d, g.len() - 1) == sum_deltas(d, g.len() - 2) + d[g.len() - 1].0);
            assert(sum_deltas(d, g.len() - 2) == sum_deltas(di, g.len() - 2) == g[g.len() - 2].0);
        } else {
            assert(sum_deltas(d, 0) == sum_deltas(d, -1) + d[0].0);
        }
    }
}

proof fn lemma_sum_deltas_prefix(
    a: Seq<(int, Seq<PlayEvent>)>,
    b: Seq<(int, Seq<PlayEvent>)>,
    i: int,
)
    requires
        i < a.len(),
        a.len() <= b.len(),
        forall|k: int| 0 <= k < a.len() ==> a[k] == b[k],
    ensures
        sum_deltas(a, i) == sum_deltas(b, i),
    decreases i + 1,
{
    if i >= 0 {
        lemma_sum_deltas_prefix(a, b, i - 1);
    }
}

proof fn lemma_groups_strict(recs: Seq<(int, PlayEvent)>)
    requires
        sorted_recs(recs),
        recs_ge(recs, 0),
    ensures
        forall|i: int, j: int|
            #![trigger groups_abs(recs)[i], groups_abs(recs)[j]]
            0 <= i < j < groups_abs(recs).len() ==> groups_abs(recs)[i].0 < groups_abs(recs)[j].0,
        forall|i: int| 0 <= i < groups_abs(recs).len() ==> (#[trigger] groups_abs(recs)[i]).0 >= 0,
        recs.len() > 0 ==> groups_abs(recs).len() > 0 && groups_abs(recs).last().0
            == recs.last().0,
        forall|i: int| 0 <= i < groups_abs(recs).len() ==> (#[trigger] groups_abs(recs)[i]).1.len()
            > 0,
    decreases recs.len(),
{
    if recs.len() > 0 {
        let init = recs.drop_last();
        assert(sorted_recs(init)) by {
            assert(forall|i: int| 0 <= i < init.len() ==> init[i] == recs[i]);
        }
        assert(recs_ge(init, 0)) by {
            assert(forall|i: int| 0 <= i < init.len() ==> init[i] == recs[i]);
        }
        lemma_groups_strict(init);
        let gi = groups_abs(init);
        let x = recs.last();
        assert(x.0 >= 0);
        if init.len() > 0 {
            assert(init.last() == recs[recs.len() - 2]);
            assert(init.last().0 <= x.0);
        }
        if gi.len() > 0 && gi.last().0 == x.0 {
            let g = gi.update(gi.len() - 1, (x.0, gi.last().1.push(x.1)));
            assert(groups_abs(recs) == g);
            assert(forall|i: int| 0 <= i < g.len() - 1 ==> g[i] == gi[i]);
            assert(g.last().0 == x.0);
        } else {
            let g = gi.push((x.0, seq![x.1]));
            assert(groups_abs(recs) == g);
            assert(forall|i: int| 0 <= i < g.len() - 1 ==> g[i] == gi[i]);
            if gi.len() > 0 {
                assert(gi.last().0 == init.last().0);
                assert(gi.last().0 < x.0);
                assert(forall|i: int|
                    0 <= i < gi.len() ==> (#[trigger] gi[i]).0 <= gi.last().0 || i == gi.len() - 1);
            }
        }
    }
}

/// Law: for any document and any selection, the merged moment sequence is
/// strictly increasing in absolute tick, the deltas up to each moment sum
/// exactly to that moment's absolute tick, and no moment is empty.
pub proof fn lemma_merged_moments_increasing(tracks: Seq<Vec<TimedEvent>>, sel: Seq<usize>)
    ensures
        merged_moments(tracks, sel).len() == groups_abs(merged_recs(tracks, sel)).len(),
        forall|i: int|
            0 <= i < merged_moments(tracks, sel).len() ==> sum_deltas(
                merged_moments(tracks, sel),
                i,
            ) == (#[trigger] groups_abs(merged_recs(tracks, sel))[i]).0,
        forall|i: int, j: int|
            #![trigger groups_abs(merged_recs(tracks, sel))[i], groups_abs(merged_recs(tracks, sel))[j]]
            0 <= i < j < merged_moments(tracks, sel).len() ==> groups_abs(
                merged_recs(tracks, sel),
            )[i].0 < groups_abs(merged_recs(tracks, sel))[j].0,
        forall|i: int|
            1 <= i < merged_moments(tracks, sel).len() ==> (#[trigger] merged_moments(
                tracks,
                sel,
            )[i]).0 > 0,
        merged_moments(tracks, sel).len() > 0 ==> merged_moments(tracks, sel)[0].0 >= 0,
        forall|i: int|
            0 <= i < merged_moments(tracks, sel).len() ==> (#[trigger] merged_moments(
                tracks,
                sel,
            )[i]).1.len() > 0,
{
    lemma_merged_recs_sorted(tracks, sel);
    lemma_groups_strict(merged_recs(tracks, sel));
    lemma_deltas_sums(groups_abs(merged_recs(tracks, sel)));
}

} // verus!
