use vstd::prelude::*;

use vstd::arithmetic::div_mod::lemma_div_is_ordered;

use crate::events::{
    sorted_by_ns, sorted_by_tick, temp_views, MidiEvent, MidiEventModel, TempEvent, TempEventData,
    TempEventDataModel, TempEventModel,
};

verus! {

/// One anchor of the tempo timeline: the cumulative elapsed nanoseconds at
/// `absolute_tick`, and the tempo (microseconds per quarter note) in force
/// from that tick on.
#[derive(Debug, Clone, Copy, PartialEq, Eq, Structural)]
pub struct TimelinePoint {
    pub absolute_tick: u64,
    pub absolute_ns: u64,
    pub tempo_us: u32,
}

/// An integer clamped into the `u64` range.
pub open spec fn sat64(x: int) -> u64 {
    if x < 0 {
        0
    } else if x > u64::MAX {
        u64::MAX
    } else {
        x as u64
    }
}

pub open spec fn sat_add64(a: u64, b: u64) -> u64 {
    sat64(a + b)
}

/// Saturating addition.
pub fn sat_add_u64(a: u64, b: u64) -> (r: u64)
    ensures
        r == sat_add64(a, b),
{
    if a > u64::MAX - b {
        u64::MAX
    } else {
        a + b
    }
}

/// The nanoseconds that `delta` ticks span under a tempo of `tempo_us`
/// microseconds per quarter note, at `ppqn` ticks per quarter note: the
/// exact product is divided once, at the end, and the quotient saturates
/// at the top of the 64-bit range.
pub open spec fn spec_seg_ns(delta: u64, tempo_us: u32, ppqn: u16) -> u64 {
    if ppqn == 0 {
        0
    } else {
        sat64((delta * tempo_us * 1000) / (ppqn as int))
    }
}

/// Computes `spec_seg_ns` in 128-bit arithmetic, which the product cannot
/// overflow.
pub fn seg_ns(delta: u64, tempo_us: u32, ppqn: u16) -> (r: u64)
    requires
        ppqn != 0,
    ensures
        r == spec_seg_ns(delta, tempo_us, ppqn),
{
    proof {
        assert((delta as int) * (tempo_us as int) <= (u64::MAX as int) * (u32::MAX as int))
            by (nonlinear_arith)
            requires
                0 <= delta as int <= u64::MAX as int,
                0 <= tempo_us as int <= u32::MAX as int,
        ;
    }
    let prod: u128 = (delta as u128) * (tempo_us as u128) * 1000;
    let q: u128 = prod / (ppqn as u128);
    if q > (u64::MAX as u128) {
        u64::MAX
    } else {
        q as u64
    }
}

/// Longer spans never take less time under one tempo.
pub proof fn lemma_seg_ns_monotone(d1: u64, d2: u64, tempo_us: u32, ppqn: u16)
    requires
        d1 <= d2,
    ensures
        spec_seg_ns(d1, tempo_us, ppqn) <= spec_seg_ns(d2, tempo_us, ppqn),
{
    if ppqn != 0 {
        assert((d1 as int) * (tempo_us as int) * 1000 <= (d2 as int) * (tempo_us as int) * 1000)
            by (nonlinear_arith)
            requires
                d1 as int <= d2 as int,
                0 <= d1 as int,
                0 <= tempo_us as int,
        ;
        lemma_div_is_ordered(
            (d1 as int) * (tempo_us as int) * 1000,
            (d2 as int) * (tempo_us as int) * 1000,
            ppqn as int,
        );
        assert((d1 as int) * (tempo_us as int) * 1000 >= 0) by (nonlinear_arith)
            requires
                0 <= d1 as int,
                0 <= tempo_us as int,
        ;
        vstd::arithmetic::div_mod::lemma_div_pos_is_pos(
            (d1 as int) * (tempo_us as int) * 1000,
            ppqn as int,
        );
    }
}

/// Timeline ticks never decrease.
pub open spec fn tl_sorted(tl: Seq<TimelinePoint>) -> bool {
    forall|i: int|
        0 < i < tl.len() ==> (#[trigger] tl[i]).absolute_tick >= tl[i - 1].absolute_tick
}

/// A well-formed timeline at resolution `ppqn`: it starts at tick 0 and
/// time 0, its ticks never decrease, and each point's time is the previous
/// point's time advanced by the intervening ticks under the previous
/// point's tempo.
pub open spec fn wf_timeline(tl: Seq<TimelinePoint>, ppqn: u16) -> bool {
    &&& tl.len() >= 1
    &&& tl[0].absolute_tick == 0
    &&& tl[0].absolute_ns == 0
    &&& tl_sorted(tl)
    &&& forall|i: int|
        0 < i < tl.len() ==> (#[trigger] tl[i]).absolute_ns == sat_add64(
            tl[i - 1].absolute_ns,
            spec_seg_ns(
                sat64(tl[i].absolute_tick - tl[i - 1].absolute_tick),
                tl[i - 1].tempo_us,
                ppqn,
            ),
        )
}

/// The timeline points contributed by the events from index `i` on, given
/// the tick, elapsed time and tempo reached so far: one point per
/// tempo-change event, every other event left alone.
pub open spec fn spec_timeline_rec(
    evs: Seq<TempEventModel>,
    i: int,
    last_tick: u64,
    elapsed: u64,
    tempo_us: u32,
    ppqn: u16,
) -> Seq<TimelinePoint>
    decreases evs.len() - i,
{
    if i < 0 || i >= evs.len() {
        Seq::empty()
    } else {
        match evs[i].data {
            TempEventDataModel::TempoChange { new_tempo_us } => {
                let tick2 = sat64(evs[i].tick);
                let ns = sat_add64(
                    elapsed,
                    spec_seg_ns(sat64(evs[i].tick - last_tick), tempo_us, ppqn),
                );
                seq![TimelinePoint { absolute_tick: tick2, absolute_ns: ns, tempo_us: new_tempo_us }]
                    + spec_timeline_rec(evs, i + 1, tick2, ns, new_tempo_us, ppqn)
            },
            _ => spec_timeline_rec(evs, i + 1, last_tick, elapsed, tempo_us, ppqn),
        }
    }
}

/// The full tempo timeline of a sorted event sequence: an implicit point
/// at tick 0 under the default tempo of 500 000 microseconds per quarter
/// note, then one point per tempo-change event.
pub open spec fn spec_build_timeline(evs: Seq<TempEventModel>, ppqn: u16) -> Seq<TimelinePoint> {
    seq![TimelinePoint { absolute_tick: 0, absolute_ns: 0, tempo_us: 500_000 }]
        + spec_timeline_rec(evs, 0, 0, 0, 500_000, ppqn)
}

/// Builds the tempo timeline of a tick-sorted event sequence; the result
/// is well-formed.
pub fn build_tempo_timeline(events: &Vec<TempEvent>, ppqn: u16) -> (tl: Vec<TimelinePoint>)
    requires
        ppqn != 0,
        sorted_by_tick(temp_views(events@)),
    ensures
        tl@ == spec_build_timeline(temp_views(events@), ppqn),
        wf_timeline(tl@, ppqn),
{
    let ghost evs = temp_views(events@);
    let mut tl: Vec<TimelinePoint> = Vec::new();
    tl.push(TimelinePoint { absolute_tick: 0, absolute_ns: 0, tempo_us: 500_000 });
    let mut last_tick: u64 = 0;
    let mut elapsed_ns: u64 = 0;
    let mut current_tempo_us: u32 = 500_000;
    let mut i: usize = 0;
    while i < events.len()
        invariant
            ppqn != 0,
            evs == temp_views(events@),
            evs.len() == events@.len(),
            sorted_by_tick(evs),
            i <= events@.len(),
            tl@.len() >= 1,
            tl@[tl@.len() - 1].absolute_tick == last_tick,
            tl@[tl@.len() - 1].absolute_ns == elapsed_ns,
            tl@[tl@.len() - 1].tempo_us == current_tempo_us,
            wf_timeline(tl@, ppqn),
            forall|q: int|
                i as int <= q < evs.len() ==> last_tick as int <= (#[trigger] evs[q]).tick,
            tl@ + spec_timeline_rec(evs, i as int, last_tick, elapsed_ns, current_tempo_us, ppqn)
                == spec_build_timeline(evs, ppqn),
        decreases events@.len() - i,
    {
        let ghost pre_tl = tl@;
        let ghost pre_rec = spec_timeline_rec(
            evs,
            i as int,
            last_tick,
            elapsed_ns,
            current_tempo_us,
            ppqn,
        );
        let e = &events[i];
        proof {
            assert(evs[i as int] == e@);
        }
        match e.data {
            TempEventData::TempoChange { new_tempo_us } => {
                let delta = e.absolute_tick - last_tick;
                let add = seg_ns(delta, current_tempo_us, ppqn);
                let ns = sat_add_u64(elapsed_ns, add);
                let point = TimelinePoint {
                    absolute_tick: e.absolute_tick,
                    absolute_ns: ns,
                    tempo_us: new_tempo_us,
                };
                tl.push(point);
                last_tick = e.absolute_tick;
                elapsed_ns = ns;
                current_tempo_us = new_tempo_us;
                proof {
                    assert(sat64(evs[i as int].tick) == e.absolute_tick);
                    assert(pre_rec =~= seq![point] + spec_timeline_rec(
                        evs,
                        i as int + 1,
                        last_tick,
                        elapsed_ns,
                        current_tempo_us,
                        ppqn,
                    ));
                    assert((pre_tl + pre_rec) =~= (pre_tl.push(point) + spec_timeline_rec(
                        evs,
                        i as int + 1,
                        last_tick,
                        elapsed_ns,
                        current_tempo_us,
                        ppqn,
                    )));
                    assert forall|p: int| 0 < p < tl@.len() implies (#[trigger] tl@[p]).absolute_tick
                        >= tl@[p - 1].absolute_tick by {
                        if p < pre_tl.len() {
                            assert(tl@[p] == pre_tl[p]);
                            assert(tl@[p - 1] == pre_tl[p - 1]);
                        }
                    }
                    assert forall|p: int| 0 < p < tl@.len() implies (#[trigger] tl@[p]).absolute_ns
                        == sat_add64(
                        tl@[p - 1].absolute_ns,
                        spec_seg_ns(
                            sat64(tl@[p].absolute_tick - tl@[p - 1].absolute_tick),
                            tl@[p - 1].tempo_us,
                            ppqn,
                        ),
                    ) by {
                        if p < pre_tl.len() {
                            assert(tl@[p] == pre_tl[p]);
                            assert(tl@[p - 1] == pre_tl[p - 1]);
                        }
                    }
                }
            },
            _ => {
                proof {
                    assert(pre_rec == spec_timeline_rec(
                        evs,
                        i as int + 1,
                        last_tick,
                        elapsed_ns,
                        current_tempo_us,
                        ppqn,
                    ));
                }
            },
        }
        i = i + 1;
    }
    proof {
        assert(spec_timeline_rec(
            evs,
            events@.len() as int,
            last_tick,
            elapsed_ns,
            current_tempo_us,
            ppqn,
        ) =~= Seq::<TimelinePoint>::empty());
        assert(tl@ + Seq::<TimelinePoint>::empty() =~= tl@);
    }
    tl
}

/// The index of the last timeline point whose tick does not exceed `tick`
/// (index 0 if every point lies beyond it).
pub open spec fn spec_seg_index(tl: Seq<TimelinePoint>, tick: int) -> int
    decreases tl.len(),
{
    if tl.len() <= 1 {
        0
    } else if tl[tl.len() - 1].absolute_tick <= tick {
        tl.len() - 1
    } else {
        spec_seg_index(tl.drop_last(), tick)
    }
}

/// In a sorted timeline, ticks are monotone across any two indices.
pub proof fn lemma_tl_sorted_trans(tl: Seq<TimelinePoint>, i: int, j: int)
    requires
        tl_sorted(tl),
        0 <= i <= j < tl.len(),
    ensures
        tl[i].absolute_tick <= tl[j].absolute_tick,
    decreases j - i,
{
    if i < j {
        lemma_tl_sorted_trans(tl, i, j - 1);
    }
}

/// The segment index found for `tick` is in range, its point's tick does
/// not exceed `tick`, and the next point (if any) lies strictly beyond.
pub proof fn lemma_seg_index_props(tl: Seq<TimelinePoint>, tick: int)
    requires
        tl.len() >= 1,
        tl_sorted(tl),
        tl[0].absolute_tick <= tick,
    ensures
        ({
            let r = spec_seg_index(tl, tick);
            &&& 0 <= r < tl.len()
            &&& tl[r].absolute_tick <= tick
            &&& r + 1 < tl.len() ==> tick < tl[r + 1].absolute_tick
        }),
    decreases tl.len(),
{
    if tl.len() > 1 && tl[tl.len() - 1].absolute_tick > tick {
        let w = tl.drop_last();
        assert(tl_sorted(w)) by {
            assert forall|p: int| 0 < p < w.len() implies (#[trigger] w[p]).absolute_tick >= w[p
                - 1].absolute_tick by {
                assert(w[p] == tl[p]);
                assert(w[p - 1] == tl[p - 1]);
            }
        }
        lemma_seg_index_props(w, tick);
        let r = spec_seg_index(w, tick);
        assert(w[r] == tl[r]);
        if r + 1 < w.len() {
            assert(w[r + 1] == tl[r + 1]);
        }
    }
}

/// Any index with the three properties above is the segment index.
pub proof fn lemma_seg_index_unique(tl: Seq<TimelinePoint>, tick: int, q: int)
    requires
        tl.len() >= 1,
        tl_sorted(tl),
        tl[0].absolute_tick <= tick,
        0 <= q < tl.len(),
        tl[q].absolute_tick <= tick,
        q + 1 < tl.len() ==> tick < tl[q + 1].absolute_tick,
    ensures
        q == spec_seg_index(tl, tick),
{
    let r = spec_seg_index(tl, tick);
    lemma_seg_index_props(tl, tick);
    if q < r {
        lemma_tl_sorted_trans(tl, q + 1, r);
        assert(false);
    }
    if q > r {
        lemma_tl_sorted_trans(tl, r + 1, q);
        assert(false);
    }
}

/// Finds the segment index of `tick` by binary search.
fn find_segment(tl: &Vec<TimelinePoint>, tick: u64) -> (r: usize)
    requires
        tl@.len() >= 1,
        tl_sorted(tl@),
        tl@[0].absolute_tick == 0,
    ensures
        r as int == spec_seg_index(tl@, tick as int),
        r < tl@.len(),
        tl@[r as int].absolute_tick <= tick,
{
    let mut lo: usize = 1;
    let mut hi: usize = tl.len();
    while lo < hi
        invariant
            tl_sorted(tl@),
            tl@[0].absolute_tick == 0,
            1 <= lo <= hi <= tl@.len(),
            forall|p: int| 0 <= p < lo ==> (#[trigger] tl@[p]).absolute_tick <= tick,
            forall|p: int| hi <= p < tl@.len() ==> (#[trigger] tl@[p]).absolute_tick > tick,
        decreases hi - lo,
    {
        let mid = lo + (hi - lo) / 2;
        if tl[mid].absolute_tick <= tick {
            proof {
                assert forall|p: int| 0 <= p < mid + 1 implies (#[trigger] tl@[p]).absolute_tick
                    <= tick by {
                    if lo <= p {
                        lemma_tl_sorted_trans(tl@, p, mid as int);
                    }
                }
            }
            lo = mid + 1;
        } else {
            proof {
                assert forall|p: int| mid <= p < tl@.len() implies (#[trigger] tl@[p]).absolute_tick
                    > tick by {
                    if p < hi {
                        lemma_tl_sorted_trans(tl@, mid as int, p);
                    }
                }
            }
            hi = mid;
        }
    }
    proof {
        lemma_seg_index_unique(tl@, tick as int, lo - 1);
    }
    lo - 1
}

/// The absolute time of an event at `tick`: the time of its tempo
/// segment's anchor, advanced by the remaining ticks under that segment's
/// tempo (saturating at the top of the 64-bit range).
pub open spec fn spec_event_ns(tl: Seq<TimelinePoint>, tick: int, ppqn: u16) -> u64 {
    let i = spec_seg_index(tl, tick);
    if 0 <= i < tl.len() {
        sat_add64(
            tl[i].absolute_ns,
            spec_seg_ns(sat64(tick - tl[i].absolute_tick), tl[i].tempo_us, ppqn),
        )
    } else {
        0
    }
}

/// Computes the absolute time of an event at `tick`.
pub fn event_ns(tl: &Vec<TimelinePoint>, tick: u64, ppqn: u16) -> (r: u64)
    requires
        ppqn != 0,
        tl@.len() >= 1,
        tl_sorted(tl@),
        tl@[0].absolute_tick == 0,
    ensures
        r == spec_event_ns(tl@, tick as int, ppqn),
{
    let i = find_segment(tl, tick);
    let p = tl[i];
    let delta = tick - p.absolute_tick;
    sat_add_u64(p.absolute_ns, seg_ns(delta, p.tempo_us, ppqn))
}

/// Times of well-formed-timeline points never decrease.
pub proof fn lemma_wf_ns_monotone(tl: Seq<TimelinePoint>, ppqn: u16, a: int, b: int)
    requires
        wf_timeline(tl, ppqn),
        0 <= a <= b < tl.len(),
    ensures
        tl[a].absolute_ns <= tl[b].absolute_ns,
    decreases b - a,
{
    if a < b {
        lemma_wf_ns_monotone(tl, ppqn, a, b - 1);
        lemma_seg_ns_monotone(
            0,
            sat64(tl[b].absolute_tick - tl[b - 1].absolute_tick),
            tl[b - 1].tempo_us,
            ppqn,
        );
    }
}

/// Law: the mapping from tick to absolute time is monotone over a
/// well-formed timeline, within each tempo segment and across segment
/// boundaries.
pub proof fn lemma_event_ns_monotone(tl: Seq<TimelinePoint>, ppqn: u16, t1: int, t2: int)
    requires
        wf_timeline(tl, ppqn),
        0 <= t1 <= t2,
    ensures
        spec_event_ns(tl, t1, ppqn) <= spec_event_ns(tl, t2, ppqn),
{
    let i1 = spec_seg_index(tl, t1);
    let i2 = spec_seg_index(tl, t2);
    lemma_seg_index_props(tl, t1);
    lemma_seg_index_props(tl, t2);
    if i1 > i2 {
        lemma_tl_sorted_trans(tl, i2 + 1, i1);
        assert(false);
    }
    if i1 == i2 {
        lemma_seg_ns_monotone(
            sat64(t1 - tl[i1].absolute_tick),
            sat64(t2 - tl[i1].absolute_tick),
            tl[i1].tempo_us,
            ppqn,
        );
    } else {
        // up to the end of segment i1 ...
        lemma_seg_ns_monotone(
            sat64(t1 - tl[i1].absolute_tick),
            sat64(tl[i1 + 1].absolute_tick - tl[i1].absolute_tick),
            tl[i1].tempo_us,
            ppqn,
        );
        assert(spec_event_ns(tl, t1, ppqn) <= tl[i1 + 1].absolute_ns);
        // ... through the following anchors ...
        lemma_wf_ns_monotone(tl, ppqn, i1 + 1, i2);
        // ... into segment i2.
        assert(tl[i2].absolute_ns <= spec_event_ns(tl, t2, ppqn));
    }
}

/// The playable event an intermediate event converts to: tempo changes
/// are dropped, every other event is stamped with its absolute time.
pub open spec fn spec_convert_one(e: TempEventModel, tl: Seq<TimelinePoint>, ppqn: u16) -> Option<
    MidiEventModel,
> {
    match e.data {
        TempEventDataModel::TempoChange { .. } => None,
        TempEventDataModel::Midi { status, data1, data2 } => Some(
            MidiEventModel {
                absolute_ns: spec_event_ns(tl, e.tick, ppqn),
                status,
                data1,
                data2,
                track_index: e.track,
                sysex_data: None,
            },
        ),
        TempEventDataModel::SysEx { data } => Some(
            MidiEventModel {
                absolute_ns: spec_event_ns(tl, e.tick, ppqn),
                status: 0xF0,
                data1: 0,
                data2: 0,
                track_index: e.track,
                sysex_data: Some(data),
            },
        ),
    }
}

/// The model of an optional playable event.
pub open spec fn opt_event_view(o: Option<MidiEvent>) -> Option<MidiEventModel> {
    match o {
        Some(e) => Some(e@),
        None => None,
    }
}

/// Converts one intermediate event to its playable event, if any.
pub fn convert_event(e: TempEvent, tl: &Vec<TimelinePoint>, ppqn: u16) -> (r: Option<MidiEvent>)
    requires
        ppqn != 0,
        tl@.len() >= 1,
        tl_sorted(tl@),
        tl@[0].absolute_tick == 0,
    ensures
        opt_event_view(r) == spec_convert_one(e@, tl@, ppqn),
{
    match e.data {
        TempEventData::TempoChange { .. } => None,
        TempEventData::Midi { status, data1, data2 } => {
            let ns = event_ns(tl, e.absolute_tick, ppqn);
            Some(
                MidiEvent {
                    absolute_ns: ns,
                    status,
                    data1,
                    data2,
                    track_index: e.track_index,
                    sysex_data: None,
                },
            )
        },
        TempEventData::SysEx { data } => {
            let ns = event_ns(tl, e.absolute_tick, ppqn);
            Some(
                MidiEvent {
                    absolute_ns: ns,
                    status: 0xF0,
                    data1: 0,
                    data2: 0,
                    track_index: e.track_index,
                    sysex_data: Some(data),
                },
            )
        },
    }
}

/// The playable events of a whole intermediate sequence, in order, with
/// tempo changes dropped.
pub open spec fn spec_convert(
    evs: Seq<TempEventModel>,
    tl: Seq<TimelinePoint>,
    ppqn: u16,
) -> Seq<MidiEventModel>
    decreases evs.len(),
{
    if evs.len() == 0 {
        Seq::empty()
    } else {
        let rest = spec_convert(evs.drop_last(), tl, ppqn);
        match spec_convert_one(evs.last(), tl, ppqn) {
            Some(m) => rest.push(m),
            None => rest,
        }
    }
}

/// Gathers the converted events, dropping the tempo-change placeholders.
pub fn collect_playable(
    opts: Vec<Option<MidiEvent>>,
    Ghost(evs): Ghost<Seq<TempEventModel>>,
    Ghost(tl): Ghost<Seq<TimelinePoint>>,
    Ghost(ppqn): Ghost<u16>,
) -> (r: Vec<MidiEvent>)
    requires
        opts@.len() == evs.len(),
        forall|p: int|
            0 <= p < evs.len() ==> opt_event_view(#[trigger] opts@[p]) == spec_convert_one(
                evs[p],
                tl,
                ppqn,
            ),
    ensures
        crate::events::event_views(r@) == spec_convert(evs, tl, ppqn),
{
    let mut opts = opts;
    let mut out: Vec<MidiEvent> = Vec::new();
    let mut i: usize = 0;
    let n = opts.len();
    let ghost orig = opts@;
    while i < n
        invariant
            n == orig.len() == evs.len(),
            i <= n,
            opts@ =~= orig.skip(i as int),
            forall|p: int|
                0 <= p < evs.len() ==> opt_event_view(#[trigger] orig[p]) == spec_convert_one(
                    evs[p],
                    tl,
                    ppqn,
                ),
            crate::events::event_views(out@) == spec_convert(evs.take(i as int), tl, ppqn),
        decreases n - i,
    {
        let ghost pre_out = out@;
        let o = opts.remove(0);
        proof {
            assert(orig.skip(i as int)[0] == orig[i as int]);
        }
        match o {
            Some(e) => {
                out.push(e);
                proof {
                    assert(crate::events::event_views(out@) =~= crate::events::event_views(
                        pre_out,
                    ).push(orig[i as int]->0@));
                }
            },
            None => {},
        }
        i = i + 1;
        proof {
            assert(opts@ =~= orig.skip(i as int));
            assert(evs.take(i as int).drop_last() =~= evs.take(i as int - 1));
            assert(evs.take(i as int).last() == evs[i as int - 1]);
        }
    }
    proof {
        assert(evs.take(evs.len() as int) =~= evs);
    }
    out
}

/// Law: converting a tick-sorted event sequence over a well-formed
/// timeline yields a sequence whose absolute times never decrease -- the
/// per-segment mapping is monotone and continuous across segments.
pub proof fn lemma_convert_sorted(evs: Seq<TempEventModel>, tl: Seq<TimelinePoint>, ppqn: u16)
    requires
        wf_timeline(tl, ppqn),
        sorted_by_tick(evs),
        forall|p: int| 0 <= p < evs.len() ==> (#[trigger] evs[p]).tick >= 0,
    ensures
        sorted_by_ns(spec_convert(evs, tl, ppqn)),
        evs.len() > 0 ==> forall|p: int|
            0 <= p < spec_convert(evs, tl, ppqn).len() ==> (#[trigger] spec_convert(
                evs,
                tl,
                ppqn,
            )[p]).absolute_ns <= spec_event_ns(tl, evs[evs.len() - 1].tick, ppqn),
    decreases evs.len(),
{
    if evs.len() > 0 {
        let w = evs.drop_last();
        let e = evs.last();
        assert(sorted_by_tick(w));
        lemma_convert_sorted(w, tl, ppqn);
        if w.len() > 0 {
            lemma_event_ns_monotone(tl, ppqn, w[w.len() - 1].tick, e.tick);
        }
        let out = spec_convert(evs, tl, ppqn);
        let prev = spec_convert(w, tl, ppqn);
        match spec_convert_one(e, tl, ppqn) {
            Some(m) => {
                assert(out == prev.push(m));
                assert(m.absolute_ns == spec_event_ns(tl, e.tick, ppqn));
                assert forall|p: int, q: int| 0 <= p < q < out.len() implies (
                #[trigger] out[p]).absolute_ns <= (#[trigger] out[q]).absolute_ns by {
                    if q < prev.len() {
                        assert(out[p] == prev[p]);
                        assert(out[q] == prev[q]);
                    } else {
                        assert(out[q] == m);
                        assert(out[p] == prev[p]);
                    }
                }
            },
            None => {
                assert(out == prev);
            },
        }
    }
}

/// Conversion carries each event's track index through unchanged, so a
/// bound on the input's track indices bounds the output's.
pub proof fn lemma_convert_track_bound(
    evs: Seq<TempEventModel>,
    tl: Seq<TimelinePoint>,
    ppqn: u16,
    n: u16,
)
    requires
        forall|p: int| 0 <= p < evs.len() ==> (#[trigger] evs[p]).track < n,
    ensures
        forall|p: int|
            0 <= p < spec_convert(evs, tl, ppqn).len() ==> (#[trigger] spec_convert(
                evs,
                tl,
                ppqn,
            )[p]).track_index < n,
    decreases evs.len(),
{
    if evs.len() > 0 {
        let w = evs.drop_last();
        lemma_convert_track_bound(w, tl, ppqn, n);
        let out = spec_convert(evs, tl, ppqn);
        let prev = spec_convert(w, tl, ppqn);
        match spec_convert_one(evs.last(), tl, ppqn) {
            Some(m) => {
                assert forall|p: int| 0 <= p < out.len() implies (#[trigger] out[p]).track_index
                    < n by {
                    if p < prev.len() {
                        assert(out[p] == prev[p]);
                    } else {
                        assert(out[p] == m);
                    }
                }
            },
            None => {
                assert(out == prev);
            },
        }
    }
}

} // verus!
