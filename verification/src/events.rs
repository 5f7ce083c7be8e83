use vstd::prelude::*;

use crate::errors::MidiError;

verus! {

/// One tick-stamped intermediate event, produced while decoding a single
/// track and consumed by the merge / tick-to-time stages.
pub enum TempEventData {
    Midi { status: u8, data1: u8, data2: u8 },
    TempoChange { new_tempo_us: u32 },
    SysEx { data: Vec<u8> },
}

pub struct TempEvent {
    pub absolute_tick: u64,
    pub track_index: u16,
    pub data: TempEventData,
}

/// Mathematical model of `TempEventData`: the system-exclusive payload is
/// a sequence of bytes, and nothing else changes.
pub enum TempEventDataModel {
    Midi { status: u8, data1: u8, data2: u8 },
    TempoChange { new_tempo_us: u32 },
    SysEx { data: Seq<u8> },
}

/// Mathematical model of `TempEvent`; the tick is an unbounded integer.
pub struct TempEventModel {
    pub tick: int,
    pub track: u16,
    pub data: TempEventDataModel,
}

impl View for TempEvent {
    type V = TempEventModel;

    open spec fn view(&self) -> TempEventModel {
        TempEventModel {
            tick: self.absolute_tick as int,
            track: self.track_index,
            data: match self.data {
                TempEventData::Midi { status, data1, data2 } => TempEventDataModel::Midi {
                    status,
                    data1,
                    data2,
                },
                TempEventData::TempoChange { new_tempo_us } => TempEventDataModel::TempoChange {
                    new_tempo_us,
                },
                TempEventData::SysEx { data } => TempEventDataModel::SysEx { data: data@ },
            },
        }
    }
}

/// One playable event of the final sequence, stamped with absolute
/// nanoseconds since the start of the file.
#[derive(Debug, Clone)]
pub struct MidiEvent {
    pub absolute_ns: u64,
    pub status: u8,
    pub data1: u8,
    pub data2: u8,
    pub track_index: u16,
    pub sysex_data: Option<Vec<u8>>,
}

/// Mathematical model of `MidiEvent`.
pub struct MidiEventModel {
    pub absolute_ns: u64,
    pub status: u8,
    pub data1: u8,
    pub data2: u8,
    pub track_index: u16,
    pub sysex_data: Option<Seq<u8>>,
}

impl View for MidiEvent {
    type V = MidiEventModel;

    open spec fn view(&self) -> MidiEventModel {
        MidiEventModel {
            absolute_ns: self.absolute_ns,
            status: self.status,
            data1: self.data1,
            data2: self.data2,
            track_index: self.track_index,
            sysex_data: match self.sysex_data {
                Some(d) => Some(d@),
                None => None,
            },
        }
    }
}

/// The models of a sequence of intermediate events.
pub open spec fn temp_views(s: Seq<TempEvent>) -> Seq<TempEventModel> {
    s.map_values(|e: TempEvent| e@)
}

/// The models of a sequence of playable events.
pub open spec fn event_views(s: Seq<MidiEvent>) -> Seq<MidiEventModel> {
    s.map_values(|e: MidiEvent| e@)
}

/// A decode result together with the models of its events.
pub open spec fn res_model(r: Result<Vec<TempEvent>, MidiError>) -> Result<
    Seq<TempEventModel>,
    MidiError,
> {
    match r {
        Ok(v) => Ok(temp_views(v@)),
        Err(e) => Err(e),
    }
}

/// Ticks never decrease along the sequence.
pub open spec fn sorted_by_tick(s: Seq<TempEventModel>) -> bool {
    forall|i: int, j: int| 0 <= i < j < s.len() ==> #[trigger] s[i].tick <= #[trigger] s[j].tick
}

/// The subsequence of events whose tick equals `k`, in their original order.
pub open spec fn events_at_tick(s: Seq<TempEventModel>, k: int) -> Seq<TempEventModel> {
    s.filter(|e: TempEventModel| e.tick == k)
}

/// `t` is the unique stable sort of `s` by tick: same length, ticks
/// non-decreasing, and for every tick value the events carrying it keep
/// their original relative order.
pub open spec fn is_stable_sort_by_tick(s: Seq<TempEventModel>, t: Seq<TempEventModel>) -> bool {
    &&& t.len() == s.len()
    &&& sorted_by_tick(t)
    &&& forall|k: int| #[trigger] events_at_tick(t, k) == events_at_tick(s, k)
}

/// Track indices never decrease along the sequence: the concatenation of
/// the per-track decodes, taken in track order, has this shape.
pub open spec fn tracks_grouped(s: Seq<TempEventModel>) -> bool {
    forall|i: int, j: int| 0 <= i < j < s.len() ==> #[trigger] s[i].track <= #[trigger] s[j].track
}

/// Nanosecond stamps never decrease along the final event sequence.
pub open spec fn sorted_by_ns(s: Seq<MidiEventModel>) -> bool {
    forall|i: int, j: int|
        0 <= i < j < s.len() ==> #[trigger] s[i].absolute_ns <= #[trigger] s[j].absolute_ns
}

/// Every event filtered out at tick `k` stands somewhere in the source.
pub proof fn lemma_at_tick_element_of(s: Seq<TempEventModel>, k: int, p: int)
    requires
        0 <= p < events_at_tick(s, k).len(),
    ensures
        exists|q: int| 0 <= q < s.len() && s[q] == events_at_tick(s, k)[p],
    decreases s.len(),
{
    reveal(Seq::filter);
    if s.len() > 0 {
        let w = s.drop_last();
        let gw = events_at_tick(w, k);
        if p < gw.len() {
            lemma_at_tick_element_of(w, k, p);
            let q = choose|q: int| 0 <= q < w.len() && w[q] == events_at_tick(w, k)[p];
            assert(s[q] == events_at_tick(s, k)[p]);
        } else {
            assert(s[s.len() - 1] == events_at_tick(s, k)[p]);
        }
    }
}

/// An event of tick `k` at position `i` of the source stands in the
/// filtered sequence at the position given by how many tick-`k` events
/// precede it.
pub proof fn lemma_at_tick_position(s: Seq<TempEventModel>, k: int, i: int)
    requires
        0 <= i < s.len(),
        s[i].tick == k,
    ensures
        events_at_tick(s.take(i), k).len() < events_at_tick(s, k).len(),
        events_at_tick(s, k)[events_at_tick(s.take(i), k).len() as int] == s[i],
    decreases s.len(),
{
    reveal(Seq::filter);
    let w = s.drop_last();
    if i == s.len() - 1 {
        assert(s.take(i) =~= w);
    } else {
        assert(w.take(i) =~= s.take(i));
        lemma_at_tick_position(w, k, i);
    }
}

/// Filtering a longer prefix at tick `k` never yields fewer events.
pub proof fn lemma_at_tick_take_le(s: Seq<TempEventModel>, k: int, i: int, j: int)
    requires
        0 <= i <= j <= s.len(),
    ensures
        events_at_tick(s.take(i), k).len() <= events_at_tick(s.take(j), k).len(),
    decreases j - i,
{
    reveal(Seq::filter);
    if i < j {
        lemma_at_tick_take_le(s, k, i, j - 1);
        assert(s.take(j).drop_last() =~= s.take(j - 1));
    }
}

/// Extending a prefix past an event of tick `k` grows its filter by one.
pub proof fn lemma_at_tick_take_succ(s: Seq<TempEventModel>, k: int, i: int)
    requires
        0 <= i < s.len(),
        s[i].tick == k,
    ensures
        events_at_tick(s.take(i + 1), k).len() == events_at_tick(s.take(i), k).len() + 1,
{
    reveal(Seq::filter);
    assert(s.take(i + 1).drop_last() =~= s.take(i));
    assert(s.take(i + 1).last() == s[i]);
}

/// Filtering by tick preserves the grouped-by-track shape.
pub proof fn lemma_at_tick_grouped(s: Seq<TempEventModel>, k: int)
    requires
        tracks_grouped(s),
    ensures
        forall|p: int, q: int|
            0 <= p < q < events_at_tick(s, k).len() ==> (#[trigger] events_at_tick(s, k)[p]).track
                <= (#[trigger] events_at_tick(s, k)[q]).track,
    decreases s.len(),
{
    reveal(Seq::filter);
    if s.len() > 0 {
        let w = s.drop_last();
        assert(tracks_grouped(w));
        lemma_at_tick_grouped(w, k);
        let g = events_at_tick(s, k);
        let gw = events_at_tick(w, k);
        assert forall|p: int, q: int|
            0 <= p < q < g.len() implies (#[trigger] g[p]).track <= (#[trigger] g[q]).track by {
            if q < gw.len() {
                assert(g[p] == gw[p]);
                assert(g[q] == gw[q]);
            } else {
                assert(g[q] == s[s.len() - 1]);
                assert(g[p] == gw[p]);
                lemma_at_tick_element_of(w, k, p);
                let m = choose|m: int| 0 <= m < w.len() && w[m] == gw[p];
                assert(s[m] == gw[p]);
            }
        }
    }
}

/// Filtered events carry the tick they were filtered at.
pub proof fn lemma_at_tick_pred(s: Seq<TempEventModel>, k: int, p: int)
    requires
        0 <= p < events_at_tick(s, k).len(),
    ensures
        events_at_tick(s, k)[p].tick == k,
    decreases s.len(),
{
    reveal(Seq::filter);
    if s.len() > 0 {
        if p < events_at_tick(s.drop_last(), k).len() {
            lemma_at_tick_pred(s.drop_last(), k, p);
        }
    }
}

/// Two tick-sorted sequences of one length whose events agree at every
/// tick are the same sequence.
proof fn lemma_sorted_same_filters_equal(t1: Seq<TempEventModel>, t2: Seq<TempEventModel>)
    requires
        sorted_by_tick(t1),
        sorted_by_tick(t2),
        t1.len() == t2.len(),
        forall|k: int| #[trigger] events_at_tick(t1, k) == events_at_tick(t2, k),
    ensures
        t1 == t2,
    decreases t1.len(),
{
    reveal(Seq::filter);
    if t1.len() == 0 {
        assert(t1 =~= t2);
    } else {
        let k1 = t1.last().tick;
        let k2 = t2.last().tick;
        assert(events_at_tick(t1, k1) == events_at_tick(t1.drop_last(), k1).push(t1.last()));
        assert(events_at_tick(t2, k2) == events_at_tick(t2.drop_last(), k2).push(t2.last()));
        // the greatest tick of each side occurs on the other, so they agree
        let p1 = events_at_tick(t2, k1).len() - 1;
        lemma_at_tick_element_of(t2, k1, p1);
        lemma_at_tick_pred(t2, k1, p1);
        let q1 = choose|q: int| 0 <= q < t2.len() && t2[q] == events_at_tick(t2, k1)[p1];
        assert(t2[q1].tick == k1);
        assert(k1 <= k2);
        let p2 = events_at_tick(t1, k2).len() - 1;
        lemma_at_tick_element_of(t1, k2, p2);
        lemma_at_tick_pred(t1, k2, p2);
        let q2 = choose|q: int| 0 <= q < t1.len() && t1[q] == events_at_tick(t1, k2)[p2];
        assert(t1[q2].tick == k2);
        assert(k1 == k2);
        // both last elements close their tick's filter, so they are equal
        assert(t1.last() == t2.last());
        let w1 = t1.drop_last();
        let w2 = t2.drop_last();
        assert forall|k: int| #[trigger] events_at_tick(w1, k) == events_at_tick(w2, k) by {
            if k == k1 {
                assert(events_at_tick(t1, k) == events_at_tick(w1, k).push(t1.last()));
                assert(events_at_tick(t2, k) == events_at_tick(w2, k).push(t2.last()));
                assert(events_at_tick(w1, k) =~= events_at_tick(t1, k).drop_last());
                assert(events_at_tick(w2, k) =~= events_at_tick(t2, k).drop_last());
            } else {
                assert(events_at_tick(t1, k) == events_at_tick(w1, k));
                assert(events_at_tick(t2, k) == events_at_tick(w2, k));
            }
        }
        lemma_sorted_same_filters_equal(w1, w2);
        assert(t1 =~= w1.push(t1.last()));
        assert(t2 =~= w2.push(t2.last()));
    }
}

/// Law: a sequence has exactly one stable sort by tick, so the sorted
/// merge -- and with it the playable sequence a parse yields -- is fully
/// determined by the decoded input.
pub proof fn lemma_stable_sort_unique(
    s: Seq<TempEventModel>,
    t1: Seq<TempEventModel>,
    t2: Seq<TempEventModel>,
)
    requires
        is_stable_sort_by_tick(s, t1),
        is_stable_sort_by_tick(s, t2),
    ensures
        t1 == t2,
{
    lemma_sorted_same_filters_equal(t1, t2);
}

/// Law: events that share a tick keep a deliberate order in the stable
/// sort of a track-grouped concatenation -- ascending track index first
/// (and, within one track, their original decode order, since the sort
/// keeps each tick's events in source order).
pub proof fn lemma_stable_tie_break(
    s: Seq<TempEventModel>,
    t: Seq<TempEventModel>,
    i: int,
    j: int,
)
    requires
        is_stable_sort_by_tick(s, t),
        tracks_grouped(s),
        0 <= i < j < t.len(),
        t[i].tick == t[j].tick,
    ensures
        t[i].track <= t[j].track,
{
    let k = t[i].tick;
    lemma_at_tick_position(t, k, i);
    lemma_at_tick_position(t, k, j);
    let pi = events_at_tick(t.take(i), k).len() as int;
    let pj = events_at_tick(t.take(j), k).len() as int;
    lemma_at_tick_take_succ(t, k, i);
    lemma_at_tick_take_le(t, k, i + 1, j);
    assert(pi < pj);
    assert(events_at_tick(t, k) == events_at_tick(s, k));
    lemma_at_tick_grouped(s, k);
    assert(events_at_tick(s, k)[pi].track <= events_at_tick(s, k)[pj].track);
}

} // verus!
