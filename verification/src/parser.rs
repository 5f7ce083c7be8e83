use vstd::prelude::*;
use vstd::seq_lib::group_to_multiset_ensures;

use crate::chunks::{read_chunks, spec_read_header, spec_read_tracks, track_data_views};
use crate::errors::MidiError;
use crate::events::{
    event_views, is_stable_sort_by_tick, res_model, sorted_by_ns, temp_views,
    tracks_grouped, MidiEvent, MidiEventModel, TempEvent, TempEventModel,
};
use crate::par::{par_convert_events, par_decode_tracks, par_sort_by_tick};
use crate::timeline::{
    build_tempo_timeline, lemma_convert_sorted, lemma_convert_track_bound, spec_build_timeline,
    spec_convert, collect_playable,
};
use crate::track::{decode_events, join_decoded, lemma_decode_events_props};
use crate::MidiHeader;

verus! {

/// The concatenation of the decodes of the tracks from index `i` on, each
/// track decoded from tick 0 with no running status, or the first track's
/// error in track order.
pub open spec fn spec_decode_all(tracks: Seq<Seq<u8>>, i: int) -> Result<
    Seq<TempEventModel>,
    MidiError,
>
    decreases tracks.len() - i,
{
    if i < 0 || i >= tracks.len() {
        Ok(Seq::empty())
    } else {
        match decode_events(tracks[i], 0, None::<u8>, 0, i as u16) {
            Err(e) => Err(e),
            Ok(evs) => match spec_decode_all(tracks, i + 1) {
                Ok(rest) => Ok(evs + rest),
                Err(e) => Err(e),
            },
        }
    }
}

/// Every event of the concatenated decode carries the index of the track
/// it came from: indices are grouped in ascending track order, in range,
/// and ticks are non-negative.
pub proof fn lemma_decode_all_props(tracks: Seq<Seq<u8>>, i: int)
    requires
        0 <= i,
        tracks.len() <= 0xFFFF,
    ensures
        spec_decode_all(tracks, i) matches Ok(s) ==> {
            &&& tracks_grouped(s)
            &&& forall|p: int|
                0 <= p < s.len() ==> i <= (#[trigger] s[p]).track < tracks.len() && s[p].tick >= 0
        },
    decreases tracks.len() - i,
{
    if 0 <= i < tracks.len() {
        lemma_decode_events_props(tracks[i], 0, None::<u8>, 0, i as u16);
        lemma_decode_all_props(tracks, i + 1);
    }
}

/// What a parse of `file` yields: the header and the concatenated decode
/// of all tracks, or the first error met, with a zero tick resolution
/// rejected as a format error.
pub open spec fn spec_parse_outcome(file: Seq<u8>) -> Result<
    (MidiHeader, Seq<TempEventModel>),
    MidiError,
> {
    match spec_read_header(file) {
        Err(e) => Err(e),
        Ok(h) => match spec_read_tracks(file, 14, h.tracks as int) {
            Err(e) => Err(e),
            Ok(tracks) => match spec_decode_all(tracks, 0) {
                Err(e) => Err(e),
                Ok(merged) => if h.ppqn == 0 {
                    Err(MidiError::FormatError)
                } else {
                    Ok((h, merged))
                },
            },
        },
    }
}

/// Law: a header chunk whose declared length is not exactly 6 fails the
/// whole parse with a format error, whatever the track chunks hold -- no
/// track is read.
pub proof fn lemma_bad_header_length_fails(file: Seq<u8>)
    requires
        file.len() >= 8,
        file[0] == 0x4D && file[1] == 0x54 && file[2] == 0x68 && file[3] == 0x64,
        crate::chunks::be32(file[4], file[5], file[6], file[7]) != 6,
    ensures
        spec_parse_outcome(file) == Err::<(MidiHeader, Seq<TempEventModel>), MidiError>(
            MidiError::FormatError,
        ),
{
}

/// The positions, in increasing order, of the events of track `t` within
/// the playable sequence.
pub open spec fn spec_group(evs: Seq<MidiEventModel>, t: u16) -> Seq<usize>
    decreases evs.len(),
{
    if evs.len() == 0 {
        Seq::empty()
    } else {
        let prefix = spec_group(evs.drop_last(), t);
        if evs.last().track_index == t {
            prefix.push((evs.len() - 1) as usize)
        } else {
            prefix
        }
    }
}

/// Law: the per-track groups partition the playable sequence. Every
/// position in track `t`'s group holds an event of track `t`, positions
/// increase strictly, and every position of the sequence whose event
/// belongs to track `t` is in the group -- so the groups are disjoint and
/// their union is the full index range.
pub proof fn lemma_group_partition(evs: Seq<MidiEventModel>, t: u16)
    requires
        evs.len() <= usize::MAX,
    ensures
        ({
            let g = spec_group(evs, t);
            &&& forall|p: int|
                0 <= p < g.len() ==> (#[trigger] g[p]) < evs.len() && evs[g[p] as int].track_index
                    == t
            &&& forall|p: int, q: int| 0 <= p < q < g.len() ==> g[p] < g[q]
            &&& forall|i: int|
                0 <= i < evs.len() && evs[i].track_index == t ==> g.contains(i as usize)
        }),
    decreases evs.len(),
{
    if evs.len() > 0 {
        let w = evs.drop_last();
        lemma_group_partition(w, t);
        let g = spec_group(evs, t);
        let gw = spec_group(w, t);
        assert forall|i: int|
            0 <= i < evs.len() && evs[i].track_index == t implies g.contains(i as usize) by {
            if i < evs.len() - 1 {
                assert(w[i] == evs[i]);
                assert(gw.contains(i as usize));
                let p = choose|p: int| 0 <= p < gw.len() && gw[p] == i as usize;
                assert(g[p] == i as usize);
            } else {
                assert(g[g.len() - 1] == i as usize);
            }
        }
    }
}

/// Sorts the merged events stably by tick, builds the tempo timeline,
/// and converts every non-tempo event to a playable event.
fn finish_parse(merged: Vec<TempEvent>, ppqn: u16, tracks_n: u16) -> (r: Vec<MidiEvent>)
    requires
        ppqn != 0,
        forall|p: int|
            0 <= p < temp_views(merged@).len() ==> (#[trigger] temp_views(merged@)[p]).track
                < tracks_n,
    ensures
        exists|sorted: Seq<TempEventModel>|
            {
                &&& #[trigger] is_stable_sort_by_tick(temp_views(merged@), sorted)
                &&& event_views(r@) == spec_convert(sorted, spec_build_timeline(sorted, ppqn), ppqn)
            },
        sorted_by_ns(event_views(r@)),
        forall|p: int| 0 <= p < r@.len() ==> (#[trigger] r@[p]).track_index < tracks_n,
{
    let ghost merged_models = temp_views(merged@);
    let mut merged = merged;
    par_sort_by_tick(&mut merged);
    let ghost sorted_models = temp_views(merged@);
    proof {
        broadcast use group_to_multiset_ensures;

        assert forall|p: int|
            0 <= p < sorted_models.len() implies (#[trigger] sorted_models[p]).track
            < tracks_n by {
            let e = sorted_models[p];
            assert(sorted_models.contains(e));
            assert(merged_models.to_multiset().count(e) > 0);
            assert(merged_models.contains(e));
            let q = choose|q: int| 0 <= q < merged_models.len() && merged_models[q] == e;
            assert(merged_models[q].track < tracks_n);
        }
        assert forall|p: int|
            0 <= p < sorted_models.len() implies (#[trigger] sorted_models[p]).tick >= 0 by {
            assert(sorted_models[p] == merged@[p]@);
        }
    }
    let timeline = build_tempo_timeline(&merged, ppqn);
    let opts = par_convert_events(merged, &timeline, ppqn);
    let events = collect_playable(opts, Ghost(sorted_models), Ghost(timeline@), Ghost(ppqn));
    proof {
        lemma_convert_sorted(sorted_models, timeline@, ppqn);
        lemma_convert_track_bound(sorted_models, timeline@, ppqn, tracks_n);
        assert(is_stable_sort_by_tick(merged_models, sorted_models));
        assert(event_views(events@) == spec_convert(
            sorted_models,
            spec_build_timeline(sorted_models, ppqn),
            ppqn,
        ));
        assert forall|p: int| 0 <= p < events@.len() implies (#[trigger] events@[p]).track_index
            < tracks_n by {
            assert(event_views(events@)[p] == events@[p]@);
        }
    }
    events
}

/// A parser instance: a header and a playable event sequence, filled by a
/// successful parse and replaced wholesale by the next one; a failed
/// parse leaves both untouched.
pub struct MidiParser {
    is_parsed: bool,
    header: MidiHeader,
    pub events: Vec<MidiEvent>,
}

/// The state a successful parse leaves behind: parsed, holding the
/// file's header, and holding the playable events obtained by stably
/// sorting the merged decode by tick and converting it over its tempo
/// timeline; times never decrease and track indices are in range.
pub open spec fn parsed_ok_state(ps: MidiParser, h: MidiHeader, merged: Seq<TempEventModel>) -> bool {
    &&& ps.spec_is_parsed()
    &&& ps.spec_header_value() == h
    &&& exists|sorted: Seq<TempEventModel>|
        {
            &&& #[trigger] is_stable_sort_by_tick(merged, sorted)
            &&& event_views(ps.spec_events()) == spec_convert(
                sorted,
                spec_build_timeline(sorted, h.ppqn),
                h.ppqn,
            )
        }
    &&& sorted_by_ns(event_views(ps.spec_events()))
    &&& forall|p: int|
        0 <= p < ps.spec_events().len() ==> (#[trigger] ps.spec_events()[p]).track_index < h.tracks
}

impl MidiParser {
    /// Whether a parse has succeeded since construction.
    pub closed spec fn spec_is_parsed(&self) -> bool {
        self.is_parsed
    }

    /// The header of the last successful parse.
    pub closed spec fn spec_header_value(&self) -> MidiHeader {
        self.header
    }

    /// The playable events held by the instance.
    pub closed spec fn spec_events(&self) -> Seq<MidiEvent> {
        self.events@
    }

    /// A fresh, unparsed instance: no header, no events.
    pub fn new() -> (r: MidiParser)
        ensures
            !r.spec_is_parsed(),
            r.spec_events().len() == 0,
            r.spec_header_value() == (MidiHeader { format: 0, tracks: 0, ppqn: 0 }),
    {
        MidiParser {
            is_parsed: false,
            header: MidiHeader { format: 0, tracks: 0, ppqn: 0 },
            events: Vec::new(),
        }
    }

    /// The header, absent until a parse has succeeded.
    pub fn get_header(&self) -> (r: Option<&MidiHeader>)
        ensures
            r is Some <==> self.spec_is_parsed(),
            r matches Some(h) ==> *h == self.spec_header_value(),
    {
        if self.is_parsed {
            Some(&self.header)
        } else {
            None
        }
    }

    /// The full playable event sequence of the last successful parse.
    pub fn get_events(&self) -> (r: &Vec<MidiEvent>)
        ensures
            r@ == self.spec_events(),
    {
        &self.events
    }

    /// Decodes a whole file held in memory. On success the instance holds
    /// the file's header and its playable events: the concatenated track
    /// decodes, stably sorted by tick, converted to absolute nanoseconds
    /// over the tempo timeline, with the tempo changes dropped; the
    /// result is non-decreasing in time and every event's track index is
    /// in range. On failure the error is exactly the one
    /// `spec_parse_outcome` names and the instance is left untouched.
    #[verifier::rlimit(100)]
    #[verifier::spinoff_prover]
    pub fn parse_bytes(&mut self, data: &Vec<u8>) -> (r: Result<(), MidiError>)
        ensures
            spec_parse_outcome(data@) matches Err(e)
                ==> r == Err::<(), MidiError>(e) && *final(self) == *old(self),
            spec_parse_outcome(data@) matches Ok(h_m) ==> r == Ok::<(), MidiError>(())
                && parsed_ok_state(*final(self), h_m.0, h_m.1),
    {
        let (header, track_datas) = match read_chunks(data) {
            Ok(p) => p,
            Err(e) => {
                return Err(e);
            },
        };
        let ghost tviews = track_data_views(track_datas@);
        let ghost all = spec_decode_all(tviews, 0);
        let mut results = par_decode_tracks(&track_datas);
        let ghost orig_results = results@;
        let mut merged: Vec<TempEvent> = Vec::new();
        let n = results.len();
        let mut i: usize = 0;
        while i < n
            invariant
                spec_read_header(data@) == Ok::<MidiHeader, MidiError>(header),
                spec_read_tracks(data@, 14, header.tracks as int) == Ok::<Seq<Seq<u8>>, MidiError>(
                    tviews,
                ),
                n == orig_results.len() == tviews.len(),
                i <= n,
                results@ =~= orig_results.skip(i as int),
                forall|p: int|
                    0 <= p < orig_results.len() ==> res_model(#[trigger] orig_results[p])
                        == decode_events(tviews[p], 0, None::<u8>, 0, p as u16),
                all == spec_decode_all(tviews, 0),
                all == join_decoded(temp_views(merged@), spec_decode_all(tviews, i as int)),
                *self == *old(self),
            decreases n - i,
        {
            let ghost pre_merged = merged@;
            let r = results.remove(0);
            proof {
                assert(orig_results.skip(i as int)[0] == orig_results[i as int]);
            }
            match r {
                Ok(mut evs) => {
                    let ghost evs_views = temp_views(evs@);
                    merged.append(&mut evs);
                    i = i + 1;
                    proof {
                        assert(results@ =~= orig_results.skip(i as int));
                        assert(temp_views(merged@) =~= temp_views(pre_merged) + evs_views);
                        let rest = spec_decode_all(tviews, i as int);
                        match rest {
                            Ok(rs) => {
                                assert((temp_views(pre_merged) + evs_views) + rs =~= temp_views(
                                    pre_merged,
                                ) + (evs_views + rs));
                            },
                            Err(_) => {},
                        }
                    }
                },
                Err(e) => {
                    proof {
                        assert(spec_decode_all(tviews, i as int) == Err::<
                            Seq<TempEventModel>,
                            MidiError,
                        >(e));
                    }
                    return Err(e);
                },
            }
        }
        proof {
            assert(spec_decode_all(tviews, n as int) == Ok::<Seq<TempEventModel>, MidiError>(
                Seq::empty(),
            ));
            assert(temp_views(merged@) + Seq::<TempEventModel>::empty() =~= temp_views(merged@));
            assert(all == Ok::<Seq<TempEventModel>, MidiError>(temp_views(merged@)));
        }
        if header.ppqn == 0 {
            return Err(MidiError::FormatError);
        }
        let ghost merged_models = temp_views(merged@);
        proof {
            lemma_decode_all_props(tviews, 0);
            assert(spec_parse_outcome(data@) == Ok::<(MidiHeader, Seq<TempEventModel>), MidiError>(
                (header, merged_models),
            ));
        }
        let events = finish_parse(merged, header.ppqn, header.tracks);
        self.header = header;
        self.events = events;
        self.is_parsed = true;
        proof {
            assert(parsed_ok_state(*self, header, merged_models)) by {
                assert(exists|sorted: Seq<TempEventModel>|
                    {
                        &&& #[trigger] is_stable_sort_by_tick(merged_models, sorted)
                        &&& event_views(self.events@) == spec_convert(
                            sorted,
                            spec_build_timeline(sorted, header.ppqn),
                            header.ppqn,
                        )
                    });
            }
        }
        Ok(())
    }

    /// For each track index, the ordered positions of that track's events
    /// within the playable sequence: a derived view, recomputed per call.
    pub fn get_track_event_indices(&self) -> (r: Vec<Vec<usize>>)
        ensures
            r@.len() == self.spec_header_value().tracks as int,
            forall|t: int|
                0 <= t < r@.len() ==> (#[trigger] r@[t])@ == spec_group(
                    event_views(self.spec_events()),
                    t as u16,
                ),
    {
        let tracks = self.header.tracks;
        let ghost evs = event_views(self.events@);
        let mut groups: Vec<Vec<usize>> = Vec::new();
        let mut t: u16 = 0;
        while t < tracks
            invariant
                evs == event_views(self.events@),
                t <= tracks,
                groups@.len() == t as int,
                forall|u: int|
                    0 <= u < t as int ==> (#[trigger] groups@[u])@ == spec_group(evs, u as u16),
            decreases tracks - t,
        {
            let mut g: Vec<usize> = Vec::new();
            let mut idx: usize = 0;
            while idx < self.events.len()
                invariant
                    evs == event_views(self.events@),
                    evs.len() == self.events@.len(),
                    idx <= self.events@.len(),
                    g@ == spec_group(evs.take(idx as int), t as u16),
                decreases self.events@.len() - idx,
            {
                if self.events[idx].track_index == t {
                    g.push(idx);
                }
                idx = idx + 1;
                proof {
                    assert(evs.take(idx as int).drop_last() =~= evs.take(idx as int - 1));
                    assert(evs.take(idx as int).last() == evs[idx as int - 1]);
                    assert(evs[idx as int - 1] == self.events@[idx as int - 1]@);
                }
            }
            proof {
                assert(evs.take(evs.len() as int) =~= evs);
            }
            groups.push(g);
            t = t + 1;
        }
        groups
    }
}

} // verus!
