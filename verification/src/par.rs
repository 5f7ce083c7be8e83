use vstd::prelude::*;

use rayon::iter::{IndexedParallelIterator, IntoParallelIterator, IntoParallelRefIterator,
    ParallelIterator};
use rayon::slice::ParallelSliceMut;

use crate::errors::MidiError;
use crate::events::{is_stable_sort_by_tick, res_model, temp_views, MidiEvent, TempEvent};
use crate::timeline::{opt_event_view, spec_convert_one, tl_sorted, TimelinePoint};
use crate::track::{decode_events, parse_track};
use crate::timeline::convert_event;

verus! {

/// Relies on rayon's `par_iter`, `enumerate`, `map` and `collect`: the
/// parallel iterator over a vector is indexed, so collecting the mapped
/// results yields one result per track, in track order; each result is
/// computed by the verified `parse_track`.
#[verifier::external_body]
pub fn par_decode_tracks(tracks: &Vec<Vec<u8>>) -> (r: Vec<Result<Vec<TempEvent>, MidiError>>)
    requires
        tracks@.len() <= 0xFFFF,
        forall|i: int| 0 <= i < tracks@.len() ==> (#[trigger] tracks@[i])@.len() <= 0xFFFF_FFFF,
    ensures
        r@.len() == tracks@.len(),
        forall|i: int|
            0 <= i < r@.len() ==> res_model(#[trigger] r@[i]) == decode_events(
                tracks@[i]@,
                0,
                None::<u8>,
                0,
                i as u16,
            ),
{
    tracks.par_iter().enumerate().map(|(i, d)| parse_track(i as u16, d)).collect()
}

/// Relies on rayon's `par_sort_by_key`, documented as a stable sort: the
/// result is the unique permutation of the input that is sorted by tick
/// and keeps the relative order of events with equal ticks.
#[verifier::external_body]
pub fn par_sort_by_tick(v: &mut Vec<TempEvent>)
    ensures
        is_stable_sort_by_tick(temp_views(old(v)@), temp_views(final(v)@)),
        temp_views(final(v)@).to_multiset() == temp_views(old(v)@).to_multiset(),
{
    v.par_sort_by_key(|e| e.absolute_tick);
}

/// Relies on rayon's `into_par_iter`, `map` and `collect`: the parallel
/// iterator over a vector is indexed, so collecting the mapped results
/// yields one entry per event, in event order; each entry is computed by
/// the verified `convert_event`.
#[verifier::external_body]
pub fn par_convert_events(evs: Vec<TempEvent>, tl: &Vec<TimelinePoint>, ppqn: u16) -> (r: Vec<
    Option<MidiEvent>,
>)
    requires
        ppqn != 0,
        tl@.len() >= 1,
        tl_sorted(tl@),
        tl@[0].absolute_tick == 0,
    ensures
        r@.len() == evs@.len(),
        forall|i: int|
            0 <= i < r@.len() ==> opt_event_view(#[trigger] r@[i]) == spec_convert_one(
                evs@[i]@,
                tl@,
                ppqn,
            ),
{
    evs.into_par_iter().map(|e| convert_event(e, tl, ppqn)).collect()
}

} // verus!
