use vstd::prelude::*;

use crate::events::MidiEvent;
use crate::parser::MidiParser;

verus! {

/// Plain-value snapshot of the header, as an embedding layer marshals it.
#[derive(Debug, Clone, Copy, PartialEq, Eq, Structural)]
pub struct KazuMIDIParserHeader {
    pub format: u16,
    pub tracks: u16,
    pub ppqn: u16,
}

/// Plain-value snapshot of one playable event, without its
/// system-exclusive payload.
#[derive(Debug, Clone, Copy, PartialEq, Eq, Structural)]
pub struct KazuMIDIParserMidiEvent {
    pub absolute_ns: u64,
    pub status: u8,
    pub data1: u8,
    pub data2: u8,
}

/// The positions of one track's events within the playable sequence.
pub struct KazuMIDIParserTrackEventIndices {
    pub indices: Vec<usize>,
}

/// The positions of every track's events, one entry per track.
pub struct KazuMIDIParserAllTrackEventIndices {
    pub tracks: Vec<KazuMIDIParserTrackEventIndices>,
}

/// The snapshots of one track's events.
pub struct KazuMIDIParserTrackEvents {
    pub events: Vec<KazuMIDIParserMidiEvent>,
}

/// The snapshots of every track's events, one entry per track.
pub struct KazuMIDIParserAllTrackEvents {
    pub tracks: Vec<KazuMIDIParserTrackEvents>,
}

/// The snapshot of one playable event.
pub fn event_record(e: &MidiEvent) -> (r: KazuMIDIParserMidiEvent)
    ensures
        r.absolute_ns == e.absolute_ns,
        r.status == e.status,
        r.data1 == e.data1,
        r.data2 == e.data2,
{
    KazuMIDIParserMidiEvent {
        absolute_ns: e.absolute_ns,
        status: e.status,
        data1: e.data1,
        data2: e.data2,
    }
}

/// The snapshot of the parser's header, absent until a parse succeeded.
pub fn header_record(parser: &MidiParser) -> (r: Option<KazuMIDIParserHeader>)
    ensures
        r is Some <==> parser.spec_is_parsed(),
        r matches Some(h) ==> h == (KazuMIDIParserHeader {
            format: parser.spec_header_value().format,
            tracks: parser.spec_header_value().tracks,
            ppqn: parser.spec_header_value().ppqn,
        }),
{
    match parser.get_header() {
        Some(h) => Some(
            KazuMIDIParserHeader { format: h.format, tracks: h.tracks, ppqn: h.ppqn },
        ),
        None => None,
    }
}

/// The snapshots of the whole playable sequence, in order.
pub fn event_records(parser: &MidiParser) -> (r: Vec<KazuMIDIParserMidiEvent>)
    ensures
        r@.len() == parser.spec_events().len(),
        forall|p: int|
            0 <= p < r@.len() ==> (#[trigger] r@[p]).absolute_ns
                == parser.spec_events()[p].absolute_ns && r@[p].status
                == parser.spec_events()[p].status && r@[p].data1 == parser.spec_events()[p].data1
                && r@[p].data2 == parser.spec_events()[p].data2,
{
    let events = parser.get_events();
    let mut out: Vec<KazuMIDIParserMidiEvent> = Vec::new();
    let mut i: usize = 0;
    while i < events.len()
        invariant
            events@ == parser.spec_events(),
            i <= events@.len(),
            out@.len() == i as int,
            forall|p: int|
                0 <= p < i as int ==> (#[trigger] out@[p]).absolute_ns == events@[p].absolute_ns
                    && out@[p].status == events@[p].status && out@[p].data1 == events@[p].data1
                    && out@[p].data2 == events@[p].data2,
        decreases events@.len() - i,
    {
        let r = event_record(&events[i]);
        out.push(r);
        i = i + 1;
    }
    out
}

/// The per-track position groups, wrapped for the embedding layer.
pub fn track_indices_record(parser: &MidiParser) -> (r: KazuMIDIParserAllTrackEventIndices)
    ensures
        r.tracks@.len() == parser.spec_header_value().tracks as int,
        forall|t: int|
            0 <= t < r.tracks@.len() ==> (#[trigger] r.tracks@[t]).indices@
                == crate::parser::spec_group(
                crate::events::event_views(parser.spec_events()),
                t as u16,
            ),
{
    let groups = parser.get_track_event_indices();
    let mut groups = groups;
    let ghost orig = groups@;
    let mut out: Vec<KazuMIDIParserTrackEventIndices> = Vec::new();
    let mut i: usize = 0;
    let n = groups.len();
    while i < n
        invariant
            n == orig.len(),
            i <= n,
            groups@ =~= orig.skip(i as int),
            out@.len() == i as int,
            forall|t: int|
                0 <= t < i as int ==> (#[trigger] out@[t]).indices@ == orig[t]@,
        decreases n - i,
    {
        let g = groups.remove(0);
        proof {
            assert(orig.skip(i as int)[0] == orig[i as int]);
        }
        out.push(KazuMIDIParserTrackEventIndices { indices: g });
        i = i + 1;
        proof {
            assert(groups@ =~= orig.skip(i as int));
        }
    }
    KazuMIDIParserAllTrackEventIndices { tracks: out }
}

} // verus!
