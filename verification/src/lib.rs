//! Decoder for Standard MIDI Files: chunk framing, per-track event
//! extraction, tempo-aware tick-to-nanosecond conversion, and a merged,
//! time-ordered sequence of playable events.

use vstd::prelude::*;

pub mod boundary;
pub mod chunks;
pub mod errors;
pub mod events;
pub mod par;
pub mod parser;
pub mod timeline;
pub mod track;
pub mod vlq;

pub use errors::MidiError;
pub use events::{MidiEvent, TempEvent, TempEventData};
pub use parser::MidiParser;
pub use boundary::{
    event_record, event_records, header_record, track_indices_record,
    KazuMIDIParserAllTrackEventIndices, KazuMIDIParserAllTrackEvents, KazuMIDIParserHeader,
    KazuMIDIParserMidiEvent, KazuMIDIParserTrackEventIndices, KazuMIDIParserTrackEvents,
};
pub use timeline::{build_tempo_timeline, convert_event, event_ns, seg_ns, TimelinePoint};
pub use track::parse_track;

verus! {

/// The parsed fields of an SMF header chunk: file format, number of
/// track chunks, and ticks (pulses) per quarter note.
#[derive(Debug, Clone, PartialEq, Eq, Structural)]
pub struct MidiHeader {
    pub format: u16,
    pub tracks: u16,
    pub ppqn: u16,
}

} // verus!
