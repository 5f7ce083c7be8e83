use kazumidiparser::{
    event_records, header_record, track_indices_record, MidiError, MidiParser, TempEvent,
    TempEventData,
};

fn header_chunk(format: u16, tracks: u16, ppqn: u16) -> Vec<u8> {
    let mut out = Vec::new();
    out.extend_from_slice(b"MThd");
    out.extend_from_slice(&6u32.to_be_bytes());
    out.extend_from_slice(&format.to_be_bytes());
    out.extend_from_slice(&tracks.to_be_bytes());
    out.extend_from_slice(&ppqn.to_be_bytes());
    out
}

fn track_chunk(payload: &[u8]) -> Vec<u8> {
    let mut out = Vec::new();
    out.extend_from_slice(b"MTrk");
    out.extend_from_slice(&(payload.len() as u32).to_be_bytes());
    out.extend_from_slice(payload);
    out
}

fn file_of(format: u16, ppqn: u16, tracks: &[&[u8]]) -> Vec<u8> {
    let mut out = header_chunk(format, tracks.len() as u16, ppqn);
    for t in tracks {
        out.extend_from_slice(&track_chunk(t));
    }
    out
}

#[test]
fn new_instance_is_unparsed() {
    let parser = MidiParser::new();
    assert!(parser.get_header().is_none());
    assert_eq!(parser.get_events().len(), 0);
    assert_eq!(parser.get_track_event_indices().len(), 0);
}

#[test]
fn parse_minimal_note_on() {
    let mut parser = MidiParser::new();
    // delta 0, note-on channel 0, key 60, velocity 100, end of track
    let track: &[u8] = &[0x00, 0x90, 0x3C, 0x64, 0x00, 0xFF, 0x2F, 0x00];
    let data = file_of(0, 480, &[track]);
    assert!(parser.parse_bytes(&data).is_ok());
    let header = parser.get_header().expect("parsed");
    assert_eq!(header.format, 0);
    assert_eq!(header.tracks, 1);
    assert_eq!(header.ppqn, 480);
    let events = parser.get_events();
    assert_eq!(events.len(), 1);
    assert_eq!(events[0].status, 0x90);
    assert_eq!(events[0].data1, 0x3C);
    assert_eq!(events[0].data2, 0x64);
    assert_eq!(events[0].absolute_ns, 0);
    assert_eq!(events[0].track_index, 0);
    assert!(events[0].sysex_data.is_none());
}

#[test]
fn header_bad_length_is_format_error() {
    let mut parser = MidiParser::new();
    let mut data = Vec::new();
    data.extend_from_slice(b"MThd");
    data.extend_from_slice(&7u32.to_be_bytes());
    data.extend_from_slice(&[0, 0, 0, 1, 1, 0xE0, 0]);
    assert_eq!(parser.parse_bytes(&data), Err(MidiError::FormatError));
    assert!(parser.get_header().is_none());
}

#[test]
fn header_bad_magic_is_format_error() {
    let mut parser = MidiParser::new();
    let mut data = header_chunk(0, 0, 480);
    data[0] = b'X';
    assert_eq!(parser.parse_bytes(&data), Err(MidiError::FormatError));
}

#[test]
fn short_file_is_io_error() {
    let mut parser = MidiParser::new();
    let data = vec![b'M', b'T', b'h'];
    assert_eq!(parser.parse_bytes(&data), Err(MidiError::IoError));
}

#[test]
fn truncated_track_payload_is_io_error() {
    let mut parser = MidiParser::new();
    let mut data = header_chunk(0, 1, 480);
    data.extend_from_slice(b"MTrk");
    data.extend_from_slice(&8u32.to_be_bytes());
    data.extend_from_slice(&[0x00, 0x90, 0x3C]);
    assert_eq!(parser.parse_bytes(&data), Err(MidiError::IoError));
}

#[test]
fn wrong_track_magic_is_format_error() {
    let mut parser = MidiParser::new();
    let mut data = header_chunk(0, 1, 480);
    data.extend_from_slice(b"MTrX");
    data.extend_from_slice(&0u32.to_be_bytes());
    assert_eq!(parser.parse_bytes(&data), Err(MidiError::FormatError));
}

#[test]
fn program_change_consumes_one_data_byte() {
    let mut parser = MidiParser::new();
    // If the program change took two data bytes, the note-on after it
    // would desynchronize.
    let track: &[u8] = &[
        0x00, 0xC0, 0x05, // program change, one data byte
        0x00, 0x90, 0x3C, 0x64, // note-on, two data bytes
        0x00, 0xFF, 0x2F, 0x00,
    ];
    let data = file_of(0, 480, &[track]);
    assert!(parser.parse_bytes(&data).is_ok());
    let events = parser.get_events();
    assert_eq!(events.len(), 2);
    assert_eq!(events[0].status, 0xC0);
    assert_eq!(events[0].data1, 0x05);
    assert_eq!(events[0].data2, 0x00);
    assert_eq!(events[1].status, 0x90);
    assert_eq!(events[1].data1, 0x3C);
    assert_eq!(events[1].data2, 0x64);
}

#[test]
fn channel_pressure_consumes_one_data_byte() {
    let result = kazumidiparser::parse_track(0, &vec![0x00, 0xD3, 0x40, 0x00, 0x80, 0x30, 0x00])
        .expect("decodes");
    assert_eq!(result.len(), 2);
    match result[0].data {
        TempEventData::Midi { status, data1, data2 } => {
            assert_eq!(status, 0xD3);
            assert_eq!(data1, 0x40);
            assert_eq!(data2, 0x00);
        },
        _ => panic!("expected a channel message"),
    }
}

#[test]
fn sysex_without_terminator_runs_to_buffer_end() {
    let mut parser = MidiParser::new();
    let track: &[u8] = &[0x00, 0xF0, 0x7E, 0x01, 0x02, 0x03];
    let data = file_of(0, 480, &[track]);
    assert!(parser.parse_bytes(&data).is_ok());
    let events = parser.get_events();
    assert_eq!(events.len(), 1);
    assert_eq!(events[0].status, 0xF0);
    assert_eq!(events[0].sysex_data.as_deref(), Some(&[0x7E, 0x01, 0x02, 0x03][..]));
}

#[test]
fn sysex_with_terminator_includes_it() {
    let mut parser = MidiParser::new();
    let track: &[u8] = &[0x00, 0xF0, 0x7E, 0xF7, 0x00, 0x90, 0x3C, 0x64];
    let data = file_of(0, 480, &[track]);
    assert!(parser.parse_bytes(&data).is_ok());
    let events = parser.get_events();
    assert_eq!(events.len(), 2);
    assert_eq!(events[0].sysex_data.as_deref(), Some(&[0x7E, 0xF7][..]));
    assert_eq!(events[1].status, 0x90);
}

#[test]
fn running_status_as_first_status_fails() {
    let mut parser = MidiParser::new();
    // a data byte in status position with no status seen yet
    let track: &[u8] = &[0x00, 0x3C, 0x64];
    let data = file_of(0, 480, &[track]);
    assert_eq!(parser.parse_bytes(&data), Err(MidiError::FormatError));
    assert!(parser.get_header().is_none());
}

#[test]
fn running_status_reuses_previous_status() {
    let mut parser = MidiParser::new();
    let track: &[u8] = &[
        0x00, 0x90, 0x3C, 0x64, // explicit note-on
        0x10, 0x3E, 0x50, // running status: another note-on
        0x00, 0xFF, 0x2F, 0x00,
    ];
    let data = file_of(0, 480, &[track]);
    assert!(parser.parse_bytes(&data).is_ok());
    let events = parser.get_events();
    assert_eq!(events.len(), 2);
    assert_eq!(events[0].status, 0x90);
    assert_eq!(events[1].status, 0x90);
    assert_eq!(events[1].data1, 0x3E);
    assert_eq!(events[1].data2, 0x50);
}

#[test]
fn reparse_replaces_previous_state() {
    let mut parser = MidiParser::new();
    let first: &[u8] = &[0x00, 0x90, 0x3C, 0x64, 0x00, 0x91, 0x3D, 0x65, 0x00, 0xFF, 0x2F, 0x00];
    let data1 = file_of(0, 480, &[first]);
    assert!(parser.parse_bytes(&data1).is_ok());
    assert_eq!(parser.get_events().len(), 2);
    let second: &[u8] = &[0x00, 0xA5, 0x10, 0x20, 0x00, 0xFF, 0x2F, 0x00];
    let data2 = file_of(1, 96, &[second]);
    assert!(parser.parse_bytes(&data2).is_ok());
    let events = parser.get_events();
    assert_eq!(events.len(), 1);
    assert_eq!(events[0].status, 0xA5);
    let header = parser.get_header().expect("parsed");
    assert_eq!(header.format, 1);
    assert_eq!(header.ppqn, 96);
}

#[test]
fn failed_reparse_leaves_state_untouched() {
    let mut parser = MidiParser::new();
    let first: &[u8] = &[0x00, 0x90, 0x3C, 0x64, 0x00, 0xFF, 0x2F, 0x00];
    let data1 = file_of(0, 480, &[first]);
    assert!(parser.parse_bytes(&data1).is_ok());
    let bad = vec![1, 2, 3, 4];
    assert_eq!(parser.parse_bytes(&bad), Err(MidiError::FormatError));
    assert_eq!(parser.get_events().len(), 1);
    assert_eq!(parser.get_header().expect("still parsed").ppqn, 480);
}

#[test]
fn tempo_change_conversion() {
    let mut parser = MidiParser::new();
    // ppqn 480; tempo change to 1 000 000 us/quarter at tick 480; a
    // note-on at tick 960. Ticks 0..480 span 480 * 500 000 * 1000 / 480 =
    // 500 000 000 ns, ticks 480..960 span 480 * 1 000 000 * 1000 / 480 =
    // 1 000 000 000 ns: each segment is divided once, at the end.
    let track: &[u8] = &[
        0x83, 0x60, 0xFF, 0x51, 0x03, 0x0F, 0x42, 0x40, // tick 480: tempo meta
        0x83, 0x60, 0x90, 0x3C, 0x64, // tick 960: note-on
        0x00, 0xFF, 0x2F, 0x00,
    ];
    let data = file_of(0, 480, &[track]);
    assert!(parser.parse_bytes(&data).is_ok());
    let events = parser.get_events();
    assert_eq!(events.len(), 1);
    assert_eq!(events[0].absolute_ns, 1_500_000_000);
}

#[test]
fn tempo_change_conversion_whole_file() {
    // The same timing through one explicit byte-for-byte file, ending at
    // the buffer instead of an end-of-track event.
    let mut data: Vec<u8> = Vec::new();
    data.extend_from_slice(b"MThd");
    data.extend_from_slice(&[0, 0, 0, 6]);
    data.extend_from_slice(&[0, 0, 0, 1, 1, 224]); // format 0, 1 track, ppqn 480
    data.extend_from_slice(b"MTrk");
    data.extend_from_slice(&[0, 0, 0, 13]);
    data.extend_from_slice(&[0x83, 0x60, 0xFF, 0x51, 0x03, 0x0F, 0x42, 0x40]);
    data.extend_from_slice(&[0x83, 0x60, 0x90, 0x3C, 0x40]);
    let mut parser = MidiParser::new();
    assert!(parser.parse_bytes(&data).is_ok());
    let events = parser.get_events();
    assert_eq!(events.len(), 1);
    assert_eq!(events[0].status, 0x90);
    assert_eq!(events[0].data1, 0x3C);
    assert_eq!(events[0].data2, 0x40);
    assert_eq!(events[0].track_index, 0);
    assert_eq!(events[0].absolute_ns, 1_500_000_000);
}

#[test]
fn tempo_change_conversion_other_resolution() {
    let mut parser = MidiParser::new();
    // ppqn 500: 1 000 000 ns per tick before the change, 2 000 000 after.
    let track: &[u8] = &[
        0x83, 0x74, 0xFF, 0x51, 0x03, 0x0F, 0x42, 0x40, // tick 500: tempo 1 000 000
        0x83, 0x74, 0x90, 0x3C, 0x64, // tick 1000: note-on
        0x00, 0xFF, 0x2F, 0x00,
    ];
    let data = file_of(0, 500, &[track]);
    assert!(parser.parse_bytes(&data).is_ok());
    let events = parser.get_events();
    assert_eq!(events.len(), 1);
    assert_eq!(events[0].absolute_ns, 500_000_000 + 1_000_000_000);
}

#[test]
fn multibyte_delta_accumulates() {
    let mut parser = MidiParser::new();
    // delta 128 encoded over two bytes; ppqn 500 gives 1 000 000 ns per
    // tick under the default tempo
    let track: &[u8] = &[0x81, 0x00, 0x90, 0x3C, 0x64, 0x00, 0xFF, 0x2F, 0x00];
    let data = file_of(0, 500, &[track]);
    assert!(parser.parse_bytes(&data).is_ok());
    let events = parser.get_events();
    assert_eq!(events.len(), 1);
    assert_eq!(events[0].absolute_ns, 128_000_000);
}

#[test]
fn merge_is_sorted_with_stable_tie_break() {
    let mut parser = MidiParser::new();
    let track0: &[u8] = &[
        0x00, 0x90, 0x10, 0x10, // tick 0
        0x0A, 0x91, 0x11, 0x11, // tick 10
        0x00, 0xFF, 0x2F, 0x00,
    ];
    let track1: &[u8] = &[
        0x00, 0x92, 0x12, 0x12, // tick 0: ties with track 0's first event
        0x05, 0x93, 0x13, 0x13, // tick 5
        0x00, 0xFF, 0x2F, 0x00,
    ];
    let data = file_of(1, 480, &[track0, track1]);
    assert!(parser.parse_bytes(&data).is_ok());
    let events = parser.get_events();
    assert_eq!(events.len(), 4);
    // equal ticks: track 0 before track 1; then tick order
    let statuses: Vec<u8> = events.iter().map(|e| e.status).collect();
    assert_eq!(statuses, vec![0x90, 0x92, 0x93, 0x91]);
    let tracks: Vec<u16> = events.iter().map(|e| e.track_index).collect();
    assert_eq!(tracks, vec![0, 1, 1, 0]);
    // the sequence never goes backwards in time
    for w in events.windows(2) {
        assert!(w[0].absolute_ns <= w[1].absolute_ns);
    }
}

#[test]
fn track_groups_partition_the_sequence() {
    let mut parser = MidiParser::new();
    let track0: &[u8] = &[0x00, 0x90, 0x10, 0x10, 0x0A, 0x91, 0x11, 0x11, 0x00, 0xFF, 0x2F, 0x00];
    let track1: &[u8] = &[0x00, 0x92, 0x12, 0x12, 0x05, 0x93, 0x13, 0x13, 0x00, 0xFF, 0x2F, 0x00];
    let data = file_of(1, 480, &[track0, track1]);
    assert!(parser.parse_bytes(&data).is_ok());
    let groups = parser.get_track_event_indices();
    let events = parser.get_events();
    assert_eq!(groups.len(), 2);
    assert_eq!(groups[0], vec![0, 3]);
    assert_eq!(groups[1], vec![1, 2]);
    let mut seen = vec![false; events.len()];
    for (t, group) in groups.iter().enumerate() {
        for &idx in group {
            assert_eq!(events[idx].track_index as usize, t);
            assert!(!seen[idx]);
            seen[idx] = true;
        }
    }
    assert!(seen.into_iter().all(|s| s));
}

#[test]
fn unknown_meta_event_is_skipped() {
    let mut parser = MidiParser::new();
    let track: &[u8] = &[
        0x00, 0xFF, 0x58, 0x04, 0x04, 0x02, 0x18, 0x08, // time signature: skipped
        0x00, 0x90, 0x3C, 0x64, 0x00, 0xFF, 0x2F, 0x00,
    ];
    let data = file_of(0, 480, &[track]);
    assert!(parser.parse_bytes(&data).is_ok());
    assert_eq!(parser.get_events().len(), 1);
    assert_eq!(parser.get_events()[0].status, 0x90);
}

#[test]
fn end_of_track_stops_decoding() {
    let mut parser = MidiParser::new();
    let track: &[u8] = &[
        0x00, 0x90, 0x3C, 0x64, 0x00, 0xFF, 0x2F, 0x00, // end of track
        0x00, 0x91, 0x3D, 0x65, // never reached
    ];
    let data = file_of(0, 480, &[track]);
    assert!(parser.parse_bytes(&data).is_ok());
    assert_eq!(parser.get_events().len(), 1);
}

#[test]
fn unknown_system_status_skips_one_byte() {
    let mut parser = MidiParser::new();
    let track: &[u8] = &[
        0x00, 0xF1, 0x05, // system common: skipped defensively, one byte
        0x00, 0x90, 0x3C, 0x64, 0x00, 0xFF, 0x2F, 0x00,
    ];
    let data = file_of(0, 480, &[track]);
    assert!(parser.parse_bytes(&data).is_ok());
    assert_eq!(parser.get_events().len(), 1);
    assert_eq!(parser.get_events()[0].status, 0x90);
}

#[test]
fn truncated_message_ends_track_without_error() {
    // a note-on missing its second data byte at the end of the buffer
    let result = kazumidiparser::parse_track(3, &vec![0x00, 0x90, 0x3C]).expect("lenient");
    assert_eq!(result.len(), 0);
}

#[test]
fn zero_ppqn_is_rejected() {
    let mut parser = MidiParser::new();
    let track: &[u8] = &[0x00, 0x90, 0x3C, 0x64, 0x00, 0xFF, 0x2F, 0x00];
    let data = file_of(0, 0, &[track]);
    assert_eq!(parser.parse_bytes(&data), Err(MidiError::FormatError));
}

#[test]
fn parse_track_reports_its_events() {
    let events: Vec<TempEvent> =
        kazumidiparser::parse_track(7, &vec![0x02, 0x90, 0x3C, 0x64]).expect("decodes");
    assert_eq!(events.len(), 1);
    assert_eq!(events[0].absolute_tick, 2);
    assert_eq!(events[0].track_index, 7);
}

#[test]
fn boundary_records_mirror_the_parser() {
    let mut parser = MidiParser::new();
    let track: &[u8] = &[0x00, 0x90, 0x3C, 0x64, 0x05, 0xC1, 0x07, 0x00, 0xFF, 0x2F, 0x00];
    let data = file_of(0, 480, &[track]);
    assert!(parser.parse_bytes(&data).is_ok());
    let header = header_record(&parser).expect("parsed");
    assert_eq!(header.tracks, 1);
    assert_eq!(header.ppqn, 480);
    let records = event_records(&parser);
    assert_eq!(records.len(), 2);
    assert_eq!(records[0].status, 0x90);
    assert_eq!(records[1].status, 0xC1);
    assert_eq!(records[1].data1, 0x07);
    let indices = track_indices_record(&parser);
    assert_eq!(indices.tracks.len(), 1);
    assert_eq!(indices.tracks[0].indices, vec![0, 1]);
}

#[test]
fn file_with_zero_tracks_parses_empty() {
    let mut parser = MidiParser::new();
    let data = header_chunk(0, 0, 480);
    assert!(parser.parse_bytes(&data).is_ok());
    assert_eq!(parser.get_events().len(), 0);
    assert_eq!(parser.get_header().expect("parsed").tracks, 0);
    assert_eq!(parser.get_track_event_indices().len(), 0);
}

#[test]
fn empty_track_payload_parses_empty() {
    let mut parser = MidiParser::new();
    let data = file_of(0, 480, &[&[]]);
    assert!(parser.parse_bytes(&data).is_ok());
    assert_eq!(parser.get_events().len(), 0);
    assert_eq!(parser.get_track_event_indices(), vec![Vec::<usize>::new()]);
}

#[test]
fn seg_ns_formula() {
    assert_eq!(kazumidiparser::seg_ns(480, 500_000, 480), 500_000_000);
    assert_eq!(kazumidiparser::seg_ns(128, 500_000, 500), 128_000_000);
    // the single division floors: 7 * 1 000 000 000 / 480
    assert_eq!(kazumidiparser::seg_ns(7, 1_000_000, 480), 14_583_333);
    // and saturates at the top of the range
    assert_eq!(kazumidiparser::seg_ns(u64::MAX, 1_000_000, 1), u64::MAX);
}

#[test]
fn error_descriptions_name_the_failure() {
    let io = MidiError::IoError.describe();
    let format = MidiError::FormatError.describe();
    assert!(io.contains("ended before"));
    assert!(format.contains("SMF structure"));
    assert_ne!(io, format);
}
