use vstd::prelude::*;

use crate::errors::MidiError;
use crate::events::{res_model, temp_views, TempEvent, TempEventData, TempEventDataModel, TempEventModel};
use crate::vlq::{
    lemma_vlq_scan32_bounds, lemma_vlq_scan_usize_bounds, read_vlq_u32, read_vlq_usize, vlq_scan32,
    vlq_scan_usize,
};

verus! {

/// Index just past a system-exclusive payload starting at `i`: everything
/// through the first 0xF7 terminator, or through the end of the buffer if
/// no terminator follows.
pub open spec fn sysex_end(data: Seq<u8>, i: int) -> int
    decreases data.len() - i,
{
    if i < 0 || i >= data.len() {
        i
    } else if data[i] == 0xF7 {
        i + 1
    } else {
        sysex_end(data, i + 1)
    }
}

pub proof fn lemma_sysex_end_bounds(data: Seq<u8>, i: int)
    requires
        0 <= i <= data.len(),
    ensures
        i <= sysex_end(data, i) <= data.len(),
        i < data.len() ==> sysex_end(data, i) >= i + 1,
    decreases data.len() - i,
{
    if i < data.len() && data[i] != 0xF7 {
        lemma_sysex_end_bounds(data, i + 1);
    }
}

/// A 24-bit big-endian value, as carried by a tempo meta event.
pub open spec fn be24(b0: u8, b1: u8, b2: u8) -> u32 {
    ((b0 as u32) << 16) | ((b1 as u32) << 8) | (b2 as u32)
}

/// One dispatch step on a resolved status byte at index `k`: the index at
/// which decoding continues, the event emitted by this message (if any),
/// and whether decoding of the track stops here (explicit end-of-track
/// meta event, or a message cut off by the end of the buffer).
pub open spec fn message_step(data: Seq<u8>, k: int, status: u8, tick: int, ti: u16) -> (
    int,
    Option<TempEventModel>,
    bool,
) {
    if status == 0xFF {
        if k >= data.len() {
            (k, None::<TempEventModel>, true)
        } else {
            let meta_type = data[k];
            let scan = vlq_scan_usize(data, k + 1, 0);
            let m = scan.0;
            let l = scan.1 as int;
            if m + l > data.len() {
                (m, None::<TempEventModel>, true)
            } else if meta_type == 0x51 && l == 3 {
                (
                    m + l,
                    Some(
                        TempEventModel {
                            tick,
                            track: ti,
                            data: TempEventDataModel::TempoChange {
                                new_tempo_us: be24(data[m], data[m + 1], data[m + 2]),
                            },
                        },
                    ),
                    false,
                )
            } else if meta_type == 0x2F && l == 0 {
                (m, None::<TempEventModel>, true)
            } else {
                (m + l, None::<TempEventModel>, false)
            }
        }
    } else if status == 0xF0 {
        if k >= data.len() {
            (
                k,
                Some(
                    TempEventModel {
                        tick,
                        track: ti,
                        data: TempEventDataModel::SysEx { data: Seq::empty() },
                    },
                ),
                true,
            )
        } else {
            let e = sysex_end(data, k);
            (
                e,
                Some(
                    TempEventModel {
                        tick,
                        track: ti,
                        data: TempEventDataModel::SysEx { data: data.subrange(k, e) },
                    },
                ),
                false,
            )
        }
    } else if status & 0xF0 != 0xF0 {
        if k >= data.len() {
            (k, None::<TempEventModel>, true)
        } else {
            let data1 = data[k];
            if status & 0xF0 != 0xC0 && status & 0xF0 != 0xD0 {
                if k + 1 >= data.len() {
                    (k + 1, None::<TempEventModel>, true)
                } else {
                    (
                        k + 2,
                        Some(
                            TempEventModel {
                                tick,
                                track: ti,
                                data: TempEventDataModel::Midi {
                                    status,
                                    data1,
                                    data2: data[k + 1],
                                },
                            },
                        ),
                        false,
                    )
                }
            } else {
                (
                    k + 1,
                    Some(
                        TempEventModel {
                            tick,
                            track: ti,
                            data: TempEventDataModel::Midi { status, data1, data2: 0 },
                        },
                    ),
                    false,
                )
            }
        }
    } else {
        if k >= data.len() {
            (k, None::<TempEventModel>, true)
        } else {
            (k + 1, None::<TempEventModel>, false)
        }
    }
}

/// The step never moves backwards, stays within the buffer, and makes
/// strict progress whenever it does not stop.
pub proof fn lemma_message_step_bounds(data: Seq<u8>, k: int, status: u8, tick: int, ti: u16)
    requires
        0 <= k <= data.len(),
    ensures
        k <= message_step(data, k, status, tick, ti).0 <= data.len(),
        !message_step(data, k, status, tick, ti).2 ==> message_step(data, k, status, tick, ti).0
            >= k + 1,
{
    if status == 0xFF {
        if k < data.len() {
            lemma_vlq_scan_usize_bounds(data, k + 1, 0);
        }
    } else if status == 0xF0 {
        if k < data.len() {
            lemma_sysex_end_bounds(data, k);
        }
    }
}

/// The events decoded from `data` from index `i` on, with `last` the
/// running-status byte, `tick` the absolute tick so far, and `ti` the
/// index of the track. Fails exactly when a data byte is met in status
/// position while no status byte has been seen yet; running out of bytes
/// mid-message merely ends the track.
pub open spec fn decode_events(data: Seq<u8>, i: int, last: Option<u8>, tick: int, ti: u16) -> Result<
    Seq<TempEventModel>,
    MidiError,
>
    decreases data.len() - i,
    via decode_events_decreases
{
    if i < 0 || i >= data.len() {
        Ok(Seq::empty())
    } else {
        let scan = vlq_scan32(data, i, 0);
        let j = scan.0;
        let tick2 = tick + scan.1;
        if j >= data.len() {
            Ok(Seq::empty())
        } else {
            let cand = data[j];
            if cand & 0x80 == 0 && last is None {
                Err(MidiError::FormatError)
            } else {
                let status = if cand & 0x80 != 0 {
                    cand
                } else {
                    last->0
                };
                let last2 = if cand & 0x80 != 0 {
                    Some(cand)
                } else {
                    last
                };
                let k = if cand & 0x80 != 0 {
                    j + 1
                } else {
                    j
                };
                let step = message_step(data, k, status, tick2, ti);
                let emitted = match step.1 {
                    Some(e) => seq![e],
                    None => Seq::<TempEventModel>::empty(),
                };
                if step.2 {
                    Ok(emitted)
                } else {
                    match decode_events(data, step.0, last2, tick2, ti) {
                        Ok(rest) => Ok(emitted + rest),
                        Err(e) => Err(e),
                    }
                }
            }
        }
    }
}

#[via_fn]
proof fn decode_events_decreases(data: Seq<u8>, i: int, last: Option<u8>, tick: int, ti: u16) {
    if 0 <= i < data.len() {
        lemma_vlq_scan32_bounds(data, i, 0);
        let scan = vlq_scan32(data, i, 0);
        let j = scan.0;
        if j < data.len() {
            let cand = data[j];
            let k = if cand & 0x80 != 0 {
                j + 1
            } else {
                j
            };
            let status = if cand & 0x80 != 0 {
                cand
            } else {
                last->0
            };
            lemma_message_step_bounds(data, k, status, tick + scan.1, ti);
        }
    }
}

/// Every event decoded from one track carries that track's index, no
/// event's tick precedes the tick at which decoding started, and ticks
/// never decrease along the decoded sequence.
pub proof fn lemma_decode_events_props(data: Seq<u8>, i: int, last: Option<u8>, tick: int, ti: u16)
    requires
        0 <= i,
    ensures
        decode_events(data, i, last, tick, ti) matches Ok(s) ==> {
            &&& forall|p: int|
                0 <= p < s.len() ==> (#[trigger] s[p]).track == ti && s[p].tick >= tick
            &&& crate::events::sorted_by_tick(s)
        },
    decreases data.len() - i,
{
    if 0 <= i < data.len() {
        lemma_vlq_scan32_bounds(data, i, 0);
        let scan = vlq_scan32(data, i, 0);
        let j = scan.0;
        let tick2 = tick + scan.1;
        if j < data.len() {
            let cand = data[j];
            if !(cand & 0x80 == 0 && last is None) {
                let status = if cand & 0x80 != 0 {
                    cand
                } else {
                    last->0
                };
                let last2 = if cand & 0x80 != 0 {
                    Some(cand)
                } else {
                    last
                };
                let k = if cand & 0x80 != 0 {
                    j + 1
                } else {
                    j
                };
                lemma_message_step_bounds(data, k, status, tick2, ti);
                let step = message_step(data, k, status, tick2, ti);
                if !step.2 {
                    lemma_decode_events_props(data, step.0, last2, tick2, ti);
                }
            }
        }
    }
}

/// Law: a data byte in status position at the very start of a track,
/// before any explicit status byte has been seen, fails the decode with a
/// format error.
pub proof fn lemma_running_status_first_fails(data: Seq<u8>, ti: u16)
    requires
        ({
            let scan = vlq_scan32(data, 0, 0);
            scan.0 < data.len() && data[scan.0] & 0x80 == 0
        }),
    ensures
        decode_events(data, 0, None::<u8>, 0, ti) == Err::<Seq<TempEventModel>, MidiError>(
            MidiError::FormatError,
        ),
{
}

/// Law: a data byte in status position while a status byte `s` is in
/// force dispatches the message with `s` itself, at the position of that
/// data byte, and does not fail there.
pub proof fn lemma_running_status_reuses(data: Seq<u8>, i: int, s: u8, tick: int, ti: u16)
    requires
        0 <= i < data.len(),
        ({
            let scan = vlq_scan32(data, i, 0);
            scan.0 < data.len() && data[scan.0] & 0x80 == 0
        }),
    ensures
        ({
            let scan = vlq_scan32(data, i, 0);
            let step = message_step(data, scan.0, s, tick + scan.1, ti);
            let emitted = match step.1 {
                Some(e) => seq![e],
                None => Seq::<TempEventModel>::empty(),
            };
            decode_events(data, i, Some(s), tick, ti) == if step.2 {
                Ok::<Seq<TempEventModel>, MidiError>(emitted)
            } else {
                join_decoded(emitted, decode_events(data, step.0, Some(s), tick + scan.1, ti))
            }
        }),
{
}

/// Law: a program-change or channel-pressure message consumes exactly one
/// data byte; its second data byte is reported as zero.
pub proof fn lemma_one_data_byte_message(data: Seq<u8>, k: int, status: u8, tick: int, ti: u16)
    requires
        0 <= k < data.len(),
        status & 0xF0 == 0xC0 || status & 0xF0 == 0xD0,
    ensures
        message_step(data, k, status, tick, ti) == (
            k + 1,
            Some(
                TempEventModel {
                    tick,
                    track: ti,
                    data: TempEventDataModel::Midi { status, data1: data[k], data2: 0 },
                },
            ),
            false,
        ),
{
    assert(status != 0xFF && status != 0xF0 && status & 0xF0 != 0xF0) by (bit_vector)
        requires
            status & 0xF0 == 0xC0 || status & 0xF0 == 0xD0,
    ;
}

/// Law: every other channel message -- a note-on among them -- consumes
/// exactly two data bytes.
pub proof fn lemma_two_data_byte_message(data: Seq<u8>, k: int, status: u8, tick: int, ti: u16)
    requires
        0 <= k,
        k + 1 < data.len(),
        status & 0xF0 != 0xF0,
        status & 0xF0 != 0xC0,
        status & 0xF0 != 0xD0,
    ensures
        message_step(data, k, status, tick, ti) == (
            k + 2,
            Some(
                TempEventModel {
                    tick,
                    track: ti,
                    data: TempEventDataModel::Midi { status, data1: data[k], data2: data[k + 1] },
                },
            ),
            false,
        ),
{
    assert(status != 0xFF && status != 0xF0) by (bit_vector)
        requires
            status & 0xF0 != 0xF0,
    ;
}

/// With no terminator byte from `i` to the end of the buffer, the scan
/// runs to the end.
pub proof fn lemma_sysex_end_no_terminator(data: Seq<u8>, i: int)
    requires
        0 <= i <= data.len(),
        forall|m: int| i <= m < data.len() ==> data[m] != 0xF7,
    ensures
        sysex_end(data, i) == data.len(),
    decreases data.len() - i,
{
    if i < data.len() {
        lemma_sysex_end_no_terminator(data, i + 1);
    }
}

/// Law: a system-exclusive message with no 0xF7 terminator before the end
/// of the buffer is captured in full, up to the end, without error.
pub proof fn lemma_sysex_unterminated(data: Seq<u8>, k: int, tick: int, ti: u16)
    requires
        0 <= k < data.len(),
        forall|m: int| k <= m < data.len() ==> data[m] != 0xF7,
    ensures
        message_step(data, k, 0xF0, tick, ti) == (
            data.len() as int,
            Some(
                TempEventModel {
                    tick,
                    track: ti,
                    data: TempEventDataModel::SysEx {
                        data: data.subrange(k, data.len() as int),
                    },
                },
            ),
            false,
        ),
{
    lemma_sysex_end_no_terminator(data, k);
}

/// The model of an optional intermediate event.
pub open spec fn opt_temp_view(o: Option<TempEvent>) -> Option<TempEventModel> {
    match o {
        Some(e) => Some(e@),
        None => None,
    }
}

/// A decoded prefix joined with the outcome of decoding the remainder.
pub open spec fn join_decoded(
    prefix: Seq<TempEventModel>,
    rest: Result<Seq<TempEventModel>, MidiError>,
) -> Result<Seq<TempEventModel>, MidiError> {
    match rest {
        Ok(s) => Ok(prefix + s),
        Err(e) => Err(e),
    }
}

/// Reads a system-exclusive payload starting at `k`: every byte through
/// the first 0xF7 terminator, or through the end of the buffer.
fn read_sysex(data: &Vec<u8>, k: usize) -> (r: (usize, Vec<u8>))
    requires
        k < data@.len(),
    ensures
        r.0 as int == sysex_end(data@, k as int),
        r.1@ == data@.subrange(k as int, r.0 as int),
        k < r.0 <= data@.len(),
{
    let mut idx: usize = k;
    let mut out: Vec<u8> = Vec::new();
    while idx < data.len()
        invariant_except_break
            k <= idx <= data@.len(),
            out@ == data@.subrange(k as int, idx as int),
            sysex_end(data@, k as int) == sysex_end(data@, idx as int),
        ensures
            idx as int == sysex_end(data@, k as int),
            out@ == data@.subrange(k as int, idx as int),
            k <= idx <= data@.len(),
            k < data@.len() ==> idx > k,
        decreases data@.len() - idx,
    {
        let b = data[idx];
        idx = idx + 1;
        out.push(b);
        proof {
            assert(out@ =~= data@.subrange(k as int, idx as int));
        }
        if b == 0xF7 {
            break ;
        }
    }
    (idx, out)
}

/// Performs one `message_step` on the byte buffer.
fn message_step_exec(data: &Vec<u8>, k: usize, status: u8, tick: u64, ti: u16) -> (r: (
    usize,
    Option<TempEvent>,
    bool,
))
    requires
        k <= data@.len(),
    ensures
        ({
            let step = message_step(data@, k as int, status, tick as int, ti);
            &&& r.0 as int == step.0
            &&& opt_temp_view(r.1) == step.1
            &&& r.2 == step.2
            &&& k <= r.0 <= data@.len()
        }),
{
    if status == 0xFF {
        if k >= data.len() {
            (k, None, true)
        } else {
            let meta_type = data[k];
            let (m, l) = read_vlq_usize(data, k + 1);
            if l > data.len() - m {
                (m, None, true)
            } else if meta_type == 0x51 && l == 3 {
                let us: u32 = ((data[m] as u32) << 16) | ((data[m + 1] as u32) << 8) | (data[m
                    + 2] as u32);
                (
                    m + l,
                    Some(
                        TempEvent {
                            absolute_tick: tick,
                            track_index: ti,
                            data: TempEventData::TempoChange { new_tempo_us: us },
                        },
                    ),
                    false,
                )
            } else if meta_type == 0x2F && l == 0 {
                (m, None, true)
            } else {
                (m + l, None, false)
            }
        }
    } else if status == 0xF0 {
        if k >= data.len() {
            (
                k,
                Some(
                    TempEvent {
                        absolute_tick: tick,
                        track_index: ti,
                        data: TempEventData::SysEx { data: Vec::new() },
                    },
                ),
                true,
            )
        } else {
            let (e, payload) = read_sysex(data, k);
            (
                e,
                Some(
                    TempEvent {
                        absolute_tick: tick,
                        track_index: ti,
                        data: TempEventData::SysEx { data: payload },
                    },
                ),
                false,
            )
        }
    } else if status & 0xF0 != 0xF0 {
        if k >= data.len() {
            (k, None, true)
        } else {
            let data1 = data[k];
            if status & 0xF0 != 0xC0 && status & 0xF0 != 0xD0 {
                if k + 1 >= data.len() {
                    (k + 1, None, true)
                } else {
                    let data2 = data[k + 1];
                    (
                        k + 2,
                        Some(
                            TempEvent {
                                absolute_tick: tick,
                                track_index: ti,
                                data: TempEventData::Midi { status, data1, data2 },
                            },
                        ),
                        false,
                    )
                }
            } else {
                (
                    k + 1,
                    Some(
                        TempEvent {
                            absolute_tick: tick,
                            track_index: ti,
                            data: TempEventData::Midi { status, data1, data2: 0 },
                        },
                    ),
                    false,
                )
            }
        }
    } else {
        if k >= data.len() {
            (k, None, true)
        } else {
            (k + 1, None, false)
        }
    }
}

/// Decodes one track chunk into its intermediate events, exactly as
/// `decode_events` describes: lenient about truncation, fatal only on a
/// data byte in status position before any status byte was seen.
pub fn parse_track(track_index: u16, data: &Vec<u8>) -> (r: Result<Vec<TempEvent>, MidiError>)
    requires
        data@.len() <= 0xFFFF_FFFF,
    ensures
        res_model(r) == decode_events(data@, 0, None::<u8>, 0, track_index),
{
    let ghost full = decode_events(data@, 0, None::<u8>, 0, track_index);
    let mut events: Vec<TempEvent> = Vec::new();
    let mut index: usize = 0;
    let mut last_status: Option<u8> = None;
    let mut absolute_tick: u64 = 0;
    while index < data.len()
        invariant_except_break
            full == decode_events(data@, 0, None::<u8>, 0, track_index),
            index <= data@.len(),
            data@.len() <= 0xFFFF_FFFF,
            absolute_tick as int <= (index as int) * 0xFFFF_FFFF,
            join_decoded(
                temp_views(events@),
                decode_events(data@, index as int, last_status, absolute_tick as int, track_index),
            ) == full,
        ensures
            full == Ok::<Seq<TempEventModel>, MidiError>(temp_views(events@)),
        decreases data@.len() - index,
    {
        let ghost pre_index = index as int;
        let ghost pre_last = last_status;
        let ghost pre_tick = absolute_tick as int;
        let ghost pre_events = events@;
        let (j, delta) = read_vlq_u32(data, index);
        proof {
            assert(absolute_tick as int + delta as int <= (j as int) * 0xFFFF_FFFF) by (nonlinear_arith)
                requires
                    absolute_tick as int <= pre_index * 0xFFFF_FFFF,
                    delta as int <= 0xFFFF_FFFF,
                    pre_index + 1 <= j as int,
            ;
            assert((j as int) * 0xFFFF_FFFF <= 0xFFFF_FFFF * 0xFFFF_FFFF) by (nonlinear_arith)
                requires
                    j as int <= 0xFFFF_FFFF,
            ;
        }
        absolute_tick = absolute_tick + (delta as u64);
        index = j;
        let ghost tick2 = absolute_tick as int;
        assert(tick2 == pre_tick + vlq_scan32(data@, pre_index, 0).1);
        if index >= data.len() {
            proof {
                assert(decode_events(data@, pre_index, pre_last, pre_tick, track_index)
                    == Ok::<Seq<TempEventModel>, MidiError>(Seq::empty()));
                assert(temp_views(events@) + Seq::<TempEventModel>::empty() =~= temp_views(
                    events@,
                ));
            }
            break ;
        }
        let cand = data[index];
        let status: u8;
        if cand & 0x80 != 0 {
            status = cand;
            index = index + 1;
            last_status = Some(cand);
        } else {
            match last_status {
                Some(s) => {
                    status = s;
                },
                None => {
                    proof {
                        assert(decode_events(data@, pre_index, pre_last, pre_tick, track_index)
                            == Err::<Seq<TempEventModel>, MidiError>(MidiError::FormatError));
                    }
                    return Err(MidiError::FormatError);
                },
            }
        }
        let step = message_step_exec(data, index, status, absolute_tick, track_index);
        let ghost spec_step = message_step(data@, index as int, status, tick2, track_index);
        let ghost emitted = match spec_step.1 {
            Some(e) => seq![e],
            None => Seq::<TempEventModel>::empty(),
        };
        index = step.0;
        let stop = step.2;
        match step.1 {
            Some(e) => {
                events.push(e);
                proof {
                    assert(temp_views(events@) =~= temp_views(pre_events) + emitted);
                }
            },
            None => {
                proof {
                    assert(temp_views(events@) =~= temp_views(pre_events) + emitted);
                }
            },
        }
        proof {
            let pre_decode = decode_events(data@, pre_index, pre_last, pre_tick, track_index);
            if stop {
                assert(pre_decode == Ok::<Seq<TempEventModel>, MidiError>(emitted));
            } else {
                let rest = decode_events(
                    data@,
                    index as int,
                    last_status,
                    tick2,
                    track_index,
                );
                assert(pre_decode == join_decoded(emitted, rest));
                match rest {
                    Ok(rs) => {
                        assert((temp_views(pre_events) + emitted) + rs =~= temp_views(pre_events)
                            + (emitted + rs));
                    },
                    Err(_) => {},
                }
            }
        }
        if stop {
            proof {
                assert(temp_views(pre_events) + emitted =~= temp_views(events@));
            }
            break ;
        }
    }
    Ok(events)
}

} // verus!
