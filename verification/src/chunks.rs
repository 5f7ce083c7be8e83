use vstd::prelude::*;

use crate::errors::MidiError;
use crate::MidiHeader;

verus! {

/// A 32-bit big-endian value.
pub open spec fn be32(b0: u8, b1: u8, b2: u8, b3: u8) -> u32 {
    ((b0 as u32) << 24) | ((b1 as u32) << 16) | ((b2 as u32) << 8) | (b3 as u32)
}

/// A 16-bit big-endian value.
pub open spec fn be16(b0: u8, b1: u8) -> u16 {
    ((b0 as u16) << 8) | (b1 as u16)
}

/// The header chunk of the file: the four magic bytes "MThd" (else a
/// format error), a declared length that must be exactly 6 (else a format
/// error), and three big-endian 16-bit fields. Running out of bytes is a
/// read error.
pub open spec fn spec_read_header(file: Seq<u8>) -> Result<MidiHeader, MidiError> {
    if file.len() < 4 {
        Err(MidiError::IoError)
    } else if !(file[0] == 0x4D && file[1] == 0x54 && file[2] == 0x68 && file[3] == 0x64) {
        Err(MidiError::FormatError)
    } else if file.len() < 8 {
        Err(MidiError::IoError)
    } else if be32(file[4], file[5], file[6], file[7]) != 6 {
        Err(MidiError::FormatError)
    } else if file.len() < 14 {
        Err(MidiError::IoError)
    } else {
        Ok(
            MidiHeader {
                format: be16(file[8], file[9]),
                tracks: be16(file[10], file[11]),
                ppqn: be16(file[12], file[13]),
            },
        )
    }
}

/// The raw payloads of `n` track chunks starting at `pos`: each is the
/// four magic bytes "MTrk" (else a format error), a 32-bit big-endian
/// length, and that many payload bytes. Running out of bytes is a read
/// error; bytes after the last track chunk are ignored.
pub open spec fn spec_read_tracks(file: Seq<u8>, pos: int, n: int) -> Result<
    Seq<Seq<u8>>,
    MidiError,
>
    decreases n,
{
    if n <= 0 {
        Ok(Seq::empty())
    } else if pos + 4 > file.len() {
        Err(MidiError::IoError)
    } else if !(file[pos] == 0x4D && file[pos + 1] == 0x54 && file[pos + 2] == 0x72 && file[pos + 3]
        == 0x6B) {
        Err(MidiError::FormatError)
    } else if pos + 8 > file.len() {
        Err(MidiError::IoError)
    } else {
        let l = be32(file[pos + 4], file[pos + 5], file[pos + 6], file[pos + 7]) as int;
        if pos + 8 + l > file.len() {
            Err(MidiError::IoError)
        } else {
            match spec_read_tracks(file, pos + 8 + l, n - 1) {
                Ok(rest) => Ok(seq![file.subrange(pos + 8, pos + 8 + l)] + rest),
                Err(e) => Err(e),
            }
        }
    }
}

/// The models of the raw track payloads.
pub open spec fn track_data_views(s: Seq<Vec<u8>>) -> Seq<Seq<u8>> {
    s.map_values(|t: Vec<u8>| t@)
}

/// A framed prefix joined with the outcome of framing the remainder.
pub open spec fn join_tracks(prefix: Seq<Seq<u8>>, rest: Result<Seq<Seq<u8>>, MidiError>) -> Result<
    Seq<Seq<u8>>,
    MidiError,
> {
    match rest {
        Ok(s) => Ok(prefix + s),
        Err(e) => Err(e),
    }
}

/// Copies `data[from..to]` into a fresh buffer.
fn copy_range(data: &Vec<u8>, from: usize, to: usize) -> (r: Vec<u8>)
    requires
        from <= to <= data@.len(),
    ensures
        r@ == data@.subrange(from as int, to as int),
{
    let mut out: Vec<u8> = Vec::new();
    let mut idx: usize = from;
    while idx < to
        invariant
            from <= idx <= to <= data@.len(),
            out@ == data@.subrange(from as int, idx as int),
        decreases to - idx,
    {
        let b = data[idx];
        idx = idx + 1;
        out.push(b);
        proof {
            assert(out@ =~= data@.subrange(from as int, idx as int));
        }
    }
    out
}

/// Splits a whole file into its header and the raw payload of each track
/// chunk, exactly as `spec_read_header` and `spec_read_tracks` describe.
pub fn read_chunks(data: &Vec<u8>) -> (r: Result<(MidiHeader, Vec<Vec<u8>>), MidiError>)
    ensures
        match r {
            Ok((h, tracks)) => {
                &&& spec_read_header(data@) == Ok::<MidiHeader, MidiError>(h)
                &&& spec_read_tracks(data@, 14, h.tracks as int) == Ok::<Seq<Seq<u8>>, MidiError>(
                    track_data_views(tracks@),
                )
                &&& tracks@.len() == h.tracks as int
                &&& forall|i: int|
                    0 <= i < tracks@.len() ==> (#[trigger] tracks@[i])@.len() <= 0xFFFF_FFFF
            },
            Err(e) => {
                spec_read_header(data@) == Err::<MidiHeader, MidiError>(e) || (
                spec_read_header(data@) matches Ok(h) && spec_read_tracks(
                    data@,
                    14,
                    h.tracks as int,
                ) == Err::<Seq<Seq<u8>>, MidiError>(e))
            },
        },
{
    if data.len() < 4 {
        return Err(MidiError::IoError);
    }
    if !(data[0] == 0x4D && data[1] == 0x54 && data[2] == 0x68 && data[3] == 0x64) {
        return Err(MidiError::FormatError);
    }
    if data.len() < 8 {
        return Err(MidiError::IoError);
    }
    let hlen: u32 = ((data[4] as u32) << 24) | ((data[5] as u32) << 16) | ((data[6] as u32) << 8)
        | (data[7] as u32);
    if hlen != 6 {
        return Err(MidiError::FormatError);
    }
    if data.len() < 14 {
        return Err(MidiError::IoError);
    }
    let header = MidiHeader {
        format: ((data[8] as u16) << 8) | (data[9] as u16),
        tracks: ((data[10] as u16) << 8) | (data[11] as u16),
        ppqn: ((data[12] as u16) << 8) | (data[13] as u16),
    };
    let n = header.tracks;
    let mut tracks: Vec<Vec<u8>> = Vec::new();
    let mut pos: usize = 14;
    let mut i: u16 = 0;
    while i < n
        invariant
            spec_read_header(data@) == Ok::<MidiHeader, MidiError>(header),
            n == header.tracks,
            0 <= i <= n,
            14 <= pos <= data@.len(),
            tracks@.len() == i as int,
            forall|p: int| 0 <= p < tracks@.len() ==> (#[trigger] tracks@[p])@.len() <= 0xFFFF_FFFF,
            join_tracks(
                track_data_views(tracks@),
                spec_read_tracks(data@, pos as int, n as int - i as int),
            ) == spec_read_tracks(data@, 14, n as int),
        decreases n - i,
    {
        let ghost pre_tracks = tracks@;
        let ghost pre_pos = pos as int;
        let ghost remaining = spec_read_tracks(data@, pre_pos, n as int - i as int);
        if data.len() - pos < 4 {
            return Err(MidiError::IoError);
        }
        if !(data[pos] == 0x4D && data[pos + 1] == 0x54 && data[pos + 2] == 0x72 && data[pos + 3]
            == 0x6B) {
            return Err(MidiError::FormatError);
        }
        if data.len() - pos < 8 {
            return Err(MidiError::IoError);
        }
        let tlen: u32 = ((data[pos + 4] as u32) << 24) | ((data[pos + 5] as u32) << 16) | ((data[pos
            + 6] as u32) << 8) | (data[pos + 7] as u32);
        if (tlen as usize) > data.len() - pos - 8 {
            return Err(MidiError::IoError);
        }
        let payload = copy_range(data, pos + 8, pos + 8 + (tlen as usize));
        tracks.push(payload);
        pos = pos + 8 + (tlen as usize);
        i = i + 1;
        proof {
            let rest = spec_read_tracks(data@, pos as int, n as int - i as int);
            assert(remaining == join_tracks(
                seq![data@.subrange(pre_pos + 8, pos as int)],
                rest,
            ));
            assert(track_data_views(tracks@) =~= track_data_views(pre_tracks) + seq![
                data@.subrange(pre_pos + 8, pos as int),
            ]);
            match rest {
                Ok(rs) => {
                    assert((track_data_views(pre_tracks) + seq![
                        data@.subrange(pre_pos + 8, pos as int),
                    ]) + rs =~= track_data_views(pre_tracks) + (seq![
                        data@.subrange(pre_pos + 8, pos as int),
                    ] + rs));
                },
                Err(_) => {},
            }
        }
    }
    proof {
        assert(track_data_views(tracks@) + Seq::<Seq<u8>>::empty() =~= track_data_views(tracks@));
    }
    Ok((header, tracks))
}

} // verus!
