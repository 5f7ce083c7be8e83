use vstd::prelude::*;

verus! {

/// Scans a variable-length quantity: seven value bits per byte, a set
/// high bit meaning that more bytes follow. Returns the index just past
/// the quantity and the accumulated value; accumulation truncates to the
/// 32-bit width, and a quantity cut off by the end of the buffer yields
/// the bits read so far.
pub open spec fn vlq_scan32(data: Seq<u8>, i: int, acc: u32) -> (int, u32)
    decreases data.len() - i,
{
    if i < 0 || i >= data.len() {
        (i, acc)
    } else {
        let b = data[i];
        let acc2 = (acc << 7) | ((b & 0x7f) as u32);
        if b & 0x80 == 0 {
            (i + 1, acc2)
        } else {
            vlq_scan32(data, i + 1, acc2)
        }
    }
}

/// As `vlq_scan32`, accumulating into a `usize` (used for meta-event
/// payload lengths).
pub open spec fn vlq_scan_usize(data: Seq<u8>, i: int, acc: usize) -> (int, usize)
    decreases data.len() - i,
{
    if i < 0 || i >= data.len() {
        (i, acc)
    } else {
        let b = data[i];
        let acc2 = (acc << 7) | ((b & 0x7f) as usize);
        if b & 0x80 == 0 {
            (i + 1, acc2)
        } else {
            vlq_scan_usize(data, i + 1, acc2)
        }
    }
}

/// A scan starting inside the buffer consumes at least one byte and never
/// runs past the end.
pub proof fn lemma_vlq_scan32_bounds(data: Seq<u8>, i: int, acc: u32)
    requires
        0 <= i <= data.len(),
    ensures
        i <= vlq_scan32(data, i, acc).0 <= data.len(),
        i < data.len() ==> vlq_scan32(data, i, acc).0 >= i + 1,
    decreases data.len() - i,
{
    if i < data.len() {
        lemma_vlq_scan32_bounds(data, i + 1, (acc << 7) | ((data[i] & 0x7f) as u32));
    }
}

/// As `lemma_vlq_scan32_bounds`, for the `usize` scan.
pub proof fn lemma_vlq_scan_usize_bounds(data: Seq<u8>, i: int, acc: usize)
    requires
        0 <= i <= data.len(),
    ensures
        i <= vlq_scan_usize(data, i, acc).0 <= data.len(),
        i < data.len() ==> vlq_scan_usize(data, i, acc).0 >= i + 1,
    decreases data.len() - i,
{
    if i < data.len() {
        lemma_vlq_scan_usize_bounds(data, i + 1, (acc << 7) | ((data[i] & 0x7f) as usize));
    }
}

/// Reads a variable-length quantity into a `u32`, starting at `start`.
pub fn read_vlq_u32(data: &Vec<u8>, start: usize) -> (r: (usize, u32))
    requires
        start <= data@.len(),
    ensures
        vlq_scan32(data@, start as int, 0) == (r.0 as int, r.1),
        start <= r.0 <= data@.len(),
        start < data@.len() ==> r.0 > start,
{
    let mut idx: usize = start;
    let mut acc: u32 = 0;
    while idx < data.len()
        invariant_except_break
            start <= idx <= data@.len(),
            vlq_scan32(data@, idx as int, acc) == vlq_scan32(data@, start as int, 0),
        ensures
            vlq_scan32(data@, start as int, 0) == (idx as int, acc),
            start <= idx <= data@.len(),
            start < data@.len() ==> idx > start,
        decreases data@.len() - idx,
    {
        let b = data[idx];
        idx = idx + 1;
        acc = (acc << 7) | ((b & 0x7f) as u32);
        if b & 0x80 == 0 {
            break ;
        }
    }
    (idx, acc)
}

/// Reads a variable-length quantity into a `usize`, starting at `start`.
pub fn read_vlq_usize(data: &Vec<u8>, start: usize) -> (r: (usize, usize))
    requires
        start <= data@.len(),
    ensures
        vlq_scan_usize(data@, start as int, 0) == (r.0 as int, r.1),
        start <= r.0 <= data@.len(),
        start < data@.len() ==> r.0 > start,
{
    let mut idx: usize = start;
    let mut acc: usize = 0;
    while idx < data.len()
        invariant_except_break
            start <= idx <= data@.len(),
            vlq_scan_usize(data@, idx as int, acc) == vlq_scan_usize(data@, start as int, 0),
        ensures
            vlq_scan_usize(data@, start as int, 0) == (idx as int, acc),
            start <= idx <= data@.len(),
            start < data@.len() ==> idx > start,
        decreases data@.len() - idx,
    {
        let b = data[idx];
        idx = idx + 1;
        acc = (acc << 7) | ((b & 0x7f) as usize);
        if b & 0x80 == 0 {
            break ;
        }
    }
    (idx, acc)
}

} // verus!
