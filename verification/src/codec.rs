use vstd::prelude::*;

verus! {

/// Header offset of the little-endian word holding the sector size
/// (payload size plus the 4-byte width of the next-pointer field).
pub const SECTOR_SIZE_LOC: usize = 0x144;

/// Header offset of the little-endian word holding the root directory
/// location.
pub const ROOT_DIR_LOC_LOC: usize = 0x160;

/// Word index, within a decoded directory blob, of the entry count.
/// Words below it are branch pointers; entry records follow it.
pub const NUM_FILES_OFF: usize = 0x3E;

/// The little-endian 32-bit word stored at byte offset `off`.
pub open spec fn word_at(data: Seq<u8>, off: int) -> u32
    recommends
        0 <= off,
        off + 4 <= data.len(),
{
    (data[off] as u32) | ((data[off + 1] as u32) << 8) | ((data[off + 2] as u32) << 16)
        | ((data[off + 3] as u32) << 24)
}

/// Reads the little-endian 32-bit word at byte offset `off`.
pub fn read_word(data: &Vec<u8>, off: usize) -> (w: u32)
    requires
        off + 4 <= data@.len(),
    ensures
        w == word_at(data@, off as int),
{
    // Calling len() grounds the buffer's length in usize, so the index
    // arithmetic below cannot overflow.
    let n = data.len();
    assert(off + 4 <= n);
    (data[off] as u32) | ((data[off + 1] as u32) << 8) | ((data[off + 2] as u32) << 16)
        | ((data[off + 3] as u32) << 24)
}

} // verus!
