use datfile::container::DatFile;
use datfile::error::DatError;
use datfile::node::{DirectoryEntry, DirectoryNode};

const SECTOR_SIZE_LOC: usize = 0x144;
const ROOT_DIR_LOC_LOC: usize = 0x160;
const NUM_FILES_OFF: usize = 0x3E;

fn put_word(buf: &mut Vec<u8>, off: usize, w: u32) {
    buf[off] = (w & 0xFF) as u8;
    buf[off + 1] = ((w >> 8) & 0xFF) as u8;
    buf[off + 2] = ((w >> 16) & 0xFF) as u8;
    buf[off + 3] = ((w >> 24) & 0xFF) as u8;
}

/// A zeroed source of `len` bytes whose header declares the given payload
/// size and root directory location.
fn new_source(len: usize, payload: u32, root: u32) -> Vec<u8> {
    let mut v = vec![0u8; len];
    put_word(&mut v, SECTOR_SIZE_LOC, payload + 4);
    put_word(&mut v, ROOT_DIR_LOC_LOC, root);
    v
}

/// Writes word `word_idx` of the single-sector blob stored at `sector_loc`
/// (the sector's 4-byte next-pointer stays 0: a one-sector chain).
fn put_blob_word(buf: &mut Vec<u8>, sector_loc: usize, word_idx: usize, w: u32) {
    put_word(buf, sector_loc + 4 + 4 * word_idx, w);
}

/// Writes entry record `i` of the directory node blob at `sector_loc`.
fn put_entry(buf: &mut Vec<u8>, sector_loc: usize, i: usize, id: u32, loc: u32, size: u32) {
    let base = NUM_FILES_OFF + 1 + 6 * i;
    put_blob_word(buf, sector_loc, base + 1, id);
    put_blob_word(buf, sector_loc, base + 2, loc);
    put_blob_word(buf, sector_loc, base + 3, size);
}

/// A container whose directory is a single leaf node with entries
/// [(0x10, 0x600, 5), (0x20, 0x700, 3)].  Payload size 512, root at 0x200.
fn leaf_container() -> DatFile {
    let mut v = new_source(4096, 512, 0x200);
    put_blob_word(&mut v, 0x200, NUM_FILES_OFF, 2);
    put_entry(&mut v, 0x200, 0, 0x10, 0x600, 5);
    put_entry(&mut v, 0x200, 1, 0x20, 0x700, 3);
    for (k, b) in b"hello".iter().enumerate() {
        v[0x600 + 4 + k] = *b;
    }
    for (k, b) in b"the".iter().enumerate() {
        v[0x700 + 4 + k] = *b;
    }
    DatFile::from_bytes(v).unwrap()
}

/// A container with a two-level directory.  The root (internal) node holds
/// entries [(0x20, 0xA00, 7), (0x30, 0xB00, 9)]; branch pointer 0 leads to a
/// leaf holding (0x05, 0xC00, 2) and branch pointer 1 to a leaf holding
/// (0x25, 0xD00, 1).
fn two_level_container() -> DatFile {
    let mut v = new_source(8192, 512, 0x200);
    // Root node: word 0 is both the has-children flag and branch pointer 0.
    put_blob_word(&mut v, 0x200, 0, 0x600);
    put_blob_word(&mut v, 0x200, 1, 0x800);
    put_blob_word(&mut v, 0x200, NUM_FILES_OFF, 2);
    put_entry(&mut v, 0x200, 0, 0x20, 0xA00, 7);
    put_entry(&mut v, 0x200, 1, 0x30, 0xB00, 9);
    // Leaf below branch 0: ids under 0x20.
    put_blob_word(&mut v, 0x600, NUM_FILES_OFF, 1);
    put_entry(&mut v, 0x600, 0, 0x05, 0xC00, 2);
    // Leaf below branch 1: ids between 0x20 and 0x30.
    put_blob_word(&mut v, 0x800, NUM_FILES_OFF, 1);
    put_entry(&mut v, 0x800, 0, 0x25, 0xD00, 1);
    DatFile::from_bytes(v).unwrap()
}

#[test]
fn open_reads_header_parameters() {
    let d = leaf_container();
    assert_eq!(d.sector_payload_size(), 512);
    assert_eq!(d.root_directory_location(), 0x200);
}

#[test]
fn open_short_source_is_io_error() {
    assert_eq!(DatFile::from_bytes(vec![0u8; 0x100]).err(), Some(DatError::Io));
}

#[test]
fn open_sector_word_not_above_pointer_width_is_format_error() {
    let mut v = vec![0u8; 4096];
    put_word(&mut v, SECTOR_SIZE_LOC, 4);
    put_word(&mut v, ROOT_DIR_LOC_LOC, 0x200);
    assert_eq!(DatFile::from_bytes(v).err(), Some(DatError::Format));
}

#[test]
fn find_leaf_first_entry() {
    let d = leaf_container();
    assert_eq!(d.find_file(0x10), Ok((0x600, 5)));
}

#[test]
fn find_leaf_second_entry() {
    let d = leaf_container();
    assert_eq!(d.find_file(0x20), Ok((0x700, 3)));
}

#[test]
fn find_leaf_absent_id_is_not_found() {
    let d = leaf_container();
    assert_eq!(d.find_file(0x15), Err(DatError::NotFound));
}

#[test]
fn find_beyond_last_entry_is_unresolved() {
    // No branch covers ids above the last entry of a node: the search cannot
    // progress and its depth budget runs out as on a cyclic directory.
    let d = leaf_container();
    assert_eq!(d.find_file(0x99), Err(DatError::Format));
}

#[test]
fn chain_of_three_sectors_concatenates_in_link_order() {
    let mut v = new_source(2048, 8, 0x200);
    put_word(&mut v, 0x200, 0x400);
    put_word(&mut v, 0x400, 0x300);
    put_word(&mut v, 0x300, 0);
    for k in 0..8 {
        v[0x200 + 4 + k] = 1 + k as u8;
        v[0x400 + 4 + k] = 9 + k as u8;
        v[0x300 + 4 + k] = 17 + k as u8;
    }
    let d = DatFile::from_bytes(v).unwrap();
    let got = d.read_file_by_loc(0x200).unwrap();
    let want: Vec<u8> = (1..=24).collect();
    assert_eq!(got, want);
}

#[test]
fn chain_at_location_zero_is_empty() {
    let d = leaf_container();
    assert_eq!(d.read_file_by_loc(0), Ok(Vec::new()));
}

#[test]
fn chain_running_past_source_end_is_io_error() {
    let mut v = new_source(2048, 8, 0x200);
    put_word(&mut v, 0x200, 2040);
    let d = DatFile::from_bytes(v).unwrap();
    assert_eq!(d.read_file_by_loc(0x200), Err(DatError::Io));
}

#[test]
fn chain_cycle_is_format_error() {
    let mut v = new_source(2048, 8, 0x200);
    put_word(&mut v, 0x200, 0x200);
    let d = DatFile::from_bytes(v).unwrap();
    assert_eq!(d.read_file_by_loc(0x200), Err(DatError::Format));
}

#[test]
fn resource_is_truncated_to_logical_size() {
    let mut v = new_source(2048, 8, 0x200);
    for (k, b) in b"abcdefgh".iter().enumerate() {
        v[0x200 + 4 + k] = *b;
    }
    let d = DatFile::from_bytes(v).unwrap();
    assert_eq!(d.read_resource_by_location(0x200, 5), Ok(b"abcde".to_vec()));
}

#[test]
fn resource_size_beyond_chain_is_format_error() {
    let mut v = new_source(2048, 8, 0x200);
    let d = DatFile::from_bytes(v).unwrap();
    assert_eq!(d.read_resource_by_location(0x200, 9), Err(DatError::Format));
}

#[test]
fn read_by_id_returns_declared_prefix() {
    let d = leaf_container();
    assert_eq!(d.read_file_by_id(0x10), Ok(b"hello".to_vec()));
    assert_eq!(d.read_file_by_id(0x20), Ok(b"the".to_vec()));
}

#[test]
fn read_by_id_absent_is_not_found() {
    let d = leaf_container();
    assert_eq!(d.read_file_by_id(0x11), Err(DatError::NotFound));
}

#[test]
fn read_by_id_with_oversized_declared_length_is_format_error() {
    // The entry declares more bytes than its one-sector chain reconstructs:
    // an inconsistent directory.
    let mut v = new_source(4096, 512, 0x200);
    put_blob_word(&mut v, 0x200, NUM_FILES_OFF, 1);
    put_entry(&mut v, 0x200, 0, 0x10, 0x600, 600);
    let d = DatFile::from_bytes(v).unwrap();
    assert_eq!(d.read_file_by_id(0x10), Err(DatError::Format));
}

#[test]
fn read_by_id_through_a_branch_descent() {
    let d = two_level_container();
    assert_eq!(d.read_file_by_id(0x25), Ok(vec![0]));
}

#[test]
fn find_descends_branch_pointer_of_higher_entry() {
    let d = two_level_container();
    assert_eq!(d.find_file(0x25), Ok((0xD00, 1)));
}

#[test]
fn find_descends_first_branch_for_low_ids() {
    let d = two_level_container();
    assert_eq!(d.find_file(0x05), Ok((0xC00, 2)));
}

#[test]
fn find_hits_internal_node_entries_directly() {
    let d = two_level_container();
    assert_eq!(d.find_file(0x20), Ok((0xA00, 7)));
    assert_eq!(d.find_file(0x30), Ok((0xB00, 9)));
}

fn entry(id: u32, loc: u32, size: u32) -> DirectoryEntry {
    DirectoryEntry { id, loc, size }
}

#[test]
fn iterate_emits_branch_subtree_before_its_entry() {
    let d = two_level_container();
    let got = d.iterate_files().unwrap();
    let want = vec![
        entry(0x05, 0xC00, 2),
        entry(0x20, 0xA00, 7),
        entry(0x25, 0xD00, 1),
        entry(0x30, 0xB00, 9),
    ];
    assert_eq!(got, want);
}

#[test]
fn iterate_leaf_emits_entries_in_order() {
    let d = leaf_container();
    let got = d.iterate_files().unwrap();
    assert_eq!(got, vec![entry(0x10, 0x600, 5), entry(0x20, 0x700, 3)]);
}

#[test]
fn iterate_twice_yields_identical_sequences() {
    let d = two_level_container();
    let first = d.iterate_files();
    let second = d.iterate_files();
    assert_eq!(first, second);
}

#[test]
fn scan_observes_non_decreasing_ids() {
    // The monotonicity invariant of the format, observed on concrete nodes:
    // every node's decoded entries, and the ids a scan passes over, ascend.
    let d = two_level_container();
    for loc in [0x200u32, 0x600, 0x800] {
        let buf = d.read_file_by_loc(loc).unwrap();
        let node = DirectoryNode::parse(&buf).unwrap();
        for w in node.entries.windows(2) {
            assert!(w[0].id <= w[1].id);
        }
    }
}

#[test]
fn entry_count_overrun_is_format_error_in_parse() {
    let mut buf = vec![0u8; 512];
    // 512 bytes hold at most (512/4 - 63) / 6 = 10 entries; declare far more.
    put_word(&mut buf, NUM_FILES_OFF * 4, 100_000);
    assert_eq!(DirectoryNode::parse(&buf).err(), Some(DatError::Format));
}

#[test]
fn buffer_too_short_for_entry_count_is_format_error() {
    let buf = vec![0u8; (NUM_FILES_OFF + 1) * 4 - 1];
    assert_eq!(DirectoryNode::parse(&buf).err(), Some(DatError::Format));
}

#[test]
fn entry_count_overrun_is_format_error_in_find() {
    let mut v = new_source(4096, 512, 0x200);
    put_blob_word(&mut v, 0x200, NUM_FILES_OFF, 100_000);
    let d = DatFile::from_bytes(v).unwrap();
    assert_eq!(d.find_file(0x10), Err(DatError::Format));
}

#[test]
fn parse_decodes_flag_count_and_entries() {
    let d = leaf_container();
    let buf = d.read_file_by_loc(0x200).unwrap();
    assert_eq!(buf.len(), 512);
    let node = DirectoryNode::parse(&buf).unwrap();
    assert!(!node.has_children);
    assert_eq!(node.branch_pointers, vec![0, 0]);
    assert_eq!(node.entries, vec![entry(0x10, 0x600, 5), entry(0x20, 0x700, 3)]);
}
