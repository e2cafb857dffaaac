use vstd::prelude::*;

use crate::codec::{word_at, read_word, NUM_FILES_OFF};
use crate::error::DatError;

verus! {

/// One retrievable resource: its id, the location of its first sector, and
/// its logical byte length.
#[derive(Clone, Copy, PartialEq, Eq, Structural, Debug)]
pub struct DirectoryEntry {
    pub id: u32,
    pub loc: u32,
    pub size: u32,
}

/// Mathematical model of a decoded directory node.
pub struct NodeView {
    pub has_children: bool,
    pub branch_pointers: Seq<u32>,
    pub entries: Seq<DirectoryEntry>,
}

/// A directory node decoded from a reconstructed blob: a branch/entry table.
///
/// Word 0 of the blob is the has-children flag, and at the same time branch
/// pointer 0; words below `NUM_FILES_OFF` are the remaining branch pointers;
/// the word at `NUM_FILES_OFF` is the entry count; entry records of 6 words
/// each follow it.
pub struct DirectoryNode {
    pub has_children: bool,
    pub branch_pointers: Vec<u32>,
    pub entries: Vec<DirectoryEntry>,
}

impl View for DirectoryNode {
    type V = NodeView;

    open spec fn view(&self) -> NodeView {
        NodeView {
            has_children: self.has_children,
            branch_pointers: self.branch_pointers@,
            entries: self.entries@,
        }
    }
}

/// The monotonicity invariant of the format: within a well-formed node the
/// entries ascend by id.
pub open spec fn entries_sorted(entries: Seq<DirectoryEntry>) -> bool {
    forall|i: int, j: int|
        0 <= i <= j < entries.len() ==> #[trigger] entries[i].id <= #[trigger] entries[j].id
}

/// The entry record decoded from word index `NUM_FILES_OFF + 1 + 6 * i` of a
/// blob: 6 words per record, of which the second, third and fourth are the
/// id, the data location and the data size.
pub open spec fn entry_at(buf: Seq<u8>, i: int) -> DirectoryEntry {
    let base = (NUM_FILES_OFF + 1 + 6 * i) * 4;
    DirectoryEntry {
        id: word_at(buf, base + 4),
        loc: word_at(buf, base + 8),
        size: word_at(buf, base + 12),
    }
}

/// What decoding a blob as a directory node yields: a format error when the
/// buffer cannot hold the entry count word, or when the declared entry count
/// would overrun the buffer; otherwise the decoded node.
pub open spec fn parse_spec(buf: Seq<u8>) -> Result<NodeView, DatError> {
    if buf.len() < (NUM_FILES_OFF + 1) * 4 {
        Err(DatError::Format)
    } else {
        let count = word_at(buf, NUM_FILES_OFF as int * 4) as int;
        if (NUM_FILES_OFF + 1 + count * 6) * 4 > buf.len() {
            Err(DatError::Format)
        } else {
            Ok(
                NodeView {
                    has_children: word_at(buf, 0) != 0,
                    branch_pointers: Seq::new(count as nat, |i: int| word_at(buf, 4 * i)),
                    entries: Seq::new(count as nat, |i: int| entry_at(buf, i)),
                },
            )
        }
    }
}

impl DirectoryNode {
    /// Decodes a reconstructed blob as a directory node, with every word
    /// read bounds-checked against the buffer length.
    pub fn parse(buf: &Vec<u8>) -> (r: Result<DirectoryNode, DatError>)
        ensures
            match r {
                Ok(node) => parse_spec(buf@) == Ok::<NodeView, DatError>(node@),
                Err(e) => parse_spec(buf@) == Err::<NodeView, DatError>(e),
            },
    {
        let len = buf.len();
        if len < (NUM_FILES_OFF + 1) * 4 {
            return Err(DatError::Format);
        }
        let count = read_word(buf, NUM_FILES_OFF * 4);
        if (NUM_FILES_OFF as u64 + 1 + count as u64 * 6) * 4 > len as u64 {
            return Err(DatError::Format);
        }
        let count = count as usize;

        let mut branch_pointers: Vec<u32> = Vec::new();
        let mut i: usize = 0;
        while i < count
            invariant
                count * 24 <= buf@.len(),
                buf@.len() <= usize::MAX,
                i <= count,
                branch_pointers@.len() == i,
                forall|j: int| 0 <= j < i ==> branch_pointers@[j] == word_at(buf@, 4 * j),
            decreases count - i,
        {
            branch_pointers.push(read_word(buf, i * 4));
            i += 1;
        }

        let mut entries: Vec<DirectoryEntry> = Vec::new();
        let mut i: usize = 0;
        while i < count
            invariant
                (NUM_FILES_OFF + 1 + count * 6) * 4 <= buf@.len(),
                buf@.len() <= usize::MAX,
                i <= count,
                entries@.len() == i,
                forall|j: int| 0 <= j < i ==> entries@[j] == entry_at(buf@, j),
            decreases count - i,
        {
            let base = (NUM_FILES_OFF + 1 + i * 6) * 4;
            entries.push(
                DirectoryEntry {
                    id: read_word(buf, base + 4),
                    loc: read_word(buf, base + 8),
                    size: read_word(buf, base + 12),
                },
            );
            i += 1;
        }

        let node = DirectoryNode { has_children: read_word(buf, 0) != 0, branch_pointers, entries };
        proof {
            let view = parse_spec(buf@)->Ok_0;
            assert(node@.branch_pointers =~= view.branch_pointers);
            assert(node@.entries =~= view.entries);
        }
        Ok(node)
    }
}

} // verus!
