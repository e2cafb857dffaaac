use vstd::prelude::*;

use crate::container::{DatFile, fuel_of};
use crate::error::DatError;
use crate::node::{DirectoryEntry, DirectoryNode, NodeView, entries_sorted, parse_spec};

verus! {

/// What decoding the directory node stored at `loc` yields: the chain at
/// `loc` reconstructed and parsed as a branch/entry table.
pub open spec fn node_of(d: &DatFile, loc: u32) -> Result<NodeView, DatError> {
    match d.chain_of(loc) {
        Ok(bytes) => parse_spec(bytes),
        Err(e) => Err(e),
    }
}

/// One outcome of scanning a node's entries left to right for an id.
pub enum ScanStep {
    /// The id was found; its data location and size.
    Found(u32, u32),
    /// An entry above the id was met in a leaf: the id is absent.
    Missing,
    /// An entry above the id was met in an internal node: descend into the
    /// branch pointer at that entry's index.
    Descend(u32),
    /// Every entry lies below the id: the node offers no further path.
    Exhausted,
}

/// The outcome of scanning a node's entries left to right from index `i`:
/// entries below the id are passed over; the first entry not below it
/// decides.
pub open spec fn scan_spec(node: NodeView, id: u32, i: int) -> ScanStep
    recommends
        0 <= i,
    decreases node.entries.len() - i,
{
    if i >= node.entries.len() {
        ScanStep::Exhausted
    } else if id > node.entries[i].id {
        scan_spec(node, id, i + 1)
    } else if id == node.entries[i].id {
        ScanStep::Found(node.entries[i].loc, node.entries[i].size)
    } else if !node.has_children {
        ScanStep::Missing
    } else {
        ScanStep::Descend(node.branch_pointers[i])
    }
}

/// What searching for `id` from the node at `loc` yields, with `fuel` node
/// visits left.
///
/// Each visit decodes the node and scans it.  A hit returns the entry's
/// location and size; a miss in a leaf is NotFound; a miss in an internal
/// node descends into the branch pointer at the miss index.  A node whose
/// entries all lie below the id offers no branch to descend into — the id is
/// unresolvable there, the search makes no progress, and the depth budget
/// runs out as it does on a cyclic directory: a format error.
pub open spec fn find_spec(d: &DatFile, loc: u32, id: u32, fuel: nat) -> Result<
    (u32, u32),
    DatError,
>
    decreases fuel,
{
    if fuel == 0 {
        Err(DatError::Format)
    } else {
        match node_of(d, loc) {
            Err(e) => Err(e),
            Ok(node) => match scan_spec(node, id, 0) {
                ScanStep::Found(l, s) => Ok((l, s)),
                ScanStep::Missing => Err(DatError::NotFound),
                ScanStep::Descend(b) => find_spec(d, b, id, (fuel - 1) as nat),
                ScanStep::Exhausted => find_spec(d, loc, id, (fuel - 1) as nat),
            },
        }
    }
}

/// What searching the whole directory for `id` yields.
pub open spec fn find_of(d: &DatFile, id: u32) -> Result<(u32, u32), DatError> {
    find_spec(d, d.root_location(), id, fuel_of(d.source()))
}

/// What reading the resource keyed by `id` yields: the data located by the
/// directory search, truncated to the size the entry declares.
pub open spec fn read_by_id_of(d: &DatFile, id: u32) -> Result<Seq<u8>, DatError> {
    match find_of(d, id) {
        Ok(p) => d.resource_of(p.0, p.1 as nat),
        Err(e) => Err(e),
    }
}

/// What traversing the directory subtree rooted at the node stored at `loc`
/// yields, with `fuel` descents left: the node's entries in pre-order, each
/// preceded by the entries of the subtree its branch pointer leads to.
pub open spec fn iter_node_spec(d: &DatFile, loc: u32, fuel: nat) -> Result<
    Seq<DirectoryEntry>,
    DatError,
>
    decreases fuel, 1int, 0int,
{
    match node_of(d, loc) {
        Err(e) => Err(e),
        Ok(node) => iter_entries_spec(d, node, 0, fuel),
    }
}

/// The tail of a node's pre-order traversal from entry index `i` on: for
/// each entry, first the entries of the subtree behind its branch pointer
/// (when the node has children), then the entry itself.  Descending deeper
/// than any well-formed tree reaches (a cyclic directory) is a format error.
pub open spec fn iter_entries_spec(d: &DatFile, node: NodeView, i: int, fuel: nat) -> Result<
    Seq<DirectoryEntry>,
    DatError,
>
    recommends
        0 <= i,
    decreases fuel, 0int, node.entries.len() - i,
{
    if i >= node.entries.len() {
        Ok(Seq::empty())
    } else {
        let sub = if !node.has_children {
            Ok(Seq::empty())
        } else if fuel == 0 {
            Err(DatError::Format)
        } else {
            iter_node_spec(d, node.branch_pointers[i], (fuel - 1) as nat)
        };
        match sub {
            Err(e) => Err(e),
            Ok(pre) => match iter_entries_spec(d, node, i + 1, fuel) {
                Err(e) => Err(e),
                Ok(rest) => Ok(pre + seq![node.entries[i]] + rest),
            },
        }
    }
}

/// What traversing the whole directory yields: every entry, in pre-order
/// with each branch's subtree before its entry.
pub open spec fn iterate_of(d: &DatFile) -> Result<Seq<DirectoryEntry>, DatError> {
    iter_node_spec(d, d.root_location(), fuel_of(d.source()))
}

/// Iterating an unchanged container is restartable: any two outcomes that
/// the iteration contract admits for the same container are the identical
/// ordered sequence.
pub proof fn lemma_iterate_restartable(
    d: &DatFile,
    r1: Result<Seq<DirectoryEntry>, DatError>,
    r2: Result<Seq<DirectoryEntry>, DatError>,
)
    requires
        r1 == iterate_of(d),
        r2 == iterate_of(d),
    ensures
        r1 == r2,
{
}

/// A left-to-right scan for `id` examines entry index `k` exactly when every
/// earlier entry lies strictly below `id`.
pub open spec fn scan_visits(node: NodeView, id: u32, k: int) -> bool {
    &&& 0 <= k < node.entries.len()
    &&& forall|m: int| 0 <= m < k ==> #[trigger] node.entries[m].id < id
}

/// The scan from index 0 reaches every index it visits: up to there it only
/// passes over entries below the id, so the whole scan's outcome is the
/// outcome from that index on.
pub proof fn lemma_scan_reaches(node: NodeView, id: u32, k: int)
    requires
        scan_visits(node, id, k),
    ensures
        scan_spec(node, id, 0) == scan_spec(node, id, k),
    decreases k,
{
    if k > 0 {
        lemma_scan_reaches(node, id, k - 1);
        assert(scan_spec(node, id, k - 1) == scan_spec(node, id, k));
    }
}

/// Entries observed during a scan of a well-formed node are non-decreasing
/// in id: a scan examines indices left to right, and within a well-formed
/// node ids ascend, so an id examined later is never below one examined
/// earlier.
pub proof fn lemma_scan_observes_ascending_ids(node: NodeView, id: u32, i: int, j: int)
    requires
        entries_sorted(node.entries),
        scan_visits(node, id, j),
        0 <= i <= j,
    ensures
        scan_visits(node, id, i),
        node.entries[i].id <= node.entries[j].id,
{
}

/// Scans a decoded node's entries left to right for `id`.
fn scan_node(node: &DirectoryNode, id: u32) -> (r: ScanStep)
    requires
        node@.branch_pointers.len() == node@.entries.len(),
    ensures
        r == scan_spec(node@, id, 0),
{
    let n = node.entries.len();
    let mut i: usize = 0;
    while i < n
        invariant
            node@.branch_pointers.len() == node@.entries.len(),
            n == node@.entries.len(),
            i <= n,
            scan_spec(node@, id, 0) == scan_spec(node@, id, i as int),
        decreases n - i,
    {
        let e = node.entries[i];
        if id > e.id {
            i += 1;
        } else if id == e.id {
            return ScanStep::Found(e.loc, e.size);
        } else if !node.has_children {
            return ScanStep::Missing;
        } else {
            return ScanStep::Descend(node.branch_pointers[i]);
        }
    }
    ScanStep::Exhausted
}

impl DatFile {
    /// Searches the directory tree for `search_id`, starting at the root
    /// node, and returns the matching entry's data location and size.
    pub fn find_file(&self, search_id: u32) -> (r: Result<(u32, u32), DatError>)
        requires
            self.wf(),
        ensures
            match r {
                Ok(p) => find_of(self, search_id) == Ok::<(u32, u32), DatError>(p),
                Err(e) => find_of(self, search_id) == Err::<(u32, u32), DatError>(e),
            },
    {
        let ghost goal = find_of(self, search_id);
        let mut dir_loc: u32 = self.root_directory_location();
        let mut fuel: usize = self.source_len();
        loop
            invariant
                self.wf(),
                goal == find_of(self, search_id),
                goal == find_spec(self, dir_loc, search_id, fuel as nat),
            decreases fuel,
        {
            if fuel == 0 {
                return Err(DatError::Format);
            }
            let buf = match self.read_file_by_loc(dir_loc) {
                Ok(b) => b,
                Err(e) => {
                    proof {
                        assert(node_of(self, dir_loc) == Err::<NodeView, DatError>(e));
                    }
                    return Err(e);
                },
            };
            let node = match DirectoryNode::parse(&buf) {
                Ok(n) => n,
                Err(e) => {
                    proof {
                        assert(node_of(self, dir_loc) == Err::<NodeView, DatError>(e));
                    }
                    return Err(e);
                },
            };
            proof {
                assert(node_of(self, dir_loc) == Ok::<NodeView, DatError>(node@));
            }
            match scan_node(&node, search_id) {
                ScanStep::Found(l, s) => {
                    return Ok((l, s));
                },
                ScanStep::Missing => {
                    return Err(DatError::NotFound);
                },
                ScanStep::Descend(b) => {
                    dir_loc = b;
                },
                ScanStep::Exhausted => {
                },
            }
            fuel -= 1;
        }
    }

    /// Reads the resource keyed by `search_id`: searches the directory, then
    /// materializes the entry's data truncated to its declared size.
    pub fn read_file_by_id(&self, search_id: u32) -> (r: Result<Vec<u8>, DatError>)
        requires
            self.wf(),
        ensures
            match r {
                Ok(v) => read_by_id_of(self, search_id) == Ok::<Seq<u8>, DatError>(v@),
                Err(e) => read_by_id_of(self, search_id) == Err::<Seq<u8>, DatError>(e),
            },
    {
        let (loc, size) = match self.find_file(search_id) {
            Ok(p) => p,
            Err(e) => return Err(e),
        };
        self.read_resource_by_location(loc, size as usize)
    }

    /// Traverses the whole directory and returns every entry, in pre-order
    /// with each branch's subtree before its entry.  Two calls on an
    /// unchanged container yield the identical ordered sequence.
    pub fn iterate_files(&self) -> (r: Result<Vec<DirectoryEntry>, DatError>)
        requires
            self.wf(),
        ensures
            match r {
                Ok(v) => iterate_of(self) == Ok::<Seq<DirectoryEntry>, DatError>(v@),
                Err(e) => iterate_of(self) == Err::<Seq<DirectoryEntry>, DatError>(e),
            },
    {
        let mut out: Vec<DirectoryEntry> = Vec::new();
        let root = self.root_directory_location();
        let fuel = self.source_len();
        match self.inner_iterate_files(root, fuel, &mut out) {
            Ok(_) => Ok(out),
            Err(e) => Err(e),
        }
    }

    /// Traverses the subtree rooted at the node stored at `dir_loc`,
    /// appending its entries to `out` in pre-order.
    #[verifier::loop_isolation(false)]
    fn inner_iterate_files(&self, dir_loc: u32, fuel: usize, out: &mut Vec<DirectoryEntry>) -> (r:
        Result<(), DatError>)
        requires
            self.wf(),
        ensures
            match r {
                Ok(_) => iter_node_spec(self, dir_loc, fuel as nat) matches Ok(s) && final(out)@
                    == old(out)@ + s,
                Err(e) => iter_node_spec(self, dir_loc, fuel as nat) == Err::<
                    Seq<DirectoryEntry>,
                    DatError,
                >(e) && old(out)@.is_prefix_of(final(out)@),
            },
        decreases fuel,
    {
        let ghost out0 = out@;
        proof {
            assert(out0.is_prefix_of(out0)) by {
                assert(out0.subrange(0, out0.len() as int) =~= out0);
            }
        }
        let buf = match self.read_file_by_loc(dir_loc) {
            Ok(b) => b,
            Err(e) => {
                proof {
                    assert(node_of(self, dir_loc) == Err::<NodeView, DatError>(e));
                }
                return Err(e);
            },
        };
        let node = match DirectoryNode::parse(&buf) {
            Ok(n) => n,
            Err(e) => {
                proof {
                    assert(node_of(self, dir_loc) == Err::<NodeView, DatError>(e));
                }
                return Err(e);
            },
        };
        proof {
            assert(node_of(self, dir_loc) == Ok::<NodeView, DatError>(node@));
        }
        let ghost total = iter_entries_spec(self, node@, 0, fuel as nat);
        let ghost mut emitted = Seq::<DirectoryEntry>::empty();
        proof {
            assert(out@ =~= out0 + emitted);
        }
        let n = node.entries.len();
        let mut i: usize = 0;
        while i < n
            invariant
                self.wf(),
                node@.branch_pointers.len() == node@.entries.len(),
                n == node@.entries.len(),
                i <= n,
                total == iter_entries_spec(self, node@, 0, fuel as nat),
                iter_node_spec(self, dir_loc, fuel as nat) == total,
                out@ == out0 + emitted,
                match iter_entries_spec(self, node@, i as int, fuel as nat) {
                    Ok(rest) => total == Ok::<Seq<DirectoryEntry>, DatError>(emitted + rest),
                    Err(e) => total == Err::<Seq<DirectoryEntry>, DatError>(e),
                },
            decreases n - i,
        {
            let e = node.entries[i];
            if node.has_children {
                if fuel == 0 {
                    proof {
                        assert(iter_entries_spec(self, node@, i as int, fuel as nat) == Err::<
                            Seq<DirectoryEntry>,
                            DatError,
                        >(DatError::Format));
                        assert(out0.is_prefix_of(out@)) by {
                            assert(out@.subrange(0, out0.len() as int) =~= out0);
                        }
                    }
                    return Err(DatError::Format);
                }
                let ghost before_child = out@;
                match self.inner_iterate_files(node.branch_pointers[i], fuel - 1, out) {
                    Ok(_) => {
                    },
                    Err(er) => {
                        proof {
                            assert(iter_entries_spec(self, node@, i as int, fuel as nat) == Err::<
                                Seq<DirectoryEntry>,
                                DatError,
                            >(er));
                            assert(out0.is_prefix_of(out@)) by {
                                assert(before_child.subrange(0, out0.len() as int) =~= out0);
                                assert(out@.subrange(0, out0.len() as int) =~= out0);
                            }
                        }
                        return Err(er);
                    },
                }
            }
            out.push(e);
            proof {
                let sub = if !node@.has_children {
                    Ok::<Seq<DirectoryEntry>, DatError>(Seq::empty())
                } else {
                    iter_node_spec(self, node@.branch_pointers[i as int], (fuel - 1) as nat)
                };
                let pre = sub->Ok_0;
                match iter_entries_spec(self, node@, i + 1, fuel as nat) {
                    Ok(rest) => {
                        assert(iter_entries_spec(self, node@, i as int, fuel as nat) == Ok::<
                            Seq<DirectoryEntry>,
                            DatError,
                        >(pre + seq![node@.entries[i as int]] + rest));
                        assert((emitted + pre + seq![e]) + rest =~= emitted + (pre + seq![
                            node@.entries[i as int],
                        ] + rest));
                    },
                    Err(e2) => {
                        assert(iter_entries_spec(self, node@, i as int, fuel as nat) == Err::<
                            Seq<DirectoryEntry>,
                            DatError,
                        >(e2));
                    },
                }
                emitted = emitted + pre + seq![e];
                assert(out@ =~= out0 + emitted);
            }
            i += 1;
        }
        proof {
            assert(iter_entries_spec(self, node@, n as int, fuel as nat) == Ok::<
                Seq<DirectoryEntry>,
                DatError,
            >(Seq::empty()));
            assert(emitted + Seq::<DirectoryEntry>::empty() =~= emitted);
        }
        Ok(())
    }
}

} // verus!
