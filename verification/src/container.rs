use vstd::prelude::*;

use crate::codec::{word_at, read_word, SECTOR_SIZE_LOC, ROOT_DIR_LOC_LOC};
use crate::error::DatError;

verus! {

use vstd::arithmetic::div_mod::{lemma_add_mod_noop, lemma_mod_self_0, lemma_small_mod};

/// A container: its raw bytes together with the two format parameters read
/// once from its header — the sector payload size and the root directory
/// location.
pub struct DatFile {
    pub(crate) data: Vec<u8>,
    pub(crate) sector_size: u32,
    pub(crate) root_dir_loc: u32,
}

/// Depth budget for following links through a container of `data.len()`
/// bytes.  Every node or sector of a link structure free of cycles sits at a
/// distinct nonzero offset inside the source, so no well-formed chain or
/// directory path is longer than this; running past it means a cycle, a
/// structural violation.
pub open spec fn fuel_of(data: Seq<u8>) -> nat {
    data.len()
}

/// What reconstructing the sector chain that starts at `loc` yields.
///
/// Location 0 is an absent or empty blob.  Otherwise each step reads the
/// 4-byte little-endian next-pointer at the current location, then the
/// `payload` bytes that follow it, and continues at the pointer just read
/// until the pointer is 0; a step that would read past the end of the source
/// is an I/O error, and a chain longer than any well-formed one (a cycle) is
/// a format error.
pub open spec fn chain_spec(data: Seq<u8>, payload: nat, loc: u32, fuel: nat) -> Result<
    Seq<u8>,
    DatError,
>
    decreases fuel,
{
    if loc == 0 {
        Ok(Seq::empty())
    } else if loc + 4 + payload > data.len() {
        Err(DatError::Io)
    } else if fuel == 0 {
        Err(DatError::Format)
    } else {
        let next = word_at(data, loc as int);
        let sector = data.subrange(loc + 4, loc + 4 + payload);
        match chain_spec(data, payload, next, (fuel - 1) as nat) {
            Ok(rest) => Ok(sector + rest),
            Err(e) => Err(e),
        }
    }
}

/// A reconstructed chain is a whole number of sectors: whenever the chain at
/// `loc` reconstructs, its length is an exact multiple of the payload size.
/// Trailing padding of the final sector is never trimmed by chain reading;
/// the true logical length lives in the directory.
pub proof fn lemma_chain_length_multiple(data: Seq<u8>, payload: nat, loc: u32, fuel: nat)
    requires
        0 < payload,
        chain_spec(data, payload, loc, fuel) matches Ok(_),
    ensures
        chain_spec(data, payload, loc, fuel)->Ok_0.len() % payload == 0,
    decreases fuel,
{
    if loc == 0 {
        lemma_small_mod(0, payload);
    } else {
        let next = word_at(data, loc as int);
        lemma_chain_length_multiple(data, payload, next, (fuel - 1) as nat);
        let rest = chain_spec(data, payload, next, (fuel - 1) as nat)->Ok_0;
        lemma_mod_self_0(payload as int);
        lemma_small_mod(0, payload);
        lemma_add_mod_noop(payload as int, rest.len() as int, payload as int);
    }
}

/// What opening a source yields: the sector payload size (the header's
/// sector-size word minus the 4-byte next-pointer width) and the root
/// directory location.  A source too short for the two header reads is an
/// I/O error; a derived payload size that is not positive is a format error.
pub open spec fn open_spec(data: Seq<u8>) -> Result<(u32, u32), DatError> {
    if data.len() < ROOT_DIR_LOC_LOC + 4 {
        Err(DatError::Io)
    } else if word_at(data, SECTOR_SIZE_LOC as int) <= 4 {
        Err(DatError::Format)
    } else {
        Ok(
            (
                (word_at(data, SECTOR_SIZE_LOC as int) - 4) as u32,
                word_at(data, ROOT_DIR_LOC_LOC as int),
            ),
        )
    }
}

impl DatFile {
    /// The container's raw bytes.
    pub closed spec fn source(&self) -> Seq<u8> {
        self.data@
    }

    /// Payload bytes per sector.
    pub closed spec fn payload_size(&self) -> u32 {
        self.sector_size
    }

    /// Location of the root directory node's chain.
    pub closed spec fn root_location(&self) -> u32 {
        self.root_dir_loc
    }

    /// A container is well formed when its sector payload size is positive,
    /// as every container built by `from_bytes` is.
    pub closed spec fn wf(&self) -> bool {
        1 <= self.sector_size
    }

    /// What reconstructing the chain at `loc` out of this container yields.
    pub open spec fn chain_of(&self, loc: u32) -> Result<Seq<u8>, DatError> {
        chain_spec(self.source(), self.payload_size() as nat, loc, fuel_of(self.source()))
    }

    /// What reading the resource at `loc` with logical byte length
    /// `logical_size` yields: the reconstructed chain truncated to that
    /// length, or a format error when the chain is shorter than the declared
    /// length (a corrupt or inconsistent directory entry).
    pub open spec fn resource_of(&self, loc: u32, logical_size: nat) -> Result<Seq<u8>, DatError> {
        match self.chain_of(loc) {
            Ok(bytes) => if logical_size > bytes.len() {
                Err(DatError::Format)
            } else {
                Ok(bytes.take(logical_size as int))
            },
            Err(e) => Err(e),
        }
    }

    /// Opens a container over an in-memory byte source: reads the sector
    /// size and root directory location from the fixed header offsets.
    pub fn from_bytes(data: Vec<u8>) -> (r: Result<DatFile, DatError>)
        ensures
            match r {
                Ok(d) => {
                    &&& open_spec(data@) == Ok::<(u32, u32), DatError>(
                        (d.payload_size(), d.root_location()),
                    )
                    &&& d.source() == data@
                    &&& d.wf()
                },
                Err(e) => open_spec(data@) == Err::<(u32, u32), DatError>(e),
            },
    {
        if data.len() < ROOT_DIR_LOC_LOC + 4 {
            return Err(DatError::Io);
        }
        let sector_word = read_word(&data, SECTOR_SIZE_LOC);
        if sector_word <= 4 {
            return Err(DatError::Format);
        }
        let root_dir_loc = read_word(&data, ROOT_DIR_LOC_LOC);
        Ok(DatFile { data, sector_size: sector_word - 4, root_dir_loc })
    }

    /// The sector payload size read from the header at open time.
    pub fn sector_payload_size(&self) -> (s: u32)
        ensures
            s == self.payload_size(),
    {
        self.sector_size
    }

    /// The root directory location read from the header at open time.
    pub fn root_directory_location(&self) -> (l: u32)
        ensures
            l == self.root_location(),
    {
        self.root_dir_loc
    }

    /// The byte length of the container's source.
    pub fn source_len(&self) -> (n: usize)
        ensures
            n == self.source().len(),
    {
        self.data.len()
    }

    /// Reconstructs one contiguous logical blob by following the sector
    /// chain that starts at `loc`.
    ///
    /// The result's length is always an exact multiple of the payload size:
    /// trailing padding of the final sector is never trimmed here, since the
    /// true length lives in the directory.
    pub fn read_file_by_loc(&self, loc: u32) -> (r: Result<Vec<u8>, DatError>)
        requires
            self.wf(),
        ensures
            match r {
                Ok(v) => self.chain_of(loc) == Ok::<Seq<u8>, DatError>(v@),
                Err(e) => self.chain_of(loc) == Err::<Seq<u8>, DatError>(e),
            },
    {
        let ghost goal = self.chain_of(loc);
        let mut result: Vec<u8> = Vec::new();
        let mut next_loc: u32 = loc;
        let mut fuel: usize = self.data.len();
        while next_loc != 0
            invariant
                self.wf(),
                goal == self.chain_of(loc),
                fuel <= self.source().len(),
                match chain_spec(
                    self.source(),
                    self.payload_size() as nat,
                    next_loc,
                    fuel as nat,
                ) {
                    Ok(rest) => goal == Ok::<Seq<u8>, DatError>(result@ + rest),
                    Err(e) => goal == Err::<Seq<u8>, DatError>(e),
                },
            decreases fuel,
        {
            let payload = self.sector_size;
            if next_loc as u64 + 4 + payload as u64 > self.data.len() as u64 {
                proof {
                    assert(chain_spec(
                        self.source(),
                        self.payload_size() as nat,
                        next_loc,
                        fuel as nat,
                    ) == Err::<Seq<u8>, DatError>(DatError::Io));
                }
                return Err(DatError::Io);
            }
            if fuel == 0 {
                proof {
                    assert(chain_spec(
                        self.source(),
                        self.payload_size() as nat,
                        next_loc,
                        fuel as nat,
                    ) == Err::<Seq<u8>, DatError>(DatError::Format));
                }
                return Err(DatError::Format);
            }
            let base = next_loc as usize;
            let next = read_word(&self.data, base);
            let ghost before = result@;
            let mut j: usize = 0;
            while j < payload as usize
                invariant
                    base + 4 + payload <= self.source().len(),
                    self.source().len() <= usize::MAX,
                    j <= payload,
                    result@ == before + self.source().subrange(base + 4, base + 4 + j),
                decreases payload - j,
            {
                result.push(self.data[base + 4 + j]);
                proof {
                    assert(result@ =~= before + self.source().subrange(
                        base + 4,
                        base + 4 + (j + 1),
                    ));
                }
                j += 1;
            }
            proof {
                let src = self.source();
                let p = self.payload_size() as nat;
                let sector = src.subrange(next_loc as int + 4, next_loc as int + 4 + p);
                assert(result@ == before + sector);
                match chain_spec(src, p, next, (fuel - 1) as nat) {
                    Ok(rest) => {
                        assert(chain_spec(src, p, next_loc, fuel as nat) == Ok::<Seq<u8>, DatError>(
                            sector + rest,
                        ));
                        assert(before + (sector + rest) =~= (before + sector) + rest);
                    },
                    Err(e) => {
                        assert(chain_spec(src, p, next_loc, fuel as nat) == Err::<
                            Seq<u8>,
                            DatError,
                        >(e));
                    },
                }
            }
            next_loc = next;
            fuel -= 1;
        }
        proof {
            assert(result@ + Seq::<u8>::empty() =~= result@);
        }
        Ok(result)
    }

    /// Reads the resource stored at `loc` whose directory entry declares
    /// `logical_size` bytes: reconstructs the chain and truncates it to the
    /// declared length.
    pub fn read_resource_by_location(&self, loc: u32, logical_size: usize) -> (r: Result<
        Vec<u8>,
        DatError,
    >)
        requires
            self.wf(),
        ensures
            match r {
                Ok(v) => self.resource_of(loc, logical_size as nat) == Ok::<Seq<u8>, DatError>(v@),
                Err(e) => self.resource_of(loc, logical_size as nat) == Err::<Seq<u8>, DatError>(e),
            },
    {
        let mut bytes = match self.read_file_by_loc(loc) {
            Ok(v) => v,
            Err(e) => return Err(e),
        };
        if logical_size > bytes.len() {
            return Err(DatError::Format);
        }
        bytes.truncate(logical_size);
        Ok(bytes)
    }
}

} // verus!
