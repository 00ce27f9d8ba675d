//! Memo side files: block size per dialect and payloads addressed by block.
use vstd::prelude::*;

use crate::bytes::{be_u16_at, be_u16_of, be_u32_at, be_u32_of, copy_range, le_u16_at, le_u16_of,
    le_u32_at, le_u32_of};
use crate::error::DbfError;
use crate::version::Version;

verus! {

/// The byte that ends a dBase III memo.
pub const MEMO_TERMINATOR: u8 = 0x1A;

/// Block size used by dBase III memo files, and by dBase IV ones that
/// declare none.
pub const DEFAULT_BLOCK_SIZE: u16 = 512;

/// The contents of a memo side file and how to address it.
pub struct MemoReader {
    data: Vec<u8>,
    version: Version,
    block_size: u16,
}

/// Block size that a memo file of the given dialect declares, if the file is
/// long enough to declare it.
pub open spec fn block_size_of(version: Version, data: Seq<u8>) -> Option<u16> {
    match version {
        Version::DBase3 => Some(512u16),
        Version::DBase4 => if data.len() < 6 {
            None
        } else if le_u16_of(data.subrange(4, 6)) == 0 {
            Some(512u16)
        } else {
            Some(le_u16_of(data.subrange(4, 6)) as u16)
        },
        _ => if data.len() < 10 {
            None
        } else {
            Some(be_u16_of(data.subrange(8, 10)) as u16)
        },
    }
}

/// Position of the first memo terminator in `data` at or after `start`, or
/// the end of `data`.
pub open spec fn terminator_from(data: Seq<u8>, start: int) -> int
    decreases data.len() - start,
{
    if start < 0 || start >= data.len() || data[start] == 0x1A {
        start
    } else {
        terminator_from(data, start + 1)
    }
}

/// The payload of the memo at block `index`, or `None` where the file ends
/// before it.
pub open spec fn memo_payload(version: Version, block_size: u16, data: Seq<u8>, index: u32) -> Option<
    Seq<u8>,
> {
    let off = index as int * block_size as int;
    match version {
        Version::DBase3 => if off >= data.len() {
            None
        } else {
            Some(data.subrange(off, terminator_from(data, off)))
        },
        Version::DBase4 => if off + 8 > data.len() {
            None
        } else if off + 8 + le_u32_of(data.subrange(off + 4, off + 8)) > data.len() {
            None
        } else {
            Some(data.subrange(off + 8, off + 8 + le_u32_of(data.subrange(off + 4, off + 8))))
        },
        _ => if off + 8 > data.len() {
            None
        } else if off + 8 + be_u32_of(data.subrange(off + 4, off + 8)) > data.len() {
            None
        } else {
            Some(data.subrange(off + 8, off + 8 + be_u32_of(data.subrange(off + 4, off + 8))))
        },
    }
}

impl MemoReader {
    /// The memo file's bytes.
    pub closed spec fn data(&self) -> Seq<u8> {
        self.data@
    }

    /// The dialect of the table that the memo file belongs to.
    pub closed spec fn version(&self) -> Version {
        self.version
    }

    /// The size of one block, in bytes.
    pub closed spec fn block_size(&self) -> u16 {
        self.block_size
    }

    /// Opens a memo file held in `data` for a table of dialect `version`,
    /// reading its block size from the file's header where the dialect has one.
    pub fn from_reader(data: Vec<u8>, version: Version) -> (r: Result<MemoReader, DbfError>)
        ensures
            r is Ok <==> block_size_of(version, data@) is Some,
            r is Err ==> r->Err_0 is Io,
            r is Ok ==> r->Ok_0.data() == data@ && r->Ok_0.version() == version
                && Some(r->Ok_0.block_size()) == block_size_of(version, data@),
    {
        let block_size: u16 = match version {
            Version::DBase3 => DEFAULT_BLOCK_SIZE,
            Version::DBase4 => {
                if data.len() < 6 {
                    return Err(DbfError::Io);
                }
                let v = le_u16_at(data.as_slice(), 4);
                if v == 0 {
                    DEFAULT_BLOCK_SIZE
                } else {
                    v
                }
            },
            _ => {
                if data.len() < 10 {
                    return Err(DbfError::Io);
                }
                be_u16_at(data.as_slice(), 8)
            },
        };
        Ok(MemoReader { data, version, block_size })
    }

    /// The dialect of the table that the memo file belongs to.
    pub fn get_version(&self) -> (r: Version)
        ensures
            r == self.version(),
    {
        self.version
    }

    /// The size of one block, in bytes.
    pub fn get_block_size(&self) -> (r: u16)
        ensures
            r == self.block_size(),
    {
        self.block_size
    }

    /// Reads the memo at block `index`. dBase III memos run to the first
    /// terminator byte or the end of the file; the other dialects skip four
    /// reserved bytes and read a 32-bit length (little-endian for dBase IV,
    /// big-endian for the FoxPro family) followed by that many bytes.
    pub fn read_memo(&self, index: u32) -> (r: Result<Vec<u8>, DbfError>)
        ensures
            r is Ok <==> memo_payload(self.version(), self.block_size(), self.data(), index) is Some,
            r is Ok ==> Some(r->Ok_0@) == memo_payload(self.version(), self.block_size(), self.data(), index),
            r is Err ==> r->Err_0 is Io,
    {
        let len = self.data.len();
        assert(index as int * self.block_size as int <= 0xFFFF_FFFF * 0xFFFF) by (nonlinear_arith)
            requires
                index <= 0xFFFF_FFFFu32,
                self.block_size <= 0xFFFFu16,
        ;
        let off: u64 = index as u64 * self.block_size as u64;
        match self.version {
            Version::DBase3 => {
                if off >= len as u64 {
                    return Err(DbfError::Io);
                }
                let start = off as usize;
                let mut end: usize = start;
                while end < len && self.data[end] != MEMO_TERMINATOR
                    invariant
                        start <= end <= len,
                        len == self.data@.len(),
                        terminator_from(self.data@, start as int) == terminator_from(self.data@, end as int),
                    decreases len - end,
                {
                    end = end + 1;
                }
                Ok(copy_range(self.data.as_slice(), start, end))
            },
            _ => {
                if off > len as u64 || len - (off as usize) < 8 {
                    return Err(DbfError::Io);
                }
                let start = off as usize;
                let length: u32 = match self.version {
                    Version::DBase4 => le_u32_at(self.data.as_slice(), start + 4),
                    _ => be_u32_at(self.data.as_slice(), start + 4),
                };
                if ((len - (start + 8)) as u64) < (length as u64) {
                    return Err(DbfError::Io);
                }
                Ok(copy_range(self.data.as_slice(), start + 8, start + 8 + length as usize))
            },
        }
    }
}

/// In the dialects whose memos carry a length, block index zero is an
/// ordinary seek to the start of the file: its length prefix is read from
/// bytes 4 to 8 and its payload follows it.
pub proof fn lemma_block_zero(version: Version, block_size: u16, data: Seq<u8>)
    requires
        version != Version::DBase3,
    ensures
        memo_payload(version, block_size, data, 0) == if data.len() < 8 {
            None
        } else {
            let l = if version == Version::DBase4 {
                le_u32_of(data.subrange(4, 8))
            } else {
                be_u32_of(data.subrange(4, 8))
            };
            if 8 + l > data.len() {
                None
            } else {
                Some(data.subrange(8, 8 + l))
            }
        },
{
}

} // verus!
