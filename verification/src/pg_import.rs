//! Importing relation files of a Postgres data directory: which blocks a
//! segment file holds.
//!
//! A relation is stored in segment files of one gigabyte. A segment file
//! holds whole blocks, and its blocks are numbered from the first block of
//! the segment on.

use vstd::prelude::*;

verus! {

/// Size of a block in bytes.
pub const BLCKSZ: u32 = 8192;

/// Blocks in a full segment of one gigabyte.
pub const RELSEG_SIZE: u32 = 131072;

/// Why a segment file cannot be imported.
#[derive(Debug, Clone, Copy, PartialEq, Eq)]
pub enum ImportError {
    /// The length of the file is not a multiple of the block size.
    NotBlockAligned,
    /// The file ended before or after the block that its length announced.
    UnexpectedEof,
}

/// The import of one segment file, block by block.
#[derive(Debug, Clone, Copy, PartialEq, Eq)]
pub struct RelSegment {
    /// Number of the segment within its relation.
    pub segno: u32,
    /// Blocks that the length of the file announces.
    pub nblocks: u64,
    /// Number of the block that is read next.
    pub blknum: u32,
}

impl RelSegment {
    /// The number of the first block of the segment.
    pub open spec fn first_block(self) -> int {
        self.segno * RELSEG_SIZE
    }

    /// The block numbers lie within the segment's range of `u32`.
    pub open spec fn wf(self) -> bool {
        self.first_block() <= self.blknum
    }

    /// Starts the import of segment `segno`, whose file is `len` bytes long.
    ///
    /// # Errors
    ///
    /// The length has to be a multiple of the block size.
    pub fn new(len: u64, segno: u32) -> (res: Result<RelSegment, ImportError>)
        requires
            segno * RELSEG_SIZE <= u32::MAX,
        ensures
            res is Err <==> len % (BLCKSZ as u64) != 0,
            res matches Err(e) ==> e == ImportError::NotBlockAligned,
            res matches Ok(segment) ==> segment.segno == segno && segment.nblocks == len / (
            BLCKSZ as u64) && segment.blknum == segno * RELSEG_SIZE && segment.wf(),
    {
        if len % (BLCKSZ as u64) != 0 {
            return Err(ImportError::NotBlockAligned);
        }
        Ok(RelSegment { segno, nblocks: len / (BLCKSZ as u64), blknum: segno * RELSEG_SIZE })
    }

    /// Takes note that a block was read, and returns its number.
    pub fn block_read(&mut self) -> (blknum: u32)
        requires
            old(self).wf(),
            old(self).blknum < u32::MAX,
        ensures
            blknum == old(self).blknum,
            final(self).blknum == old(self).blknum + 1,
            final(self).segno == old(self).segno,
            final(self).nblocks == old(self).nblocks,
            final(self).wf(),
    {
        let blknum = self.blknum;
        self.blknum = self.blknum + 1;
        blknum
    }

    /// Takes note that the file has ended.
    ///
    /// # Errors
    ///
    /// The blocks that were read have to be as many as the length of the
    /// file announced.
    pub fn eof(&self) -> (res: Result<(), ImportError>)
        requires
            self.wf(),
        ensures
            res is Ok <==> self.blknum - self.first_block() == self.nblocks,
            res matches Err(e) ==> e == ImportError::UnexpectedEof,
    {
        let relative_blknum = self.blknum - self.segno * RELSEG_SIZE;
        if relative_blknum as u64 == self.nblocks {
            Ok(())
        } else {
            Err(ImportError::UnexpectedEof)
        }
    }
}

} // verus!
