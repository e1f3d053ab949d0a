//! Storage that is read and written in blocks of 512 bytes.

use vstd::prelude::*;

verus! {

/// The size of a block in bytes.
pub const BSIZE: usize = 512;

/// A device that holds numbered blocks. Both methods give the number of
/// bytes that were moved, or `None` where the device failed. Nothing is
/// promised of what a device hands back; what a caller owes it is a buffer
/// of one block.
pub trait BlockDevice {
    /// Reads the block `blk_id` into `buf`, which is one block long.
    fn read(&mut self, blk_id: usize, buf: &mut [u8]) -> Option<usize>
        requires
            old(buf)@.len() == BSIZE,
    ;

    /// Writes `buf`, which is one block long, to the block `blk_id`.
    fn write(&mut self, blk_id: usize, buf: &[u8]) -> Option<usize>
        requires
            buf@.len() == BSIZE,
    ;
}

} // verus!
