//! mzFAT constants.
use vstd::prelude::*;

verus! {

/// The magic number at the end of the superblock.
pub const MZFAT_MAGIC: u16 = 0xF4A2;
pub const BLOCKS_PER_CLUSTER: u64 = 4;
/// The bytes of the superblock.
pub const SUPERBLOCK_SIZE: usize = 16;
/// The end of a cluster chain.
pub const FAT_EOC: u32 = 0xFFFF_FFFF;
/// The block size of a new image.
pub const DEFAULT_BLOCK_SIZE: u64 = 4096;
/// The bytes of a name in a directory entry.
pub const DIR_ENTRY_SIZE: usize = 32;

} // verus!
