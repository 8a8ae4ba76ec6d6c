//! Minix 3 file system constants.
use vstd::prelude::*;

verus! {

pub const DEFAULT_BLOCK_SIZE: u16 = 1024;
pub const BOOT_BLOCK_BYTES: u64 = 1024;
/// The size of the on-disk superblock (its `repr(C)` layout).
pub const SUPERBLOCK_BYTES: u64 = 32;
pub const SUPERBLOCK_PADDING: u64 = 992;
pub const ROOT_INODE: u64 = 1;
/// The size of an on-disk inode.
pub const INODE_BYTES: u64 = 64;
pub const NUM_ZONE_POINTERS: usize = 10;
pub const ZONE_POINTER_BYTES: usize = 4;
pub const INDIRECT_ZONE: usize = 7;
pub const DINDIRECT_ZONE: usize = 8;
pub const TINDIRECT_ZONE: usize = 9;
pub const DIR_ENTRY_NAME_SIZE: usize = 60;
/// The size of an on-disk directory entry.
pub const DIR_ENTRY_BYTES: u64 = 64;
pub const MAX_FILE_SIZE: u32 = 0x7fff_ffff;
pub const DEFAULT_DISK_VERSION: u8 = 0;
pub const MINIX_MAGIC: u16 = 0x4d5a;
pub const MAX_SYMLINK_SIZE: usize = 64;

} // verus!
