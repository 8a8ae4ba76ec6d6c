//! The superblock of a new mzFAT image.
use crate::fs::{writes_view, ImageWrite};
use crate::mzfat::consts::{DEFAULT_BLOCK_SIZE, MZFAT_MAGIC};
use crate::mzfat::superblock::{sb_bytes, Superblock};
use vstd::prelude::*;

verus! {

/// The blocks of an image of `size` bytes.
pub open spec fn mz_blocks(size: u64) -> int {
    size as int / 4096
}

/// The FAT blocks of a new image: 4 bytes per block, counted in blocks.
pub open spec fn mz_fat_blocks(size: u64) -> int {
    4 * (mz_blocks(size) + 4095) / 4096
}

/// The bitmap blocks of a new image, at least one.
pub open spec fn mz_bitmap_blocks(size: u64) -> int {
    let b = (mz_blocks(size) + 4095) / 4096 / 8;
    if b < 1 {
        1
    } else {
        b
    }
}

/// The sizes of a new image fit its superblock's fields: the FAT is not
/// empty (its first entry is set when it is made), the block offsets stay
/// within 16 bits and the data blocks are not negative.
pub open spec fn mz_mkfs_ok(size: u64) -> bool {
    let fat = mz_fat_blocks(size) as u16;
    let bitmap_off = 1 + fat;
    let root_off = bitmap_off + (mz_bitmap_blocks(size) as u16);
    &&& fat > 0
    &&& bitmap_off <= u16::MAX
    &&& root_off <= u16::MAX
    &&& (mz_blocks(size) as u32) >= root_off
}

/// The superblock of a new image of `size` bytes: FAT from block 1, the
/// bitmap after it, then the root directory. The block shift is 10.
pub open spec fn mz_superblock(size: u64) -> Superblock {
    let fat = mz_fat_blocks(size) as u16;
    let bitmap_off = (1 + fat) as u16;
    let bitmap = mz_bitmap_blocks(size) as u16;
    let root_off = (bitmap_off + bitmap) as u16;
    Superblock {
        block_shift: 10,
        fat_block_offset: 1,
        fat_num_blocks: fat,
        bitmap_block_offset: bitmap_off,
        bitmap_num_blocks: bitmap,
        root_block_offset: root_off,
        num_data_blocks: ((mz_blocks(size) as u32) - root_off) as u32,
        magic: MZFAT_MAGIC,
    }
}

/// Whether an image of `size` bytes can hold an mzFAT layout: a FAT, a
/// bitmap and the root directory whose offsets fit in 16 bits, within the
/// blocks of the image.
pub fn mkfs_size_ok(size: u64) -> (r: bool)
    ensures
        r == mz_mkfs_ok(size),
{
    let blocks: u64 = size / DEFAULT_BLOCK_SIZE;
    let fat = (4 * (blocks + DEFAULT_BLOCK_SIZE - 1) / DEFAULT_BLOCK_SIZE) as u16;
    let b = (blocks + DEFAULT_BLOCK_SIZE - 1) / DEFAULT_BLOCK_SIZE / 8;
    let bitmap = (if b < 1 {
        1
    } else {
        b
    }) as u16;
    let bitmap_off = 1u32 + fat as u32;
    let root_off = bitmap_off + bitmap as u32;
    fat > 0 && bitmap_off <= 0xFFFF && root_off <= 0xFFFF && (blocks as u32) >= root_off
}

/// The superblock of a new image of `size` bytes.
pub fn mkfs_superblock(size: u64) -> (r: Superblock)
    requires
        mz_mkfs_ok(size),
    ensures
        r == mz_superblock(size),
{
    let mut s = Superblock::default();
    let blocks: u64 = size / DEFAULT_BLOCK_SIZE;
    let block_shift = 10u8;
    let fat_blocks = 4 * (blocks + DEFAULT_BLOCK_SIZE - 1) / DEFAULT_BLOCK_SIZE;
    let b = (blocks + DEFAULT_BLOCK_SIZE - 1) / DEFAULT_BLOCK_SIZE / 8;
    let bitmap_blocks: u64 = if b < 1 {
        1
    } else {
        b
    };
    s.magic = MZFAT_MAGIC;
    s.block_shift = block_shift;
    s.fat_block_offset = 1;
    s.fat_num_blocks = fat_blocks as u16;
    s.bitmap_block_offset = s.fat_block_offset as u16 + s.fat_num_blocks;
    s.bitmap_num_blocks = bitmap_blocks as u16;
    s.root_block_offset = s.bitmap_block_offset + s.bitmap_num_blocks;
    s.num_data_blocks = blocks as u32 - s.root_block_offset as u32;
    s
}

/// The image writes of a new mzFAT image of `size` bytes: its superblock
/// at the start.
pub fn mkfs(size: u64) -> (r: Vec<ImageWrite>)
    requires
        mz_mkfs_ok(size),
    ensures
        writes_view(r@) == seq![(0u64, sb_bytes(mz_superblock(size)))],
{
    let sb = mkfs_superblock(size);
    let mut w: Vec<ImageWrite> = Vec::new();
    w.push(ImageWrite { offset: 0, data: sb.to_bytes() });
    assert(writes_view(w@) =~= seq![(0u64, sb_bytes(mz_superblock(size)))]);
    w
}

} // verus!
