//! The mzFAT superblock: 16 bytes at the start of the image.
use crate::bytes::{
    le_u16, le_u32, lemma_le_u16_at, lemma_le_u32_at, lemma_u16_bytes_of_le, lemma_u32_bytes_of_le, push_u16,
    push_u32, read_u16, read_u32, u16_bytes, u32_bytes,
};
use crate::fs::AllocationData;
use crate::mzfat::consts::MZFAT_MAGIC;
use vstd::prelude::*;

verus! {

/// The superblock; all fields little-endian, packed.
#[derive(Debug, PartialEq, Eq, Structural)]
pub struct Superblock {
    /// `log2` of the block size.
    pub block_shift: u8,
    /// The first block of the FAT.
    pub fat_block_offset: u8,
    /// Blocks of the FAT.
    pub fat_num_blocks: u16,
    /// The first block of the bitmap.
    pub bitmap_block_offset: u16,
    /// Blocks of the bitmap.
    pub bitmap_num_blocks: u16,
    /// The first block of the root directory.
    pub root_block_offset: u16,
    /// Blocks after the root directory's start.
    pub num_data_blocks: u32,
    /// `MZFAT_MAGIC`.
    pub magic: u16,
}

/// The 16 bytes of a superblock.
pub open spec fn sb_bytes(s: Superblock) -> Seq<u8> {
    seq![s.block_shift, s.fat_block_offset] + u16_bytes(s.fat_num_blocks) + u16_bytes(s.bitmap_block_offset)
        + u16_bytes(s.bitmap_num_blocks) + u16_bytes(s.root_block_offset) + u32_bytes(s.num_data_blocks)
        + u16_bytes(s.magic)
}

/// The superblock that the 16 bytes `bs` hold.
pub open spec fn sb_from(bs: Seq<u8>) -> Superblock {
    Superblock {
        block_shift: bs[0],
        fat_block_offset: bs[1],
        fat_num_blocks: le_u16(bs, 2),
        bitmap_block_offset: le_u16(bs, 4),
        bitmap_num_blocks: le_u16(bs, 6),
        root_block_offset: le_u16(bs, 8),
        num_data_blocks: le_u32(bs, 10),
        magic: le_u16(bs, 14),
    }
}

impl Superblock {
    /// A superblock with every field zero.
    pub fn default() -> (r: Self)
        ensures
            r == (Superblock {
                block_shift: 0,
                fat_block_offset: 0,
                fat_num_blocks: 0,
                bitmap_block_offset: 0,
                bitmap_num_blocks: 0,
                root_block_offset: 0,
                num_data_blocks: 0,
                magic: 0,
            }),
    {
        Superblock {
            block_shift: 0,
            fat_block_offset: 0,
            fat_num_blocks: 0,
            bitmap_block_offset: 0,
            bitmap_num_blocks: 0,
            root_block_offset: 0,
            num_data_blocks: 0,
            magic: 0,
        }
    }

    /// The superblock that the 16 bytes `bytes` hold.
    pub fn from_bytes(bytes: &[u8]) -> (r: Self)
        requires
            bytes@.len() == 16,
        ensures
            r == sb_from(bytes@),
    {
        Superblock {
            block_shift: bytes[0],
            fat_block_offset: bytes[1],
            fat_num_blocks: read_u16(bytes, 2),
            bitmap_block_offset: read_u16(bytes, 4),
            bitmap_num_blocks: read_u16(bytes, 6),
            root_block_offset: read_u16(bytes, 8),
            num_data_blocks: read_u32(bytes, 10),
            magic: read_u16(bytes, 14),
        }
    }

    /// The 16 bytes of the superblock.
    pub fn to_bytes(&self) -> (r: Vec<u8>)
        ensures
            r@ == sb_bytes(*self),
    {
        let mut v: Vec<u8> = Vec::new();
        v.push(self.block_shift);
        v.push(self.fat_block_offset);
        push_u16(&mut v, self.fat_num_blocks);
        push_u16(&mut v, self.bitmap_block_offset);
        push_u16(&mut v, self.bitmap_num_blocks);
        push_u16(&mut v, self.root_block_offset);
        push_u32(&mut v, self.num_data_blocks);
        push_u16(&mut v, self.magic);
        assert(v@ =~= sb_bytes(*self));
        v
    }

    /// The block size: `1 << block_shift` bytes.
    pub fn get_block_size(&self) -> (r: u64)
        requires
            self.block_shift < 64,
        ensures
            r == 1u64 << self.block_shift,
    {
        1u64 << self.block_shift
    }

    /// mzFAT keeps no inode counts: none taken, none free.
    pub fn get_num_inodes(&self) -> (r: AllocationData)
        ensures
            r.taken == 0,
            r.free == 0,
    {
        AllocationData { free: 0, taken: 0 }
    }
}

/// Reading the bytes of a superblock gives it back.
pub proof fn law_sb_decode_encode(s: Superblock)
    ensures
        sb_from(sb_bytes(s)) == s,
{
    let bs = sb_bytes(s);
    assert(bs.subrange(2, 4) =~= u16_bytes(s.fat_num_blocks));
    lemma_le_u16_at(bs, 2, s.fat_num_blocks);
    assert(bs.subrange(4, 6) =~= u16_bytes(s.bitmap_block_offset));
    lemma_le_u16_at(bs, 4, s.bitmap_block_offset);
    assert(bs.subrange(6, 8) =~= u16_bytes(s.bitmap_num_blocks));
    lemma_le_u16_at(bs, 6, s.bitmap_num_blocks);
    assert(bs.subrange(8, 10) =~= u16_bytes(s.root_block_offset));
    lemma_le_u16_at(bs, 8, s.root_block_offset);
    assert(bs.subrange(10, 14) =~= u32_bytes(s.num_data_blocks));
    lemma_le_u32_at(bs, 10, s.num_data_blocks);
    assert(bs.subrange(14, 16) =~= u16_bytes(s.magic));
    lemma_le_u16_at(bs, 14, s.magic);
}

/// Writing out the superblock that 16 bytes hold gives the same bytes.
pub proof fn law_sb_encode_decode(bs: Seq<u8>)
    requires
        bs.len() == 16,
    ensures
        sb_bytes(sb_from(bs)) == bs,
{
    lemma_u16_bytes_of_le(bs, 2);
    lemma_u16_bytes_of_le(bs, 4);
    lemma_u16_bytes_of_le(bs, 6);
    lemma_u16_bytes_of_le(bs, 8);
    lemma_u32_bytes_of_le(bs, 10);
    lemma_u16_bytes_of_le(bs, 14);
    let e = sb_bytes(sb_from(bs));
    assert forall|i: int| 0 <= i < 16 implies e[i] == bs[i] by {
        if 2 <= i < 4 {
            assert(bs.subrange(2, 4)[i - 2] == bs[i]);
        } else if 4 <= i < 6 {
            assert(bs.subrange(4, 6)[i - 4] == bs[i]);
        } else if 6 <= i < 8 {
            assert(bs.subrange(6, 8)[i - 6] == bs[i]);
        } else if 8 <= i < 10 {
            assert(bs.subrange(8, 10)[i - 8] == bs[i]);
        } else if 10 <= i < 14 {
            assert(bs.subrange(10, 14)[i - 10] == bs[i]);
        } else if 14 <= i < 16 {
            assert(bs.subrange(14, 16)[i - 14] == bs[i]);
        }
    }
    assert(e =~= bs);
}

/// The first 16 bytes of an image as a read of 16 bytes fills them: what
/// the image holds, zeros past its end.
pub open spec fn head16(image: Seq<u8>) -> Seq<u8> {
    Seq::new(16, |i: int| if i < image.len() { image[i] } else { 0u8 })
}

/// Whether an image holds an mzFAT file system: the superblock read from
/// its start carries the magic number.
pub fn check_valid(image: &[u8]) -> (r: bool)
    ensures
        r == (sb_from(head16(image@)).magic == MZFAT_MAGIC),
{
    let mut head: Vec<u8> = Vec::new();
    let mut k: usize = 0;
    while k < 16
        invariant
            k <= 16,
            head@ == head16(image@).subrange(0, k as int),
        decreases 16 - k,
    {
        if k < image.len() {
            head.push(image[k]);
        } else {
            head.push(0);
        }
        k += 1;
        assert(head@ =~= head16(image@).subrange(0, k as int));
    }
    assert(head@ =~= head16(image@));
    let sb = Superblock::from_bytes(head.as_slice());
    sb.magic == MZFAT_MAGIC
}

} // verus!
