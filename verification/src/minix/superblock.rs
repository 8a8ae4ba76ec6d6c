//! Minix 3 superblock.
use crate::bytes::{le_u16, le_u32, push_u16, push_u32, read_u16, read_u32, u16_bytes, u32_bytes};
use crate::error::FsError;
use crate::minix::consts::{
    BOOT_BLOCK_BYTES, DEFAULT_BLOCK_SIZE, DEFAULT_DISK_VERSION, MAX_FILE_SIZE, MINIX_MAGIC,
    SUPERBLOCK_BYTES,
};
use vstd::prelude::*;

verus! {

/// The on-disk Minix 3 superblock (32 bytes in its `repr(C)` layout,
/// little-endian).
#[derive(Debug)]
pub struct Superblock {
    pub num_inodes: u32,
    pub pad0: u16,
    pub imap_blocks: u16,
    pub zmap_blocks: u16,
    pub first_data_zone: u16,
    pub log_zone_size: u16,
    pub pad1: u16,
    pub max_size: u32,
    pub num_zones: u32,
    pub magic: u16,
    pub pad2: u16,
    pub block_size: u16,
    pub disk_version: u8,
}

/// The fields of a superblock that the tool reads and writes.
pub struct SuperblockView {
    pub num_inodes: u32,
    pub imap_blocks: u16,
    pub zmap_blocks: u16,
    pub first_data_zone: u16,
    pub log_zone_size: u16,
    pub max_size: u32,
    pub num_zones: u32,
    pub magic: u16,
    pub block_size: u16,
    pub disk_version: u8,
}

/// The superblock fields stored at `bs[off..off + 32]`.
pub open spec fn spec_superblock_at(bs: Seq<u8>, off: int) -> SuperblockView {
    SuperblockView {
        num_inodes: le_u32(bs, off),
        imap_blocks: le_u16(bs, off + 6),
        zmap_blocks: le_u16(bs, off + 8),
        first_data_zone: le_u16(bs, off + 10),
        log_zone_size: le_u16(bs, off + 12),
        max_size: le_u32(bs, off + 16),
        num_zones: le_u32(bs, off + 20),
        magic: le_u16(bs, off + 24),
        block_size: le_u16(bs, off + 28),
        disk_version: bs[off + 30],
    }
}

impl Superblock {
    pub open spec fn view(&self) -> SuperblockView {
        SuperblockView {
            num_inodes: self.num_inodes,
            imap_blocks: self.imap_blocks,
            zmap_blocks: self.zmap_blocks,
            first_data_zone: self.first_data_zone,
            log_zone_size: self.log_zone_size,
            max_size: self.max_size,
            num_zones: self.num_zones,
            magic: self.magic,
            block_size: self.block_size,
            disk_version: self.disk_version,
        }
    }

    /// An empty superblock with the Minix magic, the default block size and
    /// the largest file size.
    pub fn new() -> (r: Self)
        ensures
            r@ == (SuperblockView {
                num_inodes: 0,
                imap_blocks: 0,
                zmap_blocks: 0,
                first_data_zone: 0,
                log_zone_size: 0,
                max_size: MAX_FILE_SIZE,
                num_zones: 0,
                magic: MINIX_MAGIC,
                block_size: DEFAULT_BLOCK_SIZE,
                disk_version: DEFAULT_DISK_VERSION,
            }),
            r.pad0 == 0 && r.pad1 == 0 && r.pad2 == 0,
    {
        Self {
            num_inodes: 0,
            pad0: 0,
            imap_blocks: 0,
            zmap_blocks: 0,
            first_data_zone: 0,
            log_zone_size: 0,
            pad1: 0,
            max_size: MAX_FILE_SIZE,
            num_zones: 0,
            magic: MINIX_MAGIC,
            pad2: 0,
            block_size: DEFAULT_BLOCK_SIZE,
            disk_version: DEFAULT_DISK_VERSION,
        }
    }

    /// A superblock with the given layout, the Minix magic and the largest
    /// file size.
    pub fn new_with(
        num_inodes: u32,
        imap_blocks: u16,
        zmap_blocks: u16,
        first_data_zone: u16,
        num_zones: u32,
        block_size: u16,
    ) -> (r: Self)
        ensures
            r@ == (SuperblockView {
                num_inodes,
                imap_blocks,
                zmap_blocks,
                first_data_zone,
                log_zone_size: 0,
                max_size: MAX_FILE_SIZE,
                num_zones,
                magic: MINIX_MAGIC,
                block_size,
                disk_version: DEFAULT_DISK_VERSION,
            }),
            r.pad0 == 0 && r.pad1 == 0 && r.pad2 == 0,
    {
        Self {
            num_inodes,
            pad0: 0,
            imap_blocks,
            zmap_blocks,
            first_data_zone,
            log_zone_size: 0,
            pad1: 0,
            max_size: MAX_FILE_SIZE,
            num_zones,
            magic: MINIX_MAGIC,
            pad2: 0,
            block_size,
            disk_version: DEFAULT_DISK_VERSION,
        }
    }

    /// The superblock stored at `bs[off..off + 32]`.
    pub fn from_bytes(bs: &[u8], off: usize) -> (r: Self)
        requires
            off + SUPERBLOCK_BYTES <= bs@.len(),
        ensures
            r@ == spec_superblock_at(bs@, off as int),
    {
        let n = bs.len();
        Self {
            num_inodes: read_u32(bs, off),
            pad0: read_u16(bs, off + 4),
            imap_blocks: read_u16(bs, off + 6),
            zmap_blocks: read_u16(bs, off + 8),
            first_data_zone: read_u16(bs, off + 10),
            log_zone_size: read_u16(bs, off + 12),
            pad1: read_u16(bs, off + 14),
            max_size: read_u32(bs, off + 16),
            num_zones: read_u32(bs, off + 20),
            magic: read_u16(bs, off + 24),
            pad2: read_u16(bs, off + 26),
            block_size: read_u16(bs, off + 28),
            disk_version: bs[off + 30],
        }
    }

    /// The superblock of an image, which follows the boot block.
    pub fn from_stream(image: &[u8]) -> (r: Result<Self, FsError>)
        ensures
            image@.len() < BOOT_BLOCK_BYTES + SUPERBLOCK_BYTES ==> r == Err::<Self, FsError>(FsError::ImageTooShort),
            image@.len() >= BOOT_BLOCK_BYTES + SUPERBLOCK_BYTES ==> (r matches Ok(sb) && sb@ == spec_superblock_at(image@, BOOT_BLOCK_BYTES as int)),
    {
        if image.len() < 1056 {
            return Err(FsError::ImageTooShort);
        }
        Ok(Self::from_bytes(image, 1024))
    }

    /// The 32 on-disk bytes of the superblock: its fields in order,
    /// padding included, little-endian, and a last byte of 0.
    pub fn to_bytes(&self) -> (r: Vec<u8>)
        ensures
            r@.len() == SUPERBLOCK_BYTES,
            spec_superblock_at(r@, 0) == self@,
            r@ == u32_bytes(self.num_inodes) + u16_bytes(self.pad0) + u16_bytes(self.imap_blocks) + u16_bytes(self.zmap_blocks)
                + u16_bytes(self.first_data_zone) + u16_bytes(self.log_zone_size) + u16_bytes(self.pad1) + u32_bytes(
                self.max_size,
            ) + u32_bytes(self.num_zones) + u16_bytes(self.magic) + u16_bytes(self.pad2) + u16_bytes(self.block_size) + seq![
                self.disk_version,
                0u8,
            ],
    {
        let mut v: Vec<u8> = Vec::new();
        push_u32(&mut v, self.num_inodes);
        push_u16(&mut v, self.pad0);
        push_u16(&mut v, self.imap_blocks);
        push_u16(&mut v, self.zmap_blocks);
        push_u16(&mut v, self.first_data_zone);
        push_u16(&mut v, self.log_zone_size);
        push_u16(&mut v, self.pad1);
        push_u32(&mut v, self.max_size);
        push_u32(&mut v, self.num_zones);
        push_u16(&mut v, self.magic);
        push_u16(&mut v, self.pad2);
        push_u16(&mut v, self.block_size);
        v.push(self.disk_version);
        v.push(0);
        assert(v@ =~= u32_bytes(self.num_inodes) + u16_bytes(self.pad0) + u16_bytes(self.imap_blocks) + u16_bytes(
            self.zmap_blocks,
        ) + u16_bytes(self.first_data_zone) + u16_bytes(self.log_zone_size) + u16_bytes(self.pad1) + u32_bytes(self.max_size)
            + u32_bytes(self.num_zones) + u16_bytes(self.magic) + u16_bytes(self.pad2) + u16_bytes(self.block_size) + seq![
            self.disk_version,
            0u8,
        ]);
        proof {
            crate::bytes::lemma_u32_round_trip(self.num_inodes);
            crate::bytes::lemma_u16_round_trip(self.imap_blocks);
            crate::bytes::lemma_u16_round_trip(self.zmap_blocks);
            crate::bytes::lemma_u16_round_trip(self.first_data_zone);
            crate::bytes::lemma_u16_round_trip(self.log_zone_size);
            crate::bytes::lemma_u32_round_trip(self.max_size);
            crate::bytes::lemma_u32_round_trip(self.num_zones);
            crate::bytes::lemma_u16_round_trip(self.magic);
            crate::bytes::lemma_u16_round_trip(self.block_size);
            let bs = v@;
            assert(le_u32(bs, 0) == le_u32(u32_bytes(self.num_inodes), 0));
            assert(le_u16(bs, 6) == le_u16(u16_bytes(self.imap_blocks), 0));
            assert(le_u16(bs, 8) == le_u16(u16_bytes(self.zmap_blocks), 0));
            assert(le_u16(bs, 10) == le_u16(u16_bytes(self.first_data_zone), 0));
            assert(le_u16(bs, 12) == le_u16(u16_bytes(self.log_zone_size), 0));
            assert(le_u32(bs, 16) == le_u32(u32_bytes(self.max_size), 0));
            assert(le_u32(bs, 20) == le_u32(u32_bytes(self.num_zones), 0));
            assert(le_u16(bs, 24) == le_u16(u16_bytes(self.magic), 0));
            assert(le_u16(bs, 28) == le_u16(u16_bytes(self.block_size), 0));
        }
        v
    }

    /// Whether the superblock carries the Minix 3 magic number.
    pub fn is_valid(&self) -> (r: bool)
        ensures
            r == (self.magic == MINIX_MAGIC),
    {
        self.magic == MINIX_MAGIC
    }
}

/// Whether an image holds a Minix 3 file system: its superblock, after the
/// boot block, carries the magic number. An image too short to hold a
/// superblock gives `ImageTooShort`.
pub fn check_valid(image: &[u8]) -> (r: Result<bool, FsError>)
    ensures
        image@.len() < BOOT_BLOCK_BYTES + SUPERBLOCK_BYTES ==> r == Err::<bool, FsError>(FsError::ImageTooShort),
        image@.len() >= BOOT_BLOCK_BYTES + SUPERBLOCK_BYTES ==> r == Ok::<bool, FsError>(
            spec_superblock_at(image@, BOOT_BLOCK_BYTES as int).magic == MINIX_MAGIC,
        ),
{
    let sb = Superblock::from_stream(image)?;
    Ok(sb.is_valid())
}

} // verus!
