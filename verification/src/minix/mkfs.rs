//! Laying out a new, empty Minix 3 file system.
use crate::bytes::{push_zeros, u32_bytes};
use crate::error::FsError;
use crate::fs::{writes_view, ImageWrite};
use crate::minix::consts::{BOOT_BLOCK_BYTES, DEFAULT_BLOCK_SIZE, DIR_ENTRY_BYTES, INODE_BYTES, MAX_FILE_SIZE, MINIX_MAGIC};
use crate::minix::create::entry_bytes;
use crate::minix::direntry::DirEntry;
use crate::minix::fs::MinixFileSystem;
use crate::minix::inode::{spec_inode_bytes, Inode};
use crate::minix::superblock::{spec_superblock_at, Superblock, SuperblockView};
use crate::stat::S_IFDIR;
use vstd::prelude::*;
use vstd::utf8::encode_utf8;

verus! {

/// The smallest image the tool formats: 32 MiB.
pub const MINIMUM_SIZE: u64 = 0x200_0000;

/// The layout of a new file system on an image of `size` bytes (taken
/// modulo 2^32): its blocks, inodes (one per three blocks), bitmap blocks,
/// inode table blocks and first data zone.
pub struct Geometry {
    pub num_blocks: u32,
    pub num_inodes: u32,
    pub imap_blocks: u32,
    pub zmap_blocks: u32,
    pub inode_blocks: u32,
    pub first_data_zone: u32,
}

/// The layout of a new file system on an image of `size` bytes.
pub open spec fn geometry(size: u64) -> Geometry {
    let s = (size % 0x1_0000_0000) as int;
    let num_blocks = s / 1024;
    let num_inodes = num_blocks / 3;
    let imap_blocks = (num_inodes + 8191) / 8192;
    let zmap_blocks = (num_blocks + 8191) / 8192;
    let inode_blocks = (num_inodes * 64 + 1023) / 1024;
    Geometry {
        num_blocks: num_blocks as u32,
        num_inodes: num_inodes as u32,
        imap_blocks: imap_blocks as u32,
        zmap_blocks: zmap_blocks as u32,
        inode_blocks: inode_blocks as u32,
        first_data_zone: (2 + imap_blocks + zmap_blocks + inode_blocks) as u32,
    }
}

/// The root directory's inode: a directory with `.` and `..`, stamped `now`.
pub open spec fn root_inode(data_zone: u32, now: u32) -> Inode {
    Inode {
        mode: (S_IFDIR | 0o755u16) as u16,
        nlinks: 2,
        uid: 0,
        gid: 0,
        size: 128,
        atime: now,
        mtime: now,
        ctime: now,
        zones: [data_zone, 0, 0, 0, 0, 0, 0, 0, 0, 0],
    }
}

/// A bitmap of `n` bytes with its first two bits taken.
pub open spec fn fresh_map(n: int) -> Seq<u8> {
    seq![3u8] + Seq::new((n - 1) as nat, |i: int| 0u8)
}

/// Whether `w` are the writes that format an image of `size` bytes at time
/// `now`: the superblock after the boot block, padded to a block; the inode
/// and zone bitmaps (inode 0 and 1, zone 0 and 1 taken); the root inode as
/// the first entry of the inode table; and the root directory's block with
/// its `.` and `..` entries in the first data zone.
pub open spec fn mkfs_writes(w: Seq<(u64, Seq<u8>)>, size: u64, now: u32) -> bool {
    let g = geometry(size);
    let imap_size = g.imap_blocks * 1024;
    let zmap_size = g.zmap_blocks * 1024;
    &&& w.len() == 5
    &&& w[0].0 == 1024 && w[0].1.len() == 1024
    &&& spec_superblock_at(w[0].1, 0) == (SuperblockView {
        num_inodes: g.num_inodes,
        imap_blocks: g.imap_blocks as u16,
        zmap_blocks: g.zmap_blocks as u16,
        first_data_zone: g.first_data_zone as u16,
        log_zone_size: 0,
        max_size: MAX_FILE_SIZE,
        num_zones: g.num_blocks,
        magic: MINIX_MAGIC,
        block_size: DEFAULT_BLOCK_SIZE,
        disk_version: 0,
    })
    &&& w[0].1.subrange(32, 1024) == Seq::new(992, |i: int| 0u8)
    &&& w[1] == (2048u64, fresh_map(imap_size))
    &&& w[2] == ((2048 + imap_size) as u64, fresh_map(zmap_size))
    &&& w[3] == ((2048 + imap_size + zmap_size) as u64, spec_inode_bytes(root_inode(g.first_data_zone, now)))
    &&& w[4] == ((g.first_data_zone as int * 1024) as u64, entry_bytes(1, encode_utf8(seq!['.'])) + entry_bytes(1, encode_utf8(seq!['.', '.'])))
}

/// A bitmap of `n` bytes with its first two bits taken.
fn fresh_map_bytes(n: usize) -> (r: Vec<u8>)
    requires
        n >= 1,
    ensures
        r@ == fresh_map(n as int),
{
    let mut v: Vec<u8> = Vec::new();
    v.push(3u8);
    push_zeros(&mut v, n - 1);
    assert(v@ =~= fresh_map(n as int));
    v
}

impl MinixFileSystem {
    /// The writes that lay out a new Minix 3 file system on an image of
    /// `size` bytes, a multiple of the block size, stamped `now` (seconds
    /// since the Unix epoch).
    pub fn make_filesystem(size: u64, now: u32) -> (r: Result<Vec<ImageWrite>, FsError>)
        requires
            size % 1024 == 0 ==> (size % 0x1_0000_0000) >= 3 * 1024,
        ensures
            size % 1024 != 0 ==> r == Err::<Vec<ImageWrite>, FsError>(FsError::SizeNotBlockMultiple),
            size % 1024 == 0 ==> (r matches Ok(w) && mkfs_writes(writes_view(w@), size, now)),
    {
        if size & (DEFAULT_BLOCK_SIZE as u64 - 1) != 0 {
            assert(size & 1023 != 0 ==> size % 1024 != 0) by (bit_vector);
            return Err(FsError::SizeNotBlockMultiple);
        }
        assert(size & 1023 == 0 ==> size % 1024 == 0) by (bit_vector);
        let s = (size % 0x1_0000_0000) as u32;
        let num_blocks = s / 1024;
        let num_inodes = num_blocks / 3;
        let imap_blocks = (num_inodes + 8191) / 8192;
        let zmap_blocks = (num_blocks + 8191) / 8192;
        let inode_blocks = (num_inodes * 64 + 1023) / 1024;
        let fdz = 2 + imap_blocks + zmap_blocks + inode_blocks;
        let sb = Superblock::new_with(num_inodes, imap_blocks as u16, zmap_blocks as u16, fdz as u16, num_blocks, DEFAULT_BLOCK_SIZE);
        let mut sb_bytes = sb.to_bytes();
        let ghost sb32 = sb_bytes@;
        push_zeros(&mut sb_bytes, 992);
        proof {
            assert(spec_superblock_at(sb_bytes@, 0) == spec_superblock_at(sb32, 0));
            assert(sb_bytes@.subrange(32, 1024) =~= Seq::new(992, |i: int| 0u8));
        }
        let imap_size = (imap_blocks as usize) * 1024;
        let zmap_size = (zmap_blocks as usize) * 1024;
        let imap = fresh_map_bytes(imap_size);
        let zmap = fresh_map_bytes(zmap_size);
        let root = Inode {
            mode: S_IFDIR | 0o755,
            nlinks: 2,
            uid: 0,
            gid: 0,
            size: (DIR_ENTRY_BYTES as u32) * 2,
            atime: now,
            mtime: now,
            ctime: now,
            zones: [fdz, 0, 0, 0, 0, 0, 0, 0, 0, 0],
        };
        let mut root_data = DirEntry::new(1, ".").to_bytes();
        let dotdot = DirEntry::new(1, "..").to_bytes();
        let mut k: usize = 0;
        let ghost first = root_data@;
        while k < dotdot.len()
            invariant
                k <= dotdot@.len(),
                root_data@ == first + dotdot@.take(k as int),
            decreases dotdot@.len() - k,
        {
            root_data.push(dotdot[k]);
            k += 1;
            assert(root_data@ =~= first + dotdot@.take(k as int));
        }
        assert(dotdot@.take(dotdot@.len() as int) =~= dotdot@);
        proof {
            reveal_strlit(".");
            reveal_strlit("..");
            assert("."@ =~= seq!['.']);
            assert(".."@ =~= seq!['.', '.']);
        }
        let mut w: Vec<ImageWrite> = Vec::new();
        w.push(ImageWrite { offset: BOOT_BLOCK_BYTES, data: sb_bytes });
        w.push(ImageWrite { offset: 2048, data: imap });
        w.push(ImageWrite { offset: 2048 + imap_size as u64, data: zmap });
        w.push(ImageWrite { offset: 2048 + imap_size as u64 + zmap_size as u64, data: root.as_bytes() });
        w.push(ImageWrite { offset: fdz as u64 * 1024, data: root_data });
        Ok(w)
    }

    /// Whether `size` meets what `mkfs` requires of it: a size that passes
    /// its checks must not lie less than 3 KiB past a multiple of 4 GiB.
    pub fn mkfs_size_ok(size: u64) -> (r: bool)
        ensures
            r == (size >= MINIMUM_SIZE && size % 1024 == 0 ==> (size % 0x1_0000_0000) >= 3 * 1024),
    {
        !(size >= MINIMUM_SIZE && size % 1024 == 0 && size % 0x1_0000_0000 < 3 * 1024)
    }

    /// The writes that lay out a new Minix 3 file system on an image of
    /// `size` bytes, which must be at least `MINIMUM_SIZE`.
    pub fn mkfs(size: u64, now: u32) -> (r: Result<Vec<ImageWrite>, FsError>)
        requires
            size >= MINIMUM_SIZE && size % 1024 == 0 ==> (size % 0x1_0000_0000) >= 3 * 1024,
        ensures
            size < MINIMUM_SIZE ==> r == Err::<Vec<ImageWrite>, FsError>(FsError::SizeTooSmall),
            size >= MINIMUM_SIZE && size % 1024 != 0 ==> r == Err::<Vec<ImageWrite>, FsError>(FsError::SizeNotBlockMultiple),
            size >= MINIMUM_SIZE && size % 1024 == 0 ==> (r matches Ok(w) && mkfs_writes(writes_view(w@), size, now)),
    {
        if size < MINIMUM_SIZE {
            return Err(FsError::SizeTooSmall);
        }
        Self::make_filesystem(size, now)
    }
}

} // verus!
