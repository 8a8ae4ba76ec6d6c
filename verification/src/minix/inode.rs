//! Minix 3 inodes.
use crate::bytes::{le_u16, le_u32, push_u16, push_u32, read_u16, read_u32, u16_bytes, u32_bytes};
use crate::filetype::{spec_type_of_mode, FileType};
use crate::fs::InodeOperations;
use crate::minix::consts::{INODE_BYTES, NUM_ZONE_POINTERS};
use crate::stat::{S_IFBLK, S_IFCHR, S_IFDIR, S_IFIFO, S_IFLNK, S_IFMT, S_IFREG, S_IFSOCK};
use vstd::prelude::*;

verus! {

/// An on-disk Minix 3 inode (64 bytes, little-endian).
#[derive(Debug, Copy, Clone)]
pub struct Inode {
    pub mode: u16,
    pub nlinks: u16,
    pub uid: u16,
    pub gid: u16,
    pub size: u32,
    pub atime: u32,
    pub mtime: u32,
    pub ctime: u32,
    pub zones: [u32; 10],
}

/// The inode stored at `bs[off..off + 64]`.
pub open spec fn spec_inode_at(bs: Seq<u8>, off: int) -> Inode {
    Inode {
        mode: le_u16(bs, off),
        nlinks: le_u16(bs, off + 2),
        uid: le_u16(bs, off + 4),
        gid: le_u16(bs, off + 6),
        size: le_u32(bs, off + 8),
        atime: le_u32(bs, off + 12),
        mtime: le_u32(bs, off + 16),
        ctime: le_u32(bs, off + 20),
        zones: [
            le_u32(bs, off + 24),
            le_u32(bs, off + 28),
            le_u32(bs, off + 32),
            le_u32(bs, off + 36),
            le_u32(bs, off + 40),
            le_u32(bs, off + 44),
            le_u32(bs, off + 48),
            le_u32(bs, off + 52),
            le_u32(bs, off + 56),
            le_u32(bs, off + 60),
        ],
    }
}

/// The 64 bytes of an inode.
pub open spec fn spec_inode_bytes(i: Inode) -> Seq<u8> {
    u16_bytes(i.mode) + u16_bytes(i.nlinks) + u16_bytes(i.uid) + u16_bytes(i.gid) + u32_bytes(i.size)
        + u32_bytes(i.atime) + u32_bytes(i.mtime) + u32_bytes(i.ctime) + zones_bytes(i.zones@, 0)
}

/// The bytes of the zone pointers `zs[k..]`.
pub open spec fn zones_bytes(zs: Seq<u32>, k: int) -> Seq<u8>
    decreases zs.len() - k,
{
    if k < 0 || k >= zs.len() {
        Seq::empty()
    } else {
        u32_bytes(zs[k]) + zones_bytes(zs, k + 1)
    }
}

/// The file type bits that `set_file_type` stores for `ft`.
pub open spec fn minix_type_bits(ft: FileType) -> u16 {
    match ft {
        FileType::BlockDevice => S_IFBLK,
        FileType::CharacterDevice => S_IFCHR,
        FileType::Directory => S_IFDIR,
        FileType::Fifo => S_IFIFO,
        FileType::Regular => S_IFREG,
        FileType::Socket => S_IFSOCK,
        FileType::Symlink => S_IFLNK,
        FileType::Invalid => 0,
    }
}

impl Inode {
    pub fn is_dir(&self) -> (r: bool)
        ensures
            r == (self.mode & S_IFMT == S_IFDIR),
    {
        self.mode & S_IFMT == S_IFDIR
    }

    pub fn is_symlink(&self) -> (r: bool)
        ensures
            r == (self.mode & S_IFMT == S_IFLNK),
    {
        self.mode & S_IFMT == S_IFLNK
    }

    /// The inode stored at `bs[off..off + 64]`.
    pub fn from_bytes(bs: &[u8], off: usize) -> (r: Inode)
        requires
            off + INODE_BYTES <= bs@.len(),
        ensures
            r == spec_inode_at(bs@, off as int),
    {
        let n = bs.len();
        Inode {
            mode: read_u16(bs, off),
            nlinks: read_u16(bs, off + 2),
            uid: read_u16(bs, off + 4),
            gid: read_u16(bs, off + 6),
            size: read_u32(bs, off + 8),
            atime: read_u32(bs, off + 12),
            mtime: read_u32(bs, off + 16),
            ctime: read_u32(bs, off + 20),
            zones: [
                read_u32(bs, off + 24),
                read_u32(bs, off + 28),
                read_u32(bs, off + 32),
                read_u32(bs, off + 36),
                read_u32(bs, off + 40),
                read_u32(bs, off + 44),
                read_u32(bs, off + 48),
                read_u32(bs, off + 52),
                read_u32(bs, off + 56),
                read_u32(bs, off + 60),
            ],
        }
    }

    /// The 64 on-disk bytes of the inode.
    pub fn as_bytes(&self) -> (r: Vec<u8>)
        ensures
            r@ == spec_inode_bytes(*self),
            r@.len() == INODE_BYTES,
    {
        let mut v: Vec<u8> = Vec::new();
        push_u16(&mut v, self.mode);
        push_u16(&mut v, self.nlinks);
        push_u16(&mut v, self.uid);
        push_u16(&mut v, self.gid);
        push_u32(&mut v, self.size);
        push_u32(&mut v, self.atime);
        push_u32(&mut v, self.mtime);
        push_u32(&mut v, self.ctime);
        let ghost head = v@;
        let mut k: usize = 0;
        while k < NUM_ZONE_POINTERS
            invariant
                k <= 10,
                self.zones@.len() == 10,
                v@ + zones_bytes(self.zones@, k as int) == head + zones_bytes(self.zones@, 0),
                v@.len() == 24 + 4 * k,
            decreases 10 - k,
        {
            let ghost before = v@;
            push_u32(&mut v, self.zones[k]);
            assert(v@ + zones_bytes(self.zones@, k + 1) =~= before + zones_bytes(self.zones@, k as int));
            k += 1;
        }
        assert(zones_bytes(self.zones@, 10) =~= Seq::<u8>::empty());
        assert(v@ =~= head + zones_bytes(self.zones@, 0));
        v
    }
}

impl InodeOperations for Inode {
    open spec fn spec_file_type(&self) -> FileType {
        spec_type_of_mode(self.mode & S_IFMT)
    }

    open spec fn spec_mode(&self) -> u16 {
        self.mode & 0o777
    }

    open spec fn spec_atime(&self) -> u64 {
        self.atime as u64
    }

    open spec fn spec_mtime(&self) -> u64 {
        self.mtime as u64
    }

    open spec fn spec_ctime(&self) -> u64 {
        self.ctime as u64
    }

    open spec fn spec_uid(&self) -> u32 {
        self.uid as u32
    }

    open spec fn spec_gid(&self) -> u32 {
        self.gid as u32
    }

    open spec fn spec_nlinks(&self) -> u32 {
        self.nlinks as u32
    }

    open spec fn spec_size(&self) -> u64 {
        self.size as u64
    }

    open spec fn spec_blocks(&self) -> Seq<u64> {
        self.zones@.map_values(|z: u32| z as u64)
    }

    open spec fn spec_node(&self) -> (u16, u16) {
        (((self.zones[0] as u64) as u32 >> 8u32) as u16, ((self.zones[0] as u64) as u32 & 0xFFu32) as u16)
    }

    open spec fn blocks_fit(&self, n: nat) -> bool {
        n <= NUM_ZONE_POINTERS
    }

    fn get_file_type(&self) -> (r: FileType) {
        FileType::from_mode(self.mode & S_IFMT)
    }

    fn set_file_type(&mut self, ft: FileType)
        ensures
            final(self).mode == (old(self).mode & 0o777) | minix_type_bits(ft),
            final(self).nlinks == old(self).nlinks && final(self).uid == old(self).uid
                && final(self).gid == old(self).gid && final(self).size == old(self).size
                && final(self).atime == old(self).atime && final(self).mtime == old(self).mtime
                && final(self).ctime == old(self).ctime && final(self).zones == old(self).zones,
    {
        let old_bits = self.mode & 0o777;
        let t = match ft {
            FileType::BlockDevice => S_IFBLK,
            FileType::CharacterDevice => S_IFCHR,
            FileType::Directory => S_IFDIR,
            FileType::Fifo => S_IFIFO,
            FileType::Regular => S_IFREG,
            FileType::Socket => S_IFSOCK,
            FileType::Symlink => S_IFLNK,
            FileType::Invalid => 0,
        };
        self.mode = old_bits | t;
    }

    fn get_mode(&self) -> (r: u16) {
        self.mode & 0o777
    }

    fn set_mode(&mut self, mode: u16)
        ensures
            final(self).mode == (old(self).mode & S_IFMT) | (mode & 0o777),
            final(self).nlinks == old(self).nlinks && final(self).uid == old(self).uid
                && final(self).gid == old(self).gid && final(self).size == old(self).size
                && final(self).atime == old(self).atime && final(self).mtime == old(self).mtime
                && final(self).ctime == old(self).ctime && final(self).zones == old(self).zones,
    {
        let t = self.mode & S_IFMT;
        let mode = mode & 0o777;
        self.mode = t | mode;
    }

    fn get_atime(&self) -> (r: u64) {
        self.atime as u64
    }

    fn set_atime(&mut self, atime: u64)
        ensures
            *final(self) == (Inode { atime: atime as u32, ..*old(self) }),
    {
        self.atime = atime as u32;
    }

    fn get_mtime(&self) -> (r: u64) {
        self.mtime as u64
    }

    fn set_mtime(&mut self, mtime: u64)
        ensures
            *final(self) == (Inode { mtime: mtime as u32, ..*old(self) }),
    {
        self.mtime = mtime as u32;
    }

    fn get_ctime(&self) -> (r: u64) {
        self.ctime as u64
    }

    fn set_ctime(&mut self, ctime: u64)
        ensures
            *final(self) == (Inode { ctime: ctime as u32, ..*old(self) }),
    {
        self.ctime = ctime as u32;
    }

    fn get_uid(&self) -> (r: u32) {
        self.uid as u32
    }

    fn set_uid(&mut self, uid: u32)
        ensures
            *final(self) == (Inode { uid: uid as u16, ..*old(self) }),
    {
        self.uid = uid as u16;
    }

    fn get_gid(&self) -> (r: u32) {
        self.gid as u32
    }

    fn set_gid(&mut self, gid: u32)
        ensures
            *final(self) == (Inode { gid: gid as u16, ..*old(self) }),
    {
        self.gid = gid as u16;
    }

    fn get_nlinks(&self) -> (r: u32) {
        self.nlinks as u32
    }

    fn set_nlinks(&mut self, nlinks: u32)
        ensures
            *final(self) == (Inode { nlinks: nlinks as u16, ..*old(self) }),
    {
        self.nlinks = nlinks as u16;
    }

    fn get_size(&self) -> (r: u64) {
        self.size as u64
    }

    fn set_size(&mut self, size: u64)
        ensures
            *final(self) == (Inode { size: size as u32, ..*old(self) }),
    {
        self.size = size as u32;
    }

    fn get_blocks(&self) -> (r: Vec<u64>) {
        let mut v: Vec<u64> = Vec::new();
        let mut k: usize = 0;
        while k < NUM_ZONE_POINTERS
            invariant
                k <= 10,
                self.zones@.len() == 10,
                v@ == self.zones@.take(k as int).map_values(|z: u32| z as u64),
            decreases 10 - k,
        {
            v.push(self.zones[k] as u64);
            k += 1;
            assert(v@ =~= self.zones@.take(k as int).map_values(|z: u32| z as u64));
        }
        assert(self.zones@.take(10) =~= self.zones@);
        v
    }

    fn set_blocks(&mut self, blocks: &[u64])
        ensures
            final(self).zones@ == Seq::new(10, |i: int| if i < blocks@.len() { blocks@[i] as u32 } else { old(self).zones@[i] }),
            final(self).mode == old(self).mode && final(self).nlinks == old(self).nlinks
                && final(self).uid == old(self).uid && final(self).gid == old(self).gid
                && final(self).size == old(self).size && final(self).atime == old(self).atime
                && final(self).mtime == old(self).mtime && final(self).ctime == old(self).ctime,
    {
        let mut i: usize = 0;
        while i < blocks.len()
            invariant
                blocks@.len() <= 10,
                i <= blocks@.len(),
                self.zones@.len() == 10,
                self.zones@ == Seq::new(10, |j: int| if j < i { blocks@[j] as u32 } else { old(self).zones@[j] }),
                self.mode == old(self).mode && self.nlinks == old(self).nlinks
                    && self.uid == old(self).uid && self.gid == old(self).gid
                    && self.size == old(self).size && self.atime == old(self).atime
                    && self.mtime == old(self).mtime && self.ctime == old(self).ctime,
            decreases blocks@.len() - i,
        {
            self.zones[i] = blocks[i] as u32;
            i += 1;
            assert(self.zones@ =~= Seq::new(10, |j: int| if j < i { blocks@[j] as u32 } else { old(self).zones@[j] }));
        }
    }

    /// Only block and character devices have a device number; for other
    /// inodes nothing changes.
    fn set_node(&mut self, major: u16, minor: u16)
        ensures
            old(self).spec_file_type() != FileType::BlockDevice && old(self).spec_file_type() != FileType::CharacterDevice ==> *final(self) == *old(self),
            old(self).spec_file_type() == FileType::BlockDevice || old(self).spec_file_type() == FileType::CharacterDevice ==> {
                &&& final(self).zones@ == old(self).zones@.update(0, (((major & 0xFF) << 8u16) | (minor & 0xFF)) as u32)
                &&& final(self).mode == old(self).mode && final(self).nlinks == old(self).nlinks
                &&& final(self).uid == old(self).uid && final(self).gid == old(self).gid
                &&& final(self).size == old(self).size && final(self).atime == old(self).atime
                &&& final(self).mtime == old(self).mtime && final(self).ctime == old(self).ctime
            },
    {
        if self.get_file_type() != FileType::BlockDevice
            && self.get_file_type() != FileType::CharacterDevice {
            return;
        }
        let mut blocks = self.get_blocks();
        let mj = major & 0xFF;
        let mn = minor & 0xFF;
        let node: u16 = (mj << 8) | mn;
        blocks.set(0, node as u64);
        self.set_blocks(blocks.as_slice());
        proof {
            assert(((node as u64) as u32) == node as u32);
            assert(self.zones@ =~= old(self).zones@.update(0, (((major & 0xFF) << 8u16) | (minor & 0xFF)) as u32));
        }
    }

    fn get_node(&self) -> (r: (u16, u16)) {
        let blocks = self.get_blocks();
        let node = blocks[0] as u32;
        let major = (node >> 8) as u16;
        let minor = (node & 0xFF) as u16;
        (major, minor)
    }
}

} // verus!
