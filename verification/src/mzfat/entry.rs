//! An mzFAT directory entry, which also serves as the file's inode.
use crate::filetype::FileType;
use crate::stat::{S_IFBLK, S_IFCHR, S_IFDIR, S_IFMT, S_IFREG};
use vstd::prelude::*;

verus! {

/// A directory entry: mode, owner, first FAT cluster, times, size and name.
#[derive(Debug)]
pub struct Entry {
    pub mode: u16,
    pub uid: u16,
    pub gid: u16,
    /// The first cluster in the FAT.
    pub fat: u32,
    pub ctime: u32,
    pub atime: u32,
    pub mtime: u32,
    pub size: u64,
    /// The name, zero padded.
    pub name: [u8; 32],
}

/// The file type that the type bits of `mode` name: directories, regular
/// files, block and character devices; anything else is invalid.
pub open spec fn entry_type_of(mode: u16) -> FileType {
    let t = S_IFMT & mode;
    if t == S_IFDIR {
        FileType::Directory
    } else if t == S_IFREG {
        FileType::Regular
    } else if t == S_IFBLK {
        FileType::BlockDevice
    } else if t == S_IFCHR {
        FileType::CharacterDevice
    } else {
        FileType::Invalid
    }
}

/// The type bits that `set_file_type` stores for `ft`: directories and
/// devices keep their type, every other type is stored as a regular file.
pub open spec fn entry_type_bits(ft: FileType) -> u16 {
    match ft {
        FileType::Directory => S_IFDIR,
        FileType::BlockDevice => S_IFBLK,
        FileType::CharacterDevice => S_IFCHR,
        _ => S_IFREG,
    }
}

/// `a` and `b` agree in every field but those named.
pub open spec fn entry_same_but(a: Entry, b: Entry, mode: bool, ids: bool, times: bool, size: bool) -> bool {
    &&& (!mode ==> a.mode == b.mode)
    &&& (!ids ==> a.uid == b.uid && a.gid == b.gid)
    &&& (!times ==> a.ctime == b.ctime && a.atime == b.atime && a.mtime == b.mtime)
    &&& (!size ==> a.size == b.size)
    &&& a.fat == b.fat
    &&& a.name@ == b.name@
}

impl Entry {
    /// An entry with every field zero.
    pub fn default() -> (r: Self)
        ensures
            r.mode == 0 && r.uid == 0 && r.gid == 0 && r.fat == 0,
            r.ctime == 0 && r.atime == 0 && r.mtime == 0 && r.size == 0,
            r.name@ == Seq::new(32, |i: int| 0u8),
    {
        let r = Entry { mode: 0, uid: 0, gid: 0, fat: 0, ctime: 0, atime: 0, mtime: 0, size: 0, name: [0u8; 32] };
        assert(r.name@ =~= Seq::new(32, |i: int| 0u8));
        r
    }

    pub fn get_file_type(&self) -> (r: FileType)
        ensures
            r == entry_type_of(self.mode),
    {
        let t = S_IFMT & self.mode;
        if t == S_IFDIR {
            FileType::Directory
        } else if t == S_IFREG {
            FileType::Regular
        } else if t == S_IFBLK {
            FileType::BlockDevice
        } else if t == S_IFCHR {
            FileType::CharacterDevice
        } else {
            FileType::Invalid
        }
    }

    pub fn get_mode(&self) -> (r: u16)
        ensures
            r == self.mode & 0o777,
    {
        self.mode & 0o777
    }

    pub fn get_atime(&self) -> (r: u64)
        ensures
            r == self.atime,
    {
        self.atime as u64
    }

    pub fn get_ctime(&self) -> (r: u64)
        ensures
            r == self.ctime,
    {
        self.ctime as u64
    }

    pub fn get_mtime(&self) -> (r: u64)
        ensures
            r == self.mtime,
    {
        self.mtime as u64
    }

    /// mzFAT has no hard links: always one.
    pub fn get_nlinks(&self) -> (r: u32)
        ensures
            r == 1,
    {
        1
    }

    /// mzFAT has no device numbers.
    pub fn get_node(&self) -> (r: (u16, u16))
        ensures
            r == (0u16, 0u16),
    {
        (0, 0)
    }

    pub fn get_size(&self) -> (r: u64)
        ensures
            r == self.size,
    {
        self.size
    }

    pub fn get_uid(&self) -> (r: u32)
        ensures
            r == self.uid,
    {
        self.uid as u32
    }

    pub fn get_gid(&self) -> (r: u32)
        ensures
            r == self.gid,
    {
        self.gid as u32
    }

    /// The access time, modulo 2^32.
    pub fn set_atime(&mut self, atime: u64)
        ensures
            final(self).atime == atime as u32,
            final(self).ctime == old(self).ctime && final(self).mtime == old(self).mtime,
            entry_same_but(*final(self), *old(self), false, false, true, false),
    {
        self.atime = atime as u32;
    }

    /// The change time, modulo 2^32.
    pub fn set_ctime(&mut self, ctime: u64)
        ensures
            final(self).ctime == ctime as u32,
            final(self).atime == old(self).atime && final(self).mtime == old(self).mtime,
            entry_same_but(*final(self), *old(self), false, false, true, false),
    {
        self.ctime = ctime as u32;
    }

    /// The modification time, modulo 2^32.
    pub fn set_mtime(&mut self, mtime: u64)
        ensures
            final(self).mtime == mtime as u32,
            final(self).atime == old(self).atime && final(self).ctime == old(self).ctime,
            entry_same_but(*final(self), *old(self), false, false, true, false),
    {
        self.mtime = mtime as u32;
    }

    /// The type bits become those of `ft`; the permissions stay and the
    /// other mode bits are cleared.
    pub fn set_file_type(&mut self, ft: FileType)
        ensures
            final(self).mode == (old(self).mode & 0o777) | entry_type_bits(ft),
            entry_same_but(*final(self), *old(self), true, false, false, false),
    {
        let upper_mode = match ft {
            FileType::Directory => S_IFDIR,
            FileType::BlockDevice => S_IFBLK,
            FileType::CharacterDevice => S_IFCHR,
            _ => S_IFREG,
        };
        let old_mode = self.mode & 0o777;
        self.mode = old_mode | upper_mode;
    }

    /// The owner, modulo 2^16.
    pub fn set_uid(&mut self, uid: u32)
        ensures
            final(self).uid == uid as u16,
            final(self).gid == old(self).gid,
            entry_same_but(*final(self), *old(self), false, true, false, false),
    {
        self.uid = uid as u16;
    }

    /// The group, modulo 2^16.
    pub fn set_gid(&mut self, gid: u32)
        ensures
            final(self).gid == gid as u16,
            final(self).uid == old(self).uid,
            entry_same_but(*final(self), *old(self), false, true, false, false),
    {
        self.gid = gid as u16;
    }

    /// The permission bits become those of `mode`; the others stay.
    pub fn set_mode(&mut self, mode: u16)
        ensures
            final(self).mode == (old(self).mode & !0o777u16) | (mode & 0o777),
            entry_same_but(*final(self), *old(self), true, false, false, false),
    {
        self.mode = (self.mode & !0o777) | (mode & 0o777);
    }

    /// mzFAT has no hard links: nothing changes.
    pub fn set_nlinks(&mut self, nlinks: u32)
        ensures
            entry_same_but(*final(self), *old(self), false, false, false, false),
    {
    }

    /// mzFAT has no device numbers: nothing changes.
    pub fn set_node(&mut self, major: u16, minor: u16)
        ensures
            entry_same_but(*final(self), *old(self), false, false, false, false),
    {
    }

    pub fn set_size(&mut self, size: u64)
        ensures
            final(self).size == size,
            entry_same_but(*final(self), *old(self), false, false, false, true),
    {
        self.size = size;
    }
}

} // verus!
