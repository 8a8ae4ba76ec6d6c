//! Generic file types and their encoding in the upper bits of a Unix mode.
use crate::stat::{S_IFBLK, S_IFCHR, S_IFDIR, S_IFIFO, S_IFLNK, S_IFMT, S_IFREG, S_IFSOCK};
use vstd::prelude::*;

verus! {

#[derive(Debug, Copy, Clone, PartialEq, Eq, Structural)]
pub enum FileType {
    Invalid,
    Regular,
    Directory,
    Symlink,
    BlockDevice,
    CharacterDevice,
    Fifo,
    Socket,
}

/// The `S_IFMT` bits that encode a file type (0 for `Invalid`).
pub open spec fn spec_type_bits(ft: FileType) -> u16 {
    match ft {
        FileType::Regular => S_IFREG,
        FileType::Directory => S_IFDIR,
        FileType::Symlink => S_IFLNK,
        FileType::BlockDevice => S_IFBLK,
        FileType::CharacterDevice => S_IFCHR,
        FileType::Fifo => S_IFIFO,
        FileType::Socket => S_IFSOCK,
        FileType::Invalid => 0,
    }
}

/// The file type that the `S_IFMT` bits of `mode` encode.
pub open spec fn spec_type_of_mode(mode: u16) -> FileType {
    let t = mode & S_IFMT;
    if t == S_IFREG {
        FileType::Regular
    } else if t == S_IFDIR {
        FileType::Directory
    } else if t == S_IFLNK {
        FileType::Symlink
    } else if t == S_IFBLK {
        FileType::BlockDevice
    } else if t == S_IFCHR {
        FileType::CharacterDevice
    } else if t == S_IFIFO {
        FileType::Fifo
    } else if t == S_IFSOCK {
        FileType::Socket
    } else {
        FileType::Invalid
    }
}

/// The rank of a file type in listings: directories, then symlinks, then
/// everything else, then regular files.
pub open spec fn spec_sort_order(ft: FileType) -> usize {
    match ft {
        FileType::Directory => 0,
        FileType::Symlink => 1,
        FileType::Regular => 3,
        _ => 2,
    }
}

impl FileType {
    pub fn sort_order(&self) -> (r: usize)
        ensures
            r == spec_sort_order(*self),
    {
        match self {
            FileType::Directory => 0,
            FileType::Symlink => 1,
            FileType::Regular => 3,
            _ => 2,
        }
    }

    /// The `S_IFMT` bits of this file type.
    pub fn to_mode_bits(self) -> (r: u16)
        ensures
            r == spec_type_bits(self),
    {
        match self {
            FileType::Regular => S_IFREG,
            FileType::Directory => S_IFDIR,
            FileType::Symlink => S_IFLNK,
            FileType::BlockDevice => S_IFBLK,
            FileType::CharacterDevice => S_IFCHR,
            FileType::Fifo => S_IFIFO,
            FileType::Socket => S_IFSOCK,
            FileType::Invalid => 0,
        }
    }

    /// The file type encoded in the `S_IFMT` bits of `mode`.
    pub fn from_mode(mode: u16) -> (r: FileType)
        ensures
            r == spec_type_of_mode(mode),
    {
        let t = mode & S_IFMT;
        if t == S_IFREG {
            FileType::Regular
        } else if t == S_IFDIR {
            FileType::Directory
        } else if t == S_IFLNK {
            FileType::Symlink
        } else if t == S_IFBLK {
            FileType::BlockDevice
        } else if t == S_IFCHR {
            FileType::CharacterDevice
        } else if t == S_IFIFO {
            FileType::Fifo
        } else if t == S_IFSOCK {
            FileType::Socket
        } else {
            FileType::Invalid
        }
    }

    /// The name of the file type as the tool prints it.
    pub fn to_string(&self) -> (r: String)
        ensures
            r@ == spec_type_name(*self),
    {
        match self {
            FileType::Regular => String::from_str("Regular"),
            FileType::Directory => String::from_str("Directory"),
            FileType::Symlink => String::from_str("Symlink"),
            FileType::BlockDevice => String::from_str("Block Device"),
            FileType::CharacterDevice => String::from_str("Character Device"),
            FileType::Fifo => String::from_str("FIFO"),
            FileType::Socket => String::from_str("Socket"),
            FileType::Invalid => String::from_str("Invalid"),
        }
    }
}

/// The printed name of a file type.
pub open spec fn spec_type_name(ft: FileType) -> Seq<char> {
    match ft {
        FileType::Regular => "Regular"@,
        FileType::Directory => "Directory"@,
        FileType::Symlink => "Symlink"@,
        FileType::BlockDevice => "Block Device"@,
        FileType::CharacterDevice => "Character Device"@,
        FileType::Fifo => "FIFO"@,
        FileType::Socket => "Socket"@,
        FileType::Invalid => "Invalid"@,
    }
}

/// Encoding a file type into mode bits and decoding it again gives back the
/// file type, and decoding a mode keeps exactly the bits that encode its type.
pub proof fn law_file_type_round_trip(ft: FileType, mode: u16)
    ensures
        spec_type_of_mode(spec_type_bits(ft)) == ft,
        spec_type_of_mode(mode) != FileType::Invalid ==> spec_type_bits(spec_type_of_mode(mode))
            == mode & S_IFMT,
{
    assert(0o100000u16 & 0o170000u16 == 0o100000u16 && 0o40000u16 & 0o170000u16 == 0o40000u16
        && 0o120000u16 & 0o170000u16 == 0o120000u16 && 0o60000u16 & 0o170000u16 == 0o60000u16
        && 0o20000u16 & 0o170000u16 == 0o20000u16 && 0o10000u16 & 0o170000u16 == 0o10000u16
        && 0o140000u16 & 0o170000u16 == 0o140000u16 && 0u16 & 0o170000u16 == 0u16)
        by (bit_vector);
    assert((mode & 0o170000u16) & 0o170000u16 == mode & 0o170000u16) by (bit_vector);
}


/// How listings order file types: directories before everything else,
/// symbolic links after them and before the rest, regular files after
/// everything else, and all other types alike.
pub proof fn law_sort_order(a: FileType, b: FileType)
    ensures
        a != FileType::Directory ==> spec_sort_order(FileType::Directory) < spec_sort_order(a),
        a != FileType::Directory && a != FileType::Symlink ==> spec_sort_order(FileType::Symlink) < spec_sort_order(a),
        a != FileType::Regular ==> spec_sort_order(a) < spec_sort_order(FileType::Regular),
        (a != FileType::Directory && a != FileType::Symlink && a != FileType::Regular && b != FileType::Directory && b
            != FileType::Symlink && b != FileType::Regular) ==> spec_sort_order(a) == spec_sort_order(b),
{
}

} // verus!
