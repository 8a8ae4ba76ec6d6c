//! Why a shell command refused or failed.
use crate::args::ParseIntError;
use crate::error::FsError;
use crate::filetype::FileType;
use crate::stat::ModeError;
use vstd::prelude::*;

verus! {

/// The reason a shell command stopped: a file system error, or a check of
/// the command itself. Each variant carries what its message names.
#[derive(Debug)]
pub enum CmdError {
    /// The file system reported this error.
    Fs(FsError),
    /// The named path is a directory.
    IsADirectory(String),
    /// The named path is no directory.
    NotADirectory(String),
    /// The named path is not a regular file.
    NotRegular(String),
    /// The directory still has entries.
    NotEmpty(String),
    /// The named path exists already.
    Exists(String),
    /// A file of this many bytes cannot be addressed by an inode.
    TooLarge(u64),
    /// No inode is free.
    NoFreeInodes,
    /// The file needs this many blocks and only that many are free.
    NotEnoughBlocks { need: u64, free: u64 },
    /// Source and destination are the same path.
    SameFile,
    /// The destination lies inside the source directory.
    IntoItself,
    /// The root directory cannot be moved or copied.
    RootDirectory,
    /// A directory was given without the recursive flag.
    OmitDirectory(String),
    /// A directory cannot replace a non-directory.
    DirOverNonDir,
    /// A non-directory cannot replace a directory.
    NonDirOverDir,
    /// Nodes of this type, as the one at this path, cannot be copied.
    CannotCopy(FileType, String),
    /// A hard link cannot name a directory.
    HardLinkToDirectory(String),
    /// The path names nothing that can be looked up.
    InvalidPath(String),
    /// The named path is no symbolic link.
    NotSymlink(String),
    /// A range argument without `-` is no number.
    RangeNotNumber(String),
    /// Neither end of a range argument is a number.
    RangeNotConvertible(String),
    /// The mode string does not parse.
    Mode(ModeError),
    /// An owner and group argument holds more than one `:`.
    OwnerFormat,
    /// The owner is no number.
    BadOwner(String, ParseIntError),
    /// The group is no number.
    BadGroup(String, ParseIntError),
}

} // verus!
