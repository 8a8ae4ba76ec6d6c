//! Errors reported by the file system library.
use vstd::prelude::*;

verus! {

/// The error of an operation on an image, its directory tree or its bitmaps.
///
/// Each variant carries the values that its message names, so that a caller
/// can report the same text that the tool prints.
#[derive(Debug, Clone, PartialEq, Eq)]
pub enum FsError {
    /// A bitmap index lies beyond the bitmap ("Index out of bounds").
    IndexOutOfBounds,
    /// The file system has no in-memory directory tree.
    NoTree,
    /// The directory tree has no `.` entry for the root.
    NoRootItem,
    /// A path component that is not a directory was walked through.
    NotADirectory { component: String, path: String },
    /// The path names nothing in the tree.
    NotFound { path: String },
    /// A tree entry cannot be added for the root directory itself.
    RootEntry,
    /// A path without components was given where one is needed.
    EmptyPath,
    /// A directory item has no child tree.
    NoChildTree { component: String },
    /// A symbolic link loop was found while resolving a path.
    SymlinkLoop { path: String },
    /// A component follows one that is not a directory.
    NotADirectoryPath { path: String },
    /// An inode number outside the inode table.
    InvalidInode { inode: u64 },
    /// A block number below the first data zone.
    BlockBeforeDataZone { block: u64, first: u16 },
    /// A block number at or past the number of zones.
    BlockPastEnd { block: u64, num_zones: u32 },
    /// The image ends before the bytes to read.
    UnexpectedEof,
    /// No inode is left to allocate.
    NoInodesLeft,
    /// No block is left to allocate.
    NoBlocksLeft,
    /// The block cache refused an insertion.
    CacheInsertFailed,
    /// A read starts at or beyond the end of the file.
    OffsetBeyondEof,
    /// A symbolic link target is longer than the file system allows.
    SymlinkTooLarge,
    /// A symbolic link could not get a block.
    SymlinkNoBlock,
    /// The file type cannot be created.
    InvalidFileType,
    /// The inode is not marked as taken in the inode bitmap.
    InodeNotTaken { inode: u64 },
    /// The inode lies beyond the inode bitmap.
    InodeOutOfBounds { inode: u64 },
    /// The entry already exists.
    AlreadyExists,
    /// A file name is longer than a directory entry can hold.
    NameTooLong { name: String, max: usize },
    /// The parent directory has no free entry slot and no free direct zone.
    DirectoryFull,
    /// A write would reach past what memory can hold of the image.
    WriteOutOfRange,
    /// A directory of the image lies below itself.
    DirectoryLoop,
    /// Inode `inode` was expected to be a directory.
    NotADirectoryInode { inode: u64 },
    /// The root inode was not found.
    RootInodeNotFound,
    /// The image holds no valid superblock.
    InvalidSuperblock,
    /// The image is shorter than its superblock says.
    ImageTooShort,
    /// The requested size is too small for the file system.
    SizeTooSmall,
    /// The requested size is not a multiple of the block size.
    SizeNotBlockMultiple,
    /// The volume has no room for data clusters after the FAT.
    NoRoomForClusters,
    /// The metadata clusters exceed the cluster heap.
    MetadataExceedsHeap,
    /// The boot sector's sector and cluster sizes do not fit in 64 bits.
    InvalidGeometry,
    /// The root directory of an exFAT volume holds no allocation bitmap
    /// entry.
    NoBitmap,
    /// A cluster chain points at a cluster beyond the FAT.
    ClusterOutOfRange { cluster: u32 },
    /// A cluster chain comes back to a cluster it has passed.
    ClusterChainLoop,
    /// The file system has no hard links.
    HardLinksNotSupported,
    /// The file system has no symbolic links.
    SymlinksNotSupported,
}

} // verus!
