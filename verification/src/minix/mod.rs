//! The Minix 3 file system.
pub mod load;
pub mod consts;
pub mod create;
pub mod direntry;
pub mod flush;
pub mod fs;
pub mod inode;
pub mod mkfs;
pub mod read;
pub mod rw;
pub mod superblock;
pub mod truncate;
pub mod unlink;
pub mod write;
