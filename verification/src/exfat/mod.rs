//! The exFAT file system: its boot sector, directory entries, timestamps,
//! synthesized inodes and the layout of a new volume.
pub mod consts;
pub mod entry;
pub mod fs;
pub mod inode;
pub mod mbs;
pub mod mkfs;
pub mod timestamp;
