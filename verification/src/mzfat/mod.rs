//! mzFAT, a small FAT-style file system: its superblock, its directory
//! entries and the layout of a new image.
pub mod consts;
pub mod entry;
pub mod mkfs;
pub mod superblock;
