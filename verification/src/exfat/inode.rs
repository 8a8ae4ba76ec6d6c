//! The inode that the tool synthesizes for an exFAT file.
//!
//! exFAT keeps no inode table: a file's metadata lives in its directory
//! entry set. `ExfatInode` holds what those entries say, so that exFAT
//! files answer the same `InodeOperations` as the other file systems.
use crate::exfat::timestamp::{spec_pack, spec_unpack, ExfatTimestamp};
use crate::filetype::FileType;
use crate::fs::InodeOperations;
use vstd::prelude::*;

verus! {

/// A synthesized exFAT inode. Its number is the file's first cluster; an
/// empty file (first cluster 0) is numbered by the offset of its entry.
#[derive(Debug)]
pub struct ExfatInode {
    /// The first cluster of the data (0 if the file is empty).
    pub first_cluster: u32,
    /// The number of bytes written.
    pub valid_data_length: u64,
    /// The allocated size, a whole number of clusters.
    pub data_length: u64,
    /// Directory or regular file.
    pub file_type: FileType,
    /// The `NoFatChain` flag of the stream extension.
    pub no_fat_chain: bool,
    /// The name hash of the stream extension.
    pub name_hash: u16,
    /// The name decoded from the file name entries.
    pub name: String,
    pub create_time: ExfatTimestamp,
    pub modified_time: ExfatTimestamp,
    pub access_time: ExfatTimestamp,
    /// The byte offset of the file entry in the image.
    pub dir_entry_offset: u64,
    /// The number of secondary entries in the set.
    pub secondary_count: u8,
    /// The clusters of the file, in order.
    pub cluster_chain: Vec<u32>,
}

/// `a` and `b` agree in every field but the three timestamps, the type,
/// the size and the cluster chain.
pub open spec fn same_entry(a: ExfatInode, b: ExfatInode) -> bool {
    &&& a.first_cluster == b.first_cluster
    &&& a.data_length == b.data_length
    &&& a.no_fat_chain == b.no_fat_chain
    &&& a.name_hash == b.name_hash
    &&& a.name@ == b.name@
    &&& a.dir_entry_offset == b.dir_entry_offset
    &&& a.secondary_count == b.secondary_count
}

/// `a` and `b` agree in every field.
pub open spec fn same_inode(a: ExfatInode, b: ExfatInode) -> bool {
    &&& same_entry(a, b)
    &&& a.valid_data_length == b.valid_data_length
    &&& a.file_type == b.file_type
    &&& a.create_time == b.create_time
    &&& a.modified_time == b.modified_time
    &&& a.access_time == b.access_time
    &&& a.cluster_chain@ == b.cluster_chain@
}

impl InodeOperations for ExfatInode {
    open spec fn spec_file_type(&self) -> FileType {
        self.file_type
    }

    /// exFAT has no permissions; every file reads as 0o755.
    open spec fn spec_mode(&self) -> u16 {
        0o755
    }

    open spec fn spec_atime(&self) -> u64 {
        spec_pack(self.access_time)
    }

    open spec fn spec_mtime(&self) -> u64 {
        spec_pack(self.modified_time)
    }

    open spec fn spec_ctime(&self) -> u64 {
        spec_pack(self.create_time)
    }

    open spec fn spec_uid(&self) -> u32 {
        0
    }

    open spec fn spec_gid(&self) -> u32 {
        0
    }

    open spec fn spec_nlinks(&self) -> u32 {
        1
    }

    open spec fn spec_size(&self) -> u64 {
        self.valid_data_length
    }

    open spec fn spec_blocks(&self) -> Seq<u64> {
        self.cluster_chain@.map_values(|c: u32| c as u64)
    }

    open spec fn spec_node(&self) -> (u16, u16) {
        (0, 0)
    }

    open spec fn blocks_fit(&self, n: nat) -> bool {
        true
    }

    fn get_file_type(&self) -> (r: FileType) {
        self.file_type
    }

    /// Directories stay directories; every other type becomes a regular
    /// file, as exFAT has no links, devices or FIFOs.
    fn set_file_type(&mut self, ft: FileType)
        ensures
            final(self).file_type == (if ft == FileType::Directory {
                FileType::Directory
            } else {
                FileType::Regular
            }),
            same_entry(*final(self), *old(self)),
            final(self).valid_data_length == old(self).valid_data_length,
            final(self).create_time == old(self).create_time,
            final(self).modified_time == old(self).modified_time,
            final(self).access_time == old(self).access_time,
            final(self).cluster_chain@ == old(self).cluster_chain@,
    {
        self.file_type = match ft {
            FileType::Directory => FileType::Directory,
            _ => FileType::Regular,
        };
    }

    fn get_mode(&self) -> (r: u16) {
        0o755
    }

    /// exFAT has no permissions: nothing changes.
    fn set_mode(&mut self, mode: u16)
        ensures
            same_inode(*final(self), *old(self)),
    {
    }

    fn get_atime(&self) -> (r: u64) {
        self.access_time.pack()
    }

    fn set_atime(&mut self, atime: u64)
        ensures
            final(self).access_time == spec_unpack(atime),
            same_entry(*final(self), *old(self)),
            final(self).valid_data_length == old(self).valid_data_length,
            final(self).file_type == old(self).file_type,
            final(self).create_time == old(self).create_time,
            final(self).modified_time == old(self).modified_time,
            final(self).cluster_chain@ == old(self).cluster_chain@,
    {
        self.access_time = ExfatTimestamp::unpack(atime);
    }

    fn get_mtime(&self) -> (r: u64) {
        self.modified_time.pack()
    }

    fn set_mtime(&mut self, mtime: u64)
        ensures
            final(self).modified_time == spec_unpack(mtime),
            same_entry(*final(self), *old(self)),
            final(self).valid_data_length == old(self).valid_data_length,
            final(self).file_type == old(self).file_type,
            final(self).create_time == old(self).create_time,
            final(self).access_time == old(self).access_time,
            final(self).cluster_chain@ == old(self).cluster_chain@,
    {
        self.modified_time = ExfatTimestamp::unpack(mtime);
    }

    fn get_ctime(&self) -> (r: u64) {
        self.create_time.pack()
    }

    fn set_ctime(&mut self, ctime: u64)
        ensures
            final(self).create_time == spec_unpack(ctime),
            same_entry(*final(self), *old(self)),
            final(self).valid_data_length == old(self).valid_data_length,
            final(self).file_type == old(self).file_type,
            final(self).modified_time == old(self).modified_time,
            final(self).access_time == old(self).access_time,
            final(self).cluster_chain@ == old(self).cluster_chain@,
    {
        self.create_time = ExfatTimestamp::unpack(ctime);
    }

    fn get_uid(&self) -> (r: u32) {
        0
    }

    /// exFAT has no owners: nothing changes.
    fn set_uid(&mut self, uid: u32)
        ensures
            same_inode(*final(self), *old(self)),
    {
    }

    fn get_gid(&self) -> (r: u32) {
        0
    }

    /// exFAT has no groups: nothing changes.
    fn set_gid(&mut self, gid: u32)
        ensures
            same_inode(*final(self), *old(self)),
    {
    }

    fn get_nlinks(&self) -> (r: u32) {
        1
    }

    /// exFAT has no hard links: nothing changes.
    fn set_nlinks(&mut self, nlinks: u32)
        ensures
            same_inode(*final(self), *old(self)),
    {
    }

    fn get_size(&self) -> (r: u64) {
        self.valid_data_length
    }

    fn set_size(&mut self, size: u64)
        ensures
            final(self).valid_data_length == size,
            same_entry(*final(self), *old(self)),
            final(self).file_type == old(self).file_type,
            final(self).create_time == old(self).create_time,
            final(self).modified_time == old(self).modified_time,
            final(self).access_time == old(self).access_time,
            final(self).cluster_chain@ == old(self).cluster_chain@,
    {
        self.valid_data_length = size;
    }

    fn get_blocks(&self) -> (r: Vec<u64>) {
        let mut v: Vec<u64> = Vec::new();
        let mut k: usize = 0;
        while k < self.cluster_chain.len()
            invariant
                k <= self.cluster_chain@.len(),
                v@ == self.cluster_chain@.subrange(0, k as int).map_values(|c: u32| c as u64),
            decreases self.cluster_chain@.len() - k,
        {
            v.push(self.cluster_chain[k] as u64);
            k += 1;
            assert(v@ =~= self.cluster_chain@.subrange(0, k as int).map_values(|c: u32| c as u64));
        }
        assert(self.cluster_chain@.subrange(0, k as int) =~= self.cluster_chain@);
        v
    }

    /// The chain becomes `blocks`, each taken modulo 2^32.
    fn set_blocks(&mut self, blocks: &[u64])
        ensures
            final(self).cluster_chain@ == blocks@.map_values(|b: u64| b as u32),
            same_entry(*final(self), *old(self)),
            final(self).valid_data_length == old(self).valid_data_length,
            final(self).file_type == old(self).file_type,
            final(self).create_time == old(self).create_time,
            final(self).modified_time == old(self).modified_time,
            final(self).access_time == old(self).access_time,
    {
        let mut v: Vec<u32> = Vec::new();
        let mut k: usize = 0;
        while k < blocks.len()
            invariant
                k <= blocks@.len(),
                v@ == blocks@.subrange(0, k as int).map_values(|b: u64| b as u32),
            decreases blocks@.len() - k,
        {
            v.push(blocks[k] as u32);
            k += 1;
            assert(v@ =~= blocks@.subrange(0, k as int).map_values(|b: u64| b as u32));
        }
        assert(blocks@.subrange(0, k as int) =~= blocks@);
        self.cluster_chain = v;
    }

    fn get_node(&self) -> (r: (u16, u16)) {
        (0, 0)
    }

    /// exFAT has no device nodes: nothing changes.
    fn set_node(&mut self, major: u16, minor: u16)
        ensures
            same_inode(*final(self), *old(self)),
    {
    }
}

} // verus!
