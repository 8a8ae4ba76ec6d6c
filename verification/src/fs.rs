//! File system traits and allocation counts.
use crate::cache::{trees_view, ItemView, Tree};
use crate::error::FsError;
pub use crate::filetype::FileType;
use vstd::prelude::*;

verus! {

/// How many units (inodes or blocks) are taken and free.
#[derive(Debug)]
pub struct AllocationData {
    pub taken: u64,
    pub free: u64,
}

impl AllocationData {
    pub fn new(taken: u64, free: u64) -> (r: Self)
        ensures
            r.taken == taken,
            r.free == free,
    {
        Self { taken, free }
    }

    /// The number of units in all.
    pub fn total(&self) -> (r: u64)
        requires
            self.taken + self.free <= u64::MAX,
        ensures
            r == self.taken + self.free,
    {
        self.taken + self.free
    }
}

/// Bytes to write into an image at a byte offset.
pub struct ImageWrite {
    pub offset: u64,
    pub data: Vec<u8>,
}

/// The offsets and bytes of image writes.
pub open spec fn writes_view(w: Seq<ImageWrite>) -> Seq<(u64, Seq<u8>)> {
    w.map_values(|x: ImageWrite| (x.offset, x.data@))
}

/// The allocation operations of a file system's superblock.
pub trait SuperblockOperations {
    /// The state that the operations need to run.
    spec fn sb_inv(&self) -> bool;

    /// The size of a block, in bytes.
    spec fn spec_block_size(&self) -> u64;

    /// Whether inode `n` can be given back.
    spec fn can_free_inode(&self, n: u64) -> bool;

    /// Whether block `b` can be given back.
    spec fn can_free_block(&self, b: u64) -> bool;

    fn get_block_size(&self) -> (r: u64)
        ensures
            r == self.spec_block_size(),
    ;

    fn get_num_blocks(&self) -> AllocationData
        requires
            self.sb_inv(),
    ;

    fn get_num_inodes(&self) -> AllocationData
        requires
            self.sb_inv(),
    ;

    fn allocate_inode(&mut self) -> (r: Result<u64, FsError>)
        requires
            old(self).sb_inv(),
        ensures
            final(self).sb_inv(),
    ;

    fn deallocate_inode(&mut self, inode_num: u64) -> (r: Result<(), FsError>)
        requires
            old(self).sb_inv(),
            old(self).can_free_inode(inode_num),
        ensures
            final(self).sb_inv(),
    ;

    fn allocate_block(&mut self) -> (r: Result<u64, FsError>)
        requires
            old(self).sb_inv(),
        ensures
            final(self).sb_inv(),
    ;

    fn deallocate_block(&mut self, block_num: u64) -> (r: Result<(), FsError>)
        requires
            old(self).sb_inv(),
            old(self).can_free_block(block_num),
        ensures
            final(self).sb_inv(),
    ;
}

/// The metadata operations of an inode.
pub trait InodeOperations {
    spec fn spec_file_type(&self) -> FileType;

    spec fn spec_mode(&self) -> u16;

    spec fn spec_atime(&self) -> u64;

    spec fn spec_mtime(&self) -> u64;

    spec fn spec_ctime(&self) -> u64;

    spec fn spec_uid(&self) -> u32;

    spec fn spec_gid(&self) -> u32;

    spec fn spec_nlinks(&self) -> u32;

    spec fn spec_size(&self) -> u64;

    spec fn spec_blocks(&self) -> Seq<u64>;

    spec fn spec_node(&self) -> (u16, u16);

    /// Whether `n` block numbers fit in the inode.
    spec fn blocks_fit(&self, n: nat) -> bool;

    fn get_file_type(&self) -> (r: FileType)
        ensures
            r == self.spec_file_type(),
    ;

    fn set_file_type(&mut self, ft: FileType);

    fn get_mode(&self) -> (r: u16)
        ensures
            r == self.spec_mode(),
    ;

    fn set_mode(&mut self, mode: u16);

    fn get_atime(&self) -> (r: u64)
        ensures
            r == self.spec_atime(),
    ;

    fn set_atime(&mut self, atime: u64);

    fn get_mtime(&self) -> (r: u64)
        ensures
            r == self.spec_mtime(),
    ;

    fn set_mtime(&mut self, mtime: u64);

    fn get_ctime(&self) -> (r: u64)
        ensures
            r == self.spec_ctime(),
    ;

    fn set_ctime(&mut self, ctime: u64);

    fn get_uid(&self) -> (r: u32)
        ensures
            r == self.spec_uid(),
    ;

    fn set_uid(&mut self, uid: u32);

    fn get_gid(&self) -> (r: u32)
        ensures
            r == self.spec_gid(),
    ;

    fn set_gid(&mut self, gid: u32);

    fn get_nlinks(&self) -> (r: u32)
        ensures
            r == self.spec_nlinks(),
    ;

    fn set_nlinks(&mut self, nlinks: u32);

    fn get_size(&self) -> (r: u64)
        ensures
            r == self.spec_size(),
    ;

    fn set_size(&mut self, size: u64);

    fn get_blocks(&self) -> (r: Vec<u64>)
        ensures
            r@ == self.spec_blocks(),
    ;

    fn set_blocks(&mut self, blocks: &[u64])
        requires
            old(self).blocks_fit(blocks@.len()),
    ;

    fn get_node(&self) -> (r: (u16, u16))
        ensures
            r == self.spec_node(),
    ;

    fn set_node(&mut self, major: u16, minor: u16);
}

/// A file system image with its in-memory directory tree.
pub trait FileSystem: Sized {
    type Inode: InodeOperations;

    /// The state that the operations need to run.
    spec fn fs_inv(&self) -> bool;

    /// The directory tree, if the file system has one.
    spec fn spec_tree(&self) -> Option<Seq<ItemView>>;

    /// Inode `n`, if it exists.
    spec fn spec_inode(&self, n: u64) -> Option<Self::Inode>;

    /// Whether `self` differs from `other` in its directory tree at most.
    spec fn same_but_tree(&self, other: &Self) -> bool;

    /// What reading the target of symbolic link inode `n` gives.
    spec fn spec_symlink(&self, n: u64) -> Result<Seq<char>, FsError>;

    /// Whether `self` differs from `other` at most in what it caches.
    spec fn cache_only_change(&self, other: &Self) -> bool;

    /// Nothing differs from itself beyond its cache.
    proof fn lemma_cache_only_refl(a: &Self)
        ensures
            a.cache_only_change(a),
    ;

    /// Changes of the cache alone, one after another, change the cache alone.
    proof fn lemma_cache_only_trans(a: &Self, b: &Self, c: &Self)
        requires
            b.cache_only_change(a),
            c.cache_only_change(b),
        ensures
            c.cache_only_change(a),
    ;

    /// The name of the file system type.
    fn name(&self) -> (r: &str);

    fn get_inode(&mut self, inode_num: u64) -> (r: Result<&Self::Inode, FsError>)
        ensures
            *final(self) == *old(self),
            match r {
                Ok(i) => old(self).spec_inode(inode_num) == Some(*i),
                Err(_) => old(self).spec_inode(inode_num) is None,
            },
    ;

    /// Read the target of the symbolic link of inode `inode`. What the
    /// file system shows of its tree, inodes and links stays as it was.
    fn read_symlink(&mut self, inode: u64) -> (r: Result<String, FsError>)
        ensures
            match old(self).spec_symlink(inode) {
                Ok(s) => r matches Ok(t) && t@ == s,
                Err(e) => r == Err::<String, FsError>(e),
            },
            final(self).spec_tree() == old(self).spec_tree(),
            forall|n: u64| #[trigger] final(self).spec_inode(n) == old(self).spec_inode(n),
            forall|n: u64| #[trigger] final(self).spec_symlink(n) == old(self).spec_symlink(n),
            final(self).cache_only_change(old(self)),
    ;

    fn get_tree(&self) -> (r: Option<&Tree>)
        ensures
            match r {
                Some(t) => self.spec_tree() == Some(trees_view(t@)),
                None => self.spec_tree() is None,
            },
    ;

    fn get_tree_mut(&mut self) -> (r: Option<&mut Tree>)
        ensures
            match r {
                Some(t) => {
                    &&& old(self).spec_tree() == Some(trees_view(t@))
                    &&& final(self).spec_tree() == Some(trees_view(final(t)@))
                    &&& final(self).same_but_tree(old(self))
                },
                None => old(self).spec_tree() is None && *final(self) == *old(self),
            },
    ;
}

} // verus!
