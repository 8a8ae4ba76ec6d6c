//! The Minix 3 file system over an in-memory image.
use crate::bitmap::{count_false, count_true, counted_len, is_first_clear, Bitmap};
use crate::bytes::{copy_range, le_u32, read_u32, utf8_lossy, zeros};
use crate::cache::{trees_view, BlockCache, ItemView, Tree, CACHE_LINES};
use crate::error::FsError;
use crate::fs::{AllocationData, FileSystem, SuperblockOperations};
use crate::minix::inode::Inode;
use crate::minix::consts::MAX_SYMLINK_SIZE;
use crate::minix::read::{lemma_run_bounds, lemma_same_content_views, zero_seq, ReadState, ReadStep};
use crate::minix::superblock::Superblock;
use vstd::prelude::*;

verus! {

/// A Minix 3 file system: the superblock, bitmaps and inode table read from
/// the image, the directory tree built from it, the image's bytes, and the
/// cache of blocks read and written since the last write-back.
pub struct MinixFileSystem {
    pub superblock: Superblock,
    pub imap: Bitmap,
    pub zmap: Bitmap,
    pub inodes: Vec<Inode>,
    pub tree: Tree,
    pub image: Vec<u8>,
    pub bcache: BlockCache,
}

/// The bytes `image[start..start + len]`.
pub open spec fn image_range(image: Seq<u8>, start: int, len: int) -> Seq<u8> {
    image.subrange(start, start + len)
}

/// The smaller of two integers.
pub open spec fn min(a: int, b: int) -> int {
    if a < b {
        a
    } else {
        b
    }
}

/// A bitmap that the counting and allocation operations can run on.
pub open spec fn bitmap_ok(b: Bitmap) -> bool {
    &&& b.addressable()
    &&& 8 * b.map.len() <= b.max + 8
}

impl MinixFileSystem {
    /// The invariant of an open file system.
    pub open spec fn wf(&self) -> bool {
        &&& self.inodes@.len() == self.superblock.num_inodes
        &&& bitmap_ok(self.imap)
        &&& bitmap_ok(self.zmap)
        &&& 8 * self.zmap.map.len() + 0x10000 <= u64::MAX
        &&& 8 * self.imap.map.len() <= u64::MAX
    }

    /// The block size, in bytes.
    pub open spec fn bsize(&self) -> int {
        self.superblock.block_size as int
    }

    /// What `read_block(b, data)` puts into a `data` of `data.len()` bytes
    /// from the cache, when block `b` is cached.
    pub open spec fn cached_read(&self, b: u64, data: Seq<u8>) -> Seq<u8> {
        let size = min(self.bsize(), data.len() as int);
        let src = self.bcache.view()[b].1;
        let n = min(src.len() as int, size);
        src.subrange(0, n) + data.subrange(n, data.len() as int)
    }

    /// The error that `read_block(b, ..)` returns for a block outside the
    /// data zones.
    pub open spec fn block_bounds_error(&self, b: u64) -> Option<FsError> {
        if b < self.superblock.first_data_zone as u64 {
            Some(FsError::BlockBeforeDataZone { block: b, first: self.superblock.first_data_zone })
        } else if b >= self.superblock.num_zones as u64 {
            Some(FsError::BlockPastEnd { block: b, num_zones: self.superblock.num_zones })
        } else {
            None
        }
    }

    /// What `read_block(b, data)` leaves in a buffer `data`, or its error.
    pub open spec fn read_block_data(&self, b: u64, data: Seq<u8>) -> Result<Seq<u8>, FsError> {
        match self.block_bounds_error(b) {
            Some(e) => Err(e),
            None => {
                let size = min(self.bsize(), data.len() as int);
                let loc = b * self.bsize();
                if self.bcache.view().contains_key(b) {
                    Ok(self.cached_read(b, data))
                } else if loc + size > self.image@.len() {
                    Err(FsError::UnexpectedEof)
                } else {
                    Ok(image_range(self.image@, loc, size) + data.subrange(size, data.len() as int))
                }
            },
        }
    }

    /// The cache after `read_block(b, data)`: a block read from the image
    /// is cached, as read and padded with zeros to a block, when the cache
    /// has room.
    pub open spec fn read_block_cache(&self, b: u64, data: Seq<u8>) -> Map<u64, (bool, Seq<u8>)> {
        let size = min(self.bsize(), data.len() as int);
        let loc = b * self.bsize();
        if self.block_bounds_error(b) is None && !self.bcache.view().contains_key(b) && loc + size
            <= self.image@.len() && self.bcache.view().len() < CACHE_LINES {
            self.bcache.view().insert(
                b,
                (false, image_range(self.image@, loc, size) + Seq::new((self.bsize() - size) as nat, |i: int| 0u8)),
            )
        } else {
            self.bcache.view()
        }
    }

    /// Whether `self` and `other` differ at most in their caches.
    pub open spec fn same_but_cache(&self, other: &Self) -> bool {
        &&& self.superblock == other.superblock
        &&& self.imap == other.imap
        &&& self.zmap == other.zmap
        &&& self.inodes == other.inodes
        &&& self.tree == other.tree
        &&& self.image == other.image
    }

    /// Read block `block_num` into the front of `data` (at most one block):
    /// from the cache if it holds the block, else from the image, caching
    /// what was read when the cache has room.
    pub fn read_block(&mut self, block_num: u64, data: &mut [u8]) -> (r: Result<(), FsError>)
        ensures
            match old(self).read_block_data(block_num, old(data)@) {
                Ok(d) => r is Ok && final(data)@ == d,
                Err(e) => r == Err::<(), FsError>(e) && final(data)@ == old(data)@,
            },
            final(self).same_but_cache(old(self)),
            final(self).bcache.view() == old(self).read_block_cache(block_num, old(data)@),
    {
        if block_num < self.superblock.first_data_zone as u64 {
            return Err(FsError::BlockBeforeDataZone { block: block_num, first: self.superblock.first_data_zone });
        } else if block_num >= self.superblock.num_zones as u64 {
            return Err(FsError::BlockPastEnd { block: block_num, num_zones: self.superblock.num_zones });
        }
        let bs = self.superblock.block_size as usize;
        let size = if bs < data.len() { bs } else { data.len() };
        if let Some(source) = self.bcache.get(block_num) {
            let n = if source.data.len() < size { source.data.len() } else { size };
            let mut k: usize = 0;
            while k < n
                invariant
                    n <= source.data@.len(),
                    n <= data@.len(),
                    data@.len() == old(data)@.len(),
                    k <= n,
                    forall|m: int| 0 <= m < k ==> data@[m] == source.data@[m],
                    forall|m: int| k <= m < data@.len() ==> data@[m] == old(data)@[m],
                decreases n - k,
            {
                data[k] = source.data[k];
                k += 1;
            }
            assert(data@ =~= old(self).cached_read(block_num, old(data)@));
            return Ok(());
        }
        proof {
            let nz = self.superblock.num_zones as int;
            let b = self.superblock.block_size as int;
            assert(block_num * b <= nz * b) by (nonlinear_arith)
                requires
                    block_num < nz,
                    0 <= b,
            ;
            assert(nz * b <= 0xFFFF_FFFF * 0xFFFF) by (nonlinear_arith)
                requires
                    0 <= nz <= 0xFFFF_FFFF,
                    0 <= b <= 0xFFFF,
            ;
        }
        let location = block_num * (self.superblock.block_size as u64);
        let ilen = self.image.len();
        if location > self.image.len() as u64 || (self.image.len() as u64) - location < size as u64 {
            return Err(FsError::UnexpectedEof);
        }
        let loc = location as usize;
        let mut block_data = zeros(bs);
        let mut k: usize = 0;
        while k < size
            invariant
                size <= bs,
                size <= data@.len(),
                loc + size <= self.image@.len(),
                ilen == self.image@.len(),
                block_data@.len() == bs,
                data@.len() == old(data)@.len(),
                k <= size,
                forall|m: int| 0 <= m < k ==> #[trigger] data@[m] == self.image@[loc + m],
                forall|m: int| 0 <= m < k ==> #[trigger] block_data@[m] == self.image@[loc + m],
                forall|m: int| k <= m < data@.len() ==> data@[m] == old(data)@[m],
                forall|m: int| k <= m < bs ==> block_data@[m] == 0,
            decreases size - k,
        {
            let byte = self.image[loc + k];
            assert(byte == self.image@[loc + k]);
            let ghost d0 = data@;
            data[k] = byte;
            assert(data@ == d0.update(k as int, byte));
            block_data.set(k, byte);
            k += 1;
        }
        let ghost got = image_range(self.image@, loc as int, size as int);
        assert(data@ =~= got + old(data)@.subrange(size as int, old(data)@.len() as int));
        assert(block_data@ =~= got + Seq::new((bs - size) as nat, |i: int| 0u8));
        self.bcache.insert_read(block_num, block_data);
        Ok(())
    }

    /// Write the front of `data` (at most one block) to block `block_num`,
    /// in the cache.
    pub fn write_block(&mut self, block_num: u64, data: &[u8]) -> (r: Result<(), FsError>)
        ensures
            r is Ok,
            final(self).bcache.view() == old(self).bcache.view().insert(block_num, (true, data@.subrange(0, min(old(self).bsize(), data@.len() as int)))),
            final(self).superblock == old(self).superblock,
            final(self).imap == old(self).imap,
            final(self).zmap == old(self).zmap,
            final(self).inodes == old(self).inodes,
            final(self).tree == old(self).tree,
            final(self).image == old(self).image,
    {
        let bs = self.superblock.block_size as usize;
        let size = if bs < data.len() { bs } else { data.len() };
        let v = crate::bytes::copy_range(data, 0, size);
        if !self.bcache.insert_write(block_num, v) {
            return Err(FsError::CacheInsertFailed);
        }
        Ok(())
    }

    /// Inode `n` of the table, numbered from 1.
    pub open spec fn inode_at(&self, n: u64) -> Option<Inode> {
        if n == 0 || n > self.superblock.num_inodes as u64 || n - 1 >= self.inodes@.len() {
            None
        } else {
            Some(self.inodes@[n - 1])
        }
    }

    /// A changeable reference to inode `inode_num`.
    pub fn get_inode_mut(&mut self, inode_num: u64) -> (r: Result<&mut Inode, FsError>)
        ensures
            match r {
                Ok(i) => {
                    &&& old(self).inode_at(inode_num) == Some(*i)
                    &&& final(self).inodes@ == old(self).inodes@.update(inode_num - 1, *final(i))
                    &&& final(self).superblock == old(self).superblock
                    &&& final(self).imap == old(self).imap
                    &&& final(self).zmap == old(self).zmap
                    &&& final(self).tree == old(self).tree
                    &&& final(self).image == old(self).image
                    &&& final(self).bcache == old(self).bcache
                },
                Err(e) => old(self).inode_at(inode_num) is None && e == FsError::InvalidInode { inode: inode_num } && *final(self) == *old(self),
            },
    {
        if inode_num == 0 || inode_num > self.superblock.num_inodes as u64
            || (inode_num - 1) as usize >= self.inodes.len() {
            return Err(FsError::InvalidInode { inode: inode_num });
        }
        Ok(&mut self.inodes[(inode_num - 1) as usize])
    }
}

/// The zone pointers of an indirect block: its little-endian `u32`s.
pub open spec fn zone_pointers(block: Seq<u8>) -> Seq<u32> {
    Seq::new(block.len() / 4, |i: int| le_u32(block, 4 * i))
}

/// Read an indirect block and return the zone pointers it holds.
pub fn get_indirect_zone(fs: &mut MinixFileSystem, zone: u64) -> (r: Result<Vec<u32>, FsError>)
    ensures
        match old(fs).read_block_data(zone, Seq::new(old(fs).bsize() as nat, |i: int| 0u8)) {
            Ok(buf) => r matches Ok(v) && v@ == zone_pointers(buf),
            Err(e) => r == Err::<Vec<u32>, FsError>(e),
        },
        final(fs).same_but_cache(old(fs)),
        final(fs).bcache.view() == old(fs).read_block_cache(zone, Seq::new(old(fs).bsize() as nat, |i: int| 0u8)),
{
    let mut buf = zeros(fs.superblock.block_size as usize);
    match fs.read_block(zone, buf.as_mut_slice()) {
        Ok(()) => {},
        Err(e) => {
            return Err(e);
        },
    }
    let blen = buf.len();
    let n = blen / 4;
    let mut out: Vec<u32> = Vec::new();
    let mut i: usize = 0;
    while i < n
        invariant
            blen == buf@.len(),
            n == buf@.len() / 4,
            i <= n,
            out@ == zone_pointers(buf@).take(i as int),
        decreases n - i,
    {
        out.push(read_u32(buf.as_slice(), 4 * i));
        i += 1;
        assert(out@ =~= zone_pointers(buf@).take(i as int));
    }
    assert(zone_pointers(buf@).take(n as int) =~= zone_pointers(buf@));
    Ok(out)
}

impl SuperblockOperations for MinixFileSystem {
    open spec fn sb_inv(&self) -> bool {
        self.wf()
    }

    open spec fn spec_block_size(&self) -> u64 {
        self.superblock.block_size as u64
    }

    open spec fn can_free_inode(&self, n: u64) -> bool {
        (n as usize) / 8 != self.imap.map.len()
    }

    open spec fn can_free_block(&self, b: u64) -> bool {
        &&& (b as usize) >= self.superblock.first_data_zone as usize
        &&& ((b as usize) - self.superblock.first_data_zone as usize) / 8 != self.zmap.map.len()
    }

    fn get_num_inodes(&self) -> (r: AllocationData)
        ensures
            r.taken == count_true(self.imap.bits().take(counted_len(self.imap.map.len() as nat, self.imap.max as nat) as int)),
            r.free == count_false(self.imap.bits().take(counted_len(self.imap.map.len() as nat, self.imap.max as nat) as int)),
    {
        let taken_blocks = self.imap.count_taken() as u64;
        let free_blocks = self.imap.count_free() as u64;
        AllocationData::new(taken_blocks, free_blocks)
    }

    fn get_num_blocks(&self) -> (r: AllocationData)
        ensures
            r.taken == count_true(self.zmap.bits().take(counted_len(self.zmap.map.len() as nat, self.zmap.max as nat) as int)),
            r.free == count_false(self.zmap.bits().take(counted_len(self.zmap.map.len() as nat, self.zmap.max as nat) as int)),
    {
        let taken_blocks = self.zmap.count_taken() as u64;
        let free_blocks = self.zmap.count_free() as u64;
        AllocationData::new(taken_blocks, free_blocks)
    }

    fn get_block_size(&self) -> (r: u64) {
        self.superblock.block_size as u64
    }

    /// Take the lowest free inode of the inode bitmap.
    fn allocate_inode(&mut self) -> (r: Result<u64, FsError>)
        ensures
            final(self).zmap == old(self).zmap,
            final(self).superblock == old(self).superblock,
            final(self).inodes == old(self).inodes,
            final(self).tree == old(self).tree,
            final(self).image == old(self).image,
            final(self).bcache == old(self).bcache,
            final(self).imap.max == old(self).imap.max,
            final(self).imap.map.len() == old(self).imap.map.len(),
            match r {
                Ok(n) => is_first_clear(old(self).imap.bits(), n as int) && final(self).imap.bits() == old(self).imap.bits().update(n as int, true),
                Err(e) => e == FsError::NoInodesLeft && final(self).imap.map@ == old(self).imap.map@
                    && forall|k: int| 0 <= k < old(self).imap.bits().len() ==> #[trigger] old(self).imap.bits()[k],
            },
    {
        match self.imap.take_next() {
            Some(t) => Ok(t as u64),
            None => Err(FsError::NoInodesLeft),
        }
    }

    /// Clear inode `inode_num` in the inode bitmap.
    fn deallocate_inode(&mut self, inode_num: u64) -> (r: Result<(), FsError>)
        ensures
            final(self).zmap == old(self).zmap,
            final(self).superblock == old(self).superblock,
            final(self).inodes == old(self).inodes,
            final(self).tree == old(self).tree,
            final(self).image == old(self).image,
            final(self).bcache == old(self).bcache,
            final(self).imap.max == old(self).imap.max,
            final(self).imap.map.len() == old(self).imap.map.len(),
            (inode_num as usize) / 8 > old(self).imap.map.len() ==> r == Err::<(), FsError>(FsError::IndexOutOfBounds) && final(self).imap.map@ == old(self).imap.map@,
            (inode_num as usize) / 8 < old(self).imap.map.len() ==> r is Ok && final(self).imap.bits() == old(self).imap.bits().update((inode_num as usize) as int, false),
    {
        self.imap.clear(inode_num as usize)
    }

    /// Take the lowest free zone of the zone bitmap; the block number counts
    /// from the first data zone.
    fn allocate_block(&mut self) -> (r: Result<u64, FsError>)
        ensures
            final(self).imap == old(self).imap,
            final(self).superblock == old(self).superblock,
            final(self).inodes == old(self).inodes,
            final(self).tree == old(self).tree,
            final(self).image == old(self).image,
            final(self).bcache == old(self).bcache,
            final(self).zmap.max == old(self).zmap.max,
            final(self).zmap.map.len() == old(self).zmap.map.len(),
            match r {
                Ok(b) => {
                    let t = b - old(self).superblock.first_data_zone;
                    &&& b >= old(self).superblock.first_data_zone
                    &&& is_first_clear(old(self).zmap.bits(), t)
                    &&& final(self).zmap.bits() == old(self).zmap.bits().update(t, true)
                },
                Err(e) => e == FsError::NoBlocksLeft && final(self).zmap.map@ == old(self).zmap.map@
                    && forall|k: int| 0 <= k < old(self).zmap.bits().len() ==> #[trigger] old(self).zmap.bits()[k],
            },
    {
        match self.zmap.take_next() {
            Some(t) => Ok(self.superblock.first_data_zone as u64 + t as u64),
            None => Err(FsError::NoBlocksLeft),
        }
    }

    /// Clear block `block_num` in the zone bitmap.
    fn deallocate_block(&mut self, block_num: u64) -> (r: Result<(), FsError>)
        ensures
            final(self).imap == old(self).imap,
            final(self).superblock == old(self).superblock,
            final(self).inodes == old(self).inodes,
            final(self).tree == old(self).tree,
            final(self).image == old(self).image,
            final(self).bcache == old(self).bcache,
            final(self).zmap.max == old(self).zmap.max,
            final(self).zmap.map.len() == old(self).zmap.map.len(),
            ((block_num as usize) - old(self).superblock.first_data_zone as usize) / 8 > old(self).zmap.map.len() ==> r == Err::<(), FsError>(FsError::IndexOutOfBounds) && final(self).zmap.map@ == old(self).zmap.map@,
            ((block_num as usize) - old(self).superblock.first_data_zone as usize) / 8 < old(self).zmap.map.len() ==> r is Ok && final(self).zmap.bits() == old(self).zmap.bits().update((block_num as usize) - old(self).superblock.first_data_zone as usize, false),
    {
        self.zmap.clear(block_num as usize - self.superblock.first_data_zone as usize)
    }
}

impl FileSystem for MinixFileSystem {
    type Inode = Inode;

    open spec fn fs_inv(&self) -> bool {
        self.wf()
    }

    open spec fn spec_tree(&self) -> Option<Seq<ItemView>> {
        Some(trees_view(self.tree@))
    }

    open spec fn spec_inode(&self, n: u64) -> Option<Inode> {
        self.inode_at(n)
    }

    open spec fn spec_symlink(&self, n: u64) -> Result<Seq<char>, FsError> {
        self.symlink_target(n)
    }

    open spec fn cache_only_change(&self, other: &Self) -> bool {
        self.same_content(other)
    }

    proof fn lemma_cache_only_refl(a: &Self) {
        crate::minix::read::lemma_same_content_refl(*a);
    }

    proof fn lemma_cache_only_trans(a: &Self, b: &Self, c: &Self) {
        crate::minix::read::lemma_same_content_trans(*a, *b, *c);
    }

    open spec fn same_but_tree(&self, other: &Self) -> bool {
        &&& self.superblock == other.superblock
        &&& self.imap == other.imap
        &&& self.zmap == other.zmap
        &&& self.inodes == other.inodes
        &&& self.image == other.image
        &&& self.bcache == other.bcache
    }

    fn name(&self) -> (r: &str)
        ensures
            r@ == "minix"@,
    {
        "minix"
    }

    fn get_inode(&mut self, inode_num: u64) -> (r: Result<&Inode, FsError>)
        ensures
            match r {
                Ok(_) => true,
                Err(e) => e == FsError::InvalidInode { inode: inode_num },
            },
    {
        if inode_num == 0 || inode_num > self.superblock.num_inodes as u64
            || (inode_num - 1) as usize >= self.inodes.len() {
            return Err(FsError::InvalidInode { inode: inode_num });
        }
        Ok(&self.inodes[(inode_num - 1) as usize])
    }

    fn read_symlink(&mut self, inode: u64) -> (r: Result<String, FsError>) {
        let ghost fs0 = *self;
        let mut data = zeros(MAX_SYMLINK_SIZE);
        proof {
            assert(data@ =~= zero_seq(MAX_SYMLINK_SIZE as nat));
            match fs0.inode_at(inode) {
                Some(ino) => {
                    lemma_run_bounds(
                        fs0,
                        fs0.file_visits(ino.zones@.map_values(|z: u32| z as u64)),
                        min(MAX_SYMLINK_SIZE as int, ino.size as int) as u64,
                        ReadState { read: 0, offset: 0, byte_at: 0, block: zero_seq(fs0.bsize() as nat), out: data@ },
                    );
                },
                None => {},
            }
        }
        let res = self.read_file(inode, 0, data.as_mut_slice());
        proof {
            lemma_same_content_views(fs0, *self);
        }
        let size = match res {
            Ok(x) => x as usize,
            Err(e) => {
                return Err(e);
            },
        };
        let bytes = copy_range(data.as_slice(), 0, size);
        assert(bytes@ =~= data@.take(size as int));
        Ok(utf8_lossy(bytes.as_slice()))
    }

    fn get_tree(&self) -> (r: Option<&Tree>) {
        Some(&self.tree)
    }

    fn get_tree_mut(&mut self) -> (r: Option<&mut Tree>) {
        Some(&mut self.tree)
    }
}

/// A block read gives back what a block write wrote: once `write_block(b,
/// data)` has put a whole block into the cache, `read_block(b, ..)` into a
/// block-sized buffer returns `data`, whatever the buffer held, for a
/// block among the data zones.
pub proof fn law_block_write_then_read(fs: MinixFileSystem, after: MinixFileSystem, b: u64, data: Seq<u8>, buf: Seq<u8>)
    requires
        after.superblock == fs.superblock,
        after.bcache.view() == fs.bcache.view().insert(b, (true, data.subrange(0, min(fs.bsize(), data.len() as int)))),
        fs.block_bounds_error(b) is None,
        data.len() == fs.bsize(),
        buf.len() == fs.bsize(),
    ensures
        after.read_block_data(b, buf) == Ok::<Seq<u8>, FsError>(data),
{
    assert(data.subrange(0, data.len() as int) =~= data);
    assert(after.cached_read(b, buf) =~= data);
}

} // verus!
