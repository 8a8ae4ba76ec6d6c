//! Changing the size of a Minix 3 file: allocating the blocks it grows
//! into, and freeing those it shrinks out of.
use crate::bitmap::{bits_of, count_false, is_first_clear, lemma_count_false_full, lemma_count_false_take};
use crate::bytes::{le_u32, read_u32, u32_bytes, write_u32_at, zeros};
use crate::error::FsError;
use crate::filetype::FileType;
use crate::fs::{FileSystem, InodeOperations, SuperblockOperations};
use crate::minix::consts::{DINDIRECT_ZONE, INDIRECT_ZONE, TINDIRECT_ZONE};
use crate::minix::fs::{min, MinixFileSystem};
use crate::minix::inode::Inode;
use vstd::prelude::*;

verus! {

/// Whether two inodes agree in all but their zone pointers.
pub open spec fn same_meta(a: Inode, b: Inode) -> bool {
    &&& a.mode == b.mode
    &&& a.nlinks == b.nlinks
    &&& a.uid == b.uid
    &&& a.gid == b.gid
    &&& a.size == b.size
    &&& a.atime == b.atime
    &&& a.mtime == b.mtime
    &&& a.ctime == b.ctime
}

/// The errors that reading and allocating blocks can give.
pub open spec fn block_error(e: FsError) -> bool {
    ||| e is BlockBeforeDataZone
    ||| e is BlockPastEnd
    ||| e is UnexpectedEof
    ||| e is NoBlocksLeft
}

/// The number of blocks a file of `size` bytes takes.
pub open spec fn blocks_for(size: int, bs: int) -> int {
    (size + bs - 1) / bs
}

/// The most blocks a file can address: the direct zones and the single,
/// double and triple indirect ones.
pub open spec fn max_file_blocks(bs: int) -> int {
    let p = bs / 4;
    7 + p + p * p + p * p * p
}

/// Whether `x` is a power of two.
pub open spec fn is_pow2(x: u16) -> bool {
    x > 0 && x & ((x - 1) as u16) == 0
}

impl MinixFileSystem {
    /// Whether `self` differs from `other` at most in the cache, the zone
    /// bitmap's bits, the zone pointers of inode `n` and, where `sized`,
    /// its size.
    pub open spec fn zones_frame(&self, other: &Self, n: u64, sized: bool) -> bool {
        &&& self.superblock == other.superblock
        &&& self.imap == other.imap
        &&& self.tree == other.tree
        &&& self.image == other.image
        &&& self.zmap.max == other.zmap.max
        &&& self.zmap.map@.len() == other.zmap.map@.len()
        &&& self.inodes@.len() == other.inodes@.len()
        &&& forall|j: int| 0 <= j < self.inodes@.len() && j != n - 1 ==> #[trigger] self.inodes@[j] == other.inodes@[j]
        &&& 1 <= n <= self.inodes@.len() ==> {
            let (a, b) = (self.inodes@[n - 1], other.inodes@[n - 1]);
            &&& a.mode == b.mode
            &&& a.nlinks == b.nlinks
            &&& a.uid == b.uid
            &&& a.gid == b.gid
            &&& a.atime == b.atime
            &&& a.mtime == b.mtime
            &&& a.ctime == b.ctime
            &&& (!sized ==> a.size == b.size)
        }
    }

    /// Whether every zone taken in `other` is taken in `self`.
    pub open spec fn zmap_grows(&self, other: &Self) -> bool {
        forall|k: int| 0 <= k < other.zmap.bits().len() && #[trigger] other.zmap.bits()[k] ==> self.zmap.bits()[k]
    }

    /// Whether every zone taken in `self` was taken in `other`.
    pub open spec fn zmap_shrinks(&self, other: &Self) -> bool {
        forall|k: int| 0 <= k < self.zmap.bits().len() && #[trigger] self.zmap.bits()[k] ==> other.zmap.bits()[k]
    }

    /// Zone pointer `slot` of inode `n`.
    fn zone_of(&self, n: u64, slot: usize) -> (r: u64)
        requires
            self.inode_at(n) is Some,
            slot < 10,
        ensures
            r == self.inodes@[n - 1].zones[slot as int],
    {
        self.inodes[(n - 1) as usize].zones[slot] as u64
    }

    /// Set zone pointer `slot` of inode `n` to `val`.
    fn set_zone(&mut self, n: u64, slot: usize, val: u64)
        requires
            old(self).inode_at(n) is Some,
            slot < 10,
        ensures
            final(self).zones_frame(old(self), n, false),
            final(self).zmap == old(self).zmap,
            final(self).bcache == old(self).bcache,
            final(self).inodes@[n - 1].zones@ == old(self).inodes@[n - 1].zones@.update(slot as int, val as u32),
    {
        let idx = (n - 1) as usize;
        let mut ino = self.inodes[idx];
        ino.zones[slot] = val as u32;
        self.inodes.set(idx, ino);
    }

    /// Allocate a zone and fill it with zeros (in the cache).
    fn alloc_zeroed(&mut self, n: u64) -> (r: Result<u64, FsError>)
        requires
            old(self).wf(),
        ensures
            final(self).wf(),
            final(self).zones_frame(old(self), n, false),
            final(self).zmap_grows(old(self)),
            final(self).inodes == old(self).inodes,
            match r {
                Ok(b) => {
                    let t = b - old(self).superblock.first_data_zone;
                    &&& b >= old(self).superblock.first_data_zone
                    &&& is_first_clear(old(self).zmap.bits(), t)
                    &&& final(self).zmap.bits() == old(self).zmap.bits().update(t, true)
                    &&& final(self).bcache.view() == old(self).bcache.view().insert(
                        b,
                        (true, Seq::new(old(self).bsize() as nat, |i: int| 0u8)),
                    )
                },
                Err(e) => e == FsError::NoBlocksLeft && final(self).zmap.bits() == old(self).zmap.bits()
                    && final(self).bcache == old(self).bcache && forall|k: int|
                    0 <= k < old(self).zmap.bits().len() ==> #[trigger] old(self).zmap.bits()[k],
            },
            readable_grows(*final(self), *old(self)),
            r matches Err(e) ==> grow_error(*old(self), *final(self), e),
    {
        let ghost f0 = *self;
        let nb = self.allocate_block()?;
        let z = zeros(self.superblock.block_size as usize);
        let ghost f1 = *self;
        let _ = self.write_block(nb, z.as_slice());
        proof {
            lemma_cache_grows(f0, f1);
            lemma_cache_grows(f1, *self);
            lemma_grows_chain(f0, f1, *self);
        }
        assert(z@.subrange(0, min(self.bsize(), z@.len() as int)) =~= Seq::new(self.bsize() as nat, |i: int| 0u8));
        Ok(nb)
    }

    /// Free block `blk` in the zone bitmap where it lies in the data zones
    /// the bitmap covers; other numbers are left alone.
    fn free_block(&mut self, blk: u64)
        requires
            old(self).wf(),
        ensures
            final(self).wf(),
            final(self).zones_frame(old(self), 0, false),
            final(self).zmap_shrinks(old(self)),
            final(self).inodes == old(self).inodes,
            final(self).bcache == old(self).bcache,
            ({
                let fdz = old(self).superblock.first_data_zone as int;
                let b = (blk as usize) as int;
                if fdz <= b && (b - fdz) / 8 < old(self).zmap.map.len() {
                    final(self).zmap.bits() == old(self).zmap.bits().update(b - fdz, false)
                } else {
                    final(self).zmap == old(self).zmap
                }
            }),
    {
        let b = blk as usize;
        let fdz = self.superblock.first_data_zone as usize;
        if b >= fdz && (b - fdz) / 8 < self.zmap.len() {
            let _ = self.deallocate_block(blk);
        }
    }
}

/// Zone pointer `idx` of the pointer block `buf`.
fn read_ptr(buf: &Vec<u8>, idx: u64) -> (r: u64)
    requires
        4 * idx + 4 <= buf.len(),
    ensures
        r == le_u32(buf@, 4 * idx),
{
    read_u32(buf.as_slice(), (4 * idx) as usize) as u64
}

/// Set zone pointer `idx` of the pointer block `buf` to `val`.
fn write_ptr(buf: &mut Vec<u8>, idx: u64, val: u64)
    requires
        4 * idx + 4 <= old(buf).len(),
    ensures
        final(buf)@ == set_ptr(old(buf)@, idx, val),
{
    write_u32_at(buf, (4 * idx) as usize, val as u32);
}

/// The pointer block `b` with pointer `idx` set to `val` (its low 32 bits).
pub open spec fn set_ptr(b: Seq<u8>, idx: u64, val: u64) -> Seq<u8> {
    b.subrange(0, 4 * idx as int) + u32_bytes(val as u32) + b.subrange(4 * idx + 4, b.len() as int)
}

/// The frame is transitive.
pub proof fn lemma_frame_trans(a: MinixFileSystem, b: MinixFileSystem, c: MinixFileSystem, n: u64, sized: bool)
    requires
        b.zones_frame(&a, n, sized),
        c.zones_frame(&b, n, sized),
    ensures
        c.zones_frame(&a, n, sized),
{
    assert forall|j: int| 0 <= j < c.inodes@.len() && j != n - 1 implies #[trigger] c.inodes@[j] == a.inodes@[j] by {
        assert(c.inodes@[j] == b.inodes@[j]);
    }
}

/// A frame that keeps the inodes holds for every inode.
pub proof fn lemma_frame_any(a: MinixFileSystem, b: MinixFileSystem, n: u64)
    requires
        b.zones_frame(&a, 0, false),
        b.inodes == a.inodes,
    ensures
        b.zones_frame(&a, n, false),
{
}

pub proof fn lemma_grows_trans(a: MinixFileSystem, b: MinixFileSystem, c: MinixFileSystem)
    requires
        b.zmap_grows(&a),
        c.zmap_grows(&b),
        a.zmap.map@.len() == b.zmap.map@.len(),
    ensures
        c.zmap_grows(&a),
{
    assert forall|k: int| 0 <= k < a.zmap.bits().len() && #[trigger] a.zmap.bits()[k] implies c.zmap.bits()[k] by {
        assert(b.zmap.bits()[k]);
    }
}

pub proof fn lemma_shrinks_trans(a: MinixFileSystem, b: MinixFileSystem, c: MinixFileSystem)
    requires
        b.zmap_shrinks(&a),
        c.zmap_shrinks(&b),
        b.zmap.map@.len() == c.zmap.map@.len(),
    ensures
        c.zmap_shrinks(&a),
{
    assert forall|k: int| 0 <= k < c.zmap.bits().len() && #[trigger] c.zmap.bits()[k] implies a.zmap.bits()[k] by {
        assert(b.zmap.bits()[k]);
    }
}

impl MinixFileSystem {
    /// Zone pointer `slot` of inode `n`, with a zeroed block allocated for it
    /// first where it is 0.
    fn ensure_zone(&mut self, n: u64, slot: usize) -> (r: Result<u64, FsError>)
        requires
            old(self).wf(),
            old(self).inode_at(n) is Some,
            slot < 10,
        ensures
            final(self).wf(),
            final(self).zones_frame(old(self), n, false),
            final(self).zmap_grows(old(self)),
            r matches Err(e) ==> block_error(e),
            ({
                let z = old(self).inodes@[n - 1].zones[slot as int];
                if z != 0 {
                    r == Ok::<u64, FsError>(z as u64) && *final(self) == *old(self)
                } else {
                    match r {
                        Ok(b) => {
                            &&& b >= old(self).superblock.first_data_zone
                            &&& is_first_clear(old(self).zmap.bits(), b - old(self).superblock.first_data_zone)
                            &&& final(self).inodes@[n - 1].zones[slot as int] == b as u32
                        },
                        Err(e) => e == FsError::NoBlocksLeft && forall|k: int|
                            0 <= k < old(self).zmap.bits().len() ==> #[trigger] old(self).zmap.bits()[k],
                    }
                }
            }),
            readable_grows(*final(self), *old(self)),
            r matches Err(e) ==> grow_error(*old(self), *final(self), e),
            forall|s: int| 0 <= s < 10 && s != slot ==> #[trigger] final(self).inodes@[n - 1].zones@[s] == old(self).inodes@[n
                - 1].zones@[s],
    {
        let z = self.zone_of(n, slot);
        if z != 0 {
            return Ok(z);
        }
        let ghost f0 = *self;
        let nb = self.alloc_zeroed(n)?;
        let ghost f1 = *self;
        self.set_zone(n, slot, nb);
        proof {
            lemma_frame_trans(f0, f1, *self, n, false);
            lemma_cache_grows(f1, *self);
            lemma_grows_chain(f0, f1, *self);
        }
        Ok(nb)
    }

    /// Set entry `idx` of pointer block `blk` to `val`.
    fn link_ptr(&mut self, n: u64, blk: u64, idx: u64, val: u64) -> (r: Result<(), FsError>)
        requires
            old(self).wf(),
            4 * idx + 4 <= old(self).superblock.block_size,
        ensures
            final(self).wf(),
            final(self).zones_frame(old(self), n, false),
            final(self).zmap == old(self).zmap,
            final(self).inodes == old(self).inodes,
            r matches Err(e) ==> block_error(e),
            match old(self).read_block_data(blk, Seq::new(old(self).bsize() as nat, |i: int| 0u8)) {
                Ok(d) => r is Ok && final(self).bcache.view().contains_key(blk) && final(self).bcache.view()[blk] == (
                    true,
                    set_ptr(d, idx, val),
                ),
                Err(e) => r == Err::<(), FsError>(e),
            },
            readable_grows(*final(self), *old(self)),
            r matches Err(e) ==> read_failure(*old(self), e),
            r is Err ==> final(self).same_content(old(self)),
    {
        let ghost f0 = *self;
        let mut buf = zeros(self.superblock.block_size as usize);
        assert(buf@ =~= Seq::new(self.bsize() as nat, |i: int| 0u8));
        let ghost before = buf@;
        let got = self.read_block(blk, buf.as_mut_slice());
        proof {
            crate::minix::read::lemma_full_block_read(f0, blk, before);
            crate::minix::read::lemma_read_keeps_content(f0, *self, blk, before);
            lemma_same_content_grows(f0, *self);
        }
        got?;
        write_ptr(&mut buf, idx, val);
        let ghost f1 = *self;
        let _ = self.write_block(blk, buf.as_slice());
        proof {
            lemma_cache_grows(f1, *self);
            lemma_grows_chain(f0, f1, *self);
        }
        assert(buf@.subrange(0, min(self.bsize(), buf@.len() as int)) =~= buf@);
        Ok(())
    }

    /// Entry `idx` of pointer block `blk`, with a zeroed block allocated for
    /// it first where it is 0.
    fn ensure_ptr(&mut self, n: u64, blk: u64, idx: u64) -> (r: Result<u64, FsError>)
        requires
            old(self).wf(),
            4 * idx + 4 <= old(self).superblock.block_size,
        ensures
            final(self).wf(),
            final(self).zones_frame(old(self), n, false),
            final(self).zmap_grows(old(self)),
            final(self).inodes == old(self).inodes,
            r matches Err(e) ==> block_error(e),
            match old(self).read_block_data(blk, Seq::new(old(self).bsize() as nat, |i: int| 0u8)) {
                Ok(d) => {
                    let p = le_u32(d, 4 * idx as int) as u64;
                    if p != 0 {
                        r == Ok::<u64, FsError>(p) && final(self).zmap == old(self).zmap
                    } else {
                        match r {
                            Ok(b) => {
                                &&& b >= old(self).superblock.first_data_zone
                                &&& is_first_clear(old(self).zmap.bits(), b - old(self).superblock.first_data_zone)
                                &&& final(self).bcache.view().contains_key(blk)
                                &&& final(self).bcache.view()[blk] == (true, set_ptr(d, idx, b))
                            },
                            Err(e) => e == FsError::NoBlocksLeft && forall|k: int|
                                0 <= k < old(self).zmap.bits().len() ==> #[trigger] old(self).zmap.bits()[k],
                        }
                    }
                },
                Err(e) => r == Err::<u64, FsError>(e),
            },
            readable_grows(*final(self), *old(self)),
            r matches Err(e) ==> grow_error(*old(self), *final(self), e),
    {
        let ghost f0 = *self;
        let mut buf = zeros(self.superblock.block_size as usize);
        assert(buf@ =~= Seq::new(self.bsize() as nat, |i: int| 0u8));
        let ghost before = buf@;
        let got = self.read_block(blk, buf.as_mut_slice());
        proof {
            crate::minix::read::lemma_full_block_read(f0, blk, before);
            crate::minix::read::lemma_read_keeps_content(f0, *self, blk, before);
            lemma_same_content_grows(f0, *self);
        }
        got?;
        let p = read_ptr(&buf, idx);
        if p != 0 {
            return Ok(p);
        }
        let ghost f1 = *self;
        let nb = match self.alloc_zeroed(n) {
            Ok(b) => b,
            Err(e) => {
                proof {
                    lemma_grow_error_back(f0, f1, *self, e);
                }
                return Err(e);
            },
        };
        proof {
            lemma_grows_chain(f0, f1, *self);
        }
        write_ptr(&mut buf, idx, nb);
        let ghost f2 = *self;
        let _ = self.write_block(blk, buf.as_slice());
        proof {
            lemma_cache_grows(f2, *self);
            lemma_grows_chain(f0, f2, *self);
        }
        assert(buf@.subrange(0, min(self.bsize(), buf@.len() as int)) =~= buf@);
        Ok(nb)
    }

    /// Allocate the `block_idx`-th block of the file of inode `n`, with the
    /// pointer blocks that lead to it where they are missing. On success a
    /// zone that was free is taken; a direct block is the first free zone,
    /// and it fails exactly when no zone is free.
    fn grow_one(&mut self, n: u64, block_idx: u64) -> (r: Result<(), FsError>)
        requires
            old(self).wf(),
            old(self).inode_at(n) is Some,
            block_idx < max_file_blocks(old(self).superblock.block_size as int),
        ensures
            final(self).wf(),
            final(self).zones_frame(old(self), n, false),
            final(self).zmap_grows(old(self)),
            r matches Err(e) ==> block_error(e),
            readable_grows(*final(self), *old(self)),
            r matches Err(e) ==> grow_error(*old(self), *final(self), e),
            forall|s: int| 0 <= s < 7 && s != block_idx ==> #[trigger] final(self).inodes@[n - 1].zones@[s] == old(self).inodes@[n
                - 1].zones@[s],
            r is Ok ==> exists|t: int|
                0 <= t < old(self).zmap.bits().len() && !old(self).zmap.bits()[t] && #[trigger] final(self).zmap.bits()[t],
            block_idx < 7 ==> match r {
                Ok(_) => exists|t: int|
                    #[trigger] is_first_clear(old(self).zmap.bits(), t) && final(self).zmap.bits() == old(self).zmap.bits().update(
                        t,
                        true,
                    ) && final(self).inodes@[n - 1].zones@[block_idx as int] == (t + old(self).superblock.first_data_zone) as u32,
                Err(e) => e == FsError::NoBlocksLeft && final(self).zmap.bits() == old(self).zmap.bits() && forall|k: int|
                    0 <= k < old(self).zmap.bits().len() ==> #[trigger] old(self).zmap.bits()[k],
            },
            block_idx < 7 + old(self).superblock.block_size / 4 ==> (r matches Err(e) ==> (e == FsError::NoBlocksLeft
                && zmap_full(*final(self))) || indirect_read_failure(*final(self), n, e)),
    {
        let ghost f0 = *self;
        proof {
            lemma_same_content_grows(f0, f0);
        }
        let bs = self.superblock.block_size as u64;
        let ppb = bs / 4;
        proof {
            assert(ppb * ppb <= 16384 * 16384) by (nonlinear_arith)
                requires
                    ppb <= 16384,
            ;
            assert(4 * ppb <= bs);
        }
        let ind_end = 7 + ppb;
        let dind_end = ind_end + ppb * ppb;
        if block_idx < 7 {
            let ghost g1 = *self;
            let nb = match self.alloc_zeroed(n) {
                Ok(v) => v,
                Err(e) => {
                    proof {
                        lemma_grow_error_back(f0, g1, *self, e);
                    }
                    return Err(e);
                },
            };
            proof {
                lemma_grows_chain(f0, g1, *self);
            }
            let ghost f1 = *self;
            self.set_zone(n, block_idx as usize, nb);
            proof {
                lemma_frame_trans(f0, f1, *self, n, false);
                let t = nb - f0.superblock.first_data_zone;
                assert(is_first_clear(f0.zmap.bits(), t));
                assert(self.zmap.bits()[t]);
            }
            return Ok(());
        }
        if block_idx < ind_end {
            let ind_idx = block_idx - 7;
            let ghost g2 = *self;
            let ind_ptr = match self.ensure_zone(n, INDIRECT_ZONE) {
                Ok(v) => v,
                Err(e) => {
                    proof {
                        lemma_grow_error_back(f0, g2, *self, e);
                        assert forall|k: int| 0 <= k < self.zmap.bits().len() implies #[trigger] self.zmap.bits()[k] by {
                            assert(g2.zmap.bits()[k]);
                        }
                    }
                    return Err(e);
                },
            };
            proof {
                lemma_grows_chain(f0, g2, *self);
            }
            let ghost f1 = *self;
            let ghost g3 = *self;
            let nb = match self.alloc_zeroed(n) {
                Ok(v) => v,
                Err(e) => {
                    proof {
                        lemma_grow_error_back(f0, g3, *self, e);
                    }
                    return Err(e);
                },
            };
            proof {
                lemma_grows_chain(f0, g3, *self);
            }
            let ghost f2 = *self;
            let ghost g11 = *self;
            let res = self.link_ptr(n, ind_ptr, ind_idx, nb);
            proof {
                lemma_grows_chain(f0, g11, *self);
                if res is Err {
                    lemma_failure_back(f0, g11, res->Err_0);
                    crate::minix::read::lemma_full_block_read(g11, ind_ptr, Seq::new(g11.bsize() as nat, |i: int| 0u8));
                    assert(!self.readable(ind_ptr));
                    assert(ind_ptr as u32 == self.inodes@[n - 1].zones@[7]);
                    assert(indirect_read_failure(*self, n, res->Err_0));
                }
            }
            proof {
                lemma_frame_trans(f0, f1, f2, n, false);
                lemma_frame_trans(f0, f2, *self, n, false);
                lemma_grows_trans(f0, f1, f2);
                let t = nb - f1.superblock.first_data_zone;
                assert(!f0.zmap.bits()[t]);
                assert(self.zmap.bits()[t]);
            }
            return res;
        }
        if block_idx < dind_end {
            let drel = block_idx - ind_end;
            let ind_i = drel / ppb;
            let blk_i = drel % ppb;
            proof {
                assert(ind_i < ppb) by (nonlinear_arith)
                    requires
                        drel < ppb * ppb,
                        ind_i == drel / ppb,
                        ppb > 0,
                ;
            }
            let ghost g4 = *self;
            let dind_ptr = match self.ensure_zone(n, DINDIRECT_ZONE) {
                Ok(v) => v,
                Err(e) => {
                    proof {
                        lemma_grow_error_back(f0, g4, *self, e);
                    }
                    return Err(e);
                },
            };
            proof {
                lemma_grows_chain(f0, g4, *self);
            }
            let ghost f1 = *self;
            let ghost g5 = *self;
            let ind_ptr = match self.ensure_ptr(n, dind_ptr, ind_i) {
                Ok(v) => v,
                Err(e) => {
                    proof {
                        lemma_grow_error_back(f0, g5, *self, e);
                    }
                    return Err(e);
                },
            };
            proof {
                lemma_grows_chain(f0, g5, *self);
            }
            let ghost f2 = *self;
            let ghost g6 = *self;
            let nb = match self.alloc_zeroed(n) {
                Ok(v) => v,
                Err(e) => {
                    proof {
                        lemma_grow_error_back(f0, g6, *self, e);
                    }
                    return Err(e);
                },
            };
            proof {
                lemma_grows_chain(f0, g6, *self);
            }
            let ghost f3 = *self;
            let ghost g12 = *self;
            let res = self.link_ptr(n, ind_ptr, blk_i, nb);
            proof {
                lemma_grows_chain(f0, g12, *self);
                if res is Err {
                    lemma_failure_back(f0, g12, res->Err_0);
                }
            }
            proof {
                lemma_frame_trans(f0, f1, f2, n, false);
                lemma_frame_trans(f0, f2, f3, n, false);
                lemma_frame_trans(f0, f3, *self, n, false);
                lemma_grows_trans(f0, f1, f2);
                lemma_grows_trans(f0, f2, f3);
                let t = nb - f2.superblock.first_data_zone;
                assert(!f0.zmap.bits()[t]);
                assert(self.zmap.bits()[t]);
            }
            return res;
        }
        let trel = block_idx - dind_end;
        let ppb2 = ppb * ppb;
        proof {
            let p = bs as int / 4;
            assert(p == ppb);
            if ppb == 0 {
                assert(p * p == 0 && p * p * p == 0) by (nonlinear_arith)
                    requires
                        p == 0,
                ;
                assert(max_file_blocks(bs as int) == 7);
            }
            assert(ppb2 > 0) by (nonlinear_arith)
                requires
                    ppb > 0,
                    ppb2 == ppb * ppb,
            ;
            assert(trel < ppb * ppb * ppb) by (nonlinear_arith)
                requires
                    block_idx < 7 + p + p * p + p * p * p,
                    p == ppb,
                    trel == block_idx - (7 + ppb + ppb * ppb),
            ;
        }
        let dind_i = trel / ppb2;
        let ind_i = (trel % ppb2) / ppb;
        let blk_i = trel % ppb;
        proof {
            assert(ppb > 0);
            assert(dind_i < ppb) by (nonlinear_arith)
                requires
                    trel < ppb * ppb * ppb,
                    ppb2 == ppb * ppb,
                    dind_i == trel / ppb2,
                    ppb > 0,
            ;
            assert(ind_i < ppb) by (nonlinear_arith)
                requires
                    ppb2 == ppb * ppb,
                    ind_i == (trel % ppb2) / ppb,
                    ppb > 0,
            ;
        }
        let ghost g7 = *self;
        let tind_ptr = match self.ensure_zone(n, TINDIRECT_ZONE) {
            Ok(v) => v,
            Err(e) => {
                proof {
                    lemma_grow_error_back(f0, g7, *self, e);
                }
                return Err(e);
            },
        };
        proof {
            lemma_grows_chain(f0, g7, *self);
        }
        let ghost f1 = *self;
        let ghost g8 = *self;
        let dind_ptr = match self.ensure_ptr(n, tind_ptr, dind_i) {
            Ok(v) => v,
            Err(e) => {
                proof {
                    lemma_grow_error_back(f0, g8, *self, e);
                }
                return Err(e);
            },
        };
        proof {
            lemma_grows_chain(f0, g8, *self);
        }
        let ghost f2 = *self;
        let ghost g9 = *self;
        let ind_ptr = match self.ensure_ptr(n, dind_ptr, ind_i) {
            Ok(v) => v,
            Err(e) => {
                proof {
                    lemma_grow_error_back(f0, g9, *self, e);
                }
                return Err(e);
            },
        };
        proof {
            lemma_grows_chain(f0, g9, *self);
        }
        let ghost f3 = *self;
        let ghost g10 = *self;
        let nb = match self.alloc_zeroed(n) {
            Ok(v) => v,
            Err(e) => {
                proof {
                    lemma_grow_error_back(f0, g10, *self, e);
                }
                return Err(e);
            },
        };
        proof {
            lemma_grows_chain(f0, g10, *self);
        }
        let ghost f4 = *self;
        let ghost g13 = *self;
        let res = self.link_ptr(n, ind_ptr, blk_i, nb);
        proof {
            lemma_grows_chain(f0, g13, *self);
            if res is Err {
                lemma_failure_back(f0, g13, res->Err_0);
            }
        }
        proof {
            lemma_frame_trans(f0, f1, f2, n, false);
            lemma_frame_trans(f0, f2, f3, n, false);
            lemma_frame_trans(f0, f3, f4, n, false);
            lemma_frame_trans(f0, f4, *self, n, false);
            lemma_grows_trans(f0, f1, f2);
            lemma_grows_trans(f0, f2, f3);
            lemma_grows_trans(f0, f3, f4);
            let t = nb - f3.superblock.first_data_zone;
            assert(!f0.zmap.bits()[t]);
            assert(self.zmap.bits()[t]);
        }
        res
    }
}

/// Whether `e` is the error of a read of a block that `fs` cannot read.
pub open spec fn read_failure(fs: MinixFileSystem, e: FsError) -> bool {
    exists|b: u64| !#[trigger] fs.readable(b) && e == fs.read_err(b)
}

/// Whether every block that `old` can read, `new` can read too, with the
/// same superblock and image.
pub open spec fn readable_grows(new: MinixFileSystem, old: MinixFileSystem) -> bool {
    &&& new.superblock == old.superblock
    &&& new.image == old.image
    &&& forall|b: u64| old.readable(b) ==> #[trigger] new.readable(b)
}

/// A cache that only gains blocks keeps every block readable.
pub proof fn lemma_cache_grows(old: MinixFileSystem, new: MinixFileSystem)
    requires
        new.superblock == old.superblock,
        new.image == old.image,
        forall|b: u64| old.bcache.view().contains_key(b) ==> #[trigger] new.bcache.view().contains_key(b),
    ensures
        readable_grows(new, old),
{
}

pub proof fn lemma_grows_chain(a: MinixFileSystem, b: MinixFileSystem, c: MinixFileSystem)
    requires
        readable_grows(b, a),
        readable_grows(c, b),
    ensures
        readable_grows(c, a),
{
    assert forall|x: u64| a.readable(x) implies #[trigger] c.readable(x) by {
        assert(b.readable(x));
    }
}

/// A read failure after the readable blocks only grew is one before.
pub proof fn lemma_failure_back(old: MinixFileSystem, new: MinixFileSystem, e: FsError)
    requires
        readable_grows(new, old),
        read_failure(new, e),
    ensures
        read_failure(old, e),
{
    let b = choose|b: u64| !#[trigger] new.readable(b) && e == new.read_err(b);
    assert(!old.readable(b));
}

/// A file system with the same content reads the same blocks.
pub proof fn lemma_same_content_grows(old: MinixFileSystem, new: MinixFileSystem)
    requires
        new.same_content(&old),
    ensures
        readable_grows(new, old),
{
}

/// Whether `e` is an error that growing a file of `old` can give, `new`
/// being the file system it left: no zone was left free, or a block could
/// not be read.
pub open spec fn grow_error(old: MinixFileSystem, new: MinixFileSystem, e: FsError) -> bool {
    ||| e == FsError::NoBlocksLeft && forall|k: int| 0 <= k < new.zmap.bits().len() ==> #[trigger] new.zmap.bits()[k]
    ||| read_failure(old, e)
}

/// Whether `e` is the error of reading the single indirect block of the
/// file of inode `n` (the block whose number the zone pointer holds in its
/// low 32 bits), which `fs` cannot read.
pub open spec fn indirect_read_failure(fs: MinixFileSystem, n: u64, e: FsError) -> bool {
    exists|b: u64| b as u32 == fs.inodes@[n - 1].zones@[7] && !#[trigger] fs.readable(b) && e == fs.read_err(b)
}

/// Whether `e` is the error of reading the single indirect block of the
/// file of inode `n`, as its zone pointer in `fs` names it, which `fs`
/// cannot read.
pub open spec fn indirect_unreadable(fs: MinixFileSystem, n: u64, e: FsError) -> bool {
    let z = fs.inodes@[n - 1].zones@[7] as u64;
    &&& z != 0
    &&& !fs.readable(z)
    &&& e == fs.read_err(z)
}

/// Whether every zone of the zone map of `fs` is taken.
pub open spec fn zmap_full(fs: MinixFileSystem) -> bool {
    forall|k: int| 0 <= k < fs.zmap.bits().len() ==> #[trigger] fs.zmap.bits()[k]
}

/// A growth error after the readable blocks only grew is one from before.
pub proof fn lemma_grow_error_back(a: MinixFileSystem, b: MinixFileSystem, c: MinixFileSystem, e: FsError)
    requires
        readable_grows(b, a),
        grow_error(b, c, e),
    ensures
        grow_error(a, c, e),
{
    if read_failure(b, e) {
        lemma_failure_back(a, b, e);
    }
}

/// Whether one of the entries `from..to` of the pointer block `d` points at
/// the zone that bit `k` of the zone bitmap stands for (data zones start at
/// `fdz`).
pub open spec fn frees_zone(d: Seq<u8>, from: int, to: int, fdz: int, k: int) -> bool {
    exists|i: int| from <= i < to && #[trigger] le_u32(d, 4 * i) != 0 && le_u32(d, 4 * i) == k + fdz
}

/// Whether entry `j` of the pointer block `d`, which stands for `per`
/// blocks each, is a block whose part of the range `from..to` starts at
/// its first block.
pub open spec fn covers_from_start(d: Seq<u8>, from: int, to: int, per: int, j: int) -> bool {
    &&& per > 0
    &&& from / per <= j < (to + per - 1) / per
    &&& le_u32(d, 4 * j) != 0
    &&& (j != from / per || from % per == 0)
}

/// Whether zone `z` is free in the zone bitmap of `fs`, where the bitmap
/// (of `len` bits) covers it.
pub open spec fn zone_freed(fs: MinixFileSystem, len: int, z: int) -> bool {
    let k = z - fs.superblock.first_data_zone;
    0 <= k < len ==> !fs.zmap.bits()[k]
}

/// Setting one pointer of a pointer block leaves the others as they were.
proof fn lemma_set_ptr_other(b: Seq<u8>, idx: u64, val: u64, j: int)
    requires
        4 * idx + 4 <= b.len(),
        0 <= j,
        4 * j + 4 <= b.len(),
        j != idx,
    ensures
        le_u32(set_ptr(b, idx, val), 4 * j) == le_u32(b, 4 * j),
{
    let s = set_ptr(b, idx, val);
    assert(u32_bytes(val as u32).len() == 4);
    assert(s.len() == b.len());
    assert(s[4 * j] == b[4 * j]);
    assert(s[4 * j + 1] == b[4 * j + 1]);
    assert(s[4 * j + 2] == b[4 * j + 2]);
    assert(s[4 * j + 3] == b[4 * j + 3]);
}

impl MinixFileSystem {
    /// Free the data blocks at entries `from..to` of pointer block `blk` and
    /// clear those entries. It fails where the block cannot be read, and
    /// then changes nothing but the cache.
    fn free_entries(&mut self, blk: u64, from: u64, to: u64) -> (r: Result<(), FsError>)
        requires
            old(self).wf(),
            4 * to <= old(self).superblock.block_size,
        ensures
            final(self).wf(),
            final(self).zones_frame(old(self), 0, false),
            final(self).zmap_shrinks(old(self)),
            final(self).inodes == old(self).inodes,
            r matches Err(e) ==> block_error(e),
            match old(self).read_block_data(blk, Seq::new(old(self).bsize() as nat, |i: int| 0u8)) {
                Ok(d) => r is Ok && forall|k: int| 0 <= k < old(self).zmap.bits().len() ==> #[trigger] final(self).zmap.bits()[k]
                    == (old(self).zmap.bits()[k] && !frees_zone(d, from as int, to as int, old(self).superblock.first_data_zone as int, k)),
                Err(e) => r == Err::<(), FsError>(e) && final(self).zmap == old(self).zmap,
            },
            readable_grows(*final(self), *old(self)),
            r matches Err(e) ==> read_failure(*old(self), e),
    {
        let ghost f0 = *self;
        let mut buf = zeros(self.superblock.block_size as usize);
        assert(buf@ =~= Seq::new(self.bsize() as nat, |i: int| 0u8));
        let ghost before = buf@;
        let got = self.read_block(blk, buf.as_mut_slice());
        proof {
            crate::minix::read::lemma_full_block_read(f0, blk, before);
            crate::minix::read::lemma_read_keeps_content(f0, *self, blk, before);
            lemma_same_content_grows(f0, *self);
        }
        if let Err(e) = got {
            return Err(e);
        }
        let ghost d = buf@;
        let ghost fdz = f0.superblock.first_data_zone as int;
        let mut i = from;
        while i < to
            invariant
                self.wf(),
                self.zones_frame(&f0, 0, false),
                self.zmap_shrinks(&f0),
                self.inodes == f0.inodes,
                buf@.len() == f0.superblock.block_size,
                4 * to <= f0.superblock.block_size,
                fdz == f0.superblock.first_data_zone,
                readable_grows(*self, f0),
                from <= i,
                from <= to ==> i <= to,
                from > to ==> i == from,
                forall|j: int| i <= j < to ==> #[trigger] le_u32(buf@, 4 * j) == le_u32(d, 4 * j),
                forall|k: int| 0 <= k < f0.zmap.bits().len() ==> #[trigger] self.zmap.bits()[k] == (f0.zmap.bits()[k]
                    && !frees_zone(d, from as int, i as int, fdz, k)),
            decreases to - i,
        {
            let p = read_ptr(&buf, i);
            let ghost bits_before = self.zmap.bits();
            if p != 0 {
                let ghost f1 = *self;
                self.free_block(p);
                proof {
                    lemma_frame_trans(f0, f1, *self, 0, false);
                    lemma_shrinks_trans(f0, f1, *self);
                    lemma_cache_grows(f1, *self);
                    lemma_grows_chain(f0, f1, *self);
                }
                let ghost b0 = buf@;
                write_ptr(&mut buf, i, 0);
                proof {
                    assert forall|j: int| i + 1 <= j < to implies #[trigger] le_u32(buf@, 4 * j) == le_u32(d, 4 * j) by {
                        lemma_set_ptr_other(b0, i, 0, j);
                    }
                }
            }
            proof {
                assert forall|k: int| 0 <= k < f0.zmap.bits().len() implies #[trigger] self.zmap.bits()[k] == (f0.zmap.bits()[k]
                    && !frees_zone(d, from as int, i + 1, fdz, k)) by {
                    if frees_zone(d, from as int, i + 1, fdz, k) && !frees_zone(d, from as int, i as int, fdz, k) {
                        let w = choose|w: int| from <= w < i + 1 && #[trigger] le_u32(d, 4 * w) != 0 && le_u32(d, 4 * w) == k + fdz;
                        assert(w == i);
                    }
                    if frees_zone(d, from as int, i as int, fdz, k) {
                        let w = choose|w: int| from <= w < i && #[trigger] le_u32(d, 4 * w) != 0 && le_u32(d, 4 * w) == k + fdz;
                        assert(from <= w < i + 1 && le_u32(d, 4 * w) != 0 && le_u32(d, 4 * w) == k + fdz);
                    }
                    if p != 0 && p == k + fdz {
                        assert(le_u32(d, 4 * i) != 0 && le_u32(d, 4 * i) == k + fdz);
                    }
                }
            }
            i += 1;
        }
        proof {
            assert forall|k: int| 0 <= k < f0.zmap.bits().len() implies #[trigger] self.zmap.bits()[k] == (f0.zmap.bits()[k]
                && !frees_zone(d, from as int, to as int, fdz, k)) by {
                if from > to {
                    assert(!frees_zone(d, from as int, to as int, fdz, k));
                    assert(!frees_zone(d, from as int, i as int, fdz, k));
                }
            }
        }
        let ghost fw = *self;
        let _ = self.write_block(blk, buf.as_slice());
        proof {
            lemma_cache_grows(fw, *self);
            lemma_grows_chain(f0, fw, *self);
        }
        Ok(())
    }

    /// Free what double indirect block `dblk` holds of the block range
    /// `from..to` (counted within that block), and the single indirect
    /// blocks emptied from their start. It fails where `dblk` cannot be
    /// read, and then changes nothing but the cache; on success every
    /// single indirect block that the range covers from its start is free.
    fn free_dind_range(&mut self, dblk: u64, from: u64, to: u64) -> (r: Result<(), FsError>)
        requires
            old(self).wf(),
            old(self).superblock.block_size >= 4,
            from <= to <= (old(self).superblock.block_size / 4) * (old(self).superblock.block_size / 4),
        ensures
            final(self).wf(),
            final(self).zones_frame(old(self), 0, false),
            final(self).zmap_shrinks(old(self)),
            final(self).inodes == old(self).inodes,
            r matches Err(e) ==> block_error(e),
            match old(self).read_block_data(dblk, Seq::new(old(self).bsize() as nat, |i: int| 0u8)) {
                Ok(dd) => r is Ok ==> forall|j: int|
                    #[trigger] covers_from_start(dd, from as int, to as int, old(self).superblock.block_size as int / 4, j)
                        ==> zone_freed(*final(self), old(self).zmap.bits().len() as int, le_u32(dd, 4 * j) as int),
                Err(e) => r == Err::<(), FsError>(e) && final(self).zmap == old(self).zmap,
            },
            readable_grows(*final(self), *old(self)),
            r matches Err(e) ==> read_failure(*old(self), e),
    {
        let ghost f0 = *self;
        let bs = self.superblock.block_size as u64;
        let ppb = bs / 4;
        proof {
            assert(ppb * ppb <= 16384 * 16384) by (nonlinear_arith)
                requires
                    ppb <= 16384,
            ;
        }
        let ind_from = from / ppb;
        let ind_to = (to + ppb - 1) / ppb;
        proof {
            assert(ind_to <= ppb) by (nonlinear_arith)
                requires
                    to <= ppb * ppb,
                    ind_to == (to + ppb - 1) / (ppb as int),
                    ppb > 0,
            ;
        }
        let mut dbuf = zeros(bs as usize);
        assert(dbuf@ =~= Seq::new(self.bsize() as nat, |i: int| 0u8));
        let ghost before = dbuf@;
        let got = self.read_block(dblk, dbuf.as_mut_slice());
        proof {
            crate::minix::read::lemma_full_block_read(f0, dblk, before);
            crate::minix::read::lemma_read_keeps_content(f0, *self, dblk, before);
            lemma_same_content_grows(f0, *self);
        }
        if let Err(e) = got {
            return Err(e);
        }
        let ghost dd = dbuf@;
        let ghost blen = f0.zmap.bits().len() as int;
        let mut dirty = false;
        let mut ind_i = ind_from;
        while ind_i < ind_to
            invariant
                forall|j: int| ind_i <= j < ind_to ==> #[trigger] le_u32(dbuf@, 4 * j) == le_u32(dd, 4 * j),
                forall|j: int| #[trigger] covers_from_start(dd, from as int, to as int, ppb as int, j) && j < ind_i
                    ==> zone_freed(*self, blen, le_u32(dd, 4 * j) as int),
                blen == f0.zmap.bits().len(),
                f0.read_block_data(dblk, Seq::new(f0.bsize() as nat, |i: int| 0u8)) == Ok::<Seq<u8>, FsError>(dd),
                readable_grows(*self, f0),
                ind_from <= ind_i,
                self.wf(),
                self.zones_frame(&f0, 0, false),
                self.zmap_shrinks(&f0),
                self.inodes == f0.inodes,
                bs == f0.superblock.block_size,
                ppb == bs / 4,
                0 < ppb <= 16384,
                ppb * ppb <= 16384 * 16384,
                f0 == *old(self),
                dbuf@.len() == bs,
                ind_to <= ppb,
                ind_to == (to + ppb - 1) / (ppb as int),
                from <= to <= ppb * ppb,
                ind_from == from / ppb,
            decreases ind_to - ind_i,
        {
            let ip = read_ptr(&dbuf, ind_i);
            if ip != 0 {
                let blk_start = if ind_i == ind_from { from % ppb } else { 0 };
                proof {
                    assert(ind_i * ppb < to) by (nonlinear_arith)
                        requires
                            ind_i < (to + ppb - 1) / (ppb as int),
                            ppb > 0,
                    ;
                    assert((ind_i + 1) * ppb <= ppb * ppb) by (nonlinear_arith)
                        requires
                            ind_i < ppb,
                    ;
                    assert((ind_i + 1) * ppb == ind_i * ppb + ppb) by (nonlinear_arith);
                }
                let cap = (ind_i + 1) * ppb;
                let abs_end = if to < cap { to } else { cap };
                let blk_end = abs_end - ind_i * ppb;
                proof {
                    assert(blk_end <= ppb) by (nonlinear_arith)
                        requires
                            abs_end <= (ind_i + 1) * ppb,
                            blk_end == abs_end - ind_i * ppb,
                    ;
                }
                let ghost f1 = *self;
                let res = self.free_entries(ip, blk_start, blk_end);
                proof {
                    lemma_frame_trans(f0, f1, *self, 0, false);
                    lemma_shrinks_trans(f0, f1, *self);
                    lemma_grows_chain(f0, f1, *self);
                }
                match res {
                    Ok(()) => {},
                    Err(e) => {
                        proof {
                            lemma_failure_back(f0, f1, e);
                        }
                        return Err(e);
                    },
                }
                if blk_start == 0 {
                    let ghost f2 = *self;
                    self.free_block(ip);
                    proof {
                        lemma_frame_trans(f0, f2, *self, 0, false);
                        lemma_shrinks_trans(f0, f2, *self);
                        lemma_cache_grows(f2, *self);
                        lemma_grows_chain(f0, f2, *self);
                    }
                    let ghost b0 = dbuf@;
                    write_ptr(&mut dbuf, ind_i, 0);
                    dirty = true;
                    proof {
                        assert forall|j: int| ind_i + 1 <= j < ind_to implies #[trigger] le_u32(dbuf@, 4 * j) == le_u32(dd, 4 * j) by {
                            lemma_set_ptr_other(b0, ind_i, 0, j);
                        }
                    }
                }
            }
            ind_i += 1;
        }
        if dirty {
            let ghost fw = *self;
            let _ = self.write_block(dblk, dbuf.as_slice());
            proof {
                lemma_cache_grows(fw, *self);
                lemma_grows_chain(f0, fw, *self);
            }
        }
        Ok(())
    }
}

/// Whether a file of type `ft` has data blocks.
pub open spec fn has_blocks(ft: FileType) -> bool {
    ft == FileType::Directory || ft == FileType::Regular || ft == FileType::Symlink
}

/// Whether a node of type `ft` keeps its data in blocks.
pub fn holds_blocks(ft: FileType) -> (r: bool)
    ensures
        r == has_blocks(ft),
{
    match ft {
        FileType::Directory | FileType::Regular | FileType::Symlink => true,
        _ => false,
    }
}

/// Whether zone pointer `s` of inode `n` is 0 in `b`, and the zone it held
/// in `a` (if any) is free in `b`.
pub open spec fn slot_cleared(a: MinixFileSystem, b: MinixFileSystem, n: u64, s: int) -> bool {
    let oz = a.inodes@[n - 1].zones@[s];
    &&& b.inodes@[n - 1].zones@[s] == 0
    &&& (oz != 0 ==> zone_freed(b, a.zmap.bits().len() as int, oz as int))
}

/// Whether shrinking the file of inode `n` from `old_blocks` to
/// `new_blocks` blocks left, in `b`, every zone pointer of `a` that only
/// served the dropped blocks at 0 with its zone free: the direct pointers
/// past the kept blocks, and each indirect pointer no kept block goes
/// through.
pub open spec fn pointers_cleared(a: MinixFileSystem, b: MinixFileSystem, n: u64, old_blocks: int, new_blocks: int) -> bool {
    let ppb = a.superblock.block_size as int / 4;
    let lo = if new_blocks < 7 { new_blocks } else { 7 };
    let hi = if old_blocks < 7 { old_blocks } else { 7 };
    &&& forall|s: int| lo <= s < hi ==> #[trigger] slot_cleared(a, b, n, s)
    &&& (old_blocks > 7 && new_blocks <= 7 ==> slot_cleared(a, b, n, 7))
    &&& (old_blocks > 7 + ppb && new_blocks <= 7 + ppb ==> slot_cleared(a, b, n, 8))
    &&& (old_blocks > 7 + ppb + ppb * ppb && new_blocks <= 7 + ppb + ppb * ppb ==> slot_cleared(a, b, n, 9))
}

/// Whether the zone pointer `z` holds (the low 32 bits of) a zone that
/// `b`'s zone bitmap has taken.
pub open spec fn zone_taken(b: MinixFileSystem, z: u32) -> bool {
    exists|t: int| 0 <= t < b.zmap.bits().len() && #[trigger] b.zmap.bits()[t] && z == (t + b.superblock.first_data_zone) as u32
}

/// Whether one of the zone pointers `zs[from..to]`, not zero, names the
/// zone of bit `j` of a zone bitmap whose data zones start at `fdz`.
pub open spec fn names_bit(zs: Seq<u32>, fdz: int, from: int, to: int, j: int) -> bool {
    exists|s: int| from <= s < to && #[trigger] zs[s] != 0 && zs[s] as int == j + fdz
}

/// Whether growing the file of inode `n` of `a` from `from` to `to`
/// direct blocks took, in `b`, a zone free in `a` for each new block, and
/// no other zone.
pub open spec fn direct_alloc(a: MinixFileSystem, b: MinixFileSystem, n: u64, from: int, to: int) -> bool {
    let fdz = a.superblock.first_data_zone as int;
    let len = a.zmap.bits().len() as int;
    let zs = b.inodes@[n - 1].zones@;
    &&& b.zmap.bits().len() == len
    &&& forall|s: int| from <= s < to ==> 0 <= #[trigger] zs[s] - fdz < len && !a.zmap.bits()[zs[s] - fdz]
    &&& forall|j: int| 0 <= j < len ==> #[trigger] b.zmap.bits()[j] == (a.zmap.bits()[j] || names_bit(zs, fdz, from, to, j))
}

/// Whether the direct zone pointers `zs[from..to]` are zero or name zones
/// of the zone bitmap of `fs`.
pub open spec fn zones_in_map(fs: MinixFileSystem, zs: Seq<u32>, from: int, to: int) -> bool {
    forall|s: int| from <= s < to ==> #[trigger] zs[s] == 0 || 0 <= zs[s] - fs.superblock.first_data_zone < fs.zmap.bits().len()
}

/// Whether shrinking the file of inode `n` of `a` from `to` to `from`
/// direct blocks freed, in `b`, the zones those blocks had, and no other.
pub open spec fn direct_freed(a: MinixFileSystem, b: MinixFileSystem, n: u64, from: int, to: int) -> bool {
    let fdz = a.superblock.first_data_zone as int;
    let len = a.zmap.bits().len() as int;
    &&& b.zmap.bits().len() == len
    &&& forall|j: int| 0 <= j < len ==> #[trigger] b.zmap.bits()[j] == (a.zmap.bits()[j] && !names_bit(
        a.inodes@[n - 1].zones@,
        fdz,
        from,
        to,
        j,
    ))
}

/// Taking one more pointer into the range adds what it names.
proof fn lemma_names_bit_step(zs: Seq<u32>, fdz: int, from: int, i: int, j: int)
    requires
        from <= i < zs.len(),
    ensures
        names_bit(zs, fdz, from, i + 1, j) == (names_bit(zs, fdz, from, i, j) || (zs[i] != 0 && zs[i] as int == j + fdz)),
{
    if names_bit(zs, fdz, from, i + 1, j) && !(zs[i] != 0 && zs[i] as int == j + fdz) {
        let s = choose|s: int| from <= s < i + 1 && #[trigger] zs[s] != 0 && zs[s] as int == j + fdz;
        assert(s < i);
    }
}

/// Two runs of pointers that agree name the same bits.
proof fn lemma_names_bit_same(a: Seq<u32>, b: Seq<u32>, fdz: int, from: int, to: int, j: int)
    requires
        forall|s: int| from <= s < to ==> #[trigger] a[s] == b[s],
    ensures
        names_bit(a, fdz, from, to, j) == names_bit(b, fdz, from, to, j),
{
    if names_bit(a, fdz, from, to, j) {
        let s = choose|s: int| from <= s < to && #[trigger] a[s] != 0 && a[s] as int == j + fdz;
        assert(b[s] != 0);
    }
    if names_bit(b, fdz, from, to, j) {
        let s = choose|s: int| from <= s < to && #[trigger] b[s] != 0 && b[s] as int == j + fdz;
        assert(a[s] != 0);
    }
}

/// Grow then shrink: growing a file of inode `n` that holds no block,
/// within its direct zones, and then truncating it to nothing gives the
/// zone bitmap back as it was, so the count of free zones too. This is
/// over what `truncate` states of each step; the data zones must start
/// past zone 0 and the zone bitmap must fit zone numbers.
pub proof fn law_grow_then_shrink_restores_zmap(f0: MinixFileSystem, f1: MinixFileSystem, f2: MinixFileSystem, n: u64, blocks: int)
    requires
        f0.inode_at(n) is Some,
        f0.inodes@[n - 1].zones@ == Seq::new(10, |i: int| 0u32),
        0 <= blocks <= 7,
        f0.superblock.first_data_zone > 0,
        f1.superblock == f0.superblock,
        direct_alloc(f0, f1, n, 0, blocks),
        direct_freed(f1, f2, n, 0, blocks),
    ensures
        f2.zmap.bits() == f0.zmap.bits(),
        count_false(f2.zmap.bits()) == count_false(f0.zmap.bits()),
{
    let fdz = f0.superblock.first_data_zone as int;
    let zs = f1.inodes@[n - 1].zones@;
    assert forall|j: int| 0 <= j < f0.zmap.bits().len() implies #[trigger] f2.zmap.bits()[j] == f0.zmap.bits()[j] by {
        if names_bit(zs, fdz, 0, blocks, j) {
            let s = choose|s: int| 0 <= s < blocks && #[trigger] zs[s] != 0 && zs[s] as int == j + fdz;
            assert(!f0.zmap.bits()[zs[s] - fdz]);
        }
    }
    assert(f2.zmap.bits() =~= f0.zmap.bits());
}

/// Whether the direct zone pointers `from..to` (below 7) of inode `n` in
/// `b` hold zones that `b`'s zone bitmap has taken.
pub open spec fn direct_taken(b: MinixFileSystem, n: u64, from: int, to: int) -> bool {
    forall|s: int| from <= s < to && s < 7 ==> #[trigger] zone_taken(b, b.inodes@[n - 1].zones@[s])
}

/// Taken direct zone pointers stay so while the pointers and the zone
/// bitmap are kept.
proof fn lemma_direct_taken_keep(a: MinixFileSystem, b: MinixFileSystem, n: u64, from: int, to: int)
    requires
        0 <= from,
        direct_taken(a, n, from, to),
        b.zmap == a.zmap,
        b.superblock == a.superblock,
        forall|s: int| 0 <= s < 10 ==> #[trigger] b.inodes@[n - 1].zones@[s] == a.inodes@[n - 1].zones@[s],
    ensures
        direct_taken(b, n, from, to),
{
    assert forall|s: int| from <= s < to && s < 7 implies #[trigger] zone_taken(b, b.inodes@[n - 1].zones@[s]) by {
        assert(b.inodes@[n - 1].zones@[s] == a.inodes@[n - 1].zones@[s]);
        assert(zone_taken(a, a.inodes@[n - 1].zones@[s]));
    }
}

/// A cleared zone pointer other than `slot` stays cleared while it is kept
/// and the zone bitmap only loses zones.
proof fn lemma_shrink_step(f0: MinixFileSystem, b: MinixFileSystem, c: MinixFileSystem, n: u64, slot: int)
    requires
        forall|s: int| 0 <= s < 10 && s != slot ==> #[trigger] c.inodes@[n - 1].zones@[s] == b.inodes@[n - 1].zones@[s],
        c.zmap_shrinks(&b),
        c.superblock == b.superblock,
        c.zmap.bits().len() == f0.zmap.bits().len(),
        b.zmap.bits().len() == f0.zmap.bits().len(),
    ensures
        forall|s: int|
            #![trigger slot_cleared(f0, c, n, s)]
            #![trigger slot_cleared(f0, b, n, s)]
            0 <= s < 10 && s != slot && slot_cleared(f0, b, n, s) ==> slot_cleared(f0, c, n, s),
{
    assert forall|s: int| 0 <= s < 10 && s != slot && slot_cleared(f0, b, n, s) implies slot_cleared(f0, c, n, s) by {
        assert(c.inodes@[n - 1].zones@[s] == b.inodes@[n - 1].zones@[s]);
    }
}

impl MinixFileSystem {
    /// Free the blocks of the file of inode `n` from block `new_blocks` on,
    /// of the `old_blocks` it had, with the pointer blocks emptied: the
    /// direct zone pointers past the kept blocks become 0 and their zones
    /// free, the kept ones stay; on success, so do the pointers to indirect
    /// blocks that no kept block goes through.
    fn shrink(&mut self, n: u64, old_blocks: u64, new_blocks: u64) -> (r: Result<(), FsError>)
        requires
            old(self).wf(),
            old(self).inode_at(n) is Some,
            new_blocks <= old_blocks,
            old_blocks > 7 ==> old(self).superblock.block_size >= 4,
        ensures
            final(self).wf(),
            final(self).zones_frame(old(self), n, false),
            final(self).zmap_shrinks(old(self)),
            r matches Err(e) ==> block_error(e),
            forall|s: int| (if new_blocks < 7 { new_blocks as int } else { 7 }) <= s < (if old_blocks < 7 { old_blocks as int } else { 7 })
                ==> #[trigger] slot_cleared(*old(self), *final(self), n, s),
            forall|s: int| 0 <= s < (if new_blocks < 7 { new_blocks as int } else { 7 })
                ==> #[trigger] final(self).inodes@[n - 1].zones@[s] == old(self).inodes@[n - 1].zones@[s],
            r is Ok ==> ({
                let ppb = old(self).superblock.block_size as int / 4;
                &&& (old_blocks > 7 && new_blocks <= 7 ==> slot_cleared(*old(self), *final(self), n, 7))
                &&& (old_blocks > 7 + ppb && new_blocks <= 7 + ppb ==> slot_cleared(*old(self), *final(self), n, 8))
                &&& (old_blocks > 7 + ppb + ppb * ppb && new_blocks <= 7 + ppb + ppb * ppb ==> slot_cleared(
                    *old(self),
                    *final(self),
                    n,
                    9,
                ))
            }),
            readable_grows(*final(self), *old(self)),
            r matches Err(e) ==> read_failure(*old(self), e),
            old_blocks <= 7 ==> r is Ok,
            old_blocks <= 7 + old(self).superblock.block_size / 4 ==> (r matches Err(e) ==> indirect_unreadable(*old(self), n, e)),
            (old_blocks <= 7 && zones_in_map(*old(self), old(self).inodes@[n - 1].zones@, new_blocks as int, old_blocks as int))
                ==> direct_freed(*old(self), *final(self), n, new_blocks as int, old_blocks as int),
    {
        let ghost f0 = *self;
        let bs = self.superblock.block_size as u64;
        let ppb = bs / 4;
        proof {
            assert(ppb * ppb <= 16384 * 16384) by (nonlinear_arith)
                requires
                    ppb <= 16384,
            ;
            assert(ppb * ppb * ppb <= 16384 * 16384 * 16384) by (nonlinear_arith)
                requires
                    ppb <= 16384,
            ;
            assert(4 * ppb <= bs);
        }
        // The direct zones.
        let dir_from = if new_blocks < 7 { new_blocks } else { 7 };
        let dir_to = if old_blocks < 7 { old_blocks } else { 7 };
        let ghost blen = f0.zmap.bits().len() as int;
        let mut i = dir_from;
        while i < dir_to
            invariant
                self.wf(),
                f0 == *old(self),
                self.inode_at(n) is Some,
                self.zones_frame(&f0, n, false),
                self.zmap_shrinks(&f0),
                dir_to <= 7,
                dir_from <= i,
                dir_from <= dir_to ==> i <= dir_to,
                blen == f0.zmap.bits().len(),
                readable_grows(*self, f0),
                forall|s: int| dir_from <= s < i ==> #[trigger] slot_cleared(f0, *self, n, s),
                forall|s: int| 0 <= s < 10 && !(dir_from <= s < i) ==> #[trigger] self.inodes@[n - 1].zones@[s]
                    == f0.inodes@[n - 1].zones@[s],
                self.zmap.bits().len() == blen,
                zones_in_map(f0, f0.inodes@[n - 1].zones@, dir_from as int, dir_to as int) ==> forall|j: int|
                    0 <= j < blen ==> #[trigger] self.zmap.bits()[j] == (f0.zmap.bits()[j] && !names_bit(
                        f0.inodes@[n - 1].zones@,
                        f0.superblock.first_data_zone as int,
                        dir_from as int,
                        i as int,
                        j,
                    )),
            decreases dir_to - i,
        {
            let blk = self.zone_of(n, i as usize);
            let ghost fb = *self;
            proof {
                let fdz = f0.superblock.first_data_zone as int;
                assert forall|j: int| #![trigger names_bit(f0.inodes@[n - 1].zones@, fdz, dir_from as int, i + 1, j)]
                    true implies names_bit(f0.inodes@[n - 1].zones@, fdz, dir_from as int, i + 1, j) == (names_bit(
                    f0.inodes@[n - 1].zones@,
                    fdz,
                    dir_from as int,
                    i as int,
                    j,
                ) || (blk != 0 && blk as int == j + fdz)) by {
                    lemma_names_bit_step(f0.inodes@[n - 1].zones@, fdz, dir_from as int, i as int, j);
                }
            }
            if blk != 0 {
                let ghost f1 = *self;
                self.free_block(blk);
                proof {
                    lemma_frame_any(f1, *self, n);
                    lemma_shrink_step(f0, f1, *self, n, 10);
                    lemma_cache_grows(f1, *self);
                    lemma_grows_chain(f0, f1, *self);
                }
                let ghost f2 = *self;
                self.set_zone(n, i as usize, 0);
                proof {
                    lemma_frame_trans(f0, f1, f2, n, false);
                    lemma_frame_trans(f0, f2, *self, n, false);
                    lemma_shrinks_trans(f0, f1, f2);
                    lemma_shrink_step(f0, f2, *self, n, i as int);
                    lemma_cache_grows(f2, *self);
                    lemma_grows_chain(f0, f2, *self);
                    assert(slot_cleared(f0, *self, n, i as int));
                }
            }
            i += 1;
        }
        let ghost g1 = *self;
        proof {
            assert forall|s: int| dir_from <= s < dir_to implies #[trigger] slot_cleared(f0, *self, n, s) by {}
        }
        // The single indirect zone.
        if old_blocks > 7 {
            let ind = self.zone_of(n, INDIRECT_ZONE);
            if ind != 0 {
                let from = if new_blocks < 7 { 0 } else if new_blocks - 7 < ppb { new_blocks - 7 } else { ppb };
                let to = if old_blocks - 7 < ppb { old_blocks - 7 } else { ppb };
                let ghost f1 = *self;
                let res = self.free_entries(ind, from, to);
                proof {
                    lemma_frame_any(f1, *self, n);
                    lemma_frame_trans(f0, f1, *self, n, false);
                    lemma_shrinks_trans(f0, f1, *self);
                    lemma_shrink_step(f0, f1, *self, n, 10);
                    lemma_grows_chain(f0, f1, *self);
                    if res is Err {
                        lemma_failure_back(f0, f1, res->Err_0);
                        crate::minix::read::lemma_full_block_read(f1, ind, Seq::new(f1.bsize() as nat, |i: int| 0u8));
                        assert(!f1.readable(ind));
                        assert(!f0.readable(ind));
                        assert(ind == f0.inodes@[n - 1].zones@[7] as u64);
                    }
                }
                res?;
                if new_blocks <= 7 {
                    let ghost f2 = *self;
                    self.free_block(ind);
                    proof {
                        lemma_frame_any(f2, *self, n);
                        lemma_shrink_step(f0, f2, *self, n, 10);
                    lemma_cache_grows(f2, *self);
                    lemma_grows_chain(f0, f2, *self);
                    }
                    let ghost f3 = *self;
                    self.set_zone(n, INDIRECT_ZONE, 0);
                    proof {
                        lemma_frame_trans(f0, f2, f3, n, false);
                        lemma_frame_trans(f0, f3, *self, n, false);
                        lemma_shrinks_trans(f0, f2, f3);
                        lemma_shrink_step(f0, f3, *self, n, 7);
                    lemma_cache_grows(f3, *self);
                    lemma_grows_chain(f0, f3, *self);
                        assert(slot_cleared(f0, *self, n, 7));
                    }
                }
            }
        }
        proof {
            assert forall|s: int| dir_from <= s < dir_to implies #[trigger] slot_cleared(f0, *self, n, s) by {}
            assert(old_blocks > 7 && new_blocks <= 7 ==> slot_cleared(f0, *self, n, 7));
            assert forall|s: int| 0 <= s < 10 && !(dir_from <= s < dir_to) && s != 7 implies #[trigger] self.inodes@[n - 1].zones@[s]
                == f0.inodes@[n - 1].zones@[s] by {}
        }
        // The double indirect zone.
        let dind_start = 7 + ppb;
        let ppb2 = ppb * ppb;
        if old_blocks > dind_start {
            let dind = self.zone_of(n, DINDIRECT_ZONE);
            if dind != 0 {
                let from = if new_blocks < dind_start { 0 } else if new_blocks - dind_start < ppb2 { new_blocks - dind_start } else { ppb2 };
                let to = if old_blocks - dind_start < ppb2 { old_blocks - dind_start } else { ppb2 };
                let ghost f1 = *self;
                let res = self.free_dind_range(dind, from, to);
                proof {
                    lemma_frame_any(f1, *self, n);
                    lemma_frame_trans(f0, f1, *self, n, false);
                    lemma_shrinks_trans(f0, f1, *self);
                    lemma_shrink_step(f0, f1, *self, n, 10);
                    lemma_grows_chain(f0, f1, *self);
                    if res is Err {
                        lemma_failure_back(f0, f1, res->Err_0);
                    }
                }
                res?;
                if new_blocks <= dind_start {
                    let ghost f2 = *self;
                    self.free_block(dind);
                    proof {
                        lemma_frame_any(f2, *self, n);
                        lemma_shrink_step(f0, f2, *self, n, 10);
                    lemma_cache_grows(f2, *self);
                    lemma_grows_chain(f0, f2, *self);
                    }
                    let ghost f3 = *self;
                    self.set_zone(n, DINDIRECT_ZONE, 0);
                    proof {
                        lemma_frame_trans(f0, f2, f3, n, false);
                        lemma_frame_trans(f0, f3, *self, n, false);
                        lemma_shrinks_trans(f0, f2, f3);
                        lemma_shrink_step(f0, f3, *self, n, 8);
                    lemma_cache_grows(f3, *self);
                    lemma_grows_chain(f0, f3, *self);
                        assert(slot_cleared(f0, *self, n, 8));
                    }
                }
            }
        }
        proof {
            assert forall|s: int| dir_from <= s < dir_to implies #[trigger] slot_cleared(f0, *self, n, s) by {}
            assert(old_blocks > 7 && new_blocks <= 7 ==> slot_cleared(f0, *self, n, 7));
            assert(old_blocks > dind_start && new_blocks <= dind_start ==> slot_cleared(f0, *self, n, 8));
            assert forall|s: int| 0 <= s < 10 && !(dir_from <= s < dir_to) && s != 7 && s != 8 implies #[trigger] self.inodes@[n
                - 1].zones@[s] == f0.inodes@[n - 1].zones@[s] by {}
        }
        // The triple indirect zone.
        let tind_start = dind_start + ppb2;
        if old_blocks > tind_start {
            let tind = self.zone_of(n, TINDIRECT_ZONE);
            if tind != 0 {
                let ghost f1 = *self;
                let res = self.free_tind_range(n, tind, old_blocks - tind_start, if new_blocks < tind_start { 0 } else { new_blocks - tind_start });
                proof {
                    lemma_frame_trans(f0, f1, *self, n, false);
                    lemma_shrinks_trans(f0, f1, *self);
                    lemma_shrink_step(f0, f1, *self, n, 10);
                    lemma_grows_chain(f0, f1, *self);
                    if res is Err {
                        lemma_failure_back(f0, f1, res->Err_0);
                    }
                }
                res?;
                if new_blocks <= tind_start {
                    let ghost f2 = *self;
                    self.free_block(tind);
                    proof {
                        lemma_frame_any(f2, *self, n);
                        lemma_shrink_step(f0, f2, *self, n, 10);
                    lemma_cache_grows(f2, *self);
                    lemma_grows_chain(f0, f2, *self);
                    }
                    let ghost f3 = *self;
                    self.set_zone(n, TINDIRECT_ZONE, 0);
                    proof {
                        lemma_frame_trans(f0, f2, f3, n, false);
                        lemma_frame_trans(f0, f3, *self, n, false);
                        lemma_shrinks_trans(f0, f2, f3);
                        lemma_shrink_step(f0, f3, *self, n, 9);
                    lemma_cache_grows(f3, *self);
                    lemma_grows_chain(f0, f3, *self);
                        assert(slot_cleared(f0, *self, n, 9));
                    }
                }
            }
        }
        Ok(())
    }

    /// Free what triple indirect block `tblk` holds from block `new_rel` on
    /// of the `old_rel` blocks below it (counted within that block), and
    /// the double indirect blocks emptied from their start.
    fn free_tind_range(&mut self, n: u64, tblk: u64, old_rel: u64, new_rel: u64) -> (r: Result<(), FsError>)
        requires
            old(self).wf(),
            old(self).superblock.block_size >= 4,
            new_rel <= old_rel,
        ensures
            final(self).wf(),
            final(self).zones_frame(old(self), n, false),
            final(self).zmap_shrinks(old(self)),
            final(self).inodes == old(self).inodes,
            r matches Err(e) ==> block_error(e),
            ({
                let per = old(self).superblock.block_size as int / 4;
                let cap = per * per * per;
                let from = if new_rel < cap { new_rel as int } else { cap };
                let to = if old_rel < cap { old_rel as int } else { cap };
                match old(self).read_block_data(tblk, Seq::new(old(self).bsize() as nat, |i: int| 0u8)) {
                    Ok(tt) => r is Ok ==> forall|j: int|
                        #[trigger] covers_from_start(tt, from, to, per * per, j) ==> zone_freed(
                            *final(self),
                            old(self).zmap.bits().len() as int,
                            le_u32(tt, 4 * j) as int,
                        ),
                    Err(e) => r == Err::<(), FsError>(e) && final(self).zmap == old(self).zmap,
                }
            }),
            readable_grows(*final(self), *old(self)),
            r matches Err(e) ==> read_failure(*old(self), e),
    {
        let ghost f0 = *self;
        let bs = self.superblock.block_size as u64;
        let ppb = bs / 4;
        proof {
            assert(ppb * ppb <= 16384 * 16384) by (nonlinear_arith)
                requires
                    ppb <= 16384,
            ;
            assert(ppb * (ppb * ppb) <= 16384 * (16384 * 16384)) by (nonlinear_arith)
                requires
                    ppb <= 16384,
            ;
        }
        let ppb2 = ppb * ppb;
        let cap = ppb * ppb2;
        let trel_from = if new_rel < cap { new_rel } else { cap };
        let trel_to = if old_rel < cap { old_rel } else { cap };
        proof {
            assert(ppb2 > 0) by (nonlinear_arith)
                requires
                    ppb > 0,
                    ppb2 == ppb * ppb,
            ;
        }
        let dind_from = trel_from / ppb2;
        let dind_to = (trel_to + ppb2 - 1) / ppb2;
        proof {
            assert(dind_to <= ppb) by (nonlinear_arith)
                requires
                    trel_to <= ppb * ppb2,
                    dind_to == (trel_to + ppb2 - 1) / (ppb2 as int),
                    ppb2 > 0,
            ;
        }
        let mut tbuf = zeros(bs as usize);
        assert(tbuf@ =~= Seq::new(self.bsize() as nat, |i: int| 0u8));
        let ghost before = tbuf@;
        let got = self.read_block(tblk, tbuf.as_mut_slice());
        proof {
            crate::minix::read::lemma_full_block_read(f0, tblk, before);
            crate::minix::read::lemma_read_keeps_content(f0, *self, tblk, before);
            lemma_same_content_grows(f0, *self);
        }
        if let Err(e) = got {
            return Err(e);
        }
        proof {
            lemma_frame_any(f0, *self, n);
            assert(cap == ppb * ppb * ppb) by (nonlinear_arith)
                requires
                    cap == ppb * ppb2,
                    ppb2 == ppb * ppb,
            ;
        }
        let ghost tt = tbuf@;
        let ghost blen = f0.zmap.bits().len() as int;
        let mut dirty = false;
        let mut dind_i = dind_from;
        while dind_i < dind_to
            invariant
                forall|j: int| dind_i <= j < dind_to ==> #[trigger] le_u32(tbuf@, 4 * j) == le_u32(tt, 4 * j),
                forall|j: int| #[trigger] covers_from_start(tt, trel_from as int, trel_to as int, ppb2 as int, j) && j < dind_i
                    ==> zone_freed(*self, blen, le_u32(tt, 4 * j) as int),
                blen == f0.zmap.bits().len(),
                f0.read_block_data(tblk, Seq::new(f0.bsize() as nat, |i: int| 0u8)) == Ok::<Seq<u8>, FsError>(tt),
                readable_grows(*self, f0),
                dind_from <= dind_i,
                self.inodes == f0.inodes,
                self.wf(),
                f0 == *old(self),
                self.zones_frame(&f0, n, false),
                self.zmap_shrinks(&f0),
                bs == f0.superblock.block_size,
                ppb == bs / 4,
                0 < ppb <= 16384,
                ppb2 == ppb * ppb,
                ppb2 > 0,
                ppb * ppb2 <= 16384 * (16384 * 16384),
                tbuf@.len() == bs,
                dind_to <= ppb,
                dind_to == (trel_to + ppb2 - 1) / (ppb2 as int),
                trel_from <= trel_to <= ppb * ppb2,
                dind_from == trel_from / ppb2,
            decreases dind_to - dind_i,
        {
            let dp = read_ptr(&tbuf, dind_i);
            if dp != 0 {
                proof {
                    assert(dind_i * ppb2 < trel_to) by (nonlinear_arith)
                        requires
                            dind_i < (trel_to + ppb2 - 1) / (ppb2 as int),
                            ppb2 > 0,
                    ;
                    assert((dind_i + 1) * ppb2 <= ppb * ppb2) by (nonlinear_arith)
                        requires
                            dind_i < ppb,
                    ;
                    assert((dind_i + 1) * ppb2 == dind_i * ppb2 + ppb2) by (nonlinear_arith);
                    assert(dind_from * ppb2 <= trel_from < (dind_from + 1) * ppb2) by (nonlinear_arith)
                        requires
                            dind_from == trel_from / ppb2,
                            ppb2 > 0,
                    ;
                    assert(dind_i >= dind_from ==> dind_i * ppb2 >= dind_from * ppb2) by (nonlinear_arith);
                    assert(dind_i > dind_from ==> dind_i * ppb2 >= (dind_from + 1) * ppb2) by (nonlinear_arith);
                }
                let lo = dind_i * ppb2;
                let drel_from = if trel_from < lo { 0 } else if trel_from - lo < ppb2 { trel_from - lo } else { ppb2 };
                let hi = (dind_i + 1) * ppb2;
                let end = if trel_to < hi { trel_to } else { hi };
                let drel_to = end - lo;
                let ghost f1 = *self;
                let res = self.free_dind_range(dp, drel_from, drel_to);
                proof {
                    lemma_frame_any(f1, *self, n);
                    lemma_frame_trans(f0, f1, *self, n, false);
                    lemma_shrinks_trans(f0, f1, *self);
                    lemma_grows_chain(f0, f1, *self);
                }
                match res {
                    Ok(()) => {},
                    Err(e) => {
                        proof {
                            lemma_failure_back(f0, f1, e);
                        }
                        return Err(e);
                    },
                }
                proof {
                    assert((trel_from as int) % (ppb2 as int) == trel_from - dind_from * ppb2) by (nonlinear_arith)
                        requires
                            dind_from == (trel_from as int) / (ppb2 as int),
                            ppb2 > 0,
                    ;
                    assert((drel_from == 0) <==> (dind_i != dind_from || (trel_from as int) % (ppb2 as int) == 0));
                }
                if drel_from == 0 {
                    let ghost f2 = *self;
                    self.free_block(dp);
                    proof {
                        lemma_frame_any(f2, *self, n);
                        lemma_frame_trans(f0, f2, *self, n, false);
                        lemma_shrinks_trans(f0, f2, *self);
                        lemma_cache_grows(f2, *self);
                        lemma_grows_chain(f0, f2, *self);
                    }
                    let ghost b0 = tbuf@;
                    write_ptr(&mut tbuf, dind_i, 0);
                    dirty = true;
                    proof {
                        assert forall|j: int| dind_i + 1 <= j < dind_to implies #[trigger] le_u32(tbuf@, 4 * j) == le_u32(tt, 4 * j) by {
                            lemma_set_ptr_other(b0, dind_i, 0, j);
                        }
                    }
                }
            }
            dind_i += 1;
        }
        if dirty {
            let ghost fw = *self;
            let _ = self.write_block(tblk, tbuf.as_slice());
            proof {
                lemma_cache_grows(fw, *self);
                lemma_grows_chain(f0, fw, *self);
            }
        }
        Ok(())
    }

    /// Set the size of the file of inode `inode_num` to `size`, allocating
    /// zeroed blocks (and the pointer blocks that lead to them) as it grows
    /// and freeing them as it shrinks. Device, fifo and socket inodes have
    /// no blocks: for them, as for an unchanged size, nothing happens.
    pub fn truncate(&mut self, inode_num: u64, size: u64) -> (r: Result<u64, FsError>)
        requires
            old(self).wf(),
            is_pow2(old(self).superblock.block_size),
            old(self).inode_at(inode_num) matches Some(ino) ==> (has_blocks(ino.spec_file_type()) && size != ino.size ==> {
                let bs = old(self).superblock.block_size as int;
                &&& size + bs - 1 <= u64::MAX
                &&& (size > ino.size ==> blocks_for(size as int, bs) <= max_file_blocks(bs))
                &&& (blocks_for(ino.size as int, bs) > 7 ==> bs >= 4)
            }),
        ensures
            final(self).wf(),
            final(self).zones_frame(old(self), inode_num, true),
            match old(self).inode_at(inode_num) {
                None => r == Err::<u64, FsError>(FsError::InvalidInode { inode: inode_num }) && *final(self) == *old(self),
                Some(ino) => if !has_blocks(ino.spec_file_type()) || size == ino.size {
                    r == Ok::<u64, FsError>(size) && *final(self) == *old(self)
                } else {
                    &&& (size > ino.size ==> final(self).zmap_grows(old(self)))
                    &&& (size < ino.size ==> final(self).zmap_shrinks(old(self)))
                    &&& match r {
                        Ok(x) => x == size && final(self).inodes@[inode_num - 1].size == size as u32,
                        Err(e) => block_error(e),
                    }
                },
            },
            (old(self).inode_at(inode_num) matches Some(ino) && size < ino.size) ==> (readable_grows(*final(self), *old(self)) && (
            r matches Err(e) ==> read_failure(*old(self), e))),
            (old(self).inode_at(inode_num) matches Some(ino) && size > ino.size) ==> (readable_grows(*final(self), *old(self)) && (
            r matches Err(e) ==> grow_error(*old(self), *final(self), e))),
            (old(self).inode_at(inode_num) matches Some(ino) && has_blocks(ino.spec_file_type()) && size < ino.size && r is Ok)
                ==> pointers_cleared(
                *old(self),
                *final(self),
                inode_num,
                blocks_for(old(self).inodes@[inode_num - 1].size as int, old(self).superblock.block_size as int),
                blocks_for(size as int, old(self).superblock.block_size as int),
            ),
            (old(self).inode_at(inode_num) matches Some(ino) && has_blocks(ino.spec_file_type()) && size > ino.size && r is Ok)
                ==> direct_taken(
                *final(self),
                inode_num,
                blocks_for(old(self).inodes@[inode_num - 1].size as int, old(self).superblock.block_size as int),
                blocks_for(size as int, old(self).superblock.block_size as int),
            ),
            (old(self).inode_at(inode_num) matches Some(ino) && has_blocks(ino.spec_file_type()) && size < ino.size
                && blocks_for(ino.size as int, old(self).superblock.block_size as int) <= 7) ==> r == Ok::<u64, FsError>(size),
            (old(self).inode_at(inode_num) matches Some(ino) && has_blocks(ino.spec_file_type()) && size > ino.size
                && blocks_for(size as int, old(self).superblock.block_size as int) <= 7) ==> (r is Ok <==> count_false(
                old(self).zmap.bits(),
            ) >= blocks_for(size as int, old(self).superblock.block_size as int) - blocks_for(
                old(self).inodes@[inode_num - 1].size as int,
                old(self).superblock.block_size as int,
            )),
            (old(self).inode_at(inode_num) matches Some(ino) && has_blocks(ino.spec_file_type()) && size > ino.size
                && blocks_for(size as int, old(self).superblock.block_size as int) <= 7 + old(self).superblock.block_size / 4) ==> (
            r matches Err(e) ==> (e == FsError::NoBlocksLeft && zmap_full(*final(self))) || indirect_read_failure(
                *final(self),
                inode_num,
                e,
            )),
            (old(self).inode_at(inode_num) matches Some(ino) && has_blocks(ino.spec_file_type()) && size < ino.size
                && blocks_for(ino.size as int, old(self).superblock.block_size as int) <= 7 + old(self).superblock.block_size / 4)
                ==> (r matches Err(e) ==> indirect_unreadable(*old(self), inode_num, e)),
            (old(self).inode_at(inode_num) matches Some(ino) && has_blocks(ino.spec_file_type()) && size < ino.size
                && blocks_for(ino.size as int, old(self).superblock.block_size as int) <= 7 && zones_in_map(
                *old(self),
                ino.zones@,
                blocks_for(size as int, old(self).superblock.block_size as int),
                blocks_for(ino.size as int, old(self).superblock.block_size as int),
            )) ==> direct_freed(
                *old(self),
                *final(self),
                inode_num,
                blocks_for(size as int, old(self).superblock.block_size as int),
                blocks_for(old(self).inodes@[inode_num - 1].size as int, old(self).superblock.block_size as int),
            ),
            (old(self).inode_at(inode_num) matches Some(ino) && has_blocks(ino.spec_file_type()) && size > ino.size
                && blocks_for(size as int, old(self).superblock.block_size as int) <= 7 && r is Ok
                && old(self).superblock.first_data_zone > 0 && old(self).zmap.bits().len() + old(self).superblock.first_data_zone
                <= u32::MAX) ==> direct_alloc(
                *old(self),
                *final(self),
                inode_num,
                blocks_for(old(self).inodes@[inode_num - 1].size as int, old(self).superblock.block_size as int),
                blocks_for(size as int, old(self).superblock.block_size as int),
            ),
    {
        let ghost f0 = *self;
        let bs = self.superblock.block_size as u64;
        let ft = match self.get_inode(inode_num) {
            Ok(i) => i.get_file_type(),
            Err(e) => {
                return Err(e);
            },
        };
        match ft {
            FileType::Directory | FileType::Regular | FileType::Symlink => {},
            _ => {
                return Ok(size);
            },
        }
        let idx = (inode_num - 1) as usize;
        let old_size = self.inodes[idx].size as u64;
        if size == old_size {
            return Ok(size);
        }
        assert(bs > 0);
        let old_blocks = (old_size + (bs - 1)) / bs;
        let new_blocks = (size + (bs - 1)) / bs;
        if size > old_size {
            proof {
                lemma_same_content_grows(f0, f0);
                assert(old_blocks <= new_blocks) by (nonlinear_arith)
                    requires
                        old_size < size,
                        bs > 0,
                        old_blocks == (old_size + bs - 1) / (bs as int),
                        new_blocks == (size + bs - 1) / (bs as int),
                ;
            }
            let mut k = old_blocks;
            while k < new_blocks
                invariant
                    self.wf(),
                    f0 == *old(self),
                    self.inode_at(inode_num) is Some,
                    self.zones_frame(&f0, inode_num, false),
                    self.zmap_grows(&f0),
                    self.superblock == f0.superblock,
                    new_blocks <= max_file_blocks(bs as int),
                    bs == f0.superblock.block_size,
                    f0.inode_at(inode_num) == Some(f0.inodes@[inode_num - 1]),
                    has_blocks(f0.inodes@[inode_num - 1].spec_file_type()),
                    size > f0.inodes@[inode_num - 1].size,
                    readable_grows(*self, f0),
                    old_blocks <= k <= new_blocks,
                    direct_taken(*self, inode_num, old_blocks as int, k as int),
                    new_blocks <= 7 ==> count_false(self.zmap.bits()) + (k - old_blocks) == count_false(f0.zmap.bits()),
                    old_blocks as int == blocks_for(f0.inodes@[inode_num - 1].size as int, bs as int),
                    new_blocks as int == blocks_for(size as int, bs as int),
                    self.zmap.bits().len() == f0.zmap.bits().len(),
                    (new_blocks <= 7 && f0.superblock.first_data_zone > 0 && f0.zmap.bits().len() + f0.superblock.first_data_zone
                        <= u32::MAX) ==> direct_alloc(f0, *self, inode_num, old_blocks as int, k as int),
                decreases new_blocks - k,
            {
                let ghost f1 = *self;
                let res = self.grow_one(inode_num, k);
                proof {
                    let fdz = f0.superblock.first_data_zone as int;
                    let len = f0.zmap.bits().len() as int;
                    if res is Ok && new_blocks <= 7 && fdz > 0 && len + fdz <= u32::MAX {
                        let z1 = f1.inodes@[inode_num - 1].zones@;
                        let z2 = self.inodes@[inode_num - 1].zones@;
                        let t = choose|t: int|
                            #[trigger] is_first_clear(f1.zmap.bits(), t) && self.zmap.bits() == f1.zmap.bits().update(t, true)
                                && z2[k as int] == (t + f1.superblock.first_data_zone) as u32;
                        assert(z2[k as int] as int == t + fdz);
                        assert(!f0.zmap.bits()[t]);
                        assert forall|s: int| old_blocks <= s < k implies #[trigger] z2[s] == z1[s] by {}
                        assert forall|j: int| 0 <= j < len implies #[trigger] self.zmap.bits()[j] == (f0.zmap.bits()[j] || names_bit(
                            z2,
                            fdz,
                            old_blocks as int,
                            k + 1,
                            j,
                        )) by {
                            lemma_names_bit_step(z2, fdz, old_blocks as int, k as int, j);
                            lemma_names_bit_same(z1, z2, fdz, old_blocks as int, k as int, j);
                        }
                        assert forall|s: int| old_blocks <= s < k + 1 implies 0 <= #[trigger] z2[s] - fdz < len && !f0.zmap.bits()[z2[s]
                            - fdz] by {
                            if s < k {
                                assert(z2[s] == z1[s]);
                            }
                        }
                        assert(direct_alloc(f0, *self, inode_num, old_blocks as int, k + 1));
                    }
                }
                proof {
                    lemma_frame_trans(f0, f1, *self, inode_num, false);
                    lemma_grows_trans(f0, f1, *self);
                    lemma_grows_chain(f0, f1, *self);
                    if res is Err {
                        lemma_grow_error_back(f0, f1, *self, res->Err_0);
                        if new_blocks <= 7 {
                            lemma_count_false_full(self.zmap.bits());
                            assert(count_false(f0.zmap.bits()) < new_blocks - old_blocks);
                            assert(old_blocks as int == blocks_for(f0.inodes@[inode_num - 1].size as int, bs as int));
                            assert(new_blocks as int == blocks_for(size as int, bs as int));
                        }
                    } else if new_blocks <= 7 {
                        let t = choose|t: int|
                            #[trigger] is_first_clear(f1.zmap.bits(), t) && self.zmap.bits() == f1.zmap.bits().update(t, true)
                                && self.inodes@[inode_num - 1].zones@[k as int] == (t + f1.superblock.first_data_zone) as u32;
                        lemma_count_false_take(f1.zmap.bits(), t);
                    }
                }
                res?;
                proof {
                    assert forall|s: int| old_blocks <= s < k + 1 && s < 7 implies #[trigger] zone_taken(
                        *self,
                        self.inodes@[inode_num - 1].zones@[s],
                    ) by {
                        if s < k {
                            assert(self.inodes@[inode_num - 1].zones@[s] == f1.inodes@[inode_num - 1].zones@[s]);
                            assert(zone_taken(f1, f1.inodes@[inode_num - 1].zones@[s]));
                            let t = choose|t: int|
                                0 <= t < f1.zmap.bits().len() && #[trigger] f1.zmap.bits()[t] && f1.inodes@[inode_num
                                    - 1].zones@[s] == (t + f1.superblock.first_data_zone) as u32;
                            assert(self.zmap.bits()[t]);
                        } else {
                            let t = choose|t: int|
                                #[trigger] is_first_clear(f1.zmap.bits(), t) && self.zmap.bits() == f1.zmap.bits().update(t, true)
                                    && self.inodes@[inode_num - 1].zones@[k as int] == (t + f1.superblock.first_data_zone) as u32;
                            assert(self.zmap.bits()[t]);
                        }
                    }
                }
                k += 1;
            }
        } else {
            proof {
                assert(new_blocks <= old_blocks) by (nonlinear_arith)
                    requires
                        size < old_size,
                        bs > 0,
                        old_blocks == (old_size + bs - 1) / (bs as int),
                        new_blocks == (size + bs - 1) / (bs as int),
                ;
            }
            let ghost f1 = *self;
            let res = self.shrink(inode_num, old_blocks, new_blocks);
            proof {
                if res is Err {
                    lemma_failure_back(f0, f1, res->Err_0);
                }
            }
            res?;
            proof {
                assert(pointers_cleared(f0, *self, inode_num, old_blocks as int, new_blocks as int));
            }
        }
        let ghost f2 = *self;
        let mut ino = self.inodes[idx];
        ino.set_size(size);
        self.inodes.set(idx, ino);
        proof {
            lemma_frame_trans(f0, f2, *self, inode_num, true);
            lemma_cache_grows(f2, *self);
            if size != old_size {
                lemma_grows_chain(f0, f2, *self);
            }
            assert forall|s: int| 0 <= s < 10 implies #[trigger] self.inodes@[inode_num - 1].zones@[s] == f2.inodes@[inode_num
                - 1].zones@[s] by {}
            assert(old_blocks as int == blocks_for(f0.inodes@[inode_num - 1].size as int, bs as int));
            assert(new_blocks as int == blocks_for(size as int, bs as int));
            if size < old_size {
                lemma_shrink_step(f0, f2, *self, inode_num, 10);
                assert(pointers_cleared(f0, *self, inode_num, old_blocks as int, new_blocks as int));
            } else {
                lemma_direct_taken_keep(f2, *self, inode_num, old_blocks as int, new_blocks as int);
            }
        }
        Ok(size)
    }
}

} // verus!
