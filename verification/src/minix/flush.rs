//! Writing a Minix 3 file system back to its image: the bitmaps, the inode
//! table and the dirty cached blocks.
use crate::error::FsError;
use crate::minix::fs::MinixFileSystem;
use crate::minix::inode::{spec_inode_bytes, Inode};
use vstd::prelude::*;

verus! {

/// `img` with `data` written at `off`, zero-filled up to `off` where it is
/// shorter and grown where the data runs past its end (as a file grows).
pub open spec fn write_at(img: Seq<u8>, off: int, data: Seq<u8>) -> Seq<u8> {
    let padded = if off > img.len() {
        img + Seq::new((off - img.len()) as nat, |i: int| 0u8)
    } else {
        img
    };
    let end = off + data.len();
    padded.subrange(0, off) + data + (if end < padded.len() {
        padded.subrange(end, padded.len() as int)
    } else {
        Seq::empty()
    })
}

/// The bytes of an inode table.
pub open spec fn table_bytes(s: Seq<Inode>) -> Seq<u8>
    decreases s.len(),
{
    if s.len() == 0 {
        Seq::empty()
    } else {
        table_bytes(s.drop_last()) + spec_inode_bytes(s.last())
    }
}

/// `image` with `data` written at `off`.
fn write_bytes_at(image: &mut Vec<u8>, off: usize, data: &[u8])
    requires
        off + data@.len() <= usize::MAX,
    ensures
        final(image)@ == write_at(old(image)@, off as int, data@),
{
    while image.len() < off
        invariant
            image@.len() > old(image)@.len() ==> image@.len() <= off,
            image@ == old(image)@ + Seq::new((image@.len() - old(image)@.len()) as nat, |i: int| 0u8),
            old(image)@.len() <= image@.len(),
        decreases off - image@.len(),
    {
        image.push(0);
        assert(image@ =~= old(image)@ + Seq::new((image@.len() - old(image)@.len()) as nat, |i: int| 0u8));
    }
    let ghost padded = image@;
    assert(padded =~= if off > old(image)@.len() {
        old(image)@ + Seq::new((off - old(image)@.len()) as nat, |i: int| 0u8)
    } else {
        old(image)@
    });
    let mut k: usize = 0;
    while k < data.len()
        invariant
            k <= data@.len(),
            off + data@.len() <= usize::MAX,
            padded.len() >= off,
            image@.len() == if off + k > padded.len() { off + k } else { padded.len() as int },
            forall|i: int| 0 <= i < off ==> image@[i] == padded[i],
            forall|i: int| 0 <= i < k ==> #[trigger] image@[off + i] == data@[i],
            forall|i: int| off + k <= i < image@.len() ==> image@[i] == padded[i],
        decreases data@.len() - k,
    {
        if off + k < image.len() {
            image.set(off + k, data[k]);
        } else {
            image.push(data[k]);
        }
        k += 1;
    }
    let ghost end = off + data@.len();
    assert forall|i: int| off <= i < end implies image@[i] == data@[i - off] by {
        assert(image@[off + (i - off)] == data@[i - off]);
    }
    assert(image@ =~= write_at(old(image)@, off as int, data@));
}

/// The bytes of the inode table `inodes`.
fn inode_table_bytes(inodes: &Vec<Inode>) -> (r: Vec<u8>)
    ensures
        r@ == table_bytes(inodes@),
{
    let mut out: Vec<u8> = Vec::new();
    let mut i: usize = 0;
    while i < inodes.len()
        invariant
            i <= inodes@.len(),
            out@ == table_bytes(inodes@.take(i as int)),
        decreases inodes@.len() - i,
    {
        let b = inodes[i].as_bytes();
        let mut k: usize = 0;
        let ghost start = out@;
        while k < b.len()
            invariant
                k <= b@.len(),
                out@ == start + b@.take(k as int),
            decreases b@.len() - k,
        {
            out.push(b[k]);
            k += 1;
            assert(out@ =~= start + b@.take(k as int));
        }
        assert(b@.take(b@.len() as int) =~= b@);
        assert(inodes@.take(i + 1).drop_last() =~= inodes@.take(i as int));
        i += 1;
    }
    assert(inodes@.take(inodes@.len() as int) =~= inodes@);
    out
}

/// Write `data` into `image` at `off`, or refuse a write that reaches past
/// what memory can address.
fn checked_write(image: &mut Vec<u8>, off: u64, data: &[u8]) -> (r: Result<(), FsError>)
    ensures
        r is Ok ==> final(image)@ == write_at(old(image)@, off as int, data@),
        r is Err ==> r == Err::<(), FsError>(FsError::WriteOutOfRange) && final(image)@ == old(image)@,
{
    if off > usize::MAX as u64 || data.len() > usize::MAX - off as usize {
        return Err(FsError::WriteOutOfRange);
    }
    write_bytes_at(image, off as usize, data);
    Ok(())
}

impl MinixFileSystem {
    /// Write every dirty cached block into the image at its place, then
    /// empty the cache.
    pub fn write_back_dirty_blocks(&mut self) -> (r: Result<(), FsError>)
        ensures
            final(self).superblock == old(self).superblock,
            final(self).imap == old(self).imap,
            final(self).zmap == old(self).zmap,
            final(self).inodes == old(self).inodes,
            final(self).tree == old(self).tree,
            final(self).image@.len() >= old(self).image@.len(),
            r is Ok ==> final(self).bcache.view() == Map::<u64, (bool, Seq<u8>)>::empty(),
            r is Err ==> r == Err::<(), FsError>(FsError::WriteOutOfRange),
    {
        let bs = self.superblock.block_size as u64;
        let dirty = self.bcache.for_each_dirty();
        let mut i: usize = 0;
        while i < dirty.len()
            invariant
                i <= dirty@.len(),
                self.superblock == old(self).superblock,
                self.imap == old(self).imap,
                self.zmap == old(self).zmap,
                self.inodes == old(self).inodes,
                self.tree == old(self).tree,
                self.image@.len() >= old(self).image@.len(),
            decreases dirty@.len() - i,
        {
            let b = dirty[i].0;
            let off = match b.checked_mul(bs) {
                Some(o) => o,
                None => {
                    return Err(FsError::WriteOutOfRange);
                },
            };
            checked_write(&mut self.image, off, dirty[i].1.as_slice())?;
            i += 1;
        }
        self.bcache.clear();
        Ok(())
    }

    /// Write the bitmaps and the inode table to their places in the image,
    /// then the dirty cached blocks, and empty the cache.
    pub fn write_to_backing(&mut self) -> (r: Result<(), FsError>)
        ensures
            final(self).superblock == old(self).superblock,
            final(self).imap == old(self).imap,
            final(self).zmap == old(self).zmap,
            final(self).inodes == old(self).inodes,
            final(self).tree == old(self).tree,
            final(self).image@.len() >= old(self).image@.len(),
            r is Ok ==> final(self).bcache.view() == Map::<u64, (bool, Seq<u8>)>::empty(),
            r is Err ==> r == Err::<(), FsError>(FsError::WriteOutOfRange),
    {
        let ghost f0 = *self;
        let bs = self.superblock.block_size as u64;
        let im = self.superblock.imap_blocks as u64;
        let zm = self.superblock.zmap_blocks as u64;
        proof {
            assert((2 + im + zm) * bs <= 0x20001 * 0xFFFF) by (nonlinear_arith)
                requires
                    im <= 0xFFFF,
                    zm <= 0xFFFF,
                    bs <= 0xFFFF,
            ;
            assert((2 + im) * bs <= (2 + im + zm) * bs) by (nonlinear_arith);
            assert(2 * bs <= (2 + im) * bs) by (nonlinear_arith);
        }
        let table = inode_table_bytes(&self.inodes);
        checked_write(&mut self.image, 2 * bs, self.imap.map.as_slice())?;
        let ghost i1 = self.image@;
        checked_write(&mut self.image, (2 + im) * bs, self.zmap.map.as_slice())?;
        let ghost i2 = self.image@;
        checked_write(&mut self.image, (2 + im + zm) * bs, table.as_slice())?;
        self.write_back_dirty_blocks()?;
        self.bcache.clean_all();
        self.bcache.clear();
        Ok(())
    }
}

} // verus!
