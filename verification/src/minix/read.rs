//! Reading files of a Minix 3 file system: the blocks a read visits, in
//! order, and what it makes of them.
use crate::bytes::zeros;
use crate::error::FsError;
use crate::fs::FileSystem;
use crate::bytes::lossy_utf8;
use crate::minix::consts::{DINDIRECT_ZONE, INDIRECT_ZONE, MAX_SYMLINK_SIZE, TINDIRECT_ZONE};
use crate::minix::fs::{get_indirect_zone, image_range, min, zone_pointers, MinixFileSystem};
use vstd::prelude::*;

verus! {

/// The front of `buf` overwritten by as much of `c` as fits.
pub open spec fn overlay(c: Seq<u8>, buf: Seq<u8>) -> Seq<u8> {
    let n = min(c.len() as int, buf.len() as int);
    c.subrange(0, n) + buf.subrange(n, buf.len() as int)
}

impl MinixFileSystem {
    /// Whether a read of block `b` into a one-block buffer succeeds.
    pub open spec fn readable(&self, b: u64) -> bool {
        &&& self.block_bounds_error(b) is None
        &&& (self.bcache.view().contains_key(b) || b * self.bsize() + self.bsize() <= self.image@.len())
    }

    /// The bytes of block `b` as a read sees them: the cached copy if there
    /// is one, else the image's.
    pub open spec fn content(&self, b: u64) -> Seq<u8> {
        if self.bcache.view().contains_key(b) {
            self.bcache.view()[b].1
        } else {
            image_range(self.image@, b * self.bsize(), self.bsize())
        }
    }

    /// The error of a read of block `b` that fails.
    pub open spec fn read_err(&self, b: u64) -> FsError {
        match self.block_bounds_error(b) {
            Some(e) => e,
            None => FsError::UnexpectedEof,
        }
    }

    /// Whether `self` and `other` differ at most in a cache that gives the
    /// same bytes for every block.
    pub open spec fn same_content(&self, other: &Self) -> bool {
        &&& self.same_but_cache(other)
        &&& forall|b: u64| #[trigger] self.content(b) == other.content(b)
        &&& forall|b: u64| #[trigger] self.readable(b) == other.readable(b)
    }

    /// The zone pointers that indirect block `z` holds.
    pub open spec fn pointers(&self, z: u64) -> Seq<u64> {
        zone_pointers(overlay(self.content(z), Seq::new(self.bsize() as nat, |i: int| 0u8))).map_values(
            |p: u32| p as u64,
        )
    }
}

/// A read of block `b` into a buffer of one block: what it gives and that
/// the bytes of all blocks stay as they were.
pub proof fn lemma_full_block_read(fs: MinixFileSystem, b: u64, data: Seq<u8>)
    requires
        data.len() == fs.bsize(),
    ensures
        fs.read_block_data(b, data) == (if fs.readable(b) {
            Ok(overlay(fs.content(b), data))
        } else {
            Err::<Seq<u8>, FsError>(fs.read_err(b))
        }),
        forall|b2: u64| #[trigger] fs.read_block_cache(b, data).contains_key(b2) ==> fs.bcache.view().contains_key(b2) || b2 == b,
        fs.read_block_cache(b, data).contains_key(b) ==> fs.read_block_cache(b, data)[b].1 == fs.content(b),
        !fs.bcache.view().contains_key(b) && fs.read_block_cache(b, data).contains_key(b) ==> fs.readable(b),
        forall|b2: u64| b2 != b && #[trigger] fs.bcache.view().contains_key(b2) ==> fs.read_block_cache(b, data).contains_key(b2)
            && fs.read_block_cache(b, data)[b2] == fs.bcache.view()[b2],
        fs.bcache.view().contains_key(b) ==> fs.read_block_cache(b, data) == fs.bcache.view(),
{
    let bs = fs.bsize();
    if fs.bcache.view().contains_key(b) {
        assert(fs.cached_read(b, data) =~= overlay(fs.content(b), data));
    } else if loc_fits(fs, b) {
        let loc = b * bs;
        assert(image_range(fs.image@, loc, bs) + data.subrange(bs, data.len() as int) =~= image_range(fs.image@, loc, bs));
        assert(image_range(fs.image@, loc, bs) + Seq::new((bs - bs) as nat, |i: int| 0u8) =~= image_range(fs.image@, loc, bs));
        assert(overlay(fs.content(b), data) =~= image_range(fs.image@, loc, bs));
    }
}

spec fn loc_fits(fs: MinixFileSystem, b: u64) -> bool {
    b * fs.bsize() + fs.bsize() <= fs.image@.len()
}

/// A file system whose cache gained block `b` as a full-block read of it
/// puts it there has the same content as before.
pub proof fn lemma_read_keeps_content(fs: MinixFileSystem, fs2: MinixFileSystem, b: u64, data: Seq<u8>)
    requires
        data.len() == fs.bsize(),
        fs2.same_but_cache(&fs),
        fs2.bcache.view() == fs.read_block_cache(b, data),
    ensures
        fs2.same_content(&fs),
{
    lemma_full_block_read(fs, b, data);
    assert forall|b2: u64| #[trigger] fs2.content(b2) == fs.content(b2) by {
        if b2 != b {
            if fs.bcache.view().contains_key(b2) {
            } else {
                assert(!fs2.bcache.view().contains_key(b2));
            }
        }
    }
    assert forall|b2: u64| #[trigger] fs2.readable(b2) == fs.readable(b2) by {
        if b2 != b {
            if fs.bcache.view().contains_key(b2) {
            } else {
                assert(!fs2.bcache.view().contains_key(b2));
            }
        }
    }
}

pub proof fn lemma_same_content_trans(a: MinixFileSystem, b: MinixFileSystem, c: MinixFileSystem)
    requires
        b.same_content(&a),
        c.same_content(&b),
    ensures
        c.same_content(&a),
{
    assert forall|x: u64| #[trigger] c.content(x) == a.content(x) by {
        assert(c.content(x) == b.content(x));
    }
    assert forall|x: u64| #[trigger] c.readable(x) == a.readable(x) by {
        assert(c.readable(x) == b.readable(x));
    }
}

pub proof fn lemma_same_content_refl(a: MinixFileSystem)
    ensures
        a.same_content(&a),
{
}

/// A step of a file read: a block of data, or a block of zone pointers.
pub enum Visit {
    Data(u64),
    Ptr(u64),
}

/// The data blocks among the zone pointers `ps`: the non-zero ones, in order.
pub open spec fn data_visits(ps: Seq<u64>) -> Seq<Visit>
    decreases ps.len(),
{
    if ps.len() == 0 {
        Seq::empty()
    } else {
        (if ps[0] != 0 {
            seq![Visit::Data(ps[0])]
        } else {
            Seq::empty()
        }) + data_visits(ps.drop_first())
    }
}

impl MinixFileSystem {
    /// The steps through the single indirect block `z` (none for 0).
    pub open spec fn ind_visits(&self, z: u64) -> Seq<Visit> {
        if z == 0 {
            Seq::empty()
        } else if !self.readable(z) {
            seq![Visit::Ptr(z)]
        } else {
            seq![Visit::Ptr(z)] + data_visits(self.pointers(z))
        }
    }

    /// The steps through the single indirect blocks `zs`, in order.
    pub open spec fn ind_list(&self, zs: Seq<u64>) -> Seq<Visit>
        decreases zs.len(),
    {
        if zs.len() == 0 {
            Seq::empty()
        } else {
            self.ind_visits(zs[0]) + self.ind_list(zs.drop_first())
        }
    }

    /// The steps through the double indirect block `z` (none for 0).
    pub open spec fn dind_visits(&self, z: u64) -> Seq<Visit> {
        if z == 0 {
            Seq::empty()
        } else if !self.readable(z) {
            seq![Visit::Ptr(z)]
        } else {
            seq![Visit::Ptr(z)] + self.ind_list(self.pointers(z))
        }
    }

    /// The steps through the double indirect blocks `zs`, in order.
    pub open spec fn dind_list(&self, zs: Seq<u64>) -> Seq<Visit>
        decreases zs.len(),
    {
        if zs.len() == 0 {
            Seq::empty()
        } else {
            self.dind_visits(zs[0]) + self.dind_list(zs.drop_first())
        }
    }

    /// The steps through the triple indirect block `z` (none for 0).
    pub open spec fn tind_visits(&self, z: u64) -> Seq<Visit> {
        if z == 0 {
            Seq::empty()
        } else if !self.readable(z) {
            seq![Visit::Ptr(z)]
        } else {
            seq![Visit::Ptr(z)] + self.dind_list(self.pointers(z))
        }
    }

    /// The steps of a read of a file with the zone pointers `blocks`: its
    /// direct zones, then its single, double and triple indirect zones.
    pub open spec fn file_visits(&self, blocks: Seq<u64>) -> Seq<Visit> {
        data_visits(blocks.take(INDIRECT_ZONE as int)) + self.ind_visits(blocks[INDIRECT_ZONE as int])
            + self.dind_visits(blocks[DINDIRECT_ZONE as int]) + self.tind_visits(blocks[TINDIRECT_ZONE as int])
    }
}

/// `a + b`, or `u64::MAX` where that does not fit.
pub open spec fn sat_add(a: u64, b: u64) -> u64 {
    if a + b > u64::MAX {
        u64::MAX
    } else {
        (a + b) as u64
    }
}

/// `out` with `piece` written at `at`.
pub open spec fn splice(out: Seq<u8>, at: int, piece: Seq<u8>) -> Seq<u8> {
    out.subrange(0, at) + piece + out.subrange(at + piece.len(), out.len() as int)
}

/// Where a file read stands: the bytes read, the offset still to skip, the
/// end of the blocks passed, the last block read, and the caller's buffer.
pub struct ReadState {
    pub read: u64,
    pub offset: u64,
    pub byte_at: u64,
    pub block: Seq<u8>,
    pub out: Seq<u8>,
}

/// The outcome of some steps of a read: go on, all bytes read, or an error
/// with the buffer as it was left.
pub enum ReadStep {
    Go(ReadState),
    Done(ReadState),
    Fail(FsError, Seq<u8>),
}

impl MinixFileSystem {
    /// One step of a read of `to_read` bytes.
    pub open spec fn read_visit(&self, v: Visit, to_read: u64, st: ReadState) -> ReadStep {
        match v {
            Visit::Ptr(z) => if self.readable(z) {
                ReadStep::Go(st)
            } else {
                ReadStep::Fail(self.read_err(z), st.out)
            },
            Visit::Data(b) => if st.read >= to_read {
                ReadStep::Done(st)
            } else {
                let bs = self.superblock.block_size as u64;
                let byte_at = sat_add(st.byte_at, bs);
                if byte_at <= st.offset {
                    ReadStep::Go(ReadState { byte_at, ..st })
                } else if !self.readable(b) {
                    ReadStep::Fail(self.read_err(b), st.out)
                } else {
                    let off = st.offset % bs;
                    let block = overlay(self.content(b), st.block);
                    let k = min(bs - off, to_read - st.read);
                    ReadStep::Go(ReadState {
                        read: (st.read + k) as u64,
                        offset: 0,
                        byte_at,
                        block,
                        out: splice(st.out, st.read as int, block.subrange(off as int, off + k)),
                    })
                }
            },
        }
    }

    /// The steps `vs` of a read of `to_read` bytes, from `st`.
    pub open spec fn run_read(&self, vs: Seq<Visit>, to_read: u64, st: ReadState) -> ReadStep
        decreases vs.len(),
    {
        if vs.len() == 0 {
            ReadStep::Go(st)
        } else {
            match self.read_visit(vs[0], to_read, st) {
                ReadStep::Go(s2) => self.run_read(vs.drop_first(), to_read, s2),
                other => other,
            }
        }
    }
}

/// A read never reads more than it should, and leaves the buffer's length
/// as it was.
pub proof fn lemma_run_bounds(fs: MinixFileSystem, vs: Seq<Visit>, to_read: u64, st: ReadState)
    requires
        st.read <= to_read <= st.out.len(),
        st.block.len() == fs.bsize(),
        fs.bsize() == 0 ==> st.byte_at == 0,
    ensures
        match fs.run_read(vs, to_read, st) {
            ReadStep::Go(s2) => s2.read <= to_read && s2.out.len() == st.out.len(),
            ReadStep::Done(s2) => s2.read <= to_read && s2.out.len() == st.out.len(),
            ReadStep::Fail(_, o) => o.len() == st.out.len(),
        },
    decreases vs.len(),
{
    if vs.len() > 0 {
        match vs[0] {
            Visit::Data(b) => {
                let bs = fs.superblock.block_size as u64;
                let byte_at = sat_add(st.byte_at, bs);
                if st.read < to_read && byte_at > st.offset && fs.readable(b) {
                    let off = st.offset % bs;
                    let block = overlay(fs.content(b), st.block);
                    let k = min(bs - off, to_read - st.read);
                    assert(bs > 0);
                    assert(block.len() == st.block.len());
                    assert(off + k <= block.len());
                    assert(block.subrange(off as int, off + k).len() == k);
                    assert(splice(st.out, st.read as int, block.subrange(off as int, off + k)).len() == st.out.len());
                }
            },
            _ => {},
        }
        match fs.read_visit(vs[0], to_read, st) {
            ReadStep::Go(s2) => {
                lemma_run_bounds(fs, vs.drop_first(), to_read, s2);
            },
            _ => {},
        }
    }
}

/// Running `a + b` runs `a`, then `b` if `a` left the read going.
pub proof fn lemma_run_concat(fs: MinixFileSystem, a: Seq<Visit>, b: Seq<Visit>, to_read: u64, st: ReadState)
    ensures
        fs.run_read(a + b, to_read, st) == match fs.run_read(a, to_read, st) {
            ReadStep::Go(s2) => fs.run_read(b, to_read, s2),
            other => other,
        },
    decreases a.len(),
{
    if a.len() == 0 {
        assert(a + b =~= b);
    } else {
        assert((a + b)[0] == a[0]);
        assert((a + b).drop_first() =~= a.drop_first() + b);
        match fs.read_visit(a[0], to_read, st) {
            ReadStep::Go(s2) => {
                lemma_run_concat(fs, a.drop_first(), b, to_read, s2);
            },
            _ => {},
        }
    }
}

/// Reads go the same way on file systems with the same content.
pub proof fn lemma_run_same(f1: MinixFileSystem, f2: MinixFileSystem, vs: Seq<Visit>, to_read: u64, st: ReadState)
    requires
        f2.same_content(&f1),
    ensures
        f2.run_read(vs, to_read, st) == f1.run_read(vs, to_read, st),
    decreases vs.len(),
{
    if vs.len() > 0 {
        match vs[0] {
            Visit::Ptr(z) => {
                assert(f2.readable(z) == f1.readable(z));
            },
            Visit::Data(b) => {
                assert(f2.readable(b) == f1.readable(b));
                assert(f2.content(b) == f1.content(b));
            },
        }
        match f1.read_visit(vs[0], to_read, st) {
            ReadStep::Go(s2) => {
                lemma_run_same(f1, f2, vs.drop_first(), to_read, s2);
            },
            _ => {},
        }
    }
}

proof fn lemma_ind_list_same(f1: MinixFileSystem, f2: MinixFileSystem, zs: Seq<u64>)
    requires
        f2.same_content(&f1),
    ensures
        f2.ind_list(zs) == f1.ind_list(zs),
    decreases zs.len(),
{
    if zs.len() > 0 {
        assert(f2.readable(zs[0]) == f1.readable(zs[0]));
        assert(f2.content(zs[0]) == f1.content(zs[0]));
        lemma_ind_list_same(f1, f2, zs.drop_first());
    }
}

proof fn lemma_dind_list_same(f1: MinixFileSystem, f2: MinixFileSystem, zs: Seq<u64>)
    requires
        f2.same_content(&f1),
    ensures
        f2.dind_list(zs) == f1.dind_list(zs),
    decreases zs.len(),
{
    if zs.len() > 0 {
        let z = zs[0];
        assert(f2.readable(z) == f1.readable(z));
        assert(f2.content(z) == f1.content(z));
        lemma_ind_list_same(f1, f2, f2.pointers(z));
        lemma_dind_list_same(f1, f2, zs.drop_first());
    }
}

/// The steps through an indirect block are the same on file systems with
/// the same content.
pub proof fn lemma_levels_same(f1: MinixFileSystem, f2: MinixFileSystem, z: u64)
    requires
        f2.same_content(&f1),
    ensures
        f2.ind_visits(z) == f1.ind_visits(z),
        f2.dind_visits(z) == f1.dind_visits(z),
        f2.tind_visits(z) == f1.tind_visits(z),
{
    assert(f2.readable(z) == f1.readable(z) && f2.content(z) == f1.content(z));
    lemma_ind_list_same(f1, f2, f2.pointers(z));
    lemma_dind_list_same(f1, f2, f2.pointers(z));
}

/// The read steps of a file are the same on file systems with the same
/// content.
pub proof fn lemma_file_visits_same(f1: MinixFileSystem, f2: MinixFileSystem, blocks: Seq<u64>)
    requires
        f2.same_content(&f1),
        blocks.len() == 10,
    ensures
        f2.file_visits(blocks) == f1.file_visits(blocks),
{
    let (i, d, t) = (blocks[7], blocks[8], blocks[9]);
    assert(f2.readable(i) == f1.readable(i) && f2.content(i) == f1.content(i));
    assert(f2.readable(d) == f1.readable(d) && f2.content(d) == f1.content(d));
    assert(f2.readable(t) == f1.readable(t) && f2.content(t) == f1.content(t));
    lemma_ind_list_same(f1, f2, f2.pointers(d));
    lemma_dind_list_same(f1, f2, f2.pointers(t));
}

/// The exec form of `ReadState`, without the caller's buffer.
struct ReadCursor {
    read: u64,
    offset: u64,
    byte_at: u64,
    block: Vec<u8>,
}

spec fn cursor_state(c: ReadCursor, out: Seq<u8>) -> ReadState {
    ReadState { read: c.read, offset: c.offset, byte_at: c.byte_at, block: c.block@, out }
}

/// The outcome `r` of steps whose spec outcome is `step`, the cursor and
/// buffer being left as `c` and `out`.
spec fn step_result(step: ReadStep, r: Result<bool, FsError>, c: ReadCursor, out: Seq<u8>) -> bool {
    match step {
        ReadStep::Go(st) => r == Ok::<bool, FsError>(false) && cursor_state(c, out) == st,
        ReadStep::Done(st) => r == Ok::<bool, FsError>(true) && cursor_state(c, out) == st,
        ReadStep::Fail(e, o) => r == Err::<bool, FsError>(e) && out == o,
    }
}

/// The zone pointers widened to block numbers.
fn widen(ps: &Vec<u32>) -> (r: Vec<u64>)
    ensures
        r@ == ps@.map_values(|p: u32| p as u64),
{
    let mut out: Vec<u64> = Vec::new();
    let mut k: usize = 0;
    while k < ps.len()
        invariant
            k <= ps@.len(),
            out@ == ps@.take(k as int).map_values(|p: u32| p as u64),
        decreases ps@.len() - k,
    {
        out.push(ps[k] as u64);
        k += 1;
        assert(out@ =~= ps@.take(k as int).map_values(|p: u32| p as u64));
    }
    assert(ps@.take(ps@.len() as int) =~= ps@);
    out
}

impl MinixFileSystem {
    /// Read the data blocks among `list` (its non-zero entries).
    fn read_data_blocks(&mut self, list: &Vec<u64>, to_read: u64, cur: &mut ReadCursor, buffer: &mut [u8]) -> (r: Result<bool, FsError>)
        requires
            old(cur).block@.len() == old(self).bsize(),
            old(cur).read <= to_read <= old(buffer)@.len(),
            old(self).bsize() == 0 ==> old(cur).byte_at == 0,
        ensures
            final(self).same_content(old(self)),
            old(self).bsize() == 0 ==> final(cur).byte_at == 0,
            final(cur).block@.len() == old(self).bsize(),
            final(cur).read <= to_read,
            final(buffer)@.len() == old(buffer)@.len(),
            step_result(old(self).run_read(data_visits(list@), to_read, cursor_state(*old(cur), old(buffer)@)), r, *final(cur), final(buffer)@),
    {
        let ghost fs0 = *self;
        let ghost st0 = cursor_state(*cur, buffer@);
        let bs = self.superblock.block_size as u64;
        let n = list.len();
        let mut i: usize = 0;
        assert(list@.subrange(0, n as int) =~= list@);
        while i < n
            invariant
                n == list@.len(),
                i <= n,
                fs0 == *old(self),
                st0 == cursor_state(*old(cur), old(buffer)@),
                self.same_content(&fs0),
                bs == fs0.superblock.block_size,
                cur.block@.len() == fs0.bsize(),
                fs0.bsize() == 0 ==> cur.byte_at == 0,
                cur.read <= to_read <= buffer@.len(),
                buffer@.len() == old(buffer)@.len(),
                fs0.run_read(data_visits(list@), to_read, st0) == fs0.run_read(
                    data_visits(list@.subrange(i as int, n as int)),
                    to_read,
                    cursor_state(*cur, buffer@),
                ),
            decreases n - i,
        {
            let ghost rest = list@.subrange(i as int, n as int);
            assert(rest[0] == list@[i as int]);
            assert(rest.drop_first() =~= list@.subrange(i + 1, n as int));
            let b = list[i];
            if b == 0 {
                assert(data_visits(rest) =~= data_visits(rest.drop_first()));
            } else {
                let ghost st = cursor_state(*cur, buffer@);
                proof {
                    assert(data_visits(rest) =~= seq![Visit::Data(b)] + data_visits(rest.drop_first()));
                    lemma_run_concat(fs0, seq![Visit::Data(b)], data_visits(rest.drop_first()), to_read, st);
                    assert(seq![Visit::Data(b)].drop_first() =~= Seq::<Visit>::empty());
                    reveal_with_fuel(MinixFileSystem::run_read, 2);
                }
                if cur.read >= to_read {
                    return Ok(true);
                }
                cur.byte_at = cur.byte_at.saturating_add(bs);
                if cur.byte_at > cur.offset {
                    let off = cur.offset % bs;
                    let ghost fs1 = *self;
                    let ghost blk = cur.block@;
                    proof {
                        lemma_full_block_read(fs1, b, blk);
                        assert(fs1.readable(b) == fs0.readable(b));
                        assert(fs1.content(b) == fs0.content(b));
                    }
                    let res = self.read_block(b, cur.block.as_mut_slice());
                    proof {
                        lemma_read_keeps_content(fs1, *self, b, blk);
                        lemma_same_content_trans(fs0, fs1, *self);
                    }
                    match res {
                        Ok(()) => {},
                        Err(e) => {
                            return Err(e);
                        },
                    }
                    let room = bs - off;
                    let want = to_read - cur.read;
                    let k = if room < want { room } else { want };
                    let at = cur.read as usize;
                    let o = off as usize;
                    let ku = k as usize;
                    let ghost out0 = buffer@;
                    let mut m: usize = 0;
                    while m < ku
                        invariant
                            m <= ku,
                            at + ku <= buffer.len(),
                            o + ku <= cur.block.len(),
                            buffer@.len() == out0.len(),
                            forall|x: int| 0 <= x < at ==> buffer@[x] == out0[x],
                            forall|x: int| at + ku <= x < out0.len() ==> buffer@[x] == out0[x],
                            forall|x: int| 0 <= x < m ==> #[trigger] buffer@[at + x] == cur.block@[o + x],
                        decreases ku - m,
                    {
                        buffer[at + m] = cur.block[o + m];
                        m += 1;
                    }
                    assert forall|y: int| at <= y < at + ku implies buffer@[y] == cur.block@[o + (y - at)] by {
                        assert(buffer@[at + (y - at)] == cur.block@[o + (y - at)]);
                    }
                    assert(buffer@ =~= splice(out0, at as int, cur.block@.subrange(o as int, o + ku)));
                    cur.read = cur.read + k;
                    cur.offset = 0;
                }
                assert(fs0.read_visit(Visit::Data(b), to_read, st) == ReadStep::Go(cursor_state(*cur, buffer@)));
            }
            i += 1;
        }
        assert(list@.subrange(n as int, n as int) =~= Seq::<u64>::empty());
        Ok(false)
    }
}

/// The outcome `r` of a whole read whose steps came to `step`, the caller's
/// buffer being left as `out`.
pub open spec fn read_result(step: ReadStep, r: Result<u64, FsError>, out: Seq<u8>) -> bool {
    match step {
        ReadStep::Go(st) => r == Ok::<u64, FsError>(st.read) && out == st.out,
        ReadStep::Done(st) => r == Ok::<u64, FsError>(st.read) && out == st.out,
        ReadStep::Fail(e, o) => r == Err::<u64, FsError>(e) && out == o,
    }
}

/// A buffer of `n` zero bytes.
pub open spec fn zero_seq(n: nat) -> Seq<u8> {
    Seq::new(n, |i: int| 0u8)
}

impl MinixFileSystem {
    /// Read the zone pointers of indirect block `z`, with what that gives
    /// and keeps.
    fn read_pointers(&mut self, z: u64) -> (r: Result<Vec<u64>, FsError>)
        ensures
            final(self).same_content(old(self)),
            old(self).readable(z) ==> (r matches Ok(v) && v@ == old(self).pointers(z)),
            !old(self).readable(z) ==> r == Err::<Vec<u64>, FsError>(old(self).read_err(z)),
    {
        let ghost fs1 = *self;
        proof {
            lemma_full_block_read(fs1, z, zero_seq(fs1.bsize() as nat));
        }
        let res = get_indirect_zone(self, z);
        proof {
            lemma_read_keeps_content(fs1, *self, z, zero_seq(fs1.bsize() as nat));
        }
        match res {
            Ok(p) => Ok(widen(&p)),
            Err(e) => Err(e),
        }
    }

    /// Read the data of the single indirect blocks among `zs` (its non-zero
    /// entries).
    fn read_ind_list(&mut self, zs: &Vec<u64>, to_read: u64, cur: &mut ReadCursor, buffer: &mut [u8]) -> (r: Result<bool, FsError>)
        requires
            old(cur).block@.len() == old(self).bsize(),
            old(cur).read <= to_read <= old(buffer)@.len(),
            old(self).bsize() == 0 ==> old(cur).byte_at == 0,
        ensures
            final(self).same_content(old(self)),
            old(self).bsize() == 0 ==> final(cur).byte_at == 0,
            final(cur).block@.len() == old(self).bsize(),
            final(cur).read <= to_read,
            final(buffer)@.len() == old(buffer)@.len(),
            step_result(old(self).run_read(old(self).ind_list(zs@), to_read, cursor_state(*old(cur), old(buffer)@)), r, *final(cur), final(buffer)@),
    {
        let ghost fs0 = *self;
        let ghost st0 = cursor_state(*cur, buffer@);
        let n = zs.len();
        let mut i: usize = 0;
        assert(zs@.subrange(0, n as int) =~= zs@);
        while i < n
            invariant
                n == zs@.len(),
                i <= n,
                fs0 == *old(self),
                st0 == cursor_state(*old(cur), old(buffer)@),
                self.same_content(&fs0),
                cur.block@.len() == fs0.bsize(),
                fs0.bsize() == 0 ==> cur.byte_at == 0,
                cur.read <= to_read <= buffer@.len(),
                buffer@.len() == old(buffer)@.len(),
                fs0.run_read(fs0.ind_list(zs@), to_read, st0) == fs0.run_read(
                    fs0.ind_list(zs@.subrange(i as int, n as int)),
                    to_read,
                    cursor_state(*cur, buffer@),
                ),
            decreases n - i,
        {
            let ghost rest = zs@.subrange(i as int, n as int);
            assert(rest[0] == zs@[i as int]);
            assert(rest.drop_first() =~= zs@.subrange(i + 1, n as int));
            let z = zs[i];
            let ghost st = cursor_state(*cur, buffer@);
            proof {
                lemma_run_concat(fs0, fs0.ind_visits(z), fs0.ind_list(rest.drop_first()), to_read, st);
            }
            if z == 0 {
                assert(fs0.ind_visits(z) =~= Seq::<Visit>::empty());
            } else {
                let ghost fs1 = *self;
                proof {
                    lemma_run_concat(fs0, seq![Visit::Ptr(z)], data_visits(fs0.pointers(z)), to_read, st);
                    assert(seq![Visit::Ptr(z)].drop_first() =~= Seq::<Visit>::empty());
                    reveal_with_fuel(MinixFileSystem::run_read, 2);
                    assert(fs1.readable(z) == fs0.readable(z));
                    assert(fs1.content(z) == fs0.content(z));
                }
                let res = self.read_pointers(z);
                proof {
                    lemma_same_content_trans(fs0, fs1, *self);
                }
                let ptrs = match res {
                    Ok(p) => p,
                    Err(e) => {
                        return Err(e);
                    },
                };
                let ghost fs2 = *self;
                let step = self.read_data_blocks(&ptrs, to_read, cur, buffer);
                proof {
                    lemma_same_content_trans(fs0, fs2, *self);
                    lemma_run_same(fs0, fs2, data_visits(fs0.pointers(z)), to_read, st);
                }
                match step {
                    Ok(true) => {
                        return Ok(true);
                    },
                    Ok(false) => {},
                    Err(e) => {
                        return Err(e);
                    },
                }
            }
            i += 1;
        }
        assert(zs@.subrange(n as int, n as int) =~= Seq::<u64>::empty());
        Ok(false)
    }

    /// Read the data of the double indirect blocks among `zs` (its non-zero
    /// entries).
    fn read_dind_list(&mut self, zs: &Vec<u64>, to_read: u64, cur: &mut ReadCursor, buffer: &mut [u8]) -> (r: Result<bool, FsError>)
        requires
            old(cur).block@.len() == old(self).bsize(),
            old(cur).read <= to_read <= old(buffer)@.len(),
            old(self).bsize() == 0 ==> old(cur).byte_at == 0,
        ensures
            final(self).same_content(old(self)),
            old(self).bsize() == 0 ==> final(cur).byte_at == 0,
            final(cur).block@.len() == old(self).bsize(),
            final(cur).read <= to_read,
            final(buffer)@.len() == old(buffer)@.len(),
            step_result(old(self).run_read(old(self).dind_list(zs@), to_read, cursor_state(*old(cur), old(buffer)@)), r, *final(cur), final(buffer)@),
    {
        let ghost fs0 = *self;
        let ghost st0 = cursor_state(*cur, buffer@);
        let n = zs.len();
        let mut i: usize = 0;
        assert(zs@.subrange(0, n as int) =~= zs@);
        while i < n
            invariant
                n == zs@.len(),
                i <= n,
                fs0 == *old(self),
                st0 == cursor_state(*old(cur), old(buffer)@),
                self.same_content(&fs0),
                cur.block@.len() == fs0.bsize(),
                fs0.bsize() == 0 ==> cur.byte_at == 0,
                cur.read <= to_read <= buffer@.len(),
                buffer@.len() == old(buffer)@.len(),
                fs0.run_read(fs0.dind_list(zs@), to_read, st0) == fs0.run_read(
                    fs0.dind_list(zs@.subrange(i as int, n as int)),
                    to_read,
                    cursor_state(*cur, buffer@),
                ),
            decreases n - i,
        {
            let ghost rest = zs@.subrange(i as int, n as int);
            assert(rest[0] == zs@[i as int]);
            assert(rest.drop_first() =~= zs@.subrange(i + 1, n as int));
            let z = zs[i];
            let ghost st = cursor_state(*cur, buffer@);
            proof {
                lemma_run_concat(fs0, fs0.dind_visits(z), fs0.dind_list(rest.drop_first()), to_read, st);
            }
            if z == 0 {
                assert(fs0.dind_visits(z) =~= Seq::<Visit>::empty());
            } else {
                let ghost fs1 = *self;
                proof {
                    lemma_run_concat(fs0, seq![Visit::Ptr(z)], fs0.ind_list(fs0.pointers(z)), to_read, st);
                    assert(seq![Visit::Ptr(z)].drop_first() =~= Seq::<Visit>::empty());
                    reveal_with_fuel(MinixFileSystem::run_read, 2);
                    assert(fs1.readable(z) == fs0.readable(z));
                    assert(fs1.content(z) == fs0.content(z));
                }
                let res = self.read_pointers(z);
                proof {
                    lemma_same_content_trans(fs0, fs1, *self);
                }
                let ptrs = match res {
                    Ok(p) => p,
                    Err(e) => {
                        return Err(e);
                    },
                };
                let ghost fs2 = *self;
                let step = self.read_ind_list(&ptrs, to_read, cur, buffer);
                proof {
                    lemma_same_content_trans(fs0, fs2, *self);
                    lemma_ind_list_same(fs0, fs2, fs0.pointers(z));
                    lemma_run_same(fs0, fs2, fs0.ind_list(fs0.pointers(z)), to_read, st);
                }
                match step {
                    Ok(true) => {
                        return Ok(true);
                    },
                    Ok(false) => {},
                    Err(e) => {
                        return Err(e);
                    },
                }
            }
            i += 1;
        }
        assert(zs@.subrange(n as int, n as int) =~= Seq::<u64>::empty());
        Ok(false)
    }

    /// The steps through indirect block `z` of the given level: single (1),
    /// double (2) or triple (3).
    pub open spec fn level_visits(&self, z: u64, level: u8) -> Seq<Visit> {
        if level == 1 {
            self.ind_visits(z)
        } else if level == 2 {
            self.dind_visits(z)
        } else {
            self.tind_visits(z)
        }
    }

    /// Read the data under indirect block `z` of the given level.
    #[verifier::spinoff_prover]
    fn read_level(&mut self, z: u64, level: u8, to_read: u64, cur: &mut ReadCursor, buffer: &mut [u8]) -> (r: Result<bool, FsError>)
        requires
            1 <= level <= 3,
            old(cur).block@.len() == old(self).bsize(),
            old(cur).read <= to_read <= old(buffer)@.len(),
            old(self).bsize() == 0 ==> old(cur).byte_at == 0,
        ensures
            final(self).same_content(old(self)),
            old(self).bsize() == 0 ==> final(cur).byte_at == 0,
            final(cur).block@.len() == old(self).bsize(),
            final(cur).read <= to_read,
            final(buffer)@.len() == old(buffer)@.len(),
            step_result(old(self).run_read(old(self).level_visits(z, level), to_read, cursor_state(*old(cur), old(buffer)@)), r, *final(cur), final(buffer)@),
    {
        let ghost fs0 = *self;
        let ghost st = cursor_state(*cur, buffer@);
        if z == 0 {
            assert(fs0.level_visits(z, level) =~= Seq::<Visit>::empty());
            return Ok(false);
        }
        let ghost inner = if level == 1 {
            data_visits(fs0.pointers(z))
        } else if level == 2 {
            fs0.ind_list(fs0.pointers(z))
        } else {
            fs0.dind_list(fs0.pointers(z))
        };
        proof {
            lemma_run_concat(fs0, seq![Visit::Ptr(z)], inner, to_read, st);
            assert(seq![Visit::Ptr(z)].drop_first() =~= Seq::<Visit>::empty());
            reveal_with_fuel(MinixFileSystem::run_read, 2);
        }
        let ptrs = match self.read_pointers(z) {
            Ok(p) => p,
            Err(e) => {
                return Err(e);
            },
        };
        let ghost fs2 = *self;
        let step = if level == 1 {
            self.read_data_blocks(&ptrs, to_read, cur, buffer)
        } else if level == 2 {
            self.read_ind_list(&ptrs, to_read, cur, buffer)
        } else {
            self.read_dind_list(&ptrs, to_read, cur, buffer)
        };
        proof {
            lemma_same_content_trans(fs0, fs2, *self);
            lemma_ind_list_same(fs0, fs2, fs0.pointers(z));
            lemma_dind_list_same(fs0, fs2, fs0.pointers(z));
            lemma_run_same(fs0, fs2, inner, to_read, st);
        }
        step
    }

    /// Read the data under the single, double and triple indirect blocks
    /// `i`, `d` and `t`, in that order.
    fn read_indirect(&mut self, i: u64, d: u64, t: u64, to_read: u64, cur: &mut ReadCursor, buffer: &mut [u8]) -> (r: Result<bool, FsError>)
        requires
            old(cur).block@.len() == old(self).bsize(),
            old(cur).read <= to_read <= old(buffer)@.len(),
            old(self).bsize() == 0 ==> old(cur).byte_at == 0,
        ensures
            final(self).same_content(old(self)),
            old(self).bsize() == 0 ==> final(cur).byte_at == 0,
            final(cur).block@.len() == old(self).bsize(),
            final(cur).read <= to_read,
            final(buffer)@.len() == old(buffer)@.len(),
            step_result(
                old(self).run_read(
                    old(self).ind_visits(i) + old(self).dind_visits(d) + old(self).tind_visits(t),
                    to_read,
                    cursor_state(*old(cur), old(buffer)@),
                ),
                r,
                *final(cur),
                final(buffer)@,
            ),
    {
        let ghost fs0 = *self;
        let ghost st0 = cursor_state(*cur, buffer@);
        let ghost b = fs0.ind_visits(i);
        let ghost c = fs0.dind_visits(d);
        let ghost e = fs0.tind_visits(t);
        proof {
            lemma_run_concat(fs0, b + c, e, to_read, st0);
            lemma_run_concat(fs0, b, c, to_read, st0);
            assert(fs0.level_visits(i, 1) == b);
        }
        let first = self.read_level(i, 1, to_read, cur, buffer);
        match first {
            Ok(false) => {},
            _ => {
                assert(step_result(old(self).run_read(old(self).ind_visits(i) + old(self).dind_visits(d) + old(self).tind_visits(t), to_read, cursor_state(*old(cur), old(buffer)@)), first, *cur, buffer@));
                return first;
            },
        }
        let ghost st1 = cursor_state(*cur, buffer@);
        let ghost fs1 = *self;
        let second = self.read_level(d, 2, to_read, cur, buffer);
        proof {
            lemma_levels_same(fs0, fs1, d);
            lemma_run_same(fs0, fs1, c, to_read, st1);
            lemma_same_content_trans(fs0, fs1, *self);
        }
        match second {
            Ok(false) => {},
            _ => {
                assert(fs0.run_read(b, to_read, st0) == ReadStep::Go(st1));
                assert(step_result(old(self).run_read(old(self).ind_visits(i) + old(self).dind_visits(d) + old(self).tind_visits(t), to_read, cursor_state(*old(cur), old(buffer)@)), second, *cur, buffer@));
                return second;
            },
        }
        let ghost st2 = cursor_state(*cur, buffer@);
        let ghost fs2 = *self;
        let third = self.read_level(t, 3, to_read, cur, buffer);
        proof {
            lemma_levels_same(fs0, fs2, t);
            lemma_run_same(fs0, fs2, e, to_read, st2);
            lemma_same_content_trans(fs0, fs2, *self);
            assert(fs0.run_read(b, to_read, st0) == ReadStep::Go(st1));
            assert(fs0.run_read(c, to_read, st1) == ReadStep::Go(st2));
            assert(step_result(old(self).run_read(old(self).ind_visits(i) + old(self).dind_visits(d) + old(self).tind_visits(t), to_read, cursor_state(*old(cur), old(buffer)@)), third, *cur, buffer@));
        }
        third
    }

    /// Read up to `buffer.len()` bytes of the file of inode `inode_num`,
    /// from `offset`, into the front of `buffer`, and return how many were
    /// read. The zero zone pointers of the file are passed over.
    pub fn read_file(&mut self, inode_num: u64, offset: u64, buffer: &mut [u8]) -> (r: Result<u64, FsError>)
        ensures
            final(self).same_content(old(self)),
            final(buffer)@.len() == old(buffer)@.len(),
            match old(self).inode_at(inode_num) {
                None => r == Err::<u64, FsError>(FsError::InvalidInode { inode: inode_num })
                    && final(buffer)@ == old(buffer)@,
                Some(ino) => if offset >= ino.size {
                    r == Err::<u64, FsError>(FsError::OffsetBeyondEof) && final(buffer)@ == old(buffer)@
                } else {
                    read_result(
                        old(self).run_read(
                            old(self).file_visits(ino.zones@.map_values(|z: u32| z as u64)),
                            min(old(buffer)@.len() as int, ino.size - offset) as u64,
                            ReadState {
                                read: 0,
                                offset,
                                byte_at: 0,
                                block: zero_seq(old(self).bsize() as nat),
                                out: old(buffer)@,
                            },
                        ),
                        r,
                        final(buffer)@,
                    )
                },
            },
    {
        let ghost fs0 = *self;
        let buffer_len = buffer.len() as u64;
        let ino = match self.get_inode(inode_num) {
            Ok(i) => *i,
            Err(e) => {
                return Err(e);
            },
        };
        let file_size = ino.size as u64;
        if offset >= file_size {
            return Err(FsError::OffsetBeyondEof);
        }
        let left = file_size - offset;
        let to_read = if buffer_len < left { buffer_len } else { left };
        let bs = self.superblock.block_size as usize;
        let mut cur = ReadCursor { read: 0, offset, byte_at: 0, block: zeros(bs) };
        assert(cur.block@ =~= zero_seq(fs0.bsize() as nat));
        let ghost blocks = ino.zones@.map_values(|z: u32| z as u64);
        let ghost st0 = cursor_state(cur, buffer@);
        let mut direct: Vec<u64> = Vec::new();
        let mut k: usize = 0;
        while k < INDIRECT_ZONE
            invariant
                k <= 7,
                ino.zones@.len() == 10,
                blocks == ino.zones@.map_values(|z: u32| z as u64),
                direct@ == blocks.take(k as int),
            decreases 7 - k,
        {
            direct.push(ino.zones[k] as u64);
            k += 1;
            assert(direct@ =~= blocks.take(k as int));
        }
        let ghost a = data_visits(blocks.take(7));
        let ghost b = fs0.ind_visits(blocks[7]);
        let ghost c = fs0.dind_visits(blocks[8]);
        let ghost d = fs0.tind_visits(blocks[9]);
        proof {
            assert(fs0.file_visits(blocks) == a + b + c + d);
            assert(b == fs0.level_visits(blocks[7], 1));
            assert(c == fs0.level_visits(blocks[8], 2));
            assert(d == fs0.level_visits(blocks[9], 3));
            lemma_run_concat(fs0, a, b + c + d, to_read, st0);
            assert(a + b + c + d =~= a + (b + c + d));
        }
        match self.read_data_blocks(&direct, to_read, &mut cur, buffer) {
            Ok(true) => {
                return Ok(cur.read);
            },
            Ok(false) => {},
            Err(e) => {
                return Err(e);
            },
        }
        let ghost st1 = cursor_state(cur, buffer@);
        let ghost fs1 = *self;
        let step = self.read_indirect(
            ino.zones[INDIRECT_ZONE] as u64,
            ino.zones[DINDIRECT_ZONE] as u64,
            ino.zones[TINDIRECT_ZONE] as u64,
            to_read,
            &mut cur,
            buffer,
        );
        proof {
            lemma_levels_same(fs0, fs1, blocks[7]);
            lemma_levels_same(fs0, fs1, blocks[8]);
            lemma_levels_same(fs0, fs1, blocks[9]);
            lemma_run_same(fs0, fs1, b + c + d, to_read, st1);
            lemma_same_content_trans(fs0, fs1, *self);
        }
        match step {
            Ok(true) => {
                return Ok(cur.read);
            },
            Ok(false) => {},
            Err(e) => {
                return Err(e);
            },
        }
        Ok(cur.read)
    }
}

impl MinixFileSystem {
    /// What reading the target of symbolic link inode `n` gives: the first
    /// bytes of its file, at most `MAX_SYMLINK_SIZE`, read as UTF-8 with
    /// bad sequences replaced.
    pub open spec fn symlink_target(&self, n: u64) -> Result<Seq<char>, FsError> {
        match self.inode_at(n) {
            None => Err(FsError::InvalidInode { inode: n }),
            Some(ino) => if ino.size == 0 {
                Err(FsError::OffsetBeyondEof)
            } else {
                match self.run_read(
                    self.file_visits(ino.zones@.map_values(|z: u32| z as u64)),
                    min(MAX_SYMLINK_SIZE as int, ino.size as int) as u64,
                    ReadState {
                        read: 0,
                        offset: 0,
                        byte_at: 0,
                        block: zero_seq(self.bsize() as nat),
                        out: zero_seq(MAX_SYMLINK_SIZE as nat),
                    },
                ) {
                    ReadStep::Go(st) => Ok(lossy_utf8(st.out.take(st.read as int))),
                    ReadStep::Done(st) => Ok(lossy_utf8(st.out.take(st.read as int))),
                    ReadStep::Fail(e, _) => Err(e),
                }
            },
        }
    }
}

/// File systems with the same content show the same tree, inodes and links.
pub proof fn lemma_same_content_views(f1: MinixFileSystem, f2: MinixFileSystem)
    requires
        f2.same_content(&f1),
    ensures
        f2.tree == f1.tree,
        forall|n: u64| #[trigger] f2.inode_at(n) == f1.inode_at(n),
        forall|n: u64| #[trigger] f2.symlink_target(n) == f1.symlink_target(n),
{
    assert forall|n: u64| #[trigger] f2.symlink_target(n) == f1.symlink_target(n) by {
        match f1.inode_at(n) {
            Some(ino) => {
                let blocks = ino.zones@.map_values(|z: u32| z as u64);
                lemma_file_visits_same(f1, f2, blocks);
                lemma_run_same(
                    f1,
                    f2,
                    f1.file_visits(blocks),
                    min(MAX_SYMLINK_SIZE as int, ino.size as int) as u64,
                    ReadState {
                        read: 0,
                        offset: 0,
                        byte_at: 0,
                        block: zero_seq(f1.bsize() as nat),
                        out: zero_seq(MAX_SYMLINK_SIZE as nat),
                    },
                );
            },
            None => {},
        }
    }
}

} // verus!
