//! Writing files and symbolic links of a Minix 3 file system.
use crate::bytes::zeros;
use crate::error::FsError;
use crate::fs::{FileSystem, InodeOperations};
use crate::minix::consts::{DINDIRECT_ZONE, INDIRECT_ZONE, MAX_SYMLINK_SIZE, TINDIRECT_ZONE};
use crate::minix::fs::{get_indirect_zone, min, zone_pointers, MinixFileSystem};
use crate::minix::read::sat_add;
use crate::minix::read::{data_visits, splice, Visit};
use crate::minix::rw::{
    blocks_apart, changed_view, end_state, file_write, file_zones, lemma_write_finished, write_start, wrote, is_data, is_ptr, lemma_done_full, lemma_ptr_untouched, lemma_untouched_concat, lemma_write_concat, lemma_write_keeps, untouched, visits_apart, WriteState, WriteStep};
use crate::bitmap::count_false;
use crate::minix::truncate::{
    indirect_read_failure, zmap_full,
    block_error, blocks_for, grow_error, has_blocks, is_pow2, lemma_cache_grows, lemma_failure_back, lemma_grow_error_back,
    lemma_grows_chain, lemma_same_content_grows, max_file_blocks, read_failure, readable_grows,
};
use vstd::prelude::*;
use vstd::string::StringSliceAdditionalSpecFns;
use vstd::utf8::encode_utf8;

verus! {

impl MinixFileSystem {
    /// Whether `self` differs from `other` at most in its cache.
    pub open spec fn cache_frame(&self, other: &Self) -> bool {
        &&& self.wf() == other.wf()
        &&& self.same_but_cache(other)
    }
}

/// Where a file write stands: the bytes written, the offset still to skip,
/// the end of the blocks passed, and the block buffer.
struct WriteCursor {
    written: u64,
    offset: u64,
    byte_at: u64,
    block: Vec<u8>,
}

/// The zone pointers of indirect block `z`, widened to block numbers.
fn pointers_of(fs: &mut MinixFileSystem, z: u64) -> (r: Result<Vec<u64>, FsError>)
    ensures
        final(fs).cache_frame(old(fs)),
        r matches Err(e) ==> block_error(e),
        match old(fs).read_block_data(z, Seq::new(old(fs).bsize() as nat, |i: int| 0u8)) {
            Ok(buf) => r matches Ok(v) && v@ == zone_pointers(buf).map_values(|p: u32| p as u64),
            Err(e) => r == Err::<Vec<u64>, FsError>(e),
        },
        readable_grows(*final(fs), *old(fs)),
        r matches Err(e) ==> read_failure(*old(fs), e),
        final(fs).same_content(old(fs)),
        old(fs).readable(z) ==> (r matches Ok(v) && v@ == old(fs).pointers(z)),
        !old(fs).readable(z) ==> r == Err::<Vec<u64>, FsError>(old(fs).read_err(z)),
{
    let ghost f0 = *fs;
    let got = get_indirect_zone(fs, z);
    proof {
        let zs = Seq::new(f0.bsize() as nat, |i: int| 0u8);
        crate::minix::read::lemma_full_block_read(f0, z, zs);
        crate::minix::read::lemma_read_keeps_content(f0, *fs, z, zs);
        lemma_same_content_grows(f0, *fs);
    }
    let p = got?;
    let mut out: Vec<u64> = Vec::new();
    let mut k: usize = 0;
    while k < p.len()
        invariant
            k <= p@.len(),
            out@ == p@.take(k as int).map_values(|x: u32| x as u64),
        decreases p@.len() - k,
    {
        out.push(p[k] as u64);
        k += 1;
        assert(out@ =~= p@.take(k as int).map_values(|x: u32| x as u64));
    }
    assert(p@.take(p@.len() as int) =~= p@);
    Ok(out)
}

/// How a write cursor (bytes written, offset still to skip, end of the
/// blocks passed) moves over the data block numbers `list` for a buffer of
/// `len` bytes and blocks of `bs` bytes: a zero entry is passed over; at a
/// block with all bytes written, it stops (`true`); otherwise the block is
/// passed, and where it ends past the offset, as many bytes as fit from the
/// offset within it are written and the offset is used up. Gives whether it
/// stopped and the cursor.
spec fn cursor_walk(list: Seq<u64>, len: u64, bs: u64, w: u64, off: u64, at: u64) -> (bool, u64, u64, u64)
    decreases list.len(),
{
    if list.len() == 0 {
        (false, w, off, at)
    } else if list[0] == 0 {
        cursor_walk(list.drop_first(), len, bs, w, off, at)
    } else if w >= len {
        (true, w, off, at)
    } else {
        let at2 = sat_add(at, bs);
        if at2 > off {
            let room = bs - off % bs;
            let want = len - w;
            let k = if room < want { room } else { want };
            cursor_walk(list.drop_first(), len, bs, (w + k) as u64, 0, at2)
        } else {
            cursor_walk(list.drop_first(), len, bs, w, off, at2)
        }
    }
}

/// A cursor walk that stops has all bytes written.
proof fn lemma_walk_stop(list: Seq<u64>, len: u64, bs: u64, w: u64, off: u64, at: u64)
    ensures
        cursor_walk(list, len, bs, w, off, at).0 ==> cursor_walk(list, len, bs, w, off, at).1 >= len,
    decreases list.len(),
{
    if list.len() > 0 {
        let at2 = sat_add(at, bs);
        if list[0] == 0 {
            lemma_walk_stop(list.drop_first(), len, bs, w, off, at);
        } else if w < len {
            if at2 > off {
                let room = bs - off % bs;
                let want = len - w;
                let k = if room < want { room } else { want };
                lemma_walk_stop(list.drop_first(), len, bs, (w + k) as u64, 0, at2);
            } else {
                lemma_walk_stop(list.drop_first(), len, bs, w, off, at2);
            }
        }
    }
}

/// The index of the first non-zero entry of `zs` from `i` on, or its
/// length.
spec fn first_nonzero(zs: Seq<u64>, i: int) -> int
    decreases zs.len() - i,
{
    if i < 0 || i >= zs.len() {
        zs.len() as int
    } else if zs[i] != 0 {
        i
    } else {
        first_nonzero(zs, i + 1)
    }
}

proof fn lemma_first_nonzero(zs: Seq<u64>, i: int)
    requires
        0 <= i <= zs.len(),
    ensures
        i <= first_nonzero(zs, i) <= zs.len(),
        first_nonzero(zs, i) < zs.len() ==> zs[first_nonzero(zs, i)] != 0,
        forall|j: int| i <= j < first_nonzero(zs, i) ==> zs[j] == 0,
    decreases zs.len() - i,
{
    if i < zs.len() && zs[i] == 0 {
        lemma_first_nonzero(zs, i + 1);
    }
}

/// How the cursor `c` walks over the data pointers of the first non-zero
/// pointer block among `zs`, as `fs` holds it, for a buffer of `len`
/// bytes; `None` where that block cannot be read.
spec fn first_walk(fs: MinixFileSystem, zs: Seq<u64>, len: u64, c: WriteCursor) -> Option<(bool, u64, u64, u64)> {
    match fs.read_block_data(zs[first_nonzero(zs, 0)], Seq::new(fs.bsize() as nat, |i: int| 0u8)) {
        Ok(buf) => Some(
            cursor_walk(
                zone_pointers(buf).map_values(|p: u32| p as u64),
                len,
                fs.superblock.block_size as u64,
                c.written,
                c.offset,
                c.byte_at,
            ),
        ),
        Err(_) => None,
    }
}

/// The write state that cursor `c` stands for, with the blocks changed so
/// far.
spec fn wstate(c: WriteCursor, ch: Map<u64, Seq<u8>>) -> WriteState {
    WriteState { written: c.written, offset: c.offset, byte_at: c.byte_at, block: c.block@, changed: ch }
}

/// The outcome `r` of write steps whose spec outcome is `step`, from
/// `base`, the cursor being left as `c` and the file system as `fin`.
spec fn write_match(base: MinixFileSystem, step: WriteStep, r: Result<bool, FsError>, c: WriteCursor, fin: MinixFileSystem) -> bool {
    match step {
        WriteStep::Go(e) => r == Ok::<bool, FsError>(false) && wstate(c, e.changed) == e && changed_view(base, fin, e.changed),
        WriteStep::Done(e) => r == Ok::<bool, FsError>(true) && wstate(c, e.changed) == e && changed_view(base, fin, e.changed),
        WriteStep::Fail(err) => r == Err::<bool, FsError>(err),
    }
}

/// Like `write_match`, where whether the write stopped is not told by the
/// result.
spec fn write_match_list(base: MinixFileSystem, step: WriteStep, r: Result<bool, FsError>, c: WriteCursor, fin: MinixFileSystem) -> bool {
    match step {
        WriteStep::Go(e) => r is Ok && wstate(c, e.changed) == e && changed_view(base, fin, e.changed),
        WriteStep::Done(e) => r is Ok && wstate(c, e.changed) == e && changed_view(base, fin, e.changed),
        WriteStep::Fail(err) => r == Err::<bool, FsError>(err),
    }
}

/// Whether the steps `vs` keep data and pointer blocks apart and none of
/// their pointer blocks is among the blocks changed in `ch`.
spec fn steps_clear(vs: Seq<Visit>, ch: Map<u64, Seq<u8>>) -> bool {
    &&& visits_apart(vs)
    &&& forall|i: int, z: u64| 0 <= i < vs.len() && #[trigger] is_ptr(vs[i], z) ==> !ch.contains_key(z)
}

/// Whether `mid` is where a write ending at `end` into the file of inode
/// `n` of `old` starts: `old` with the file grown to `end` where it is a
/// file with blocks that ends before, else `old` itself.
pub open spec fn grown_for(mid: MinixFileSystem, old: MinixFileSystem, n: u64, end: int) -> bool {
    let ino = old.inodes@[n - 1];
    &&& mid.wf()
    &&& mid.zones_frame(&old, n, true)
    &&& readable_grows(mid, old)
    &&& if has_blocks(ino.spec_file_type()) && end > ino.size {
        &&& mid.inodes@[n - 1].size == end as u32
        &&& mid.zmap_grows(&old)
    } else {
        mid == old
    }
}

/// Whether growing the file of inode `n` of `old` to `end` bytes failed
/// with `e`, leaving `new`: it is a file with blocks that ends before `end`,
/// and the error is one that growing gives (where the file stays within
/// its direct zones, only for want of free zones; within its single
/// indirect zone, for want of them or an unreadable indirect block).
pub open spec fn growth_failed(old: MinixFileSystem, new: MinixFileSystem, n: u64, end: int, e: FsError) -> bool {
    let ino = old.inodes@[n - 1];
    let bs = old.superblock.block_size as int;
    &&& has_blocks(ino.spec_file_type()) && end > ino.size
    &&& grow_error(old, new, e)
    &&& blocks_for(end, bs) <= 7 ==> count_false(old.zmap.bits()) < blocks_for(end, bs) - blocks_for(ino.size as int, bs)
    &&& blocks_for(end, bs) <= 7 + bs / 4 ==> (e == FsError::NoBlocksLeft && zmap_full(new)) || indirect_read_failure(new, n, e)
}

/// The outcome `r` of a write of `buf` at `offset` into the file of inode
/// `n` of `fs`, leaving `fin`: the bytes its steps write, or the error they
/// end in.
pub open spec fn write_outcome(
    fs: MinixFileSystem,
    fin: MinixFileSystem,
    n: u64,
    offset: u64,
    buf: Seq<u8>,
    r: Result<u64, FsError>,
) -> bool {
    match r {
        Ok(k) => wrote(fs, fin, n, offset, buf, k),
        Err(e) => file_write(fs, n, offset, buf) == WriteStep::Fail(e),
    }
}

/// What one more piece `p` of the steps `vs_all`, after the steps `pre`
/// that left the write going in `e`, does to the whole write.
proof fn lemma_after_piece(
    base: MinixFileSystem,
    vs_all: Seq<Visit>,
    pre: Seq<Visit>,
    p: Seq<Visit>,
    rest: Seq<Visit>,
    buf: Seq<u8>,
    ws0: WriteState,
    e: WriteState,
)
    requires
        vs_all == pre + p + rest,
        steps_clear(vs_all, Map::empty()),
        base.run_write(pre, buf, ws0) == WriteStep::Go(e),
        forall|x: u64| #[trigger] untouched(pre, x) ==> !e.changed.contains_key(x),
        e.written <= buf.len() <= u64::MAX,
        e.block.len() == base.bsize(),
        base.bsize() > 0,
    ensures
        steps_clear(p, e.changed),
        base.run_write(pre + p, buf, ws0) == base.run_write(p, buf, e),
        base.run_write(p, buf, e) matches WriteStep::Fail(err) ==> base.run_write(vs_all, buf, ws0) == WriteStep::Fail(err),
        base.run_write(p, buf, e) matches WriteStep::Done(e2) ==> e2.written >= buf.len(),
        rest.len() == 0 ==> end_state(base.run_write(vs_all, buf, ws0)) == end_state(base.run_write(p, buf, e)),
        end_state(base.run_write(p, buf, e)) matches Some(e2) ==> {
            &&& forall|x: u64| #[trigger] untouched(pre + p, x) ==> !e2.changed.contains_key(x)
            &&& e2.written <= buf.len()
            &&& e2.block.len() == base.bsize()
            &&& (e2.written >= buf.len() ==> end_state(base.run_write(vs_all, buf, ws0)) == Some(e2))
        },
{
    lemma_clear_piece(vs_all, pre, p, rest, Map::empty(), e.changed);
    lemma_write_concat(base, pre, p, buf, e);
    lemma_write_concat(base, pre, p, buf, ws0);
    lemma_write_concat(base, pre + p, rest, buf, ws0);
    lemma_done_full(base, p, buf, e);
    lemma_write_keeps(base, p, buf, e);
    if let Some(e2) = end_state(base.run_write(p, buf, e)) {
        assert forall|x: u64| #[trigger] untouched(pre + p, x) implies !e2.changed.contains_key(x) by {
            lemma_untouched_concat(pre, p, x);
        }
        if e2.written >= buf.len() {
            lemma_write_finished(base, rest, buf, e2);
        }
    }
}

/// Reading a block keeps how a file system stands to `base`.
proof fn lemma_view_kept(base: MinixFileSystem, a: MinixFileSystem, b: MinixFileSystem, ch: Map<u64, Seq<u8>>)
    requires
        changed_view(base, a, ch),
        b.same_content(&a),
    ensures
        changed_view(base, b, ch),
{
    assert forall|x: u64| #[trigger] b.readable(x) == base.readable(x) by {
        assert(b.readable(x) == a.readable(x));
    }
    assert forall|x: u64| #[trigger] b.content(x) == base.current(ch, x) by {
        assert(b.content(x) == a.content(x));
    }
}

/// A piece of clear steps is clear, against blocks changed only where the
/// steps before it visit data.
proof fn lemma_clear_piece(
    vs: Seq<Visit>,
    pre: Seq<Visit>,
    mid: Seq<Visit>,
    post: Seq<Visit>,
    ch: Map<u64, Seq<u8>>,
    chg: Map<u64, Seq<u8>>,
)
    requires
        vs == pre + mid + post,
        steps_clear(vs, ch),
        forall|x: u64| #[trigger] untouched(pre, x) ==> (chg.contains_key(x) == ch.contains_key(x)),
    ensures
        steps_clear(mid, chg),
{
    assert forall|i: int| 0 <= i < mid.len() implies #[trigger] mid[i] == vs[pre.len() + i] by {}
    assert forall|i: int, j: int, b: u64| 0 <= i < j < mid.len() && #[trigger] is_data(mid[i], b) implies !#[trigger] is_data(
        mid[j],
        b,
    ) by {
        assert(mid[i] == vs[pre.len() + i] && mid[j] == vs[pre.len() + j]);
    }
    assert forall|i: int, j: int, b: u64| 0 <= i < mid.len() && 0 <= j < mid.len() && #[trigger] is_data(mid[i], b) implies !#[trigger] is_ptr(
        mid[j],
        b,
    ) by {
        assert(mid[i] == vs[pre.len() + i] && mid[j] == vs[pre.len() + j]);
    }
    assert forall|i: int, z: u64| 0 <= i < mid.len() && #[trigger] is_ptr(mid[i], z) implies !chg.contains_key(z) by {
        assert(mid[i] == vs[pre.len() + i]);
        lemma_ptr_untouched(vs, pre.len() + i, z);
        lemma_untouched_concat(pre + mid, post, z);
        lemma_untouched_concat(pre, mid, z);
        assert(!ch.contains_key(z));
    }
}

impl MinixFileSystem {
    /// Write the next bytes of `buffer` into the data blocks among `list`
    /// (its non-zero entries); `Ok(true)` when all bytes were written. The
    /// cursor moves as `cursor_walk` says.
    fn write_data_blocks(
        &mut self,
        list: &Vec<u64>,
        buffer: &[u8],
        cur: &mut WriteCursor,
        Ghost(base): Ghost<MinixFileSystem>,
        Ghost(ch): Ghost<Map<u64, Seq<u8>>>,
    ) -> (r: Result<bool, FsError>)
        requires
            old(cur).block@.len() == old(self).bsize(),
            old(cur).written <= buffer@.len(),
            old(self).bsize() == 0 ==> old(cur).byte_at == 0,
            changed_view(base, *old(self), ch),
        ensures
            write_match(base, base.run_write(data_visits(list@), buffer@, wstate(*old(cur), ch)), r, *final(cur), *final(self)),
            final(self).cache_frame(old(self)),
            final(cur).block@.len() == old(self).bsize(),
            final(cur).written <= buffer@.len(),
            old(self).bsize() == 0 ==> final(cur).byte_at == 0,
            r matches Err(e) ==> block_error(e),
            r matches Ok(stop) ==> cursor_walk(
                list@,
                buffer@.len() as u64,
                old(self).superblock.block_size as u64,
                old(cur).written,
                old(cur).offset,
                old(cur).byte_at,
            ) == (stop, final(cur).written, final(cur).offset, final(cur).byte_at),
            readable_grows(*final(self), *old(self)),
            r matches Err(e) ==> read_failure(*old(self), e),
    {
        let ghost f0 = *self;
        let ghost ws0 = wstate(*cur, ch);
        let ghost mut chg = ch;
        proof {
            lemma_same_content_grows(f0, f0);
        }
        let bs = self.superblock.block_size as u64;
        let len = buffer.len() as u64;
        let mut i: usize = 0;
        assert(list@.subrange(0, list@.len() as int) =~= list@);
        while i < list.len()
            invariant
                changed_view(base, *self, chg),
                ws0 == wstate(*old(cur), ch),
                base.run_write(data_visits(list@), buffer@, ws0) == base.run_write(
                    data_visits(list@.subrange(i as int, list@.len() as int)),
                    buffer@,
                    wstate(*cur, chg),
                ),
                self.cache_frame(&f0),
                f0 == *old(self),
                bs == f0.superblock.block_size,
                len == buffer@.len(),
                cur.block@.len() == bs,
                cur.written <= len,
                bs == 0 ==> cur.byte_at == 0,
                i <= list@.len(),
                cursor_walk(list@.subrange(i as int, list@.len() as int), len, bs, cur.written, cur.offset, cur.byte_at)
                    == cursor_walk(list@, len, bs, old(cur).written, old(cur).offset, old(cur).byte_at),
                readable_grows(*self, f0),
            decreases list@.len() - i,
        {
            let ghost rest = list@.subrange(i as int, list@.len() as int);
            proof {
                assert(rest.drop_first() =~= list@.subrange(i + 1, list@.len() as int));
                assert(rest[0] == list@[i as int]);
            }
            let b = list[i];
            let ghost wst = wstate(*cur, chg);
            if b == 0 {
                assert(data_visits(rest) =~= data_visits(rest.drop_first()));
            }
            if b != 0 {
                proof {
                    assert(data_visits(rest) =~= seq![Visit::Data(b)] + data_visits(rest.drop_first()));
                    crate::minix::rw::lemma_write_concat(base, seq![Visit::Data(b)], data_visits(rest.drop_first()), buffer@, wst);
                    assert(seq![Visit::Data(b)].drop_first() =~= Seq::<Visit>::empty());
                    reveal_with_fuel(MinixFileSystem::run_write, 2);
                }
                if cur.written >= len {
                    return Ok(true);
                }
                cur.byte_at = cur.byte_at.saturating_add(bs);
                if cur.byte_at <= cur.offset {
                    assert(base.write_visit(Visit::Data(b), buffer@, wst) == WriteStep::Go(wstate(*cur, chg)));
                }
                if cur.byte_at > cur.offset {
                    let off = cur.offset % bs;
                    let ghost fr = *self;
                    let ghost before = cur.block@;
                    let got = self.read_block(b, cur.block.as_mut_slice());
                    proof {
                        crate::minix::read::lemma_full_block_read(fr, b, before);
                        crate::minix::read::lemma_read_keeps_content(fr, *self, b, before);
                        lemma_same_content_grows(fr, *self);
                        lemma_grows_chain(f0, fr, *self);
                        if got is Err {
                            assert(read_failure(fr, got->Err_0));
                            lemma_failure_back(f0, fr, got->Err_0);
                        }
                    }
                    proof {
                        assert(fr.readable(b) == base.readable(b));
                        assert(fr.content(b) == base.current(chg, b));
                    }
                    got?;
                    let ghost blk = cur.block@;
                    let room = bs - off;
                    let want = len - cur.written;
                    let k = if room < want { room } else { want };
                    let at = cur.written as usize;
                    let o = off as usize;
                    let ku = k as usize;
                    let w0 = cur.written;
                    let ba = cur.byte_at;
                    let mut m: usize = 0;
                    while m < ku
                        invariant
                            m <= ku,
                            at + ku <= buffer.len(),
                            o + ku <= cur.block.len(),
                            cur.block@.len() == bs,
                            blk.len() == bs,
                            cur.written == w0,
                            cur.byte_at == ba,
                            forall|x: int| 0 <= x < o ==> cur.block@[x] == blk[x],
                            forall|x: int| o + ku <= x < bs ==> cur.block@[x] == blk[x],
                            forall|x: int| 0 <= x < m ==> #[trigger] cur.block@[o + x] == buffer@[at + x],
                        decreases ku - m,
                    {
                        cur.block.set(o + m, buffer[at + m]);
                        m += 1;
                    }
                    let ghost nb = splice(blk, o as int, buffer@.subrange(at as int, at + ku));
                    proof {
                        assert forall|y: int| o <= y < o + ku implies cur.block@[y] == buffer@[at + (y - o)] by {
                            assert(cur.block@[o + (y - o)] == buffer@[at + (y - o)]);
                        }
                        assert(cur.block@ =~= nb);
                    }
                    let ghost fw = *self;
                    let _ = self.write_block(b, cur.block.as_slice());
                    proof {
                        lemma_cache_grows(fw, *self);
                        lemma_grows_chain(f0, fw, *self);
                        assert(cur.block@.subrange(0, min(fw.bsize(), cur.block@.len() as int)) =~= cur.block@);
                        let nch = chg.insert(b, nb);
                        assert forall|x: u64| #[trigger] self.content(x) == base.current(nch, x) by {
                            if x != b {
                                assert(self.bcache.view().contains_key(x) == fw.bcache.view().contains_key(x));
                                assert(self.content(x) == fw.content(x));
                            }
                        }
                        assert forall|x: u64| #[trigger] self.readable(x) == base.readable(x) by {
                            if x != b {
                                assert(self.readable(x) == fw.readable(x));
                            }
                        }
                        chg = nch;
                    }
                    cur.written = cur.written + k;
                    cur.offset = 0;
                    assert(base.write_visit(Visit::Data(b), buffer@, wst) == WriteStep::Go(wstate(*cur, chg)));
                }
            }
            i += 1;
        }
        assert(list@.subrange(i as int, list@.len() as int).len() == 0);
        assert(data_visits(list@.subrange(i as int, list@.len() as int)) =~= Seq::<Visit>::empty());
        Ok(false)
    }

    /// Write into the data under the single indirect blocks among `zs`,
    /// stopping before a pointer block once all bytes are written. With all
    /// bytes written before, or no pointer block, nothing changes and the
    /// result is `false`; `true` only once all bytes are written. The first
    /// pointer block is read as `fs` holds it: where it cannot be read that
    /// is the error, and where the cursor stops within it (see
    /// `cursor_walk`) the result is `true` with the cursor moved so.
    #[verifier::spinoff_prover]
    #[verifier::rlimit(80)]
    fn write_ind_list(
        &mut self,
        zs: &Vec<u64>,
        buffer: &[u8],
        cur: &mut WriteCursor,
        Ghost(base): Ghost<MinixFileSystem>,
        Ghost(ch): Ghost<Map<u64, Seq<u8>>>,
    ) -> (r: Result<bool, FsError>)
        requires
            old(cur).block@.len() == old(self).bsize(),
            old(cur).written <= buffer@.len(),
            old(self).bsize() == 0 ==> old(cur).byte_at == 0,
            changed_view(base, *old(self), ch),
        ensures
            steps_clear(base.ind_list(zs@), ch) ==> write_match_list(
                base,
                base.run_write(base.ind_list(zs@), buffer@, wstate(*old(cur), ch)),
                r,
                *final(cur),
                *final(self),
            ),
            final(self).cache_frame(old(self)),
            final(cur).block@.len() == old(self).bsize(),
            final(cur).written <= buffer@.len(),
            old(self).bsize() == 0 ==> final(cur).byte_at == 0,
            r matches Err(e) ==> block_error(e),
            r == Ok::<bool, FsError>(true) ==> final(cur).written == buffer@.len(),
            readable_grows(*final(self), *old(self)),
            r matches Err(e) ==> read_failure(*old(self), e),
            (old(cur).written >= buffer@.len() || first_nonzero(zs@, 0) >= zs@.len()) ==> (r == Ok::<bool, FsError>(false)
                && *final(cur) == *old(cur) && *final(self) == *old(self)),
            (old(cur).written < buffer@.len() && first_nonzero(zs@, 0) < zs@.len()) ==> match first_walk(
                *old(self),
                zs@,
                buffer@.len() as u64,
                *old(cur),
            ) {
                None => r == Err::<bool, FsError>(
                    old(self).read_block_data(zs@[first_nonzero(zs@, 0)], Seq::new(old(self).bsize() as nat, |i: int| 0u8))->Err_0,
                ),
                Some(res) => (r is Ok && res.0) ==> (r == Ok::<bool, FsError>(true) && final(cur).written == res.1
                    && final(cur).offset == res.2 && final(cur).byte_at == res.3),
            },
    {
        let ghost f0 = *self;
        let ghost c0 = *cur;
        let ghost fnz = first_nonzero(zs@, 0);
        proof {
            lemma_same_content_grows(f0, f0);
        }
        let len = buffer.len() as u64;
        let mut i: usize = 0;
        let ghost vs_all = base.ind_list(zs@);
        let ghost ws0 = wstate(*cur, ch);
        let ghost mut done = Seq::<Visit>::empty();
        let ghost mut chg = ch;
        proof {
            lemma_first_nonzero(zs@, 0);
            assert(zs@.subrange(0, zs@.len() as int) =~= zs@);
            assert(done + vs_all =~= vs_all);
        }
        while i < zs.len()
            invariant
                self.cache_frame(&f0),
                f0 == *old(self),
                c0 == *old(cur),
                len == buffer@.len(),
                cur.block@.len() == f0.bsize(),
                cur.written <= len,
                f0.bsize() == 0 ==> cur.byte_at == 0,
                i <= zs@.len(),
                fnz == first_nonzero(zs@, 0),
                0 <= fnz <= zs@.len(),
                fnz < zs@.len() ==> zs@[fnz] != 0,
                forall|j: int| 0 <= j < fnz ==> zs@[j] == 0,
                i <= fnz ==> (*self == f0 && *cur == c0),
                fnz < i ==> (c0.written < len && first_walk(f0, zs@, len, c0) is Some && !first_walk(f0, zs@, len, c0).unwrap().0),
                readable_grows(*self, f0),
                changed_view(base, *self, chg),
                vs_all == base.ind_list(zs@),
                ws0 == wstate(*old(cur), ch),
                vs_all == done + base.ind_list(zs@.subrange(i as int, zs@.len() as int)),
                steps_clear(vs_all, ch) ==> base.run_write(vs_all, buffer@, ws0) == base.run_write(
                    base.ind_list(zs@.subrange(i as int, zs@.len() as int)),
                    buffer@,
                    wstate(*cur, chg),
                ),
                steps_clear(vs_all, ch) ==> forall|x: u64| #[trigger] untouched(done, x) ==> (chg.contains_key(x) == ch.contains_key(x)),
            decreases zs@.len() - i,
        {
            let ghost rest = zs@.subrange(i as int, zs@.len() as int);
            let ghost wst = wstate(*cur, chg);
            proof {
                assert(rest[0] == zs@[i as int]);
                assert(rest.drop_first() =~= zs@.subrange(i + 1, zs@.len() as int));
                assert(base.ind_list(rest) == base.ind_visits(rest[0]) + base.ind_list(rest.drop_first()));
                lemma_write_concat(base, base.ind_visits(rest[0]), base.ind_list(rest.drop_first()), buffer@, wst);
            }
            let z = zs[i];
            if z == 0 {
                proof {
                    assert(base.ind_visits(z) =~= Seq::<Visit>::empty());
                    assert(done + Seq::<Visit>::empty() =~= done);
                }
            }
            if z != 0 {
                let ghost sub = if base.readable(z) { data_visits(base.pointers(z)) } else { Seq::<Visit>::empty() };
                proof {
                    assert(base.ind_visits(z) == seq![Visit::Ptr(z)] + sub);
                    lemma_write_concat(base, seq![Visit::Ptr(z)], sub, buffer@, wst);
                    assert(seq![Visit::Ptr(z)].drop_first() =~= Seq::<Visit>::empty());
                    reveal_with_fuel(MinixFileSystem::run_write, 2);
                }
                if cur.written >= len {
                    return Ok(false);
                }
                proof {
                    if steps_clear(vs_all, ch) {
                        assert(vs_all[done.len() as int] == Visit::Ptr(z)) by {
                            assert(base.ind_list(rest)[0] == Visit::Ptr(z));
                        }
                        assert(is_ptr(vs_all[done.len() as int], z));
                        lemma_ptr_untouched(vs_all, done.len() as int, z);
                        lemma_untouched_concat(done, base.ind_list(rest), z);
                        assert(!chg.contains_key(z));
                        assert(self.content(z) == base.content(z));
                    }
                }
                let ghost fp = *self;
                let pr = pointers_of(self, z);
                proof {
                    lemma_grows_chain(f0, fp, *self);
                    if pr is Err {
                        lemma_failure_back(f0, fp, pr->Err_0);
                    }
                    lemma_view_kept(base, fp, *self, chg);
                    if steps_clear(vs_all, ch) {
                        assert(fp.readable(z) == base.readable(z));
                        assert(fp.pointers(z) == base.pointers(z));
                    }
                }
                let ptrs = pr?;
                let ghost cb = *cur;
                let ghost fw = *self;
                let got = self.write_data_blocks(&ptrs, buffer, cur, Ghost(base), Ghost(chg));
                proof {
                    if got matches Ok(true) {
                        lemma_walk_stop(ptrs@, len, f0.superblock.block_size as u64, cb.written, cb.offset, cb.byte_at);
                    }
                    lemma_grows_chain(f0, fw, *self);
                    if got is Err {
                        lemma_failure_back(f0, fw, got->Err_0);
                    }
                    lemma_write_keeps(base, data_visits(ptrs@), buffer@, wst);
                }
                if got? {
                    return Ok(true);
                }
                proof {
                    let e = end_state(base.run_write(data_visits(ptrs@), buffer@, wst))->Some_0;
                    if steps_clear(vs_all, ch) {
                        assert(data_visits(ptrs@) == sub);
                        assert forall|x: u64| #[trigger] untouched(done + base.ind_visits(z), x) implies (e.changed.contains_key(x)
                            == ch.contains_key(x)) by {
                            lemma_untouched_concat(done, base.ind_visits(z), x);
                            lemma_untouched_concat(seq![Visit::Ptr(z)], sub, x);
                        }
                        assert(vs_all =~= (done + base.ind_visits(z)) + base.ind_list(rest.drop_first()));
                    }
                    done = done + base.ind_visits(z);
                    chg = e.changed;
                }
            }
            i += 1;
        }
        proof {
            assert(zs@.subrange(i as int, zs@.len() as int) =~= Seq::<u64>::empty());
        }
        Ok(false)
    }

    /// Write into the data under the double indirect blocks among `zs`.
    /// With all bytes written before, or no pointer block, nothing changes
    /// and the result is `false`; `true` only once all bytes are written;
    /// where the first pointer block cannot be read, that is the error.
    #[verifier::spinoff_prover]
    #[verifier::rlimit(80)]
    fn write_dind_list(
        &mut self,
        zs: &Vec<u64>,
        buffer: &[u8],
        cur: &mut WriteCursor,
        Ghost(base): Ghost<MinixFileSystem>,
        Ghost(ch): Ghost<Map<u64, Seq<u8>>>,
    ) -> (r: Result<bool, FsError>)
        requires
            old(cur).block@.len() == old(self).bsize(),
            old(cur).written <= buffer@.len(),
            old(self).bsize() == 0 ==> old(cur).byte_at == 0,
            changed_view(base, *old(self), ch),
        ensures
            steps_clear(base.dind_list(zs@), ch) ==> write_match_list(
                base,
                base.run_write(base.dind_list(zs@), buffer@, wstate(*old(cur), ch)),
                r,
                *final(cur),
                *final(self),
            ),
            final(self).cache_frame(old(self)),
            final(cur).block@.len() == old(self).bsize(),
            final(cur).written <= buffer@.len(),
            old(self).bsize() == 0 ==> final(cur).byte_at == 0,
            r matches Err(e) ==> block_error(e),
            r == Ok::<bool, FsError>(true) ==> final(cur).written == buffer@.len(),
            readable_grows(*final(self), *old(self)),
            r matches Err(e) ==> read_failure(*old(self), e),
            (old(cur).written >= buffer@.len() || first_nonzero(zs@, 0) >= zs@.len()) ==> (r == Ok::<bool, FsError>(false)
                && *final(cur) == *old(cur) && *final(self) == *old(self)),
            (old(cur).written < buffer@.len() && first_nonzero(zs@, 0) < zs@.len()) ==> (old(self).read_block_data(
                zs@[first_nonzero(zs@, 0)],
                Seq::new(old(self).bsize() as nat, |i: int| 0u8),
            ) matches Err(e) ==> r == Err::<bool, FsError>(e)),
    {
        let ghost f0 = *self;
        let ghost c0 = *cur;
        let ghost fnz = first_nonzero(zs@, 0);
        proof {
            lemma_same_content_grows(f0, f0);
        }
        let len = buffer.len() as u64;
        let mut i: usize = 0;
        let ghost vs_all = base.dind_list(zs@);
        let ghost ws0 = wstate(*cur, ch);
        let ghost mut done = Seq::<Visit>::empty();
        let ghost mut chg = ch;
        proof {
            lemma_first_nonzero(zs@, 0);
            assert(zs@.subrange(0, zs@.len() as int) =~= zs@);
            assert(done + vs_all =~= vs_all);
        }
        while i < zs.len()
            invariant
                self.cache_frame(&f0),
                f0 == *old(self),
                c0 == *old(cur),
                len == buffer@.len(),
                cur.block@.len() == f0.bsize(),
                cur.written <= len,
                f0.bsize() == 0 ==> cur.byte_at == 0,
                i <= zs@.len(),
                fnz == first_nonzero(zs@, 0),
                0 <= fnz <= zs@.len(),
                fnz < zs@.len() ==> zs@[fnz] != 0,
                forall|j: int| 0 <= j < fnz ==> zs@[j] == 0,
                i <= fnz ==> (*self == f0 && *cur == c0),
                fnz < i ==> (c0.written < len && f0.read_block_data(zs@[fnz], Seq::new(f0.bsize() as nat, |i: int| 0u8)) is Ok),
                readable_grows(*self, f0),
                steps_clear(vs_all, ch) ==> changed_view(base, *self, chg),
                vs_all == base.dind_list(zs@),
                ws0 == wstate(*old(cur), ch),
                vs_all == done + base.dind_list(zs@.subrange(i as int, zs@.len() as int)),
                steps_clear(vs_all, ch) ==> base.run_write(vs_all, buffer@, ws0) == base.run_write(
                    base.dind_list(zs@.subrange(i as int, zs@.len() as int)),
                    buffer@,
                    wstate(*cur, chg),
                ),
                steps_clear(vs_all, ch) ==> forall|x: u64| #[trigger] untouched(done, x) ==> (chg.contains_key(x) == ch.contains_key(x)),
            decreases zs@.len() - i,
        {
            let ghost rest = zs@.subrange(i as int, zs@.len() as int);
            let ghost wst = wstate(*cur, chg);
            proof {
                assert(rest[0] == zs@[i as int]);
                assert(rest.drop_first() =~= zs@.subrange(i + 1, zs@.len() as int));
                assert(base.dind_list(rest) == base.dind_visits(rest[0]) + base.dind_list(rest.drop_first()));
                lemma_write_concat(base, base.dind_visits(rest[0]), base.dind_list(rest.drop_first()), buffer@, wst);
            }
            let z = zs[i];
            if z == 0 {
                proof {
                    assert(base.dind_visits(z) =~= Seq::<Visit>::empty());
                    assert(done + Seq::<Visit>::empty() =~= done);
                }
            }
            if z != 0 {
                let ghost sub = if base.readable(z) { base.ind_list(base.pointers(z)) } else { Seq::<Visit>::empty() };
                proof {
                    assert(base.dind_visits(z) == seq![Visit::Ptr(z)] + sub);
                    lemma_write_concat(base, seq![Visit::Ptr(z)], sub, buffer@, wst);
                    assert(seq![Visit::Ptr(z)].drop_first() =~= Seq::<Visit>::empty());
                    reveal_with_fuel(MinixFileSystem::run_write, 2);
                }
                if cur.written >= len {
                    return Ok(false);
                }
                proof {
                    if steps_clear(vs_all, ch) {
                        assert(vs_all[done.len() as int] == Visit::Ptr(z)) by {
                            assert(base.dind_list(rest)[0] == Visit::Ptr(z));
                        }
                        assert(is_ptr(vs_all[done.len() as int], z));
                        lemma_ptr_untouched(vs_all, done.len() as int, z);
                        lemma_untouched_concat(done, base.dind_list(rest), z);
                        assert(!chg.contains_key(z));
                        assert(self.content(z) == base.content(z));
                    }
                }
                let ghost fp = *self;
                let pr = pointers_of(self, z);
                proof {
                    lemma_grows_chain(f0, fp, *self);
                    if pr is Err {
                        lemma_failure_back(f0, fp, pr->Err_0);
                    }
                    if steps_clear(vs_all, ch) {
                        lemma_view_kept(base, fp, *self, chg);
                        assert(fp.readable(z) == base.readable(z));
                        assert(fp.pointers(z) == base.pointers(z));
                    }
                }
                let ptrs = pr?;
                proof {
                    if steps_clear(vs_all, ch) {
                        assert(base.ind_list(ptrs@) == sub);
                        assert(vs_all =~= (done + seq![Visit::Ptr(z)]) + sub + base.dind_list(rest.drop_first()));
                        assert forall|x: u64| #[trigger] untouched(done + seq![Visit::Ptr(z)], x) implies (chg.contains_key(x)
                            == ch.contains_key(x)) by {
                            lemma_untouched_concat(done, seq![Visit::Ptr(z)], x);
                        }
                        lemma_clear_piece(vs_all, done + seq![Visit::Ptr(z)], sub, base.dind_list(rest.drop_first()), ch, chg);
                    }
                }
                let ghost fw = *self;
                let ghost gb = if steps_clear(vs_all, ch) { base } else { fw };
                let ghost gc = if steps_clear(vs_all, ch) { chg } else { Map::<u64, Seq<u8>>::empty() };
                let got = self.write_ind_list(&ptrs, buffer, cur, Ghost(gb), Ghost(gc));
                proof {
                    lemma_grows_chain(f0, fw, *self);
                    if got is Err {
                        lemma_failure_back(f0, fw, got->Err_0);
                    }
                    if steps_clear(vs_all, ch) {
                        lemma_write_keeps(base, sub, buffer@, wst);
                        lemma_done_full(base, sub, buffer@, wst);
                    }
                }
                let stop = got?;
                if stop || cur.written >= len {
                    proof {
                        if steps_clear(vs_all, ch) {
                            let e = end_state(base.run_write(sub, buffer@, wst))->Some_0;
                            lemma_write_finished(base, base.dind_list(rest.drop_first()), buffer@, e);
                        }
                    }
                    return Ok(true);
                }
                proof {
                    if steps_clear(vs_all, ch) {
                        let e = end_state(base.run_write(sub, buffer@, wst))->Some_0;
                        assert forall|x: u64| #[trigger] untouched(done + base.dind_visits(z), x) implies (e.changed.contains_key(x)
                            == ch.contains_key(x)) by {
                            lemma_untouched_concat(done, base.dind_visits(z), x);
                            lemma_untouched_concat(seq![Visit::Ptr(z)], sub, x);
                        }
                        assert(vs_all =~= (done + base.dind_visits(z)) + base.dind_list(rest.drop_first()));
                        chg = e.changed;
                    }
                    done = done + base.dind_visits(z);
                }
            }
            i += 1;
        }
        proof {
            assert(zs@.subrange(i as int, zs@.len() as int) =~= Seq::<u64>::empty());
        }
        Ok(false)
    }

    /// Write into the data under the triple indirect block `z` (none for
    /// 0), stopping before it once all bytes are written.
    #[verifier::spinoff_prover]
    #[verifier::rlimit(80)]
    fn write_tind(
        &mut self,
        z: u64,
        buffer: &[u8],
        cur: &mut WriteCursor,
        Ghost(base): Ghost<MinixFileSystem>,
        Ghost(ch): Ghost<Map<u64, Seq<u8>>>,
    ) -> (r: Result<bool, FsError>)
        requires
            old(cur).block@.len() == old(self).bsize(),
            old(cur).written <= buffer@.len(),
            old(self).bsize() == 0 ==> old(cur).byte_at == 0,
            changed_view(base, *old(self), ch),
        ensures
            steps_clear(base.tind_visits(z), ch) ==> write_match_list(
                base,
                base.run_write(base.tind_visits(z), buffer@, wstate(*old(cur), ch)),
                r,
                *final(cur),
                *final(self),
            ),
            final(self).cache_frame(old(self)),
            final(cur).block@.len() == old(self).bsize(),
            final(cur).written <= buffer@.len(),
            old(self).bsize() == 0 ==> final(cur).byte_at == 0,
            r matches Err(e) ==> block_error(e),
            readable_grows(*final(self), *old(self)),
            r matches Err(e) ==> read_failure(*old(self), e),
    {
        let ghost f0 = *self;
        proof {
            lemma_same_content_grows(f0, f0);
        }
        let len = buffer.len() as u64;
        if z == 0 {
            assert(base.tind_visits(z) =~= Seq::<Visit>::empty());
            return Ok(false);
        }
        let ghost wst = wstate(*cur, ch);
        let ghost vs = base.tind_visits(z);
        let ghost sub = if base.readable(z) { base.dind_list(base.pointers(z)) } else { Seq::<Visit>::empty() };
        proof {
            assert(vs == seq![Visit::Ptr(z)] + sub);
            lemma_write_concat(base, seq![Visit::Ptr(z)], sub, buffer@, wst);
            assert(seq![Visit::Ptr(z)].drop_first() =~= Seq::<Visit>::empty());
            reveal_with_fuel(MinixFileSystem::run_write, 2);
        }
        if cur.written >= len {
            return Ok(false);
        }
        proof {
            if steps_clear(vs, ch) {
                assert(vs[0] == Visit::Ptr(z));
                assert(is_ptr(vs[0], z));
                assert(!ch.contains_key(z));
                assert(self.content(z) == base.content(z));
            }
        }
        let ghost fp = *self;
        let pr = pointers_of(self, z);
        proof {
            lemma_view_kept(base, fp, *self, ch);
            assert(fp.readable(z) == base.readable(z));
            if steps_clear(vs, ch) {
                assert(fp.pointers(z) == base.pointers(z));
            }
        }
        let ptrs = pr?;
        proof {
            if steps_clear(vs, ch) {
                assert(base.dind_list(ptrs@) == sub);
                assert(vs =~= seq![Visit::Ptr(z)] + sub + Seq::<Visit>::empty());
                lemma_clear_piece(vs, seq![Visit::Ptr(z)], sub, Seq::<Visit>::empty(), ch, ch);
            }
        }
        let ghost fw = *self;
        let got = self.write_dind_list(&ptrs, buffer, cur, Ghost(base), Ghost(ch));
        proof {
            lemma_grows_chain(f0, fw, *self);
            if got is Err {
                lemma_failure_back(f0, fw, got->Err_0);
            }
        }
        got
    }

    /// Write `buffer` from `offset` into the blocks the file of inode
    /// `inode_num` has; return how many bytes were written.
    #[verifier::spinoff_prover]
    #[verifier::rlimit(100)]
    fn write_zones(&mut self, inode_num: u64, offset: u64, buffer: &[u8]) -> (r: Result<u64, FsError>)
        requires
            1 <= inode_num <= old(self).inodes@.len(),
            old(self).bsize() > 0,
        ensures
            final(self).cache_frame(old(self)),
            readable_grows(*final(self), *old(self)),
            r matches Err(e) ==> block_error(e) && read_failure(*old(self), e),
            r matches Ok(k) ==> k <= buffer@.len(),
            blocks_apart(*old(self), inode_num) ==> write_outcome(*old(self), *final(self), inode_num, offset, buffer@, r),
    {
        let ghost f1 = *self;
        let ghost zs = file_zones(f1, inode_num);
        let len = buffer.len() as u64;
        let n_inodes = self.inodes.len();
        let idx = (inode_num - 1) as usize;
        let ino = self.inodes[idx];
        let bs = self.superblock.block_size as usize;
        let mut cur = WriteCursor { written: 0, offset, byte_at: 0, block: zeros(bs) };
        let ghost p1 = data_visits(zs.take(7));
        let ghost p2 = f1.ind_visits(zs[7]);
        let ghost p3 = f1.dind_visits(zs[8]);
        let ghost p4 = f1.tind_visits(zs[9]);
        let ghost vs_all = f1.file_visits(zs);
        let ghost ws0 = write_start(f1, offset);
        let ghost clear = steps_clear(vs_all, Map::empty());
        let ghost mut chg = Map::<u64, Seq<u8>>::empty();
        proof {
            assert(vs_all == p1 + p2 + p3 + p4);
            assert(wstate(cur, chg) == ws0);
            assert(blocks_apart(f1, inode_num) ==> clear);
            lemma_same_content_grows(f1, f1);
            assert(f1.run_write(Seq::<Visit>::empty(), buffer@, ws0) == WriteStep::Go(ws0));
        }
        let mut direct: Vec<u64> = Vec::new();
        let mut k: usize = 0;
        while k < INDIRECT_ZONE
            invariant
                k <= 7,
                ino.zones@.len() == 10,
                direct@ == ino.zones@.take(k as int).map_values(|z: u32| z as u64),
            decreases 7 - k,
        {
            direct.push(ino.zones[k] as u64);
            k += 1;
            assert(direct@ =~= ino.zones@.take(k as int).map_values(|z: u32| z as u64));
        }
        proof {
            assert(ino == f1.inodes@[inode_num - 1]);
            assert(ino.zones@.map_values(|z: u32| z as u64) == zs);
            assert(direct@ =~= zs.take(7));
            if clear {
                assert(vs_all =~= Seq::<Visit>::empty() + p1 + (p2 + p3 + p4));
                lemma_after_piece(f1, vs_all, Seq::<Visit>::empty(), p1, p2 + p3 + p4, buffer@, ws0, ws0);
            }
        }
        let ghost e1 = wstate(cur, chg);
        let res = self.write_data_blocks(&direct, buffer, &mut cur, Ghost(f1), Ghost(chg));
        proof {
            lemma_grows_chain(f1, f1, *self);
            if res is Err {
                lemma_failure_back(f1, f1, res->Err_0);
            }
            if clear && res is Ok {
                chg = end_state(f1.run_write(p1, buffer@, e1))->Some_0.changed;
                assert(Seq::<Visit>::empty() + p1 =~= p1);
            }
        }
        res?;
        if cur.written >= len {
            return Ok(cur.written);
        }
        let ind = ino.zones[INDIRECT_ZONE] as u64;
        let mut one: Vec<u64> = Vec::new();
        one.push(ind);
        proof {
            reveal_with_fuel(MinixFileSystem::ind_list, 2);
            assert(one@.drop_first() =~= Seq::<u64>::empty());
            assert(f1.ind_list(one@) =~= p2);
            if clear {
                assert(vs_all =~= p1 + p2 + (p3 + p4));
                lemma_after_piece(f1, vs_all, p1, p2, p3 + p4, buffer@, ws0, wstate(cur, chg));
            }
        }
        let ghost e2 = wstate(cur, chg);
        let ghost f2 = *self;
        let ghost gb = if clear { f1 } else { f2 };
        let ghost gc = if clear { chg } else { Map::<u64, Seq<u8>>::empty() };
        let res = self.write_ind_list(&one, buffer, &mut cur, Ghost(gb), Ghost(gc));
        proof {
            lemma_grows_chain(f1, f2, *self);
            if res is Err {
                lemma_failure_back(f1, f2, res->Err_0);
            }
            if clear && res is Ok {
                chg = end_state(f1.run_write(p2, buffer@, e2))->Some_0.changed;
            }
        }
        res?;
        if cur.written >= len {
            return Ok(cur.written);
        }
        let dind = ino.zones[DINDIRECT_ZONE] as u64;
        let mut one: Vec<u64> = Vec::new();
        one.push(dind);
        proof {
            reveal_with_fuel(MinixFileSystem::dind_list, 2);
            assert(one@.drop_first() =~= Seq::<u64>::empty());
            assert(f1.dind_list(one@) =~= p3);
            if clear {
                assert(vs_all =~= (p1 + p2) + p3 + p4);
                lemma_after_piece(f1, vs_all, p1 + p2, p3, p4, buffer@, ws0, wstate(cur, chg));
            }
        }
        let ghost e3 = wstate(cur, chg);
        let ghost f3 = *self;
        let ghost gb = if clear { f1 } else { f3 };
        let ghost gc = if clear { chg } else { Map::<u64, Seq<u8>>::empty() };
        let res = self.write_dind_list(&one, buffer, &mut cur, Ghost(gb), Ghost(gc));
        proof {
            lemma_grows_chain(f1, f3, *self);
            if res is Err {
                lemma_failure_back(f1, f3, res->Err_0);
            }
            if clear && res is Ok {
                chg = end_state(f1.run_write(p3, buffer@, e3))->Some_0.changed;
            }
        }
        res?;
        if cur.written >= len {
            return Ok(cur.written);
        }
        let tind = ino.zones[TINDIRECT_ZONE] as u64;
        proof {
            if clear {
                assert(vs_all =~= (p1 + p2 + p3) + p4 + Seq::<Visit>::empty());
                lemma_after_piece(f1, vs_all, p1 + p2 + p3, p4, Seq::<Visit>::empty(), buffer@, ws0, wstate(cur, chg));
            }
        }
        let ghost e4 = wstate(cur, chg);
        let ghost f4 = *self;
        let ghost gb = if clear { f1 } else { f4 };
        let ghost gc = if clear { chg } else { Map::<u64, Seq<u8>>::empty() };
        let res = self.write_tind(tind, buffer, &mut cur, Ghost(gb), Ghost(gc));
        proof {
            lemma_grows_chain(f1, f4, *self);
            if res is Err {
                lemma_failure_back(f1, f4, res->Err_0);
            }

        }
        res?;
        Ok(cur.written)
    }

    /// Write `buffer` into the file of inode `inode_num` from `offset`,
    /// growing the file first where the write ends past it; return how many
    /// bytes were written. The zero zone pointers of the file are passed
    /// over.
    pub fn write_file(&mut self, inode_num: u64, offset: u64, buffer: &[u8]) -> (r: Result<u64, FsError>)
        requires
            old(self).wf(),
            is_pow2(old(self).superblock.block_size),
            offset + buffer@.len() <= u64::MAX,
            old(self).inode_at(inode_num) matches Some(ino) ==> (has_blocks(ino.spec_file_type()) && offset
                + buffer@.len() > ino.size && buffer@.len() > 0 ==> {
                let bs = old(self).superblock.block_size as int;
                let end = offset + buffer@.len();
                &&& end + bs - 1 <= u64::MAX
                &&& blocks_for(end, bs) <= max_file_blocks(bs)
                &&& (blocks_for(ino.size as int, bs) > 7 ==> bs >= 4)
            }),
        ensures
            final(self).wf(),
            final(self).zones_frame(old(self), inode_num, true),
            buffer@.len() == 0 ==> r == Ok::<u64, FsError>(0) && *final(self) == *old(self),
            buffer@.len() > 0 ==> match old(self).inode_at(inode_num) {
                None => r == Err::<u64, FsError>(FsError::InvalidInode { inode: inode_num }),
                Some(ino) => {
                    &&& (has_blocks(ino.spec_file_type()) && offset + buffer@.len() > ino.size ==> (r is Ok
                        ==> final(self).inodes@[inode_num - 1].size == (offset + buffer@.len()) as u32))
                    &&& match r {
                        Ok(n) => n <= buffer@.len(),
                        Err(e) => block_error(e),
                    }
                    &&& (r matches Err(e) && growth_failed(*old(self), *final(self), inode_num, offset + buffer@.len(), e))
                        || exists|mid: MinixFileSystem| #[trigger] grown_for(mid, *old(self), inode_num, offset + buffer@.len())
                        && final(self).same_but_cache(&mid) && (blocks_apart(mid, inode_num) ==> write_outcome(
                        mid,
                        *final(self),
                        inode_num,
                        offset,
                        buffer@,
                        r,
                    ))
                },
            },
            readable_grows(*final(self), *old(self)),
            r matches Err(e) ==> (old(self).inode_at(inode_num) is None && e == FsError::InvalidInode { inode: inode_num })
                || grow_error(*old(self), *final(self), e),
            r matches Err(e) ==> (old(self).inode_at(inode_num) is None && e == FsError::InvalidInode { inode: inode_num })
                || growth_failed(*old(self), *final(self), inode_num, offset + buffer@.len(), e) || read_failure(*old(self), e),
            (old(self).inode_at(inode_num) is Some && offset + buffer@.len() <= old(self).inodes@[inode_num - 1].size)
                ==> final(self).inodes@[inode_num - 1].size == old(self).inodes@[inode_num - 1].size,
    {
        let ghost f0 = *self;
        let len = buffer.len() as u64;
        if len == 0 {
            return Ok(0);
        }
        let current_size = match self.get_inode(inode_num) {
            Ok(i) => i.get_size(),
            Err(e) => {
                return Err(e);
            },
        };
        let end_pos = offset + len;
        proof {
            lemma_same_content_grows(f0, f0);
        }
        if end_pos > current_size {
            if let Err(e) = self.truncate(inode_num, end_pos) {
                proof {
                    assert(growth_failed(f0, *self, inode_num, end_pos as int, e));
                }
                return Err(e);
            }
        }
        let ghost f1 = *self;
        proof {
            assert(grown_for(f1, f0, inode_num, end_pos as int));
        }
        let res = self.write_zones(inode_num, offset, buffer);
        proof {
            crate::minix::truncate::lemma_frame_trans(f0, f1, *self, inode_num, true);
            lemma_grows_chain(f0, f1, *self);
            if res is Err {
                lemma_failure_back(f0, f1, res->Err_0);
            }
            assert(grown_for(f1, f0, inode_num, offset + buffer@.len()));
        }
        res
    }

}

impl MinixFileSystem {
    /// Store `target` as the target of symbolic link inode `inode`: in its
    /// first zone (allocated first where the inode has no zone), with the
    /// inode's size set to the target's length in bytes.
    pub fn write_symlink(&mut self, inode: u64, target: &String) -> (r: Result<u64, FsError>)
        requires
            old(self).wf(),
            is_pow2(old(self).superblock.block_size),
            old(self).inode_at(inode) matches Some(ino) ==> (has_blocks(ino.spec_file_type())
                && ino.zones@ == Seq::new(10, |i: int| 0u32) && encode_utf8(target@).len() <= MAX_SYMLINK_SIZE ==> {
                let bs = old(self).superblock.block_size as int;
                let n = encode_utf8(target@).len() as int;
                &&& blocks_for(n, bs) <= max_file_blocks(bs)
                &&& (blocks_for(ino.size as int, bs) > 7 ==> bs >= 4)
            }),
        ensures
            final(self).wf(),
            final(self).zones_frame(old(self), inode, true),
            encode_utf8(target@).len() > MAX_SYMLINK_SIZE ==> r == Err::<u64, FsError>(FsError::SymlinkTooLarge)
                && *final(self) == *old(self),
            encode_utf8(target@).len() <= MAX_SYMLINK_SIZE ==> match old(self).inode_at(inode) {
                None => r == Err::<u64, FsError>(FsError::InvalidInode { inode }),
                Some(ino) => match r {
                    Ok(n) => {
                        let z = final(self).inodes@[inode - 1].zones[0] as u64;
                        let bytes = encode_utf8(target@);
                        &&& n == bytes.len()
                        &&& final(self).inodes@[inode - 1].size == n as u32
                        &&& final(self).bcache.view().contains_key(z)
                        &&& final(self).bcache.view()[z] == (true, bytes.subrange(0, min(old(self).bsize(), bytes.len() as int)))
                    },
                    Err(e) => {
                        let bs = old(self).superblock.block_size as int;
                        let len = encode_utf8(target@).len() as int;
                        &&& block_error(e)
                        &&& has_blocks(ino.spec_file_type()) && ino.zones@ == Seq::new(10, |i: int| 0u32)
                        &&& if len > ino.size {
                            &&& (e == FsError::NoBlocksLeft && zmap_full(*final(self))) || read_failure(*old(self), e)
                            &&& blocks_for(len, bs) <= 7 ==> count_false(old(self).zmap.bits()) < blocks_for(len, bs) - blocks_for(
                                ino.size as int,
                                bs,
                            )
                        } else {
                            read_failure(*old(self), e)
                        }
                    },
                },
            },
    {
        let ghost f0 = *self;
        let s = target.as_str();
        let tb = s.as_bytes();
        assert(tb@ == encode_utf8(target@));
        let target_bytes = tb.len();
        if target_bytes > MAX_SYMLINK_SIZE {
            return Err(FsError::SymlinkTooLarge);
        }
        let blocks = match self.get_inode(inode) {
            Ok(i) => i.get_blocks(),
            Err(e) => {
                return Err(e);
            },
        };
        let mut all_zero = true;
        let mut k: usize = 0;
        while k < blocks.len()
            invariant
                k <= blocks@.len(),
                all_zero == (forall|j: int| 0 <= j < k ==> blocks@[j] == 0),
            decreases blocks@.len() - k,
        {
            if blocks[k] != 0 {
                all_zero = false;
            }
            k += 1;
        }
        let idx = (inode - 1) as usize;
        if all_zero {
            proof {
                assert(f0.inodes@[idx as int].zones@ =~= Seq::new(10, |i: int| 0u32)) by {
                    assert forall|j: int| 0 <= j < 10 implies f0.inodes@[idx as int].zones@[j] == 0u32 by {
                        assert(blocks@[j] == 0);
                    }
                }
            }
            if let Err(e) = self.truncate(inode, target_bytes as u64) {
                proof {
                    if target_bytes > f0.inodes@[idx as int].size {
                        if !read_failure(f0, e) {
                            assert(e == FsError::NoBlocksLeft && zmap_full(*self));
                        }
                    }
                }
                return Err(e);
            }
        }
        let ghost f1 = *self;
        let z = self.inodes[idx].zones[0] as u64;
        let _ = self.write_block(z, tb);
        let mut ino = self.inodes[idx];
        ino.set_size(target_bytes as u64);
        self.inodes.set(idx, ino);
        proof {
            crate::minix::truncate::lemma_frame_trans(f0, f1, *self, inode, true);
        }
        Ok(target_bytes as u64)
    }
}

} // verus!
