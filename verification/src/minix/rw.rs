//! What a file write does to the blocks of a Minix 3 file, step by step
//! over the same visits a read makes, and what a read then gives back.
use crate::error::FsError;
use crate::minix::fs::{min, MinixFileSystem};
use crate::minix::read::{data_visits, overlay, sat_add, splice, zero_seq, ReadState, ReadStep, Visit};
use vstd::prelude::*;

verus! {

/// Where a file write stands: the bytes written, the offset still to skip,
/// the end of the blocks passed, the last block written, and the new
/// contents of the blocks written so far.
pub struct WriteState {
    pub written: u64,
    pub offset: u64,
    pub byte_at: u64,
    pub block: Seq<u8>,
    pub changed: Map<u64, Seq<u8>>,
}

/// The outcome of some steps of a write: go on, all bytes written, or an
/// error.
pub enum WriteStep {
    Go(WriteState),
    Done(WriteState),
    Fail(FsError),
}

/// The state a step sequence ended in, where it did not fail.
pub open spec fn end_state(s: WriteStep) -> Option<WriteState> {
    match s {
        WriteStep::Go(st) => Some(st),
        WriteStep::Done(st) => Some(st),
        WriteStep::Fail(_) => None,
    }
}

/// Whether `v` is a visit of data block `b`.
pub open spec fn is_data(v: Visit, b: u64) -> bool {
    v matches Visit::Data(x) && x == b
}

/// Whether `v` is a visit of pointer block `z`.
pub open spec fn is_ptr(v: Visit, z: u64) -> bool {
    v matches Visit::Ptr(x) && x == z
}

/// Whether no data block occurs twice among `vs` and none is also a
/// pointer block there.
pub open spec fn visits_apart(vs: Seq<Visit>) -> bool {
    &&& forall|i: int, j: int, b: u64| 0 <= i < j < vs.len() && #[trigger] is_data(vs[i], b) ==> !#[trigger] is_data(vs[j], b)
    &&& forall|i: int, j: int, b: u64| 0 <= i < vs.len() && 0 <= j < vs.len() && #[trigger] is_data(vs[i], b) ==> !#[trigger] is_ptr(vs[j], b)
}

impl MinixFileSystem {
    /// The bytes of block `b` during a write that has changed the blocks
    /// in `changed`.
    pub open spec fn current(&self, changed: Map<u64, Seq<u8>>, b: u64) -> Seq<u8> {
        if changed.contains_key(b) {
            changed[b]
        } else {
            self.content(b)
        }
    }

    /// One step of a write of `buf`: a pointer block must be readable
    /// while bytes are left; a data block is read, its part of the bytes
    /// put in, and written back.
    pub open spec fn write_visit(&self, v: Visit, buf: Seq<u8>, st: WriteState) -> WriteStep {
        let len = buf.len();
        if st.written >= len {
            WriteStep::Done(st)
        } else {
            match v {
                Visit::Ptr(z) => if self.readable(z) {
                    WriteStep::Go(st)
                } else {
                    WriteStep::Fail(self.read_err(z))
                },
                Visit::Data(b) => {
                    let bs = self.superblock.block_size as u64;
                    let byte_at = sat_add(st.byte_at, bs);
                    if byte_at <= st.offset {
                        WriteStep::Go(WriteState { byte_at, ..st })
                    } else if !self.readable(b) {
                        WriteStep::Fail(self.read_err(b))
                    } else {
                        let off = st.offset % bs;
                        let block = overlay(self.current(st.changed, b), st.block);
                        let k = min(bs - off, len - st.written);
                        let nb = splice(block, off as int, buf.subrange(st.written as int, st.written + k));
                        WriteStep::Go(
                            WriteState {
                                written: (st.written + k) as u64,
                                offset: 0,
                                byte_at,
                                block: nb,
                                changed: st.changed.insert(b, nb),
                            },
                        )
                    }
                },
            }
        }
    }

    /// The steps `vs` of a write of `buf`, from `st`.
    pub open spec fn run_write(&self, vs: Seq<Visit>, buf: Seq<u8>, st: WriteState) -> WriteStep
        decreases vs.len(),
    {
        if vs.len() == 0 {
            WriteStep::Go(st)
        } else {
            match self.write_visit(vs[0], buf, st) {
                WriteStep::Go(s2) => self.run_write(vs.drop_first(), buf, s2),
                other => other,
            }
        }
    }
}

/// Running `a + b` runs `a`, then `b` if `a` left the write going.
pub proof fn lemma_write_concat(fs: MinixFileSystem, a: Seq<Visit>, b: Seq<Visit>, buf: Seq<u8>, st: WriteState)
    ensures
        fs.run_write(a + b, buf, st) == match fs.run_write(a, buf, st) {
            WriteStep::Go(s2) => fs.run_write(b, buf, s2),
            other => other,
        },
    decreases a.len(),
{
    if a.len() == 0 {
        assert(a + b =~= b);
    } else {
        assert((a + b)[0] == a[0]);
        assert((a + b).drop_first() =~= a.drop_first() + b);
        match fs.write_visit(a[0], buf, st) {
            WriteStep::Go(s2) => {
                lemma_write_concat(fs, a.drop_first(), b, buf, s2);
            },
            _ => {},
        }
    }
}

/// Whether no step of `vs` visits data block `b`.
pub open spec fn untouched(vs: Seq<Visit>, b: u64) -> bool {
    forall|i: int| 0 <= i < vs.len() ==> !#[trigger] is_data(vs[i], b)
}

/// A write only adds bytes, keeps the length of its block, and changes
/// only readable data blocks that it visits.
pub proof fn lemma_write_keeps(fs: MinixFileSystem, vs: Seq<Visit>, buf: Seq<u8>, st: WriteState)
    requires
        st.written <= buf.len() <= u64::MAX,
        st.block.len() == fs.bsize(),
        fs.bsize() == 0 ==> st.byte_at == 0,
    ensures
        end_state(fs.run_write(vs, buf, st)) matches Some(e) ==> {
            &&& st.written <= e.written <= buf.len()
            &&& e.block.len() == st.block.len()
            &&& forall|b: u64| #[trigger] untouched(vs, b) ==> (e.changed.contains_key(b) == st.changed.contains_key(b) && (
            st.changed.contains_key(b) ==> e.changed[b] == st.changed[b]))
            &&& forall|b: u64| #[trigger] e.changed.contains_key(b) && !st.changed.contains_key(b) ==> fs.readable(b)
        },
    decreases vs.len(),
{
    if vs.len() > 0 && st.written < buf.len() {
        let rest = vs.drop_first();
        match vs[0] {
            Visit::Data(b) => {
                let bs = fs.superblock.block_size as u64;
                let byte_at = sat_add(st.byte_at, bs);
                if byte_at > st.offset && fs.readable(b) {
                    let off = st.offset % bs;
                    let block = overlay(fs.current(st.changed, b), st.block);
                    let k = min(bs - off, buf.len() - st.written);
                    assert(bs > 0);
                    assert(block.len() == st.block.len());
                    assert(off + k <= block.len());
                }
            },
            _ => {},
        }
        match fs.write_visit(vs[0], buf, st) {
            WriteStep::Go(s2) => {
                lemma_write_keeps(fs, rest, buf, s2);
                if let Some(e) = end_state(fs.run_write(rest, buf, s2)) {
                    assert forall|b: u64| #[trigger] untouched(vs, b) implies (e.changed.contains_key(b) == st.changed.contains_key(b)
                        && (st.changed.contains_key(b) ==> e.changed[b] == st.changed[b])) by {
                        assert forall|i: int| 0 <= i < rest.len() implies !#[trigger] is_data(rest[i], b) by {
                            assert(rest[i] == vs[i + 1]);
                            assert(!is_data(vs[i + 1], b));
                        }
                        assert(untouched(rest, b));
                        assert(!is_data(vs[0], b));
                        assert(s2.changed.contains_key(b) == st.changed.contains_key(b));
                        assert(st.changed.contains_key(b) ==> s2.changed[b] == st.changed[b]);
                    }
                    assert forall|b: u64| #[trigger] e.changed.contains_key(b) && !st.changed.contains_key(b) implies fs.readable(b) by {
                        if !s2.changed.contains_key(b) {
                        }
                    }
                }
            },
            _ => {},
        }
    }
}

/// Once all bytes are read, a read whose pointer blocks are all readable
/// goes on without change.
pub proof fn lemma_read_finished(fs: MinixFileSystem, vs: Seq<Visit>, to_read: u64, st: ReadState)
    requires
        st.read >= to_read,
        forall|i: int, z: u64| 0 <= i < vs.len() && #[trigger] is_ptr(vs[i], z) ==> fs.readable(z),
    ensures
        fs.run_read(vs, to_read, st) == ReadStep::Go(st) || fs.run_read(vs, to_read, st) == ReadStep::Done(st),
    decreases vs.len(),
{
    if vs.len() > 0 {
        match vs[0] {
            Visit::Ptr(z) => {
                assert(is_ptr(vs[0], z));
                assert forall|i: int, y: u64| 0 <= i < vs.drop_first().len() && #[trigger] is_ptr(vs.drop_first()[i], y) implies fs.readable(y) by {
                    assert(vs.drop_first()[i] == vs[i + 1]);
                    assert(is_ptr(vs[i + 1], y));
                }
                lemma_read_finished(fs, vs.drop_first(), to_read, st);
            },
            Visit::Data(_) => {},
        }
    }
}

/// A read over the steps a write went through, on the file system the
/// write left, gives back the bytes written: where each data block is
/// visited once and is no pointer block, and the pointer blocks can be
/// read. `rs` is the read's state, in step with the write's state `ws`.
pub proof fn lemma_read_what_was_written(
    base: MinixFileSystem,
    fin: MinixFileSystem,
    vs: Seq<Visit>,
    buf: Seq<u8>,
    ws: WriteState,
    rs: ReadState,
    k: u64,
)
    requires
        ws.written <= buf.len() <= u64::MAX,
        ws.block.len() == base.bsize(),
        base.bsize() > 0,
        fin.superblock == base.superblock,
        forall|b: u64| #[trigger] fin.readable(b) == base.readable(b),
        end_state(base.run_write(vs, buf, ws)) matches Some(e) && e.written == k && forall|b: u64| #[trigger]
            e.changed.contains_key(b) ==> fin.content(b) == e.changed[b],
        visits_apart(vs),
        forall|i: int, b: u64| 0 <= i < vs.len() && #[trigger] is_data(vs[i], b) ==> !ws.changed.contains_key(b),
        forall|i: int, z: u64| 0 <= i < vs.len() && #[trigger] is_ptr(vs[i], z) ==> base.readable(z),
        rs.read == ws.written,
        rs.offset == ws.offset,
        rs.byte_at == ws.byte_at,
        rs.block.len() == ws.block.len(),
        rs.out.len() >= k,
        rs.out.subrange(0, rs.read as int) == buf.subrange(0, rs.read as int),
    ensures
        match fin.run_read(vs, k, rs) {
            ReadStep::Go(e) => e.read == k && e.out.len() == rs.out.len() && e.out.subrange(0, k as int) == buf.subrange(
                0,
                k as int,
            ),
            ReadStep::Done(e) => e.read == k && e.out.len() == rs.out.len() && e.out.subrange(0, k as int) == buf.subrange(
                0,
                k as int,
            ),
            ReadStep::Fail(_, _) => false,
        },
    decreases vs.len(),
{
    lemma_write_keeps(base, vs, buf, ws);
    if vs.len() == 0 {
        return;
    }
    let rest = vs.drop_first();
    assert forall|i: int, j: int, b: u64| 0 <= i < j < rest.len() && #[trigger] is_data(rest[i], b) implies !#[trigger] is_data(
        rest[j],
        b,
    ) by {
        assert(rest[i] == vs[i + 1] && rest[j] == vs[j + 1]);
    }
    assert forall|i: int, j: int, b: u64| 0 <= i < rest.len() && 0 <= j < rest.len() && #[trigger] is_data(rest[i], b) implies !#[trigger] is_ptr(
        rest[j],
        b,
    ) by {
        assert(rest[i] == vs[i + 1] && rest[j] == vs[j + 1]);
    }
    assert forall|i: int, z: u64| 0 <= i < rest.len() && #[trigger] is_ptr(rest[i], z) implies base.readable(z) by {
        assert(rest[i] == vs[i + 1]);
    }
    let len = buf.len();
    if ws.written >= len {
        match vs[0] {
            Visit::Ptr(z) => {
                assert(is_ptr(vs[0], z));
                lemma_read_finished(fin, rest, k, rs);
            },
            Visit::Data(_) => {},
        }
        return;
    }
    match vs[0] {
        Visit::Ptr(z) => {
            assert(is_ptr(vs[0], z));
            assert forall|i: int, b: u64| 0 <= i < rest.len() && #[trigger] is_data(rest[i], b) implies !ws.changed.contains_key(b) by {
                assert(rest[i] == vs[i + 1]);
            }
            lemma_read_what_was_written(base, fin, rest, buf, ws, rs, k);
        },
        Visit::Data(b) => {
            assert(is_data(vs[0], b));
            let bs = base.superblock.block_size as u64;
            let byte_at = sat_add(ws.byte_at, bs);
            if byte_at <= ws.offset {
                let s2 = WriteState { byte_at, ..ws };
                let r2 = ReadState { byte_at, ..rs };
                assert forall|i: int, c: u64| 0 <= i < rest.len() && #[trigger] is_data(rest[i], c) implies !s2.changed.contains_key(c) by {
                    assert(rest[i] == vs[i + 1]);
                }
                lemma_read_what_was_written(base, fin, rest, buf, s2, r2, k);
            } else {
                let off = ws.offset % bs;
                let block = overlay(base.current(ws.changed, b), ws.block);
                let kw = min(bs - off, len - ws.written);
                let nb = splice(block, off as int, buf.subrange(ws.written as int, ws.written + kw));
                let s2 = WriteState {
                    written: (ws.written + kw) as u64,
                    offset: 0,
                    byte_at,
                    block: nb,
                    changed: ws.changed.insert(b, nb),
                };
                assert(base.write_visit(vs[0], buf, ws) == WriteStep::Go(s2));
                lemma_write_keeps(base, rest, buf, s2);
                let e = end_state(base.run_write(rest, buf, s2))->Some_0;
                assert forall|i: int| 0 <= i < rest.len() implies !#[trigger] is_data(rest[i], b) by {
                    assert(rest[i] == vs[i + 1]);
                    assert(!is_data(vs[i + 1], b));
                }
                assert(untouched(rest, b));
                assert(e.changed[b] == nb);
                assert(fin.content(b) == nb);
                assert(block.len() == ws.block.len());
                assert(nb.len() == block.len());
                assert(overlay(fin.content(b), rs.block) =~= nb);
                assert(fin.readable(b));
                let kr = min(bs - off, k - rs.read);
                assert(kr == kw);
                let out2 = splice(rs.out, rs.read as int, nb.subrange(off as int, off + kr));
                let r2 = ReadState { read: (rs.read + kr) as u64, offset: 0, byte_at, block: nb, out: out2 };
                assert(fin.read_visit(vs[0], k, rs) == ReadStep::Go(r2));
                assert(nb.subrange(off as int, off + kw) =~= buf.subrange(ws.written as int, ws.written + kw));
                assert(out2.subrange(0, r2.read as int) =~= buf.subrange(0, r2.read as int)) by {
                    assert forall|x: int| 0 <= x < r2.read implies out2[x] == buf[x] by {
                        if x < rs.read {
                            assert(out2[x] == rs.out[x]);
                            assert(rs.out.subrange(0, rs.read as int)[x] == buf.subrange(0, rs.read as int)[x]);
                        } else {
                            assert(out2[x] == nb[off + (x - rs.read)]);
                            assert(nb.subrange(off as int, off + kw)[x - rs.read] == buf.subrange(ws.written as int, ws.written + kw)[x
                                - rs.read]);
                        }
                    }
                }
                assert forall|i: int, c: u64| 0 <= i < rest.len() && #[trigger] is_data(rest[i], c) implies !s2.changed.contains_key(c) by {
                    assert(rest[i] == vs[i + 1]);
                    assert(c != b);
                }
                lemma_read_what_was_written(base, fin, rest, buf, s2, r2, k);
            }
        },
    }
}

/// A block untouched by two runs of steps is untouched by them in turn.
pub proof fn lemma_untouched_concat(a: Seq<Visit>, b: Seq<Visit>, x: u64)
    ensures
        untouched(a + b, x) == (untouched(a, x) && untouched(b, x)),
{
    if untouched(a, x) && untouched(b, x) {
        assert forall|i: int| 0 <= i < (a + b).len() implies !#[trigger] is_data((a + b)[i], x) by {
            if i < a.len() {
                assert((a + b)[i] == a[i]);
            } else {
                assert((a + b)[i] == b[i - a.len()]);
            }
        }
    }
    if untouched(a + b, x) {
        assert forall|i: int| 0 <= i < a.len() implies !#[trigger] is_data(a[i], x) by {
            assert((a + b)[i] == a[i]);
        }
        assert forall|i: int| 0 <= i < b.len() implies !#[trigger] is_data(b[i], x) by {
            assert((a + b)[i + a.len()] == b[i]);
        }
    }
}

/// In steps that keep data blocks and pointer blocks apart, a pointer
/// block at `j` is visited as data nowhere.
pub proof fn lemma_ptr_untouched(vs: Seq<Visit>, j: int, z: u64)
    requires
        visits_apart(vs),
        0 <= j < vs.len(),
        is_ptr(vs[j], z),
    ensures
        untouched(vs, z),
{
    assert forall|i: int| 0 <= i < vs.len() implies !#[trigger] is_data(vs[i], z) by {
        if is_data(vs[i], z) {
            assert(!is_ptr(vs[j], z));
        }
    }
}

/// A write that stops early stops because all bytes are written.
pub proof fn lemma_done_full(fs: MinixFileSystem, vs: Seq<Visit>, buf: Seq<u8>, st: WriteState)
    ensures
        fs.run_write(vs, buf, st) matches WriteStep::Done(e) ==> e.written >= buf.len(),
    decreases vs.len(),
{
    if vs.len() > 0 {
        match fs.write_visit(vs[0], buf, st) {
            WriteStep::Go(s2) => {
                lemma_done_full(fs, vs.drop_first(), buf, s2);
            },
            _ => {},
        }
    }
}


/// Once all bytes are written, the remaining steps change nothing.
pub proof fn lemma_write_finished(fs: MinixFileSystem, vs: Seq<Visit>, buf: Seq<u8>, st: WriteState)
    requires
        st.written >= buf.len(),
    ensures
        fs.run_write(vs, buf, st) == WriteStep::Go(st) || fs.run_write(vs, buf, st) == WriteStep::Done(st),
{
    if vs.len() > 0 {
        assert(fs.write_visit(vs[0], buf, st) == WriteStep::Done(st));
    }
}

/// Whether `fs` is `base` with the blocks in `ch` changed to what `ch`
/// holds: the same superblock and readable blocks.
pub open spec fn changed_view(base: MinixFileSystem, fs: MinixFileSystem, ch: Map<u64, Seq<u8>>) -> bool {
    &&& fs.superblock == base.superblock
    &&& forall|b: u64| #[trigger] fs.readable(b) == base.readable(b)
    &&& forall|b: u64| #[trigger] fs.content(b) == base.current(ch, b)
}

/// The zone pointers of inode `n` of `fs`, widened to block numbers.
pub open spec fn file_zones(fs: MinixFileSystem, n: u64) -> Seq<u64> {
    fs.inodes@[n - 1].zones@.map_values(|z: u32| z as u64)
}

/// Where a write at `offset` starts: nothing written, a zeroed block
/// buffer, no block changed.
pub open spec fn write_start(fs: MinixFileSystem, offset: u64) -> WriteState {
    WriteState { written: 0, offset, byte_at: 0, block: zero_seq(fs.bsize() as nat), changed: Map::empty() }
}

/// The steps of a write of `buf` at `offset` into the file of inode `n`,
/// over the blocks a read of that file visits.
pub open spec fn file_write(fs: MinixFileSystem, n: u64, offset: u64, buf: Seq<u8>) -> WriteStep {
    fs.run_write(fs.file_visits(file_zones(fs, n)), buf, write_start(fs, offset))
}

/// Whether no data block of the file of inode `n` occurs twice and none is
/// also one of its pointer blocks.
pub open spec fn blocks_apart(fs: MinixFileSystem, n: u64) -> bool {
    visits_apart(fs.file_visits(file_zones(fs, n)))
}

/// Whether every pointer block of the file of inode `n` can be read.
pub open spec fn pointers_readable(fs: MinixFileSystem, n: u64) -> bool {
    let vs = fs.file_visits(file_zones(fs, n));
    forall|i: int, z: u64| 0 <= i < vs.len() && #[trigger] is_ptr(vs[i], z) ==> fs.readable(z)
}

/// Whether `fin` is `fs` after a write of `buf` at `offset` into the file
/// of inode `n` that wrote `k` bytes: the file keeps its zone pointers,
/// and its blocks change as the steps of `file_write` change them.
pub open spec fn wrote(fs: MinixFileSystem, fin: MinixFileSystem, n: u64, offset: u64, buf: Seq<u8>, k: u64) -> bool {
    &&& file_zones(fin, n) == file_zones(fs, n)
    &&& end_state(file_write(fs, n, offset, buf)) matches Some(e) && e.written == k && changed_view(fs, fin, e.changed)
}

/// Whether `a` and `b` hold the same bytes in every pointer block among
/// `vs`.
spec fn ptrs_agree(a: MinixFileSystem, b: MinixFileSystem, vs: Seq<Visit>) -> bool {
    forall|i: int, z: u64| 0 <= i < vs.len() && #[trigger] is_ptr(vs[i], z) ==> a.content(z) == b.content(z)
}

/// Whether `a` and `b` have the same superblock and readable blocks.
spec fn same_reads(a: MinixFileSystem, b: MinixFileSystem) -> bool {
    &&& a.superblock == b.superblock
    &&& forall|x: u64| #[trigger] a.readable(x) == b.readable(x)
}

proof fn lemma_agree_split(a: MinixFileSystem, b: MinixFileSystem, s1: Seq<Visit>, s2: Seq<Visit>)
    requires
        ptrs_agree(a, b, s1 + s2),
    ensures
        ptrs_agree(a, b, s1),
        ptrs_agree(a, b, s2),
{
    assert forall|i: int, z: u64| 0 <= i < s1.len() && #[trigger] is_ptr(s1[i], z) implies a.content(z) == b.content(z) by {
        assert((s1 + s2)[i] == s1[i]);
    }
    assert forall|i: int, z: u64| 0 <= i < s2.len() && #[trigger] is_ptr(s2[i], z) implies a.content(z) == b.content(z) by {
        assert((s1 + s2)[i + s1.len()] == s2[i]);
    }
}

proof fn lemma_ind_same(a: MinixFileSystem, b: MinixFileSystem, z: u64)
    requires
        same_reads(a, b),
        ptrs_agree(a, b, a.ind_visits(z)),
    ensures
        b.ind_visits(z) == a.ind_visits(z),
{
    if z != 0 && a.readable(z) {
        assert(is_ptr(a.ind_visits(z)[0], z));
        assert(b.pointers(z) == a.pointers(z));
    }
}

proof fn lemma_ind_list_same(a: MinixFileSystem, b: MinixFileSystem, zs: Seq<u64>)
    requires
        same_reads(a, b),
        ptrs_agree(a, b, a.ind_list(zs)),
    ensures
        b.ind_list(zs) == a.ind_list(zs),
    decreases zs.len(),
{
    if zs.len() > 0 {
        lemma_agree_split(a, b, a.ind_visits(zs[0]), a.ind_list(zs.drop_first()));
        lemma_ind_same(a, b, zs[0]);
        lemma_ind_list_same(a, b, zs.drop_first());
    }
}

proof fn lemma_dind_same(a: MinixFileSystem, b: MinixFileSystem, z: u64)
    requires
        same_reads(a, b),
        ptrs_agree(a, b, a.dind_visits(z)),
    ensures
        b.dind_visits(z) == a.dind_visits(z),
{
    if z != 0 && a.readable(z) {
        assert(is_ptr(a.dind_visits(z)[0], z));
        assert(b.pointers(z) == a.pointers(z));
        lemma_agree_split(a, b, seq![Visit::Ptr(z)], a.ind_list(a.pointers(z)));
        lemma_ind_list_same(a, b, a.pointers(z));
    }
}

proof fn lemma_dind_list_same(a: MinixFileSystem, b: MinixFileSystem, zs: Seq<u64>)
    requires
        same_reads(a, b),
        ptrs_agree(a, b, a.dind_list(zs)),
    ensures
        b.dind_list(zs) == a.dind_list(zs),
    decreases zs.len(),
{
    if zs.len() > 0 {
        lemma_agree_split(a, b, a.dind_visits(zs[0]), a.dind_list(zs.drop_first()));
        lemma_dind_same(a, b, zs[0]);
        lemma_dind_list_same(a, b, zs.drop_first());
    }
}

proof fn lemma_tind_same(a: MinixFileSystem, b: MinixFileSystem, z: u64)
    requires
        same_reads(a, b),
        ptrs_agree(a, b, a.tind_visits(z)),
    ensures
        b.tind_visits(z) == a.tind_visits(z),
{
    if z != 0 && a.readable(z) {
        assert(is_ptr(a.tind_visits(z)[0], z));
        assert(b.pointers(z) == a.pointers(z));
        lemma_agree_split(a, b, seq![Visit::Ptr(z)], a.dind_list(a.pointers(z)));
        lemma_dind_list_same(a, b, a.pointers(z));
    }
}

/// Two file systems that agree on the pointer blocks of a file visit the
/// same blocks reading it.
proof fn lemma_file_visits_same(a: MinixFileSystem, b: MinixFileSystem, zs: Seq<u64>)
    requires
        same_reads(a, b),
        ptrs_agree(a, b, a.file_visits(zs)),
    ensures
        b.file_visits(zs) == a.file_visits(zs),
{
    let p1 = data_visits(zs.take(7));
    let p2 = a.ind_visits(zs[7]);
    let p3 = a.dind_visits(zs[8]);
    let p4 = a.tind_visits(zs[9]);
    lemma_agree_split(a, b, p1 + p2 + p3, p4);
    lemma_agree_split(a, b, p1 + p2, p3);
    lemma_agree_split(a, b, p1, p2);
    lemma_ind_same(a, b, zs[7]);
    lemma_dind_same(a, b, zs[8]);
    lemma_tind_same(a, b, zs[9]);
}

/// Read after write: after a write of `buf` at `offset` into the file of
/// inode `n` that wrote `k` bytes, the file is read over the same blocks,
/// and a read of `k` bytes from `offset` gives back the first `k` bytes of
/// `buf`. This holds where no data block of the file occurs twice or is
/// also one of its pointer blocks, and its pointer blocks can be read.
pub proof fn law_read_after_write(
    fs: MinixFileSystem,
    fin: MinixFileSystem,
    n: u64,
    offset: u64,
    buf: Seq<u8>,
    k: u64,
    out: Seq<u8>,
)
    requires
        fs.bsize() > 0,
        buf.len() <= u64::MAX,
        blocks_apart(fs, n),
        pointers_readable(fs, n),
        wrote(fs, fin, n, offset, buf, k),
        out.len() >= k,
    ensures
        fin.file_visits(file_zones(fin, n)) == fs.file_visits(file_zones(fs, n)),
        match fin.run_read(
            fin.file_visits(file_zones(fin, n)),
            k,
            ReadState { read: 0, offset, byte_at: 0, block: zero_seq(fin.bsize() as nat), out },
        ) {
            ReadStep::Go(e) => e.read == k && e.out.len() == out.len() && e.out.subrange(0, k as int) == buf.subrange(0, k as int),
            ReadStep::Done(e) => e.read == k && e.out.len() == out.len() && e.out.subrange(0, k as int) == buf.subrange(
                0,
                k as int,
            ),
            ReadStep::Fail(_, _) => false,
        },
{
    let zs = file_zones(fs, n);
    let vs = fs.file_visits(zs);
    let ws0 = write_start(fs, offset);
    let e = end_state(file_write(fs, n, offset, buf))->Some_0;
    lemma_write_keeps(fs, vs, buf, ws0);
    assert forall|i: int, z: u64| 0 <= i < vs.len() && #[trigger] is_ptr(vs[i], z) implies fs.content(z) == fin.content(z) by {
        lemma_ptr_untouched(vs, i, z);
        assert(!e.changed.contains_key(z));
    }
    assert(same_reads(fs, fin));
    lemma_file_visits_same(fs, fin, zs);
    assert(file_zones(fin, n) == zs);
    let rs = ReadState { read: 0, offset, byte_at: 0, block: zero_seq(fin.bsize() as nat), out };
    assert(rs.out.subrange(0, 0) =~= buf.subrange(0, 0));
    lemma_read_what_was_written(fs, fin, vs, buf, ws0, rs, k);
}

} // verus!
