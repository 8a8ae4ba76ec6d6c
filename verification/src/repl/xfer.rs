//! The shell's transfer commands: where `put`, `cp` and `mv` put things,
//! the checks they make, and the copying and moving itself.
use crate::cache::{item_view, trees_view, Item, ItemView};
use crate::bitmap::{count_false, counted_len};
use crate::error::FsError;
use crate::filetype::FileType;
use crate::fs::{FileSystem, InodeOperations, SuperblockOperations};
use crate::minix::fs::{min, MinixFileSystem};
use crate::bytes::u32_bytes;
use crate::minix::inode::{minix_type_bits, Inode};
use crate::minix::truncate::has_blocks;
use crate::minix::rw::{blocks_apart, wrote};
use crate::minix::write::{grown_for, growth_failed, write_outcome};
use crate::path::{
    build_path_deref, components, find_parent_mut, fname_from_path, get_item, join_abs, lemma_resolve_agree, lookup, noderef_components,
    parent_comps, spec_fname, strings_view, view_inode, view_name, walk, Lookup, Resolution, Walk,
};
use crate::repl::entry::{
    add_node, child_of, child_path, deref_of, entry_path, has_meta, make_node, node_added, push_entry, raw_path, NodeMeta,
};
use crate::repl::misc::{fits_file, fits_spec};
use crate::repl::dir::mkdir_at;
use crate::minix::create::split_found;
use crate::minix::unlink::name_gone;
use crate::cache::new_entry_view;
use crate::path::{first_named, replace_at};
use crate::repl::entry::trim_end_slashes;
use crate::minix::truncate::{blocks_for, max_file_blocks};
use crate::repl::outcome::CmdError;
use vstd::prelude::*;
use vstd::string::{StrSliceExecFns, StringExecFns};

verus! {

/// Where `name` from `cwd` puts something called `fname`: inside it where
/// it resolves to a directory, at it where it resolves to something else,
/// and where it resolves to nothing, at its name under its resolved
/// parent.
pub open spec fn spec_destination(fs: MinixFileSystem, cwd: Seq<Seq<char>>, name: Seq<char>, fname: Seq<char>, r: Result<String, CmdError>) -> bool {
    match deref_of(fs, cwd, name) {
        Resolution::Resolved(cs) => match lookup(trees_view(fs.tree@), components(join_abs(cs))) {
            Lookup::Found(v) => if v is Directory {
                r matches Ok(p) && p@ == child_of(join_abs(cs), fname)
            } else {
                r matches Ok(p) && p@ == join_abs(cs)
            },
            _ => r is Err,
        },
        _ => match deref_of(fs, Seq::empty(), join_abs(parent_comps(components(raw_path(cwd, name))))) {
            Resolution::Resolved(pcs) => r matches Ok(p) && p@ == child_of(join_abs(pcs), spec_fname(raw_path(cwd, name))),
            _ => r is Err,
        },
    }
}

/// The path where `put` stores a local file whose name is `local_name`,
/// given the remote argument `remote` from `cwd`: inside it where it is a
/// directory, at it where it is something else, else at its name under
/// its resolved parent.
pub fn put_destination(fs: &mut MinixFileSystem, cwd: &[String], local_name: &str, remote: &str) -> (r: Result<String, CmdError>)
    ensures
        final(fs).same_but_cache(&*old(fs)),
        spec_destination(*old(fs), strings_view(cwd@), remote@, local_name@, r),
{
    let ghost f0 = *fs;
    match build_path_deref(fs, cwd, remote) {
        Ok(existing) => {
            let item = match get_item(&*fs, existing.as_str()) {
                Ok(i) => i,
                Err(e) => {
                    return Err(CmdError::Fs(e));
                },
            };
            if item.is_dir() {
                Ok(child_path(existing.as_str(), local_name))
            } else {
                Ok(existing)
            }
        },
        Err(_) => {
            proof {
                let raw = raw_path(strings_view(cwd@), remote@);
                lemma_resolve_agree(
                    f0,
                    *fs,
                    components(join_abs(noderef_components(Seq::empty(), join_abs(parent_comps(components(raw)))))),
                    Seq::empty(),
                    Seq::empty(),
                );
            }
            match entry_path(fs, cwd, remote) {
                Ok(p) => Ok(p),
                Err(e) => Err(CmdError::Fs(e)),
            }
        },
    }
}

/// Where `cp` or `mv` puts the resolved source `src` for the argument
/// `dst` from `cwd`, if anywhere (see `resolve_dst`).
pub open spec fn dst_of(fs: MinixFileSystem, cwd: Seq<Seq<char>>, src: Seq<char>, dst: Seq<char>) -> Option<Seq<char>> {
    match deref_of(fs, cwd, dst) {
        Resolution::Resolved(cs) => match lookup(trees_view(fs.tree@), components(join_abs(cs))) {
            Lookup::Found(v) => match fs.inode_at(view_inode(v)) {
                Some(i) => if i.spec_file_type() == FileType::Directory {
                    Some(child_of(join_abs(cs), spec_fname(src)))
                } else {
                    Some(join_abs(cs))
                },
                None => None,
            },
            _ => None,
        },
        _ => match deref_of(fs, Seq::empty(), join_abs(parent_comps(components(raw_path(cwd, dst))))) {
            Resolution::Resolved(pcs) => Some(child_of(join_abs(pcs), spec_fname(raw_path(cwd, dst)))),
            _ => None,
        },
    }
}

/// The resolved source and destination of `cp` or `mv` of `src` to `dst`
/// from `cwd`, where the checks of `transfer_paths` pass.
pub open spec fn transfer_of(fs: MinixFileSystem, cwd: Seq<Seq<char>>, src: Seq<char>, dst: Seq<char>) -> Option<
    (Seq<char>, Seq<char>),
> {
    match deref_of(fs, cwd, src) {
        Resolution::Resolved(cs) => {
            let s = join_abs(cs);
            if s == seq!['/'] {
                None
            } else {
                match dst_of(fs, cwd, s, dst) {
                    Some(d) => if s == d || below(s, d) {
                        None
                    } else {
                        Some((s, d))
                    },
                    None => None,
                }
            }
        },
        _ => None,
    }
}

/// The destination of `cp` or `mv` of the resolved source `src` to `dst`
/// from `cwd`: inside `dst` where it resolves to a directory (by the type
/// of its inode), at it where it resolves to something else, else at its
/// name under its resolved parent.
pub fn resolve_dst(fs: &mut MinixFileSystem, cwd: &[String], src: &str, dst: &str) -> (r: Result<String, CmdError>)
    ensures
        final(fs).same_but_cache(&*old(fs)),
        forall|n: u64| #[trigger] final(fs).spec_symlink(n) == old(fs).spec_symlink(n),
        match dst_of(*old(fs), strings_view(cwd@), src@, dst@) {
            Some(d) => r matches Ok(p) && p@ == d,
            None => r is Err,
        },
        r matches Err(e) ==> e is Fs,
        match deref_of(*old(fs), strings_view(cwd@), dst@) {
            Resolution::Resolved(cs) => match lookup(trees_view(old(fs).tree@), components(join_abs(cs))) {
                Lookup::Found(v) => match old(fs).inode_at(view_inode(v)) {
                    Some(i) => if i.spec_file_type() == FileType::Directory {
                        r matches Ok(p) && p@ == child_of(join_abs(cs), spec_fname(src@))
                    } else {
                        r matches Ok(p) && p@ == join_abs(cs)
                    },
                    None => r is Err,
                },
                _ => r is Err,
            },
            _ => match deref_of(*old(fs), Seq::empty(), join_abs(parent_comps(components(raw_path(strings_view(cwd@), dst@))))) {
                Resolution::Resolved(pcs) => r matches Ok(p) && p@ == child_of(
                    join_abs(pcs),
                    spec_fname(raw_path(strings_view(cwd@), dst@)),
                ),
                _ => r is Err,
            },
        },
{
    let ghost f0 = *fs;
    match build_path_deref(fs, cwd, dst) {
        Ok(existing) => {
            let item = match get_item(&*fs, existing.as_str()) {
                Ok(i) => i,
                Err(e) => {
                    return Err(CmdError::Fs(e));
                },
            };
            let ft = match fs.get_inode(item.inode()) {
                Ok(i) => i.get_file_type(),
                Err(e) => {
                    return Err(CmdError::Fs(e));
                },
            };
            if ft == FileType::Directory {
                Ok(child_path(existing.as_str(), fname_from_path(src)))
            } else {
                Ok(existing)
            }
        },
        Err(_) => {
            proof {
                let raw = raw_path(strings_view(cwd@), dst@);
                lemma_resolve_agree(
                    f0,
                    *fs,
                    components(join_abs(noderef_components(Seq::empty(), join_abs(parent_comps(components(raw)))))),
                    Seq::empty(),
                    Seq::empty(),
                );
            }
            match entry_path(fs, cwd, dst) {
                Ok(p) => Ok(p),
                Err(e) => Err(CmdError::Fs(e)),
            }
        },
    }
}

/// The type of the node that the tree entry at `path` names, if the tree
/// has an entry there.
pub fn entry_type(fs: &mut MinixFileSystem, path: &str) -> (r: Result<Option<FileType>, CmdError>)
    ensures
        *final(fs) == *old(fs),
        match lookup(trees_view(old(fs).tree@), components(path@)) {
            Lookup::Found(v) => match old(fs).inode_at(view_inode(v)) {
                Some(i) => r == Ok::<Option<FileType>, CmdError>(Some(i.spec_file_type())),
                None => r is Err,
            },
            _ => r == Ok::<Option<FileType>, CmdError>(None),
        },
{
    match get_item(&*fs, path) {
        Ok(item) => match fs.get_inode(item.inode()) {
            Ok(i) => Ok(Some(i.get_file_type())),
            Err(e) => Err(CmdError::Fs(e)),
        },
        Err(_) => Ok(None),
    }
}

/// The number of free inodes.
pub open spec fn free_inodes(fs: MinixFileSystem) -> int {
    count_false(fs.imap.bits().take(counted_len(fs.imap.map.len() as nat, fs.imap.max as nat) as int)) as int
}

/// The number of free blocks.
pub open spec fn free_blocks(fs: MinixFileSystem) -> int {
    count_false(fs.zmap.bits().take(counted_len(fs.zmap.map.len() as nat, fs.zmap.max as nat) as int)) as int
}

/// The blocks of `bs` bytes that `size` bytes take.
pub open spec fn blocks_needed(size: u64, bs: u64) -> int {
    (size + bs - 1) / bs as int
}

proof fn lemma_ceil_div(s: int, b: int)
    requires
        s >= 0,
        b > 0,
    ensures
        (s + b - 1) / b == (if s == 0 { 0 } else { (s - 1) / b + 1 }),
{
    if s > 0 {
        vstd::arithmetic::div_mod::lemma_hoist_over_denominator(s - 1, 1, b as nat);
    } else {
        vstd::arithmetic::div_mod::lemma_fundamental_div_mod_converse(b - 1, b, 0, b - 1);
    }
}

/// Whether a new file of `size` bytes fits: an inode must be free and as
/// many blocks as it takes.
pub fn check_space(fs: &MinixFileSystem, size: u64) -> (r: Result<(), CmdError>)
    requires
        fs.editable(),
    ensures
        ({
            let need = blocks_needed(size, fs.superblock.block_size as u64);
            if free_inodes(*fs) == 0 {
                r matches Err(CmdError::NoFreeInodes)
            } else if free_blocks(*fs) < need {
                r matches Err(CmdError::NotEnoughBlocks { need: n, free: f }) && n == need && f == free_blocks(*fs)
            } else {
                r is Ok
            }
        }),
{
    let inodes = fs.get_num_inodes();
    let blocks = fs.get_num_blocks();
    let bs = fs.get_block_size();
    if inodes.free == 0 {
        return Err(CmdError::NoFreeInodes);
    }
    let need = if size == 0 {
        0
    } else {
        (size - 1) / bs + 1
    };
    proof {
        lemma_ceil_div(size as int, bs as int);
    }
    if blocks.free < need {
        return Err(CmdError::NotEnoughBlocks { need, free: blocks.free });
    }
    Ok(())
}

/// Store `data` as a new regular file at `remote` (its parent in the
/// tree) with permission bits `mode`, owner `uid`, group `gid` and times
/// `now`. Where writing the data fails the new entry is removed again.
#[verifier::spinoff_prover]
pub fn put_data(fs: &mut MinixFileSystem, remote: &String, data: &[u8], mode: u16, uid: u32, gid: u32, now: u64) -> (r: Result<
    u64,
    CmdError,
>)
    requires
        old(fs).editable(),
    ensures
        final(fs).editable(),
        r matches Ok(n) ==> node_added(
            *old(fs),
            *final(fs),
            remote@,
            n,
            NodeMeta { ftype: FileType::Regular, mode, uid, gid, size: data@.len() as u64, now },
        ),
        r matches Err(CmdError::TooLarge(k)) ==> k == data@.len() && !fits_spec(old(fs).superblock.block_size, data@.len()),
        r matches Err(c) ==> match c {
            CmdError::TooLarge(_) => true,
            CmdError::Fs(e) => crate::minix::create::alloc_error(*old(fs), e) || crate::minix::create::dentry_error(
                *old(fs),
                remote@,
                e,
            ) || !(walk(trees_view(old(fs).tree@), parent_comps(components(remote@))) is Reached) || (e == FsError::NoBlocksLeft
                && (blocks_for(data@.len() as int, old(fs).superblock.block_size as int) <= 7 ==> count_false(
                old(fs).zmap.bits(),
            ) <= blocks_for(data@.len() as int, old(fs).superblock.block_size as int))) || geometry_error(*old(fs), e),
            _ => false,
        },
        (r is Ok && data@.len() > 0) ==> exists|mid: MinixFileSystem, k: u64| #[trigger] put_written(mid, *final(fs), r->Ok_0, data@, k),
{
    let m = NodeMeta { ftype: FileType::Regular, mode, uid, gid, size: 0, now };
    let ghost f0 = *fs;
    let n = match add_node(fs, remote, &m) {
        Ok(n) => n,
        Err(e) => {
            return Err(CmdError::Fs(e));
        },
    };
    let len = data.len() as u64;
    if len > 0 {
        if !fits_file(fs.superblock.block_size, len) {
            let _ = fs.unlink(remote);
            return Err(CmdError::TooLarge(len));
        }
        let ghost f1 = *fs;
        proof {
            crate::repl::entry::lemma_meta_type(fs.inodes@[n - 1], m);
        }
        match fs.write_file(n, 0, data) {
            Ok(k) => {
                proof {
                    let mid = choose|mid: MinixFileSystem| #[trigger] grown_for(mid, f1, n, data@.len() as int)
                        && fs.same_but_cache(&mid) && (blocks_apart(mid, n) ==> write_outcome(mid, *fs, n, 0, data@, Ok(k)));
                    if blocks_apart(mid, n) {
                        assert(write_outcome(mid, *fs, n, 0, data@, Ok(k)));
                        assert(wrote(mid, *fs, n, 0, data@, k));
                    } else {
                        assert(!blocks_apart(mid, n) || wrote(mid, *fs, n, 0, data@, k));
                    }
                    assert(put_written(mid, *fs, n, data@, k));
                }
            },
            Err(e) => {
                proof {
                    let bs = f0.superblock.block_size as int;
                    if growth_failed(f1, *fs, n, data@.len() as int, e) && e == FsError::NoBlocksLeft {
                        if blocks_for(data@.len() as int, bs) <= 7 {
                            assert(count_false(f1.zmap.bits()) < blocks_for(data@.len() as int, bs));
                            if f1.zmap.bits() != f0.zmap.bits() {
                                let t = choose|t: int| #[trigger] crate::bitmap::is_first_clear(f0.zmap.bits(), t)
                                    && f1.zmap.bits() == f0.zmap.bits().update(t, true);
                                crate::bitmap::lemma_count_false_take(f0.zmap.bits(), t);
                            }
                        }
                    } else if growth_failed(f1, *fs, n, data@.len() as int, e) {
                        assert(crate::minix::truncate::read_failure(f1, e));
                        lemma_geometry_error(f1, f0, e);
                    } else {
                        lemma_geometry_error(f1, f0, e);
                    }
                }
                let _ = fs.unlink(remote);
                return Err(CmdError::Fs(e));
            },
        }
        assert(fs.inodes@[n - 1].size == len as u32);
    }
    Ok(n)
}

/// Whether `fin` holds `data` in the new file of inode `n`, written from
/// its start, `mid` being the file system with the file sized to it and
/// `k` the bytes written.
pub open spec fn put_written(mid: MinixFileSystem, fin: MinixFileSystem, n: u64, data: Seq<u8>, k: u64) -> bool {
    &&& mid.wf()
    &&& mid.inodes@[n - 1].size == data.len() as u32
    &&& fin.same_but_cache(&mid)
    &&& blocks_apart(mid, n) ==> wrote(mid, fin, n, 0, data, k)
}

/// Whether `e` is an error that copying the node of inode `n`, not a
/// directory, to `dst` can give on `fs`: the node or its link target
/// cannot be read, the new node or its entry cannot be made, there is no
/// room for its data, or a block cannot be read.
pub open spec fn copy_error(fs: MinixFileSystem, n: u64, dst: Seq<char>, e: FsError) -> bool {
    let bs = fs.superblock.block_size as int;
    let size = fs.inodes@[n - 1].size as int;
    ||| e == FsError::InvalidInode { inode: n }
    ||| e == FsError::OffsetBeyondEof
    ||| e == FsError::SymlinkTooLarge
    ||| fs.symlink_target(n) == Err::<Seq<char>, FsError>(e)
    ||| crate::minix::create::alloc_error(fs, e)
    ||| crate::minix::create::dentry_error(fs, dst, e)
    ||| !(walk(trees_view(fs.tree@), parent_comps(components(dst))) is Reached)
    ||| e == FsError::NoBlocksLeft && (blocks_for(size, bs) <= 7 ==> count_false(fs.zmap.bits()) <= blocks_for(size, bs) + 1)
    ||| geometry_error(fs, e)
}

/// A read that fails, fails on a block that cannot be read.
proof fn lemma_read_fail(
    fs: MinixFileSystem,
    vs: Seq<crate::minix::read::Visit>,
    to_read: u64,
    st: crate::minix::read::ReadState,
)
    ensures
        fs.run_read(vs, to_read, st) matches crate::minix::read::ReadStep::Fail(e, _) ==> crate::minix::truncate::read_failure(fs, e),
    decreases vs.len(),
{
    if vs.len() > 0 {
        match fs.read_visit(vs[0], to_read, st) {
            crate::minix::read::ReadStep::Go(s2) => {
                lemma_read_fail(fs, vs.drop_first(), to_read, s2);
            },
            crate::minix::read::ReadStep::Fail(e, _) => {
                match vs[0] {
                    crate::minix::read::Visit::Ptr(z) => {
                        assert(!fs.readable(z) && e == fs.read_err(z));
                    },
                    crate::minix::read::Visit::Data(b) => {
                        assert(!fs.readable(b) && e == fs.read_err(b));
                    },
                }
            },
            _ => {},
        }
    }
}

/// No block read fails for want of free zones.
proof fn lemma_no_read_failure(fs: MinixFileSystem, e: FsError)
    requires
        e == FsError::NoBlocksLeft,
    ensures
        !crate::minix::truncate::read_failure(fs, e),
{
    if crate::minix::truncate::read_failure(fs, e) {
        let b = choose|b: u64| !#[trigger] fs.readable(b) && e == fs.read_err(b);
        assert(fs.read_err(b) != FsError::NoBlocksLeft);
    }
}

/// Whether `e` is the error of reading a block that the superblock and
/// image of `fs` leave unreadable: one outside the data zones, or one past
/// the image's end.
pub open spec fn geometry_error(fs: MinixFileSystem, e: FsError) -> bool {
    exists|b: u64|
        #![trigger fs.block_bounds_error(b)]
        fs.block_bounds_error(b) == Some(e) || (fs.block_bounds_error(b) is None && e == FsError::UnexpectedEof && b * fs.bsize()
            + fs.bsize() > fs.image@.len())
}

/// A read failure on a file system is one its superblock and image give,
/// on any file system with the same superblock and image.
proof fn lemma_geometry_error(f1: MinixFileSystem, f0: MinixFileSystem, e: FsError)
    requires
        crate::minix::truncate::read_failure(f1, e),
        f1.superblock == f0.superblock,
        f1.image == f0.image,
    ensures
        geometry_error(f0, e),
{
    let b = choose|b: u64| !#[trigger] f1.readable(b) && e == f1.read_err(b);
    assert(f0.block_bounds_error(b) == f1.block_bounds_error(b));
}

/// The file that `get`, `cat`, `head` and `hexdump` read for `name` from
/// `cwd`: its resolved path, inode number and size. It must be a regular
/// file.
pub fn get_source(fs: &mut MinixFileSystem, cwd: &[String], name: &str) -> (r: Result<(String, u64, u64), CmdError>)
    ensures
        final(fs).same_but_cache(&*old(fs)),
        r matches Ok((p, n, size)) ==> {
            &&& deref_of(*old(fs), strings_view(cwd@), name@) matches Resolution::Resolved(cs)
            &&& p@ == join_abs(cs)
            &&& lookup(trees_view(old(fs).tree@), components(p@)) matches Lookup::Found(v)
            &&& !(v is Directory)
            &&& n == view_inode(v)
            &&& old(fs).inode_at(n) matches Some(i)
            &&& i.spec_file_type() == FileType::Regular
            &&& size == i.size
        },
        r matches Err(CmdError::IsADirectory(s)) ==> deref_of(*old(fs), strings_view(cwd@), name@) matches Resolution::Resolved(
            cs,
        ) && s@ == join_abs(cs),
        r matches Err(CmdError::NotRegular(s)) ==> deref_of(*old(fs), strings_view(cwd@), name@) matches Resolution::Resolved(
            cs,
        ) && s@ == join_abs(cs),
{
    let path = match build_path_deref(fs, cwd, name) {
        Ok(p) => p,
        Err(e) => {
            return Err(CmdError::Fs(e));
        },
    };
    let item = match get_item(&*fs, path.as_str()) {
        Ok(i) => i,
        Err(e) => {
            return Err(CmdError::Fs(e));
        },
    };
    if item.is_dir() {
        return Err(CmdError::IsADirectory(path));
    }
    let n = item.inode();
    let (ft, size) = match fs.get_inode(n) {
        Ok(i) => (i.get_file_type(), i.get_size()),
        Err(e) => {
            return Err(CmdError::Fs(e));
        },
    };
    if ft != FileType::Regular {
        return Err(CmdError::NotRegular(path));
    }
    Ok((path, n, size))
}

/// The size of the pieces `get` reads a file in.
pub const READ_CHUNK: u64 = 4096;

/// How many pieces of at most `READ_CHUNK` bytes it takes to read `size`
/// bytes.
pub open spec fn chunk_count(size: nat) -> nat {
    ((size + READ_CHUNK - 1) / (READ_CHUNK as int)) as nat
}

/// Read `size` bytes of the file of inode `n` from the start, in pieces
/// of at most `READ_CHUNK` bytes, as many pieces as `size` takes. Give
/// back the pieces read, or, where a read fails, the pieces read before
/// it with the error.
pub fn read_chunks(fs: &mut MinixFileSystem, n: u64, size: u64) -> (r: Result<Vec<Vec<u8>>, (Vec<Vec<u8>>, FsError)>)
    requires
        size <= u32::MAX,
    ensures
        final(fs).same_content(&*old(fs)),
        size == 0 ==> (r matches Ok(v) && v@.len() == 0),
        r matches Ok(v) ==> {
            &&& v@.len() == chunk_count(size as nat)
            &&& forall|k: int| 0 <= k < v@.len() ==> #[trigger] v@[k]@.len() <= READ_CHUNK && v@[k]@.len() <= size
        },
        r matches Err((v, e)) ==> {
            &&& v@.len() < chunk_count(size as nat)
            &&& forall|k: int| 0 <= k < v@.len() ==> #[trigger] v@[k]@.len() <= READ_CHUNK && v@[k]@.len() <= size
        },
        size > 0 && old(fs).inode_at(n) is None
            ==> (r matches Err((v, e)) && v@.len() == 0 && e == FsError::InvalidInode { inode: n }),
{
    let mut out: Vec<Vec<u8>> = Vec::new();
    if size == 0 {
        return Ok(out);
    }
    let chunk = if size < READ_CHUNK { size } else { READ_CHUNK };
    let pieces = (size - 1) / chunk + 1;
    proof {
        if size < READ_CHUNK {
            assert((size - 1) / (size as int) == 0) by (nonlinear_arith)
                requires
                    size >= 1,
            ;
        } else {
            assert((size - 1) / 4096 + 1 == (size + 4095) / 4096) by (nonlinear_arith)
                requires
                    size >= 1,
            ;
        }
    }
    assert(pieces == chunk_count(size as nat));
    let mut buffer = crate::bytes::zeros(chunk as usize);
    let mut total: u64 = 0;
    let mut i: u64 = 0;
    let ghost f0 = *fs;
    proof {
        crate::minix::read::lemma_same_content_refl(f0);
    }
    while i < pieces
        invariant
            1 <= chunk <= READ_CHUNK,
            buffer@.len() == chunk,
            pieces <= size <= u32::MAX,
            i <= pieces,
            pieces == chunk_count(size as nat),
            chunk <= size,
            out@.len() == i,
            total <= i * READ_CHUNK,
            fs.same_content(&f0),
            f0 == *old(fs),
            forall|k: int| 0 <= k < out@.len() ==> #[trigger] out@[k]@.len() <= READ_CHUNK && out@[k]@.len() <= size,
            f0.inode_at(n) is None ==> i == 0,
        decreases pieces - i,
    {
        let ghost fi = *fs;
        let got = fs.read_file(n, total, buffer.as_mut_slice());
        proof {
            crate::minix::read::lemma_same_content_trans(f0, fi, *fs);
        }
        match got {
            Ok(k) => {
                let k = if k > chunk { chunk } else { k };
                let piece = crate::bytes::copy_range(buffer.as_slice(), 0, k as usize);
                out.push(piece);
                total = total + k;
            },
            Err(e) => {
                return Err((out, e));
            },
        }
        i += 1;
    }
    Ok(out)
}

/// `a` without its trailing `/` characters, a `/`, then `b`.
pub open spec fn slash_join(a: Seq<char>, b: Seq<char>) -> Seq<char> {
    trim_end_slashes(a) + seq!['/'] + b
}

/// `a` without its trailing `/` characters, a `/`, then `b`.
pub fn join_slash(a: &str, b: &str) -> (r: String)
    ensures
        r@ == slash_join(a@, b@),
{
    if a.unicode_len() == 1 && a.get_char(0) == '/' {
        proof {
            assert(a@ =~= seq!['/']);
            assert(a@.drop_last() =~= Seq::<char>::empty());
            assert(trim_end_slashes(a@) == trim_end_slashes(Seq::<char>::empty()));
        }
        let mut out = String::from_str("/");
        out.append(b);
        proof {
            reveal_strlit("/");
        }
        return out;
    }
    child_path(a, b)
}

/// A symbolic link target of at most 64 bytes takes a block of 64 bytes
/// or more at most once.
proof fn lemma_small_file_blocks(n: int, bs: int)
    requires
        0 <= n <= 64,
        bs >= 64,
    ensures
        blocks_for(n, bs) <= 1,
        blocks_for(n, bs) <= max_file_blocks(bs),
{
    assert((n + bs - 1) / bs <= 1) by (nonlinear_arith)
        requires
            0 <= n <= 64,
            bs >= 64,
    ;
    assert(bs / 4 >= 0 && (bs / 4) * (bs / 4) >= 0 && (bs / 4) * (bs / 4) * (bs / 4) >= 0) by (nonlinear_arith)
        requires
            bs >= 64,
    ;
}

/// Whether `fs` holds, at `dst` in its tree, the copy of a file or
/// symbolic link whose inode was `i`: an entry named as the last component
/// of `dst`, whose inode has the type, permission bits, owner and group of
/// `i`, and, for a file, its size.
pub open spec fn copied_node(fs: MinixFileSystem, dst: Seq<char>, i: Inode) -> bool {
    let ft = i.spec_file_type();
    &&& ft == FileType::Regular || ft == FileType::Symlink
    &&& match walk(trees_view(fs.tree@), parent_comps(components(dst))) {
        Walk::Reached(p) => p.len() > 0 && view_name(p.last()) == spec_fname(dst) && match fs.inode_at(view_inode(p.last())) {
            Some(j) => {
                &&& j.spec_file_type() == ft
                &&& j.mode == minix_type_bits(ft) | (i.mode & 0o777)
                &&& j.uid == i.uid
                &&& j.gid == i.gid
                &&& ft == FileType::Regular ==> j.size == i.size
            },
            None => false,
        },
        _ => false,
    }
}

/// Copy the tree entry `item`, found at `src`, to `dst`: a directory (only
/// where `recursive`) as a new directory with the same permission bits,
/// owner and group, then each of its entries but `.` and `..` into it; a
/// regular file as a new file with the same bytes; a symbolic link as a
/// new link to the same target. New nodes get the times `now`. Each copy
/// made is logged as its source and destination paths.
pub fn copy_item(
    fs: &mut MinixFileSystem,
    item: &Item,
    src: String,
    dst: String,
    recursive: bool,
    now: u64,
    log: &mut Vec<(String, String)>,
) -> (r: Result<(), CmdError>)
    requires
        old(fs).editable(),
    ensures
        final(fs).editable(),
        final(log)@.len() >= old(log)@.len(),
        item is Directory && !recursive ==> (r matches Err(CmdError::OmitDirectory(s)) && s@ == src@ && *final(fs) == *old(fs)),
        (!(item is Directory) && r is Ok) ==> (old(fs).inode_at(item.spec_inode()) matches Some(i) && copied_node(
            *final(fs),
            dst@,
            i,
        )),
        r matches Err(CmdError::Fs(e)) ==> (item is Directory || copy_error(*old(fs), item.spec_inode(), dst@, e)),
    decreases item,
{
    let n = item.inode();
    let (ft, size, mode, uid, gid) = match fs.get_inode(n) {
        Ok(i) => (i.get_file_type(), i.get_size(), i.get_mode(), i.get_uid(), i.get_gid()),
        Err(e) => {
            if item.is_dir() && !recursive {
                return Err(CmdError::OmitDirectory(src));
            }
            return Err(CmdError::Fs(e));
        },
    };
    match item {
        Item::Directory(_, children) => {
            if !recursive {
                return Err(CmdError::OmitDirectory(src));
            }
            mkdir_at(fs, &dst, mode, uid, gid, now)?;
            log.push((src.clone(), dst.clone()));
            let mut i: usize = 0;
            while i < children.len()
                invariant
                    fs.editable(),
                    log@.len() >= old(log)@.len(),
                    i <= children@.len(),
                    *item is Directory,
                    (*item)->Directory_1 == *children,
                    recursive,
                decreases children@.len() - i,
            {
                let c = &children[i];
                let name = c.clone_name();
                let t = name.as_str();
                let k = t.unicode_len();
                let dot = (k == 1 && t.get_char(0) == '.') || (k == 2 && t.get_char(0) == '.' && t.get_char(1) == '.');
                if !dot {
                    let cs = join_slash(src.as_str(), t);
                    let cd = join_slash(dst.as_str(), t);
                    proof {
                        assert(decreases_to!(*item => (*item)->Directory_1));
                        assert(decreases_to!(*children => children@));
                        assert(decreases_to!(children@ => children@[i as int]));
                    }
                    copy_item(fs, c, cs, cd, recursive, now, log)?;
                }
                i += 1;
            }
            Ok(())
        },
        _ => {
            if ft == FileType::Regular {
                let ghost i0 = fs.inodes@[n - 1];
                let m = NodeMeta { ftype: FileType::Regular, mode, uid, gid, size: 0, now };
                let ghost fa = *fs;
                let new_n = match make_node(fs, &dst, &m) {
                    Ok(x) => x,
                    Err(e) => {
                        return Err(CmdError::Fs(e));
                    },
                };
                let ghost fm = *fs;
                proof {
                    let im = i0.mode;
                    assert((im & 0o777u16) & 0o777u16 == im & 0o777u16) by (bit_vector);
                    crate::repl::entry::lemma_meta_type(fs.inodes@[new_n - 1], m);
                }
                if size > 0 {
                    if !fits_file(fs.superblock.block_size, size) || size > 0xFFFF_FFFF {
                        return Err(CmdError::TooLarge(size));
                    }
                    let mut buf = crate::bytes::zeros(size as usize);
                    let ghost b0 = buf@;
                    if let Err(e) = fs.read_file(n, 0, buf.as_mut_slice()) {
                        proof {
                            if let Some(ino) = fm.inode_at(n) {
                                if 0 < ino.size {
                                    lemma_read_fail(
                                        fm,
                                        fm.file_visits(ino.zones@.map_values(|z: u32| z as u64)),
                                        min(b0.len() as int, ino.size - 0) as u64,
                                        crate::minix::read::ReadState {
                                            read: 0,
                                            offset: 0,
                                            byte_at: 0,
                                            block: crate::minix::read::zero_seq(fm.bsize() as nat),
                                            out: b0,
                                        },
                                    );
                                    lemma_geometry_error(fm, fa, e);
                                }
                            }
                        }
                        return Err(CmdError::Fs(e));
                    }
                    let ghost fr = *fs;
                    proof {
                        crate::repl::entry::lemma_meta_type(fs.inodes@[new_n - 1], m);
                    }
                    if let Err(e) = fs.write_file(new_n, 0, buf.as_slice()) {
                        proof {
                            let bs = fa.superblock.block_size as int;
                            if e == FsError::NoBlocksLeft {
                                lemma_no_read_failure(fr, e);
                                assert(growth_failed(fr, *fs, new_n, size as int, e));
                                if blocks_for(size as int, bs) <= 7 {
                                    assert(count_false(fr.zmap.bits()) < blocks_for(size as int, bs));
                                    if fm.zmap.bits() != fa.zmap.bits() {
                                        let t = choose|t: int| #[trigger] crate::bitmap::is_first_clear(fa.zmap.bits(), t)
                                            && fm.zmap.bits() == fa.zmap.bits().update(t, true);
                                        crate::bitmap::lemma_count_false_take(fa.zmap.bits(), t);
                                    }
                                }
                            } else if growth_failed(fr, *fs, new_n, size as int, e) {
                                assert(crate::minix::truncate::read_failure(fr, e));
                                lemma_geometry_error(fr, fa, e);
                            } else {
                                lemma_geometry_error(fr, fa, e);
                            }
                        }
                        return Err(CmdError::Fs(e));
                    }
                }
                let fname = fname_from_path(dst.as_str()).to_owned();
                let entry = Item::new(fname, new_n, FileType::Regular);
                let ghost t1 = trees_view(fs.tree@);
                let ghost ev = item_view(entry);
                proof {
                    crate::path::lemma_view_name(entry);
                }
                if let Err(e) = push_entry(fs, dst.as_str(), entry) {
                    return Err(CmdError::Fs(e));
                }
                proof {
                    let pc = parent_comps(components(dst@));
                    let p = walk(t1, pc)->Reached_0;
                    crate::path::law_walk_replace(t1, pc, p.push(ev));
                    assert(p.push(ev).last() == ev);
                    assert(walk(trees_view(fs.tree@), pc) == Walk::Reached(p.push(ev)));
                    assert(copied_node(*fs, dst@, i0));
                }
                log.push((src, dst));
                Ok(())
            } else if ft == FileType::Symlink {
                let target = match fs.read_symlink(n) {
                    Ok(t) => t,
                    Err(e) => {
                        return Err(CmdError::Fs(e));
                    },
                };
                let ghost i0 = old(fs).inodes@[n - 1];
                let m = NodeMeta { ftype: FileType::Symlink, mode, uid, gid, size: 0, now };
                let new_n = match make_node(fs, &dst, &m) {
                    Ok(x) => x,
                    Err(e) => {
                        return Err(CmdError::Fs(e));
                    },
                };
                proof {
                    let im = i0.mode;
                    assert((im & 0o777u16) & 0o777u16 == im & 0o777u16) by (bit_vector);
                    crate::repl::entry::lemma_meta_type(fs.inodes@[new_n - 1], m);
                    if vstd::utf8::encode_utf8(target@).len() <= 64 {
                        lemma_small_file_blocks(vstd::utf8::encode_utf8(target@).len() as int, fs.superblock.block_size as int);
                    }
                    lemma_small_file_blocks(0, fs.superblock.block_size as int);
                }
                let ghost fm = *fs;
                if let Err(e) = fs.write_symlink(new_n, &target) {
                    proof {
                        crate::repl::entry::lemma_editable_block_size(fm.superblock.block_size);
                        if e == FsError::NoBlocksLeft && vstd::utf8::encode_utf8(target@).len() <= 64 {
                            lemma_no_read_failure(fm, e);
                            lemma_small_file_blocks(vstd::utf8::encode_utf8(target@).len() as int, fm.superblock.block_size as int);
                            if fm.zmap.bits() != old(fs).zmap.bits() {
                                let t = choose|t: int| #[trigger] crate::bitmap::is_first_clear(old(fs).zmap.bits(), t)
                                    && fm.zmap.bits() == old(fs).zmap.bits().update(t, true);
                                crate::bitmap::lemma_count_false_take(old(fs).zmap.bits(), t);
                            }
                        } else if e != FsError::SymlinkTooLarge {
                            lemma_geometry_error(fm, *old(fs), e);
                        }
                    }
                    return Err(CmdError::Fs(e));
                }
                let fname = fname_from_path(dst.as_str()).to_owned();
                let entry = Item::new(fname, new_n, FileType::Symlink);
                let ghost t1 = trees_view(fs.tree@);
                let ghost ev = item_view(entry);
                proof {
                    crate::path::lemma_view_name(entry);
                }
                if let Err(e) = push_entry(fs, dst.as_str(), entry) {
                    return Err(CmdError::Fs(e));
                }
                proof {
                    let pc = parent_comps(components(dst@));
                    let p = walk(t1, pc)->Reached_0;
                    crate::path::law_walk_replace(t1, pc, p.push(ev));
                    assert(p.push(ev).last() == ev);
                    assert(walk(trees_view(fs.tree@), pc) == Walk::Reached(p.push(ev)));
                    assert(copied_node(*fs, dst@, i0));
                }
                log.push((src, dst));
                Ok(())
            } else {
                Err(CmdError::CannotCopy(ft, src))
            }
        },
    }
}

/// Whether `dst` lies below the directory `src`: it starts with `src`
/// and a `/`.
pub open spec fn below(src: Seq<char>, dst: Seq<char>) -> bool {
    let pre = src + seq!['/'];
    pre.len() <= dst.len() && dst.take(pre.len() as int) == pre
}

/// Whether `dst` starts with `src` and a `/`.
fn is_below(src: &str, dst: &str) -> (r: bool)
    ensures
        r == below(src@, dst@),
{
    let n = src.unicode_len();
    let m = dst.unicode_len();
    if n >= m {
        return false;
    }
    let mut i: usize = 0;
    while i < n
        invariant
            n == src@.len(),
            m == dst@.len(),
            n + 1 <= m,
            i <= n,
            forall|j: int| 0 <= j < i ==> src@[j] == dst@[j],
        decreases n - i,
    {
        if src.get_char(i) != dst.get_char(i) {
            assert((src@ + seq!['/'])[i as int] != dst@.take(n + 1)[i as int]);
            return false;
        }
        i += 1;
    }
    let r = dst.get_char(n) == '/';
    proof {
        if r {
            assert(dst@.take(n + 1) =~= src@ + seq!['/']);
        } else {
            assert((src@ + seq!['/'])[n as int] != dst@.take(n + 1)[n as int]);
        }
    }
    r
}

/// Whether `s` is the root path `/`.
fn is_root(s: &str) -> (r: bool)
    ensures
        r == (s@ == seq!['/']),
{
    let r = s.unicode_len() == 1 && s.get_char(0) == '/';
    proof {
        if r {
            assert(s@ =~= seq!['/']);
        }
    }
    r
}

/// Whether `a` and `b` hold the same characters.
fn same_str(a: &str, b: &str) -> (r: bool)
    ensures
        r == (a@ == b@),
{
    let n = a.unicode_len();
    if n != b.unicode_len() {
        return false;
    }
    let mut i: usize = 0;
    while i < n
        invariant
            n == a@.len() == b@.len(),
            i <= n,
            forall|j: int| 0 <= j < i ==> a@[j] == b@[j],
        decreases n - i,
    {
        if a.get_char(i) != b.get_char(i) {
            return false;
        }
        i += 1;
    }
    assert(a@ =~= b@);
    true
}

/// The checks of `cp` and `mv` on `src` and `dst` from `cwd`: the source
/// resolves and is not the root, the destination resolves (see
/// `resolve_dst`), is not the source and is not below it. Give back the
/// resolved source and destination.
pub fn transfer_paths(fs: &mut MinixFileSystem, cwd: &[String], src: &str, dst: &str) -> (r: Result<(String, String), CmdError>)
    ensures
        final(fs).same_but_cache(&*old(fs)),
        forall|n: u64| #[trigger] final(fs).spec_symlink(n) == old(fs).spec_symlink(n),
        match transfer_of(*old(fs), strings_view(cwd@), src@, dst@) {
            Some((s, d)) => r matches Ok((a, b)) && a@ == s && b@ == d,
            None => r is Err,
        },
        r matches Ok((s, d)) ==> {
            &&& deref_of(*old(fs), strings_view(cwd@), src@) matches Resolution::Resolved(cs)
            &&& s@ == join_abs(cs)
            &&& s@ != seq!['/']
            &&& s@ != d@
            &&& !below(s@, d@)
        },
        r matches Err(CmdError::RootDirectory) ==> deref_of(*old(fs), strings_view(cwd@), src@) matches Resolution::Resolved(cs)
            && join_abs(cs) == seq!['/'],
{
    let ghost f0 = *fs;
    let s = match build_path_deref(fs, cwd, src) {
        Ok(p) => p,
        Err(e) => {
            return Err(CmdError::Fs(e));
        },
    };
    if is_root(s.as_str()) {
        return Err(CmdError::RootDirectory);
    }
    let ghost f1 = *fs;
    proof {
        let raw = raw_path(strings_view(cwd@), dst@);
        lemma_resolve_agree(f0, f1, components(join_abs(noderef_components(strings_view(cwd@), dst@))), Seq::empty(), Seq::empty());
        lemma_resolve_agree(
            f0,
            f1,
            components(join_abs(noderef_components(Seq::empty(), join_abs(parent_comps(components(raw)))))),
            Seq::empty(),
            Seq::empty(),
        );
    }
    let d = resolve_dst(fs, cwd, s.as_str(), dst)?;
    if same_str(s.as_str(), d.as_str()) {
        return Err(CmdError::SameFile);
    }
    if is_below(s.as_str(), d.as_str()) {
        return Err(CmdError::IntoItself);
    }
    Ok((s, d))
}

/// Whether `path` resolves (from the root) to something that is no
/// directory: what `cp` replaces.
pub fn replaced_by_copy(fs: &mut MinixFileSystem, path: &str) -> (r: bool)
    ensures
        final(fs).same_but_cache(&*old(fs)),
        r == (deref_of(*old(fs), Seq::empty(), path@) matches Resolution::Resolved(cs) && !(lookup(
            trees_view(old(fs).tree@),
            components(join_abs(cs)),
        ) matches Lookup::Found(v) && old(fs).inode_at(view_inode(v)) matches Some(i) && i.spec_file_type()
            == FileType::Directory)),
{
    let root: Vec<String> = Vec::new();
    assert(strings_view(root@) =~= Seq::<Seq<char>>::empty());
    match build_path_deref(fs, root.as_slice(), path) {
        Ok(existing) => {
            let is_dir = match get_item(&*fs, existing.as_str()) {
                Ok(item) => match fs.get_inode(item.inode()) {
                    Ok(i) => i.get_file_type() == FileType::Directory,
                    Err(_) => false,
                },
                Err(_) => false,
            };
            !is_dir
        },
        Err(_) => false,
    }
}

/// Copy what the tree holds at `src` to `dst` (see `copy_item`).
pub fn copy(fs: &mut MinixFileSystem, src: &str, dst: &str, recursive: bool, now: u64, log: &mut Vec<(String, String)>) -> (r: Result<
    (),
    CmdError,
>)
    requires
        old(fs).editable(),
    ensures
        final(fs).editable(),
        final(log)@.len() >= old(log)@.len(),
        lookup(trees_view(old(fs).tree@), components(src@)) matches Lookup::Found(v) && v is Directory && !recursive ==> (r matches Err(
            CmdError::OmitDirectory(s),
        ) && s@ == src@ && *final(fs) == *old(fs)),
        r is Ok ==> match lookup(trees_view(old(fs).tree@), components(src@)) {
            Lookup::Found(v) => !(v is Directory) ==> (old(fs).inode_at(view_inode(v)) matches Some(i) && copied_node(
                *final(fs),
                dst@,
                i,
            )),
            _ => false,
        },
        r matches Err(CmdError::Fs(e)) ==> match lookup(trees_view(old(fs).tree@), components(src@)) {
            Lookup::Found(v) => v is Directory || copy_error(*old(fs), view_inode(v), dst@, e),
            _ => true,
        },
{
    let item = match get_item(&*fs, src) {
        Ok(i) => i,
        Err(e) => {
            return Err(CmdError::Fs(e));
        },
    };
    proof {
        crate::path::lemma_view_name(item);
    }
    copy_item(fs, &item, src.to_owned(), dst.to_owned(), recursive, now, log)
}

/// What `mv` found of its source and destination.
pub struct MovePlan {
    /// The resolved source path.
    pub src: String,
    /// The resolved destination path.
    pub dst: String,
    /// The source's inode number and type.
    pub inode: u64,
    pub ftype: FileType,
    /// The type of what the destination already names, if anything.
    pub dst_type: Option<FileType>,
}

/// The type of what the resolved destination `d` of `mv` already names
/// (`None` where it does not resolve), or `Err` where it resolves to an
/// entry that the tree or the inode table lacks.
pub open spec fn move_target(fs: MinixFileSystem, d: Seq<char>) -> Result<Option<FileType>, ()> {
    match deref_of(fs, Seq::empty(), d) {
        Resolution::Resolved(cs) => match lookup(trees_view(fs.tree@), components(join_abs(cs))) {
            Lookup::Found(w) => match fs.inode_at(view_inode(w)) {
                Some(j) => Ok(Some(j.spec_file_type())),
                None => Err(()),
            },
            _ => Err(()),
        },
        _ => Ok(None),
    }
}

/// The checks of `mv` of `src` to `dst` from `cwd` (see `transfer_paths`),
/// with the types of the source and of what the destination names: a
/// directory cannot replace a non-directory, nor the other way round.
pub fn plan_move(fs: &mut MinixFileSystem, cwd: &[String], src: &str, dst: &str) -> (r: Result<MovePlan, CmdError>)
    ensures
        final(fs).same_but_cache(&*old(fs)),
        r matches Ok(p) ==> {
            &&& lookup(trees_view(old(fs).tree@), components(p.src@)) matches Lookup::Found(v)
            &&& p.inode == view_inode(v)
            &&& old(fs).inode_at(p.inode) matches Some(i)
            &&& p.ftype == i.spec_file_type()
            &&& p.src@ != p.dst@
            &&& !below(p.src@, p.dst@)
            &&& p.dst_type matches Some(t) ==> (t == FileType::Directory) == (p.ftype == FileType::Directory)
        },
        match transfer_of(*old(fs), strings_view(cwd@), src@, dst@) {
            None => r is Err,
            Some((s, d)) => match lookup(trees_view(old(fs).tree@), components(s)) {
                Lookup::Found(v) => match old(fs).inode_at(view_inode(v)) {
                    Some(i) => match move_target(*old(fs), d) {
                        Ok(t) => if i.spec_file_type() == FileType::Directory && t is Some && t.unwrap()
                            != FileType::Directory {
                            r == Err::<MovePlan, CmdError>(CmdError::DirOverNonDir)
                        } else if i.spec_file_type() != FileType::Directory && t == Some(FileType::Directory) {
                            r == Err::<MovePlan, CmdError>(CmdError::NonDirOverDir)
                        } else {
                            r matches Ok(p) && p.src@ == s && p.dst@ == d && p.inode == view_inode(v) && p.ftype
                                == i.spec_file_type() && p.dst_type == t
                        },
                        Err(()) => r is Err,
                    },
                    None => r is Err,
                },
                _ => r is Err,
            },
        },
{
    let ghost f0 = *fs;
    let (s, d) = transfer_paths(fs, cwd, src, dst)?;
    let item = match get_item(&*fs, s.as_str()) {
        Ok(i) => i,
        Err(e) => {
            return Err(CmdError::Fs(e));
        },
    };
    let n = item.inode();
    let ft = match fs.get_inode(n) {
        Ok(i) => i.get_file_type(),
        Err(e) => {
            return Err(CmdError::Fs(e));
        },
    };
    let root: Vec<String> = Vec::new();
    proof {
        assert(strings_view(root@) =~= Seq::<Seq<char>>::empty());
        lemma_resolve_agree(f0, *fs, components(join_abs(noderef_components(Seq::empty(), d@))), Seq::empty(), Seq::empty());
    }
    let dst_type = match build_path_deref(fs, root.as_slice(), d.as_str()) {
        Ok(existing) => {
            let ditem = match get_item(&*fs, existing.as_str()) {
                Ok(i) => i,
                Err(e) => {
                    return Err(CmdError::Fs(e));
                },
            };
            let dft = match fs.get_inode(ditem.inode()) {
                Ok(i) => i.get_file_type(),
                Err(e) => {
                    return Err(CmdError::Fs(e));
                },
            };
            if ft == FileType::Directory && dft != FileType::Directory {
                return Err(CmdError::DirOverNonDir);
            }
            if ft != FileType::Directory && dft == FileType::Directory {
                return Err(CmdError::NonDirOverDir);
            }
            Some(dft)
        },
        Err(_) => None,
    };
    Ok(MovePlan { src: s, dst: d, inode: n, ftype: ft, dst_type })
}

/// Whether `update_dotdot` of the directory at `dir` succeeds on `fs`: the
/// tree has an entry at `dir` whose inode is in the table, its first block
/// is 0 or can be read, the tree has the directory that holds `dir`, and
/// where the two parents differ, both are in the table.
pub open spec fn dotdot_ok(fs: MinixFileSystem, dir: Seq<char>, new_parent: u64, old_parent: u64) -> bool {
    &&& lookup(trees_view(fs.tree@), components(dir)) matches Lookup::Found(v)
    &&& fs.inode_at(view_inode(v)) matches Some(i)
    &&& (i.zones@[0] == 0 || fs.read_block_data(
        i.zones@[0] as u64,
        Seq::new(fs.superblock.block_size as nat, |k: int| 0u8),
    ) is Ok)
    &&& walk(trees_view(fs.tree@), parent_comps(components(dir))) is Reached
    &&& old_parent != new_parent ==> fs.inode_at(old_parent) is Some && fs.inode_at(new_parent) is Some
}

/// The directory block `d` with its second entry, `..`, naming inode `p`;
/// a block too small for a second entry stays as it is.
pub open spec fn dotdot_patched(d: Seq<u8>, p: u64) -> Seq<u8> {
    if d.len() >= 128 {
        d.subrange(0, 64) + u32_bytes(p as u32) + d.subrange(68, d.len() as int)
    } else {
        d
    }
}

/// The entries `children` with their `..` entry, where there is one, made
/// an empty directory entry for inode `p`.
pub open spec fn dotdot_set(children: Seq<ItemView>, p: u64) -> Seq<ItemView> {
    let j = first_named(children, seq!['.', '.']);
    if j < children.len() {
        children.update(j, ItemView::Directory { name: seq!['.', '.'], inode: p, children: Seq::empty() })
    } else {
        children
    }
}

/// The entries `entries` with the `..` entry of the directory named `name`
/// among them set to inode `p` (see `dotdot_set`).
pub open spec fn dotdot_moved(entries: Seq<ItemView>, name: Seq<char>, p: u64) -> Seq<ItemView> {
    let k = first_named(entries, name);
    if k < entries.len() {
        match entries[k] {
            ItemView::Directory { name: n, inode, children } => entries.update(
                k,
                ItemView::Directory { name: n, inode, children: dotdot_set(children, p) },
            ),
            _ => entries,
        }
    } else {
        entries
    }
}

/// After a directory moved to `dir`: point the `..` entry of its first
/// block on disk at `new_parent`, do the same for its `..` tree entry, and
/// move one link from `old_parent` to `new_parent` where they differ.
pub fn update_dotdot(fs: &mut MinixFileSystem, dir: &str, new_parent: u64, old_parent: u64) -> (r: Result<(), CmdError>)
    requires
        old(fs).editable(),
    ensures
        final(fs).editable(),
        final(fs).superblock == old(fs).superblock,
        final(fs).imap == old(fs).imap,
        r is Ok <==> dotdot_ok(*old(fs), dir@, new_parent, old_parent),
        r is Ok ==> (lookup(trees_view(old(fs).tree@), components(dir@)) matches Lookup::Found(v) && old(fs).inode_at(
            view_inode(v),
        ) matches Some(i) && (i.zones@[0] != 0 ==> (old(fs).read_block_data(
            i.zones@[0] as u64,
            Seq::new(old(fs).superblock.block_size as nat, |k: int| 0u8),
        ) matches Ok(d) && final(fs).bcache.view().contains_key(i.zones@[0] as u64) && final(fs).bcache.view()[i.zones@[0] as u64]
            == (true, dotdot_patched(d, new_parent))))),
        r is Ok && old_parent != new_parent ==> (old(fs).inode_at(old_parent) matches Some(a) && old(fs).inode_at(new_parent) matches Some(b)
            && final(fs).inodes@[old_parent - 1].nlinks == (if a.nlinks == 0 { 0 } else { a.nlinks - 1 }) as u16
            && (old_parent != new_parent ==> final(fs).inodes@[new_parent - 1].nlinks == (b.nlinks + 1) as u16)),
        r is Ok ==> (walk(trees_view(old(fs).tree@), parent_comps(components(dir@))) matches Walk::Reached(p) && trees_view(
            final(fs).tree@,
        ) == replace_at(trees_view(old(fs).tree@), parent_comps(components(dir@)), dotdot_moved(p, spec_fname(dir@), new_parent))),
{
    let item = match get_item(&*fs, dir) {
        Ok(i) => i,
        Err(e) => {
            return Err(CmdError::Fs(e));
        },
    };
    let first = match fs.get_inode(item.inode()) {
        Ok(i) => {
            let b = i.get_blocks();
            b[0]
        },
        Err(e) => {
            return Err(CmdError::Fs(e));
        },
    };
    if first != 0 {
        let bs = fs.superblock.block_size as usize;
        let mut data = crate::bytes::zeros(bs);
        assert(data@ =~= Seq::new(fs.superblock.block_size as nat, |k: int| 0u8));
        if let Err(e) = fs.read_block(first, data.as_mut_slice()) {
            return Err(CmdError::Fs(e));
        }
        if bs >= 128 {
            crate::bytes::write_u32_at(&mut data, 64, new_parent as u32);
        }
        if let Err(e) = fs.write_block(first, data.as_slice()) {
            return Err(CmdError::Fs(e));
        }
        assert(data@.subrange(0, min(fs.bsize(), data@.len() as int)) =~= data@);
    }
    let fname = fname_from_path(dir).to_owned();
    let parent = match find_parent_mut(fs, dir) {
        Ok(t) => t,
        Err(e) => {
            return Err(CmdError::Fs(e));
        },
    };
    let ghost p0 = parent@;
    proof {
        crate::cache::lemma_trees_view(p0);
    }
    let k = crate::path::find_index(&*parent, &fname);
    if k < parent.len() {
        let mut moved = parent.remove(k);
        let ghost m0 = moved;
        if let Some(children) = moved.next_mut() {
            let ghost c0 = children@;
            proof {
                crate::cache::lemma_trees_view(c0);
            }
            let dotdot = String::from_str("..");
            let j = crate::path::find_index(&*children, &dotdot);
            proof {
                reveal_strlit("..");
                assert(dotdot@ =~= seq!['.', '.']);
            }
            if j < children.len() {
                let nd = Item::new_dir(String::from_str(".."), new_parent, Vec::new());
                children.set(j, nd);
                proof {
                    crate::cache::lemma_trees_view(children@);
                    crate::cache::lemma_trees_view(Seq::<Item>::empty());
                    assert(item_view(nd) == (ItemView::Directory { name: seq!['.', '.'], inode: new_parent, children: Seq::empty() }));
                    assert(trees_view(children@) =~= dotdot_set(trees_view(c0), new_parent));
                }
            } else {
                assert(trees_view(children@) =~= dotdot_set(trees_view(c0), new_parent));
            }
        }
        parent.insert(k, moved);
        proof {
            crate::cache::lemma_trees_view(parent@);
            assert(parent@ =~= p0.update(k as int, moved));
            assert(trees_view(parent@) =~= dotdot_moved(trees_view(p0), fname@, new_parent));
        }
    } else {
        assert(trees_view(parent@) =~= dotdot_moved(trees_view(p0), fname@, new_parent));
    }
    if old_parent != new_parent {
        let a = match fs.get_inode_mut(old_parent) {
            Ok(i) => i,
            Err(e) => {
                return Err(CmdError::Fs(e));
            },
        };
        let an = a.get_nlinks();
        a.set_nlinks(an.saturating_sub(1));
        let b = match fs.get_inode_mut(new_parent) {
            Ok(i) => i,
            Err(e) => {
                return Err(CmdError::Fs(e));
            },
        };
        let bn = b.get_nlinks();
        b.set_nlinks(bn + 1);
    }
    Ok(())
}

/// Whether `e` is an error that removing the entry at `path` can give on a
/// file system that, after `fs`, gained a directory entry on disk: the
/// same tree, superblock, image and number of inodes, and every block
/// `fs` can read still readable.
pub open spec fn unlink_failed(fs: MinixFileSystem, path: Seq<char>, e: FsError) -> bool {
    exists|mid: MinixFileSystem|
        #![trigger crate::minix::unlink::unlink_error(mid, path, e)]
        mid.tree == fs.tree && mid.superblock == fs.superblock && mid.image == fs.image && mid.inodes@.len() == fs.inodes@.len()
            && crate::minix::truncate::readable_grows(mid, fs) && crate::minix::unlink::unlink_error(mid, path, e)
}

/// Whether the tree `after` is `before` with an entry for inode `n` of
/// type `ft`, named as the last component of `dst`, added to the directory
/// that holds `dst`.
pub open spec fn moved_into(before: Seq<ItemView>, after: Seq<ItemView>, dst: Seq<char>, n: u64, ft: FileType) -> bool {
    let pc = parent_comps(components(dst));
    match walk(before, pc) {
        Walk::Reached(p) => after == replace_at(before, pc, p.push(new_entry_view(spec_fname(dst), n, ft))),
        _ => false,
    }
}

/// Carry out the move that `plan` describes (its destination free, or
/// cleared by the caller): count a link more on the source inode, add the
/// destination entry on disk, remove the source entry, add the source's
/// tree entry (a directory with all it holds) under the destination's
/// name, and for a directory fix its `..` (see `update_dotdot`). An error
/// of that last step is given back as a warning beside success.
pub fn apply_move(fs: &mut MinixFileSystem, plan: &MovePlan) -> (r: Result<Option<CmdError>, CmdError>)
    requires
        old(fs).editable(),
    ensures
        final(fs).editable(),
        final(fs).superblock == old(fs).superblock,
        r matches Ok(Some(_)) ==> plan.ftype == FileType::Directory,
        r is Ok ==> split_found(trees_view(old(fs).tree@), components(plan.src@)),
        (r is Ok && plan.ftype != FileType::Directory) ==> (walk(
            trees_view(final(fs).tree@),
            parent_comps(components(plan.dst@)),
        ) matches Walk::Reached(p) && p.len() > 0 && view_name(p.last()) == spec_fname(plan.dst@) && view_inode(p.last())
            == plan.inode),
        (r is Ok && plan.ftype != FileType::Directory && !(lookup(trees_view(old(fs).tree@), components(plan.src@)) matches Lookup::Found(
            v,
        ) && v is Directory)) ==> exists|t: Seq<ItemView>|
            #[trigger] name_gone(t, components(plan.src@)) && moved_into(t, trees_view(final(fs).tree@), plan.dst@, plan.inode, plan.ftype),
        match lookup(trees_view(old(fs).tree@), components(plan.src@)) {
            Lookup::Found(_) => match old(fs).inode_at(plan.inode) {
                None => r == Err::<Option<CmdError>, CmdError>(CmdError::Fs(FsError::InvalidInode { inode: plan.inode }))
                    && *final(fs) == *old(fs),
                Some(i) => if (plan.inode as usize) / 8 >= old(fs).imap.map@.len() {
                    r == Err::<Option<CmdError>, CmdError>(CmdError::Fs(FsError::InodeOutOfBounds { inode: plan.inode }))
                } else if !old(fs).imap.bits()[(plan.inode as usize) as int] {
                    &&& r == Err::<Option<CmdError>, CmdError>(CmdError::Fs(FsError::InodeNotTaken { inode: plan.inode }))
                    &&& i.nlinks < 0xFFFF ==> final(fs).inodes@ == old(fs).inodes@
                } else if split_found(trees_view(old(fs).tree@), components(plan.dst@)) {
                    &&& r == Err::<Option<CmdError>, CmdError>(CmdError::Fs(FsError::AlreadyExists))
                    &&& i.nlinks < 0xFFFF ==> final(fs).inodes@ == old(fs).inodes@
                } else {
                    match r {
                        Err(CmdError::Fs(e)) => {
                            ||| crate::minix::create::dentry_error(*old(fs), plan.dst@, e)
                            ||| unlink_failed(*old(fs), plan.src@, e)
                            ||| !(walk(trees_view(final(fs).tree@), parent_comps(components(plan.dst@))) is Reached)
                        },
                        Err(_) => false,
                        Ok(_) => true,
                    }
                },
            },
            _ => r is Err && *final(fs) == *old(fs),
        },
{
    let ghost f0 = *fs;
    let n = plan.inode;
    let item = match get_item(&*fs, plan.src.as_str()) {
        Ok(i) => i,
        Err(e) => {
            return Err(CmdError::Fs(e));
        },
    };
    match fs.get_inode_mut(n) {
        Ok(i) => {
            let links = i.get_nlinks();
            i.set_nlinks(links + 1);
        },
        Err(e) => {
            return Err(CmdError::Fs(e));
        },
    }
    if (n as usize) / 8 >= fs.imap.map.len() {
        return Err(CmdError::Fs(FsError::InodeOutOfBounds { inode: n }));
    }
    proof {
        crate::repl::entry::lemma_editable_block_size(fs.superblock.block_size);
    }
    let ghost f1 = *fs;
    proof {
        assert forall|j: int| 0 <= j < f0.inodes@.len() implies #[trigger] f1.inodes@[j].zones == f0.inodes@[j].zones by {}
        assert(crate::minix::truncate::readable_grows(f1, f0));
    }
    if let Err(e) = fs.link(n, &plan.dst) {
        proof {
            if crate::minix::create::dentry_error(f1, plan.dst@, e) {
                crate::minix::create::lemma_dentry_error_zones_kept(f0, f1, plan.dst@, e);
            }
        }
        let ghost f2 = *fs;
        if let Ok(i) = fs.get_inode_mut(n) {
            let links = i.get_nlinks();
            i.set_nlinks(links.saturating_sub(1));
        }
        proof {
            if f2 == f1 && f0.inodes@[n - 1].nlinks < 0xFFFF {
                assert(f1.inodes@[n - 1].nlinks == f0.inodes@[n - 1].nlinks + 1);
                assert(fs.inodes@[n - 1] == f0.inodes@[n - 1]);
                assert(fs.inodes@ =~= f0.inodes@);
            }
        }
        return Err(CmdError::Fs(e));
    }
    let ghost f2 = *fs;
    proof {
        crate::minix::truncate::lemma_grows_chain(f0, f1, f2);
    }
    if let Err(e) = fs.unlink(&plan.src) {
        proof {
            assert(crate::minix::unlink::unlink_error(f2, plan.src@, e));
            assert(unlink_failed(f0, plan.src@, e));
        }
        return Err(CmdError::Fs(e));
    }
    let dst_fname = fname_from_path(plan.dst.as_str()).to_owned();
    let entry = match item {
        Item::Directory(_, children) => Item::new_dir(dst_fname, n, children),
        _ => Item::new(dst_fname, n, plan.ftype),
    };
    let ghost t1 = trees_view(fs.tree@);
    if let Err(e) = push_entry(fs, plan.dst.as_str(), entry) {
        return Err(CmdError::Fs(e));
    }
    proof {
        let pc = parent_comps(components(plan.dst@));
        let p = walk(t1, pc)->Reached_0;
        crate::path::law_walk_replace(t1, pc, p.push(item_view(entry)));
        crate::path::lemma_view_name(entry);
        crate::path::lemma_view_name(item);
        if plan.ftype != FileType::Directory && !(item is Directory) {
            assert(dst_fname@ == spec_fname(plan.dst@));
            assert(item_view(entry) == new_entry_view(spec_fname(plan.dst@), plan.inode, plan.ftype));
            assert(name_gone(t1, components(plan.src@)));
            assert(moved_into(t1, trees_view(fs.tree@), plan.dst@, plan.inode, plan.ftype));
        }
    }
    if plan.ftype == FileType::Directory {
        let new_parent = match crate::path::find_parent_ref(&*fs, plan.dst.as_str()) {
            Ok(t) => {
                let dot = String::from_str(".");
                let k = crate::path::find_index(t, &dot);
                if k < t.len() {
                    t[k].inode()
                } else {
                    1
                }
            },
            Err(_) => 1,
        };
        let src_parent = crate::repl::entry::parent_path(plan.src.as_str());
        let root: Vec<String> = Vec::new();
        let old_parent = match build_path_deref(fs, root.as_slice(), src_parent.as_str()) {
            Ok(p) => match get_item(&*fs, p.as_str()) {
                Ok(it) => it.inode(),
                Err(_) => 1,
            },
            Err(_) => 1,
        };
        if let Err(e) = update_dotdot(fs, plan.dst.as_str(), new_parent, old_parent) {
            return Ok(Some(e));
        }
    }
    Ok(None)
}

} // verus!
