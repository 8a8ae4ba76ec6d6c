//! The shell's commands that make and change single nodes: `touch`,
//! `mknod`, `chmod`, `chown`, and filling a file with random bytes or text.
use crate::cache::{item_view, trees_view, Item, ItemView};
use crate::error::FsError;
use crate::filetype::FileType;
use crate::fs::{FileSystem, InodeOperations};
use crate::minix::fs::{min, MinixFileSystem};
use crate::minix::create::meta_kept;
use crate::fs::SuperblockOperations;
use crate::minix::inode::Inode;
use crate::stat::{parse_symbolic_mode, spec_parse_mode, S_IFMT};
use crate::args::{parse_decimal, spec_parse_unsigned};
use vstd::utf8::encode_utf8;
use crate::repl::entry::has_meta;
use crate::path::{add_item, replace_at, walk, Walk, fname_from_path, build_path_deref, components, get_item, join_abs, lookup, parent_comps, strings_view, view_inode, Lookup};
use crate::repl::outcome::CmdError;
use crate::minix::truncate::{block_error, blocks_for, has_blocks, is_pow2, max_file_blocks, read_failure};
use crate::minix::rw::{blocks_apart, file_zones, wrote};
use crate::minix::write::{grown_for, growth_failed, write_outcome};
use crate::repl::entry::{
    lemma_editable_block_size, lemma_meta_type, make_node, push_entry,
    add_node, child_of, deref_of, entry_path, node_added, raw_path, NodeMeta,
};
use crate::path::{lemma_resolve_agree, noderef_components, spec_fname, Resolution};
use vstd::prelude::*;
use vstd::string::{StrSliceExecFns, StringSliceAdditionalSpecFns};

verus! {

/// What `touch` did.
pub enum Touched {
    /// The times of the existing node of this inode were set.
    Updated(u64),
    /// A regular file was made at this path, with this inode.
    Created(String, u64),
}

/// Inode `i` with all three times `now`.
pub open spec fn touched(i: Inode, now: u64) -> Inode {
    Inode { atime: now as u32, mtime: now as u32, ctime: now as u32, ..i }
}

/// Set all three times of the node of inode `n` to `now`.
fn set_times(fs: &mut MinixFileSystem, n: u64, now: u64) -> (r: Result<(), FsError>)
    ensures
        match old(fs).inode_at(n) {
            None => r == Err::<(), FsError>(FsError::InvalidInode { inode: n }) && *final(fs) == *old(fs),
            Some(i) => {
                &&& r is Ok
                &&& final(fs).inodes@ == old(fs).inodes@.update(n - 1, touched(i, now))
                &&& final(fs).superblock == old(fs).superblock
                &&& final(fs).imap == old(fs).imap
                &&& final(fs).zmap == old(fs).zmap
                &&& final(fs).tree == old(fs).tree
                &&& final(fs).image == old(fs).image
                &&& final(fs).bcache == old(fs).bcache
            },
        },
{
    let inode = fs.get_inode_mut(n)?;
    inode.set_atime(now);
    inode.set_mtime(now);
    inode.set_ctime(now);
    Ok(())
}

/// Touch `name` from the directory `cwd`: where it resolves to a node,
/// that node's times become `now`; otherwise a regular file with
/// permission bits `mode`, owner `uid`, group `gid`, size 0 and times
/// `now` is made under its resolved parent directory.
pub fn touch(fs: &mut MinixFileSystem, cwd: &[String], name: &str, mode: u16, uid: u32, gid: u32, now: u64) -> (r: Result<
    Touched,
    FsError,
>)
    requires
        old(fs).editable(),
    ensures
        final(fs).editable(),
        match deref_of(*old(fs), strings_view(cwd@), name@) {
            Resolution::Resolved(cs) => match lookup(trees_view(old(fs).tree@), components(join_abs(cs))) {
                Lookup::Found(v) => match old(fs).inode_at(view_inode(v)) {
                    Some(i) => {
                        &&& r == Ok::<Touched, FsError>(Touched::Updated(view_inode(v)))
                        &&& final(fs).inodes@ == old(fs).inodes@.update(view_inode(v) - 1, touched(i, now))
                        &&& final(fs).tree == old(fs).tree
                    },
                    None => r == Err::<Touched, FsError>(FsError::InvalidInode { inode: view_inode(v) }),
                },
                _ => r is Err,
            },
            _ => match r {
                Ok(Touched::Created(p, n)) => {
                    let raw = raw_path(strings_view(cwd@), name@);
                    &&& deref_of(*old(fs), Seq::empty(), join_abs(parent_comps(components(raw)))) matches Resolution::Resolved(pcs)
                        && p@ == child_of(join_abs(pcs), spec_fname(raw))
                    &&& node_added(*old(fs), *final(fs), p@, n, NodeMeta { ftype: FileType::Regular, mode, uid, gid, size: 0, now })
                },
                Ok(Touched::Updated(_)) => false,
                Err(_) => true,
            },
        },
{
    let ghost f0 = *fs;
    match build_path_deref(fs, cwd, name) {
        Ok(canonical) => {
            let item = get_item(&*fs, canonical.as_str())?;
            let n = item.inode();
            set_times(fs, n, now)?;
            Ok(Touched::Updated(n))
        },
        Err(_) => {
            proof {
                let raw = raw_path(strings_view(cwd@), name@);
                lemma_resolve_agree(
                    f0,
                    *fs,
                    components(join_abs(noderef_components(Seq::empty(), join_abs(parent_comps(components(raw)))))),
                    Seq::empty(),
                    Seq::empty(),
                );
            }
            let path = entry_path(fs, cwd, name)?;
            let m = NodeMeta { ftype: FileType::Regular, mode, uid, gid, size: 0, now };
            let n = add_node(fs, &path, &m)?;
            Ok(Touched::Created(path, n))
        },
    }
}

/// Whether a file of `end` bytes can be addressed with blocks of `bs`
/// bytes.
pub fn fits_file(bs: u16, end: u64) -> (r: bool)
    requires
        bs >= 64,
    ensures
        r == (end + bs - 1 <= u64::MAX && blocks_for(end as int, bs as int) <= max_file_blocks(bs as int)),
{
    if end > u64::MAX - (bs as u64 - 1) {
        return false;
    }
    let b = bs as u64;
    let p = b / 4;
    assert(p * p <= 16384 * 16384 && p * p * p <= 16384 * 16384 * 16384) by (nonlinear_arith)
        requires
            p <= 16384,
    ;
    let max = 7 + p + p * p + p * p * p;
    (end + (b - 1)) / b <= max
}

/// Resolve `name` from `cwd` to a node that is not a directory, or, where
/// it resolves to nothing, make a regular file with permission bits
/// `mode`, owner `uid`, group `gid`, size 0 and times `now` under its
/// resolved parent; give back its path and inode number.
pub fn file_for_writing(fs: &mut MinixFileSystem, cwd: &[String], name: &str, mode: u16, uid: u32, gid: u32, now: u64) -> (r: Result<
    (String, u64),
    CmdError,
>)
    requires
        old(fs).editable(),
    ensures
        final(fs).editable(),
        match deref_of(*old(fs), strings_view(cwd@), name@) {
            Resolution::Resolved(cs) => match lookup(trees_view(old(fs).tree@), components(join_abs(cs))) {
                Lookup::Found(v) => if v is Directory {
                    r matches Err(CmdError::IsADirectory(s)) && s@ == name@
                } else {
                    &&& r matches Ok((p, n)) && p@ == join_abs(cs) && n == view_inode(v)
                    &&& final(fs).same_but_cache(&*old(fs))
                },
                _ => r is Err,
            },
            _ => match r {
                Ok((p, n)) => {
                    let raw = raw_path(strings_view(cwd@), name@);
                    &&& deref_of(*old(fs), Seq::empty(), join_abs(parent_comps(components(raw)))) matches Resolution::Resolved(pcs)
                        && p@ == child_of(join_abs(pcs), spec_fname(raw))
                    &&& node_added(*old(fs), *final(fs), p@, n, NodeMeta { ftype: FileType::Regular, mode, uid, gid, size: 0, now })
                },
                Err(c) => c matches CmdError::Fs(e) && {
                    let raw = raw_path(strings_view(cwd@), name@);
                    match deref_of(*old(fs), Seq::empty(), join_abs(parent_comps(components(raw)))) {
                        Resolution::Resolved(pcs) => {
                            let p = child_of(join_abs(pcs), spec_fname(raw));
                            ||| crate::minix::create::alloc_error(*old(fs), e)
                            ||| crate::minix::create::dentry_error(*old(fs), p, e)
                            ||| !(walk(trees_view(old(fs).tree@), parent_comps(components(p))) is Reached)
                        },
                        res => crate::path::deref_result(res, Err::<String, FsError>(e)),
                    }
                },
            },
        },
{
    let ghost f0 = *fs;
    match build_path_deref(fs, cwd, name) {
        Ok(canonical) => {
            let item = match get_item(&*fs, canonical.as_str()) {
                Ok(i) => i,
                Err(e) => {
                    return Err(CmdError::Fs(e));
                },
            };
            if item.is_dir() {
                return Err(CmdError::IsADirectory(name.to_owned()));
            }
            let n = item.inode();
            Ok((canonical, n))
        },
        Err(_) => {
            proof {
                let raw = raw_path(strings_view(cwd@), name@);
                lemma_resolve_agree(
                    f0,
                    *fs,
                    components(join_abs(noderef_components(Seq::empty(), join_abs(parent_comps(components(raw)))))),
                    Seq::empty(),
                    Seq::empty(),
                );
            }
            let path = match entry_path(fs, cwd, name) {
                Ok(p) => p,
                Err(e) => {
                    return Err(CmdError::Fs(e));
                },
            };
            let m = NodeMeta { ftype: FileType::Regular, mode, uid, gid, size: 0, now };
            let ghost f1 = *fs;
            let n = match add_node(fs, &path, &m) {
                Ok(n) => n,
                Err(e) => {
                    proof {
                        crate::minix::create::lemma_make_errors_same_content(f0, f1, path@, e);
                    }
                    return Err(CmdError::Fs(e));
                },
            };
            Ok((path, n))
        },
    }
}

/// Make the file of inode `n` hold `data`: set its size to the length of
/// `data`, write `data` from the start, and set its modification and
/// change times to `now`.
#[verifier::spinoff_prover]
#[verifier::rlimit(40)]
pub fn fill_inode(fs: &mut MinixFileSystem, n: u64, data: &[u8], now: u64) -> (r: Result<(), CmdError>)
    requires
        old(fs).editable(),
    ensures
        final(fs).editable(),
        final(fs).tree == old(fs).tree,
        final(fs).superblock == old(fs).superblock,
        final(fs).imap == old(fs).imap,
        match old(fs).inode_at(n) {
            None => r matches Err(CmdError::Fs(e)) && e == FsError::InvalidInode { inode: n },
            Some(i) => {
                &&& has_blocks(i.spec_file_type()) && !fits_spec(old(fs).superblock.block_size, data@.len()) ==> (r matches Err(
                    CmdError::TooLarge(k),
                ) && k == data@.len() && *final(fs) == *old(fs))
                &&& r is Ok ==> (final(fs).inode_at(n) matches Some(j) && j.mode == i.mode && j.uid == i.uid && j.gid == i.gid
                    && j.nlinks == i.nlinks && j.atime == i.atime && j.mtime == now as u32 && j.ctime == now as u32)
                &&& (r is Ok && has_blocks(i.spec_file_type())) ==> final(fs).inodes@[n - 1].size == data@.len() as u32
            },
        },
        (r is Ok && old(fs).inode_at(n) is Some && has_blocks(old(fs).inodes@[n - 1].spec_file_type()) && data@.len() > 0) ==> exists|
            mid: MinixFileSystem,
            k: u64,
        |
            #![trigger wrote(mid, *final(fs), n, 0, data@, k)]
            sized_for(mid, *old(fs), n, data@.len() as int) && (blocks_apart(mid, n) ==> wrote(mid, *final(fs), n, 0, data@, k)),
        r matches Err(CmdError::Fs(e)) ==> (old(fs).inode_at(n) is None && e == FsError::InvalidInode { inode: n })
            || growth_failed(*old(fs), *final(fs), n, data@.len() as int, e) || read_failure(*old(fs), e) || (data@.len()
            > u32::MAX && block_error(e)),
        r matches Err(c) ==> (c is Fs || c is TooLarge),
{
    let len = data.len() as u64;
    let ft = match fs.get_inode(n) {
        Ok(i) => i.get_file_type(),
        Err(e) => {
            return Err(CmdError::Fs(e));
        },
    };
    let bs = fs.superblock.block_size;
    if (ft == FileType::Directory || ft == FileType::Regular || ft == FileType::Symlink) && !fits_file(bs, len) {
        return Err(CmdError::TooLarge(len));
    }
    let ghost f0 = *fs;
    if let Err(e) = fs.truncate(n, len) {
        proof {
            if len > f0.inodes@[n - 1].size {
                assert(growth_failed(f0, *fs, n, data@.len() as int, e));
            }
        }
        return Err(CmdError::Fs(e));
    }
    let ghost f1 = *fs;
    proof {
        if has_blocks(f0.inodes@[n - 1].spec_file_type()) {
            assert(f1.inodes@[n - 1].size == len as u32);
        }
    }
    let ghost mut written: u64 = 0;
    let ghost mut wit = f1;
    proof {
        crate::minix::truncate::lemma_same_content_grows(f0, f0);
    }
    if len > 0 {
        let ghost fb = *fs;
        match fs.write_file(n, 0, data) {
            Ok(k) => {
                proof {
                    written = k;
                    if has_blocks(f0.inodes@[n - 1].spec_file_type()) {
                        let mid = choose|mid: MinixFileSystem| #[trigger] grown_for(mid, fb, n, data@.len() as int)
                            && fs.same_but_cache(&mid) && (blocks_apart(mid, n) ==> write_outcome(mid, *fs, n, 0, data@, Ok(k)));
                        crate::minix::truncate::lemma_frame_trans(f0, fb, mid, n, true);
                        wit = mid;
                    }
                }
            },
            Err(e) => {
                proof {
                    if read_failure(fb, e) {
                        crate::minix::truncate::lemma_failure_back(f0, fb, e);
                    }
                }
                return Err(CmdError::Fs(e));
            },
        }
    }
    let ghost fw = *fs;
    proof {
        if has_blocks(f0.inodes@[n - 1].spec_file_type()) {
            assert(fs.inodes@[n - 1].size == len as u32);
        }
    }
    proof {
        crate::minix::truncate::lemma_frame_trans(f0, f1, *fs, n, true);
    }
    match fs.get_inode_mut(n) {
        Ok(inode) => {
            inode.set_mtime(now);
            inode.set_ctime(now);
        },
        Err(e) => {
            return Err(CmdError::Fs(e));
        },
    }
    proof {
        if has_blocks(f0.inodes@[n - 1].spec_file_type()) && len > 0 {
            assert(file_zones(*fs, n) == file_zones(fw, n));
            assert(sized_for(wit, f0, n, data@.len() as int));
            if blocks_apart(wit, n) {
                assert(wrote(wit, fw, n, 0, data@, written));
                let e = crate::minix::rw::end_state(crate::minix::rw::file_write(wit, n, 0, data@))->Some_0;
                assert(crate::minix::rw::changed_view(wit, fw, e.changed));
                assert forall|b: u64| #[trigger] fs.readable(b) == wit.readable(b) by {
                    assert(fw.readable(b) == wit.readable(b));
                }
                assert forall|b: u64| #[trigger] fs.content(b) == wit.current(e.changed, b) by {
                    assert(fw.content(b) == wit.current(e.changed, b));
                }
                assert(crate::minix::rw::changed_view(wit, *fs, e.changed));
                assert(wrote(wit, *fs, n, 0, data@, written));
            } else {
                assert(!blocks_apart(wit, n) || wrote(wit, *fs, n, 0, data@, written));
            }
            assert(exists|mid: MinixFileSystem, k: u64|
                #![trigger wrote(mid, *fs, n, 0, data@, k)]
                sized_for(mid, *old(fs), n, data@.len() as int) && (blocks_apart(mid, n) ==> wrote(mid, *fs, n, 0, data@, k)));
        }
    }
    Ok(())
}

/// Whether `mid` is `old` with the file of inode `n` sized to `len` bytes,
/// as a fill starts writing from.
pub open spec fn sized_for(mid: MinixFileSystem, old: MinixFileSystem, n: u64, len: int) -> bool {
    &&& mid.wf()
    &&& mid.zones_frame(&old, n, true)
    &&& mid.inodes@[n - 1].size == len as u32
}

/// Whether a file of `len` bytes can be addressed with blocks of `bs`
/// bytes.
pub open spec fn fits_spec(bs: u16, len: nat) -> bool {
    len + bs - 1 <= u64::MAX && blocks_for(len as int, bs as int) <= max_file_blocks(bs as int)
}

/// Fill the file that `name` names from `cwd` with `data`, making a
/// regular file there (permission bits `mode`, owner `uid`, group `gid`)
/// where nothing is; its modification and change times become `now`.
/// Give back its path and inode number.
pub fn fill_file(
    fs: &mut MinixFileSystem,
    cwd: &[String],
    name: &str,
    data: &[u8],
    mode: u16,
    uid: u32,
    gid: u32,
    now: u64,
) -> (r: Result<(String, u64), CmdError>)
    requires
        old(fs).editable(),
    ensures
        final(fs).editable(),
        match deref_of(*old(fs), strings_view(cwd@), name@) {
            Resolution::Resolved(cs) => match lookup(trees_view(old(fs).tree@), components(join_abs(cs))) {
                Lookup::Found(v) => if v is Directory {
                    r matches Err(CmdError::IsADirectory(s)) && s@ == name@
                } else {
                    r matches Ok((p, n)) ==> (p@ == join_abs(cs) && n == view_inode(v) && final(fs).tree == old(fs).tree)
                },
                _ => r is Err,
            },
            _ => r matches Ok((p, n)) ==> (final(fs).inode_at(n) matches Some(i) && i.mode == crate::minix::inode::minix_type_bits(
                FileType::Regular,
            ) | (mode & 0o777) && i.uid == uid as u16 && i.gid == gid as u16 && i.nlinks == 1),
        },
        r matches Ok((p, n)) ==> (final(fs).inode_at(n) matches Some(i) && i.mtime == now as u32 && i.ctime == now as u32),
        r matches Ok((p, n)) ==> (final(fs).inode_at(n) matches Some(i) && (has_blocks(i.spec_file_type()) ==> i.size
            == data@.len() as u32)),
{
    let (path, n) = file_for_writing(fs, cwd, name, mode, uid, gid, now)?;
    fill_inode(fs, n, data, now)?;
    Ok((path, n))
}

/// The node type that a `mknod` type argument names.
pub open spec fn spec_node_type(s: Seq<char>) -> Option<FileType> {
    if s == "b"@ || s == "block"@ {
        Some(FileType::BlockDevice)
    } else if s == "c"@ || s == "char"@ {
        Some(FileType::CharacterDevice)
    } else if s == "p"@ || s == "pipe"@ || s == "fifo"@ {
        Some(FileType::Fifo)
    } else if s == "s"@ || s == "socket"@ {
        Some(FileType::Socket)
    } else {
        None
    }
}

/// Whether `s` and `t` hold the same characters.
fn same_text(s: &str, t: &str) -> (r: bool)
    ensures
        r == (s@ == t@),
{
    let n = s.unicode_len();
    if n != t.unicode_len() {
        return false;
    }
    let mut i: usize = 0;
    while i < n
        invariant
            n == s@.len() == t@.len(),
            i <= n,
            forall|j: int| 0 <= j < i ==> s@[j] == t@[j],
        decreases n - i,
    {
        if s.get_char(i) != t.get_char(i) {
            return false;
        }
        i += 1;
    }
    assert(s@ =~= t@);
    true
}

/// The node type that a `mknod` type argument names: `b` or `block`, `c`
/// or `char`, `p`, `pipe` or `fifo`, `s` or `socket`.
pub fn parse_node_type(s: &str) -> (r: Option<FileType>)
    ensures
        r == spec_node_type(s@),
{
    proof {
        reveal_strlit("b");
        reveal_strlit("block");
        reveal_strlit("c");
        reveal_strlit("char");
        reveal_strlit("p");
        reveal_strlit("pipe");
        reveal_strlit("fifo");
        reveal_strlit("s");
        reveal_strlit("socket");
    }
    if same_text(s, "b") || same_text(s, "block") {
        Some(FileType::BlockDevice)
    } else if same_text(s, "c") || same_text(s, "char") {
        Some(FileType::CharacterDevice)
    } else if same_text(s, "p") || same_text(s, "pipe") || same_text(s, "fifo") {
        Some(FileType::Fifo)
    } else if same_text(s, "s") || same_text(s, "socket") {
        Some(FileType::Socket)
    } else {
        None
    }
}

/// Make a node of type `ftype` at `name` from `cwd` (under its resolved
/// parent), which must not resolve to anything yet, with permission bits
/// `mode`, owner `uid`, group `gid`, size 0, times `now`, and for a device
/// the numbers `major` and `minor`; give back its path and inode number.
pub fn mknod(
    fs: &mut MinixFileSystem,
    cwd: &[String],
    name: &str,
    ftype: FileType,
    major: u16,
    minor: u16,
    meta: (u16, u32, u32, u64),
) -> (r: Result<(String, u64), CmdError>)
    requires
        old(fs).editable(),
    ensures
        final(fs).editable(),
        deref_of(*old(fs), strings_view(cwd@), name@) is Resolved ==> (r matches Err(CmdError::Exists(s)) && s@ == name@
            && final(fs).same_but_cache(&*old(fs))),
        r matches Ok((p, n)) ==> {
            let raw = raw_path(strings_view(cwd@), name@);
            let (mode, uid, gid, now) = meta;
            &&& deref_of(*old(fs), Seq::empty(), join_abs(parent_comps(components(raw)))) matches Resolution::Resolved(pcs)
                && p@ == child_of(join_abs(pcs), spec_fname(raw))
            &&& node_added(*old(fs), *final(fs), p@, n, NodeMeta { ftype, mode, uid, gid, size: 0, now })
            &&& (ftype == FileType::BlockDevice || ftype == FileType::CharacterDevice) ==> final(fs).inodes@[n - 1].zones[0]
                == (((major & 0xFF) << 8u16) | (minor & 0xFF)) as u32
        },
        ((crate::minix::create::plain_node(ftype) || ftype == FileType::BlockDevice || ftype == FileType::CharacterDevice)
            && !(deref_of(*old(fs), strings_view(cwd@), name@) is Resolved)) ==> (
        r matches Err(c) ==> c matches CmdError::Fs(e) && {
            let raw = raw_path(strings_view(cwd@), name@);
            match deref_of(*old(fs), Seq::empty(), join_abs(parent_comps(components(raw)))) {
                Resolution::Resolved(pcs) => {
                    let p = child_of(join_abs(pcs), spec_fname(raw));
                    ||| crate::minix::create::alloc_error(*old(fs), e)
                    ||| crate::minix::create::dentry_error(*old(fs), p, e)
                    ||| crate::minix::create::relink_error(*old(fs), p, e)
                    ||| !(walk(trees_view(old(fs).tree@), parent_comps(components(p))) is Reached)
                },
                res => crate::path::deref_result(res, Err::<String, FsError>(e)),
            }
        }),
{
    let ghost f0 = *fs;
    let (mode, uid, gid, now) = meta;
    if build_path_deref(fs, cwd, name).is_ok() {
        return Err(CmdError::Exists(name.to_owned()));
    }
    proof {
        let raw = raw_path(strings_view(cwd@), name@);
        lemma_resolve_agree(
            f0,
            *fs,
            components(join_abs(noderef_components(Seq::empty(), join_abs(parent_comps(components(raw)))))),
            Seq::empty(),
            Seq::empty(),
        );
    }
    let path = match entry_path(fs, cwd, name) {
        Ok(p) => p,
        Err(e) => {
            return Err(CmdError::Fs(e));
        },
    };
    let m = NodeMeta { ftype, mode, uid, gid, size: 0, now };
    let ghost f1 = *fs;
    let n = match make_node(fs, &path, &m) {
        Ok(n) => n,
        Err(e) => {
            proof {
                crate::minix::create::lemma_make_errors_same_content(f0, f1, path@, e);
            }
            return Err(CmdError::Fs(e));
        },
    };
    proof {
        lemma_meta_type(fs.inodes@[n - 1], m);
    }
    match fs.get_inode_mut(n) {
        Ok(inode) => inode.set_node(major, minor),
        Err(e) => {
            return Err(CmdError::Fs(e));
        },
    }
    let fname = fname_from_path(path.as_str()).to_owned();
    match push_entry(fs, path.as_str(), Item::new(fname, n, ftype)) {
        Ok(()) => {},
        Err(e) => {
            return Err(CmdError::Fs(e));
        },
    }
    Ok((path, n))
}

/// Set the permission bits of the node that `name` names from `cwd` as
/// the mode string `mode_str` says, from the bits it has (octal, or
/// symbolic clauses); its type bits stay. Give back its inode number.
pub fn chmod(fs: &mut MinixFileSystem, cwd: &[String], mode_str: &str, name: &str) -> (r: Result<u64, CmdError>)
    requires
        old(fs).editable(),
    ensures
        final(fs).editable(),
        final(fs).tree == old(fs).tree,
        match deref_of(*old(fs), strings_view(cwd@), name@) {
            Resolution::Resolved(cs) => match lookup(trees_view(old(fs).tree@), components(join_abs(cs))) {
                Lookup::Found(v) => match old(fs).inode_at(view_inode(v)) {
                    Some(i) => match spec_parse_mode(mode_str.spec_bytes(), i.mode & 0o777, i.spec_file_type() == FileType::Directory) {
                        Ok(bits) => {
                            &&& r == Ok::<u64, CmdError>(view_inode(v))
                            &&& final(fs).inodes@ == old(fs).inodes@.update(
                                view_inode(v) - 1,
                                Inode { mode: (i.mode & S_IFMT) | (((((i.mode & 0o777) & S_IFMT) | bits) as u16) & 0o777), ..i },
                            )
                        },
                        Err(e) => r matches Err(CmdError::Mode(me)) && me@ == e,
                    },
                    None => r is Err,
                },
                _ => r is Err,
            },
            _ => r is Err,
        },
{
    let path = match build_path_deref(fs, cwd, name) {
        Ok(p) => p,
        Err(e) => {
            return Err(CmdError::Fs(e));
        },
    };
    let item = match get_item(&*fs, path.as_str()) {
        Ok(i) => i,
        Err(e) => {
            return Err(CmdError::Fs(e));
        },
    };
    let n = item.inode();
    let (current, is_dir) = match fs.get_inode(n) {
        Ok(i) => (i.get_mode(), i.get_file_type() == FileType::Directory),
        Err(e) => {
            return Err(CmdError::Fs(e));
        },
    };
    let bits = match parse_symbolic_mode(mode_str, current, is_dir) {
        Ok(b) => b,
        Err(e) => {
            return Err(CmdError::Mode(e));
        },
    };
    match fs.get_inode_mut(n) {
        Ok(inode) => inode.set_mode((current & S_IFMT) | bits),
        Err(e) => {
            return Err(CmdError::Fs(e));
        },
    }
    Ok(n)
}

/// The owner part of a `chown` argument: all before the first `:`.
pub open spec fn owner_part(s: Seq<char>) -> Seq<char> {
    let k = first_colon(s, 0);
    s.take(k)
}

/// The index of the first `:` of `s` from `i` on, or the length of `s`.
pub open spec fn first_colon(s: Seq<char>, i: int) -> int
    decreases s.len() - i,
{
    if i < 0 || i >= s.len() {
        s.len() as int
    } else if s[i] == ':' {
        i
    } else {
        first_colon(s, i + 1)
    }
}

proof fn lemma_first_colon(s: Seq<char>, i: int)
    requires
        0 <= i <= s.len(),
    ensures
        i <= first_colon(s, i) <= s.len(),
        first_colon(s, i) < s.len() ==> s[first_colon(s, i)] == ':',
        forall|j: int| i <= j < first_colon(s, i) ==> s[j] != ':',
    decreases s.len() - i,
{
    if i < s.len() && s[i] != ':' {
        lemma_first_colon(s, i + 1);
    }
}

/// The index of the first `:` of `s` from `i` on, or the length of `s`.
fn find_colon(s: &str, i: usize) -> (r: usize)
    requires
        i <= s@.len(),
    ensures
        r == first_colon(s@, i as int),
{
    let n = s.unicode_len();
    let mut j = i;
    while j < n && s.get_char(j) != ':'
        invariant
            i <= j <= n == s@.len(),
            first_colon(s@, i as int) == first_colon(s@, j as int),
        decreases n - j,
    {
        j += 1;
    }
    j
}

/// Set the owner (and, after a `:`, the group) of the node that `name`
/// names from `cwd`, as `spec` (`owner[:group]`, decimal numbers) says.
/// Give back its inode number.
pub fn chown(fs: &mut MinixFileSystem, cwd: &[String], spec: &str, name: &str) -> (r: Result<u64, CmdError>)
    requires
        old(fs).editable(),
    ensures
        final(fs).editable(),
        final(fs).tree == old(fs).tree,
        ({
            let s = spec@;
            let k = first_colon(s, 0);
            &&& (k < s.len() && first_colon(s, k + 1) < s.len() ==> (r matches Err(CmdError::OwnerFormat)))
            &&& match r {
            Ok(n) => {
                &&& spec_parse_unsigned(encode_utf8(s.take(k)), 10, u32::MAX as int) matches Ok(uid)
                &&& old(fs).inode_at(n) matches Some(i)
                &&& final(fs).inodes@ == old(fs).inodes@.update(
                    n - 1,
                    if k < s.len() {
                        Inode {
                            uid: uid as u16,
                            gid: spec_parse_unsigned(encode_utf8(s.skip(k + 1)), 10, u32::MAX as int)->Ok_0 as u16,
                            ..i
                        }
                    } else {
                        Inode { uid: uid as u16, ..i }
                    },
                )
                &&& (k < s.len() ==> spec_parse_unsigned(encode_utf8(s.skip(k + 1)), 10, u32::MAX as int) is Ok)
                &&& deref_of(*old(fs), strings_view(cwd@), name@) matches Resolution::Resolved(cs)
                &&& lookup(trees_view(old(fs).tree@), components(join_abs(cs))) matches Lookup::Found(v)
                &&& n == view_inode(v)
            },
            Err(_) => true,
            }
        }),
{
    let n = spec.unicode_len();
    let k = find_colon(spec, 0);
    proof {
        lemma_first_colon(spec@, 0);
    }
    let group = if k < n {
        if find_colon(spec, k + 1) < n {
            return Err(CmdError::OwnerFormat);
        }
        Some(spec.substring_char(k + 1, n))
    } else {
        None
    };
    let owner_str = spec.substring_char(0, k);
    assert(owner_str@ == spec@.take(k as int));
    let owner = match parse_decimal(owner_str, 0xFFFF_FFFF) {
        Ok(o) => o as u32,
        Err(e) => {
            return Err(CmdError::BadOwner(owner_str.to_owned(), e));
        },
    };
    let path = match build_path_deref(fs, cwd, name) {
        Ok(p) => p,
        Err(e) => {
            return Err(CmdError::Fs(e));
        },
    };
    let item = match get_item(&*fs, path.as_str()) {
        Ok(i) => i,
        Err(e) => {
            return Err(CmdError::Fs(e));
        },
    };
    let ino = item.inode();
    let inode = match fs.get_inode_mut(ino) {
        Ok(i) => i,
        Err(e) => {
            return Err(CmdError::Fs(e));
        },
    };
    if let Some(g) = group {
        assert(g@ == spec@.skip(k + 1));
        match parse_decimal(g, 0xFFFF_FFFF) {
            Ok(gid) => inode.set_gid(gid as u32),
            Err(e) => {
                return Err(CmdError::BadGroup(g.to_owned(), e));
            },
        }
    }
    inode.set_uid(owner);
    Ok(ino)
}

/// Make a symbolic link at `link` to `target`: a node with permission
/// bits 777, owner `uid`, group `gid`, the length of `target` in bytes as
/// its size and times `now`, a block holding `target` as its first zone,
/// and its entry, with `target`, in the tree. Where no block is left the
/// entry made on disk is removed again.
pub fn make_symlink(fs: &mut MinixFileSystem, target: &str, link: &String, uid: u32, gid: u32, now: u64) -> (r: Result<
    u64,
    CmdError,
>)
    requires
        old(fs).editable(),
    ensures
        final(fs).editable(),
        r matches Ok(n) ==> {
            let t = trees_view(old(fs).tree@);
            let pc = parent_comps(components(link@));
            let m = NodeMeta { ftype: FileType::Symlink, mode: 0o777, uid, gid, size: target.spec_bytes().len() as u64, now };
            &&& final(fs).inode_at(n) matches Some(i)
            &&& has_meta(i, m)
            &&& exists|b: u64| #[trigger] final(fs).bcache.view().contains_key(b) && i.zones[0] == b as u32
                && final(fs).bcache.view()[b] == (true, target.spec_bytes().subrange(
                0,
                min(final(fs).bsize(), target.spec_bytes().len() as int),
            ))
            &&& walk(t, pc) matches Walk::Reached(p)
            &&& trees_view(final(fs).tree@) == replace_at(
                t,
                pc,
                p.push(ItemView::Symlink { name: spec_fname(link@), inode: n, target: target@ }),
            )
        },
        r matches Err(e) ==> e matches CmdError::Fs(fe) && ({
            ||| crate::minix::create::alloc_error(*old(fs), fe)
            ||| crate::minix::create::dentry_error(*old(fs), link@, fe)
            ||| fe == FsError::NoBlocksLeft && crate::minix::create::at_most_one_free(old(fs).zmap.bits())
            ||| !(walk(trees_view(old(fs).tree@), parent_comps(components(link@))) is Reached)
        }),
{
    let ghost f0 = *fs;
    let bytes = target.as_bytes();
    let m = NodeMeta { ftype: FileType::Symlink, mode: 0o777, uid, gid, size: bytes.len() as u64, now };
    let ghost t0 = trees_view(fs.tree@);
    let n = match make_node(fs, link, &m) {
        Ok(n) => n,
        Err(e) => {
            return Err(CmdError::Fs(e));
        },
    };
    let ghost f1 = *fs;
    let b = match fs.allocate_block() {
        Ok(b) => b,
        Err(e) => {
            proof {
                crate::minix::create::lemma_one_more_full(f0.zmap.bits(), f1.zmap.bits());
            }
            let _ = fs.unlink(link);
            return Err(CmdError::Fs(e));
        },
    };
    if let Err(e) = fs.write_block(b, bytes) {
        let _ = fs.unlink(link);
        return Err(CmdError::Fs(e));
    }
    let ghost f2 = *fs;
    let inode = match fs.get_inode_mut(n) {
        Ok(i) => i,
        Err(e) => {
            return Err(CmdError::Fs(e));
        },
    };
    let mut blocks = inode.get_blocks();
    blocks.set(0, b);
    inode.set_blocks(blocks.as_slice());
    let fname = fname_from_path(link.as_str()).to_owned();
    match push_entry(fs, link.as_str(), Item::new_symlink(fname, n, target.to_owned())) {
        Ok(()) => {},
        Err(e) => {
            return Err(CmdError::Fs(e));
        },
    }
    assert(fs.bcache.view().contains_key(b));
    Ok(n)
}

/// Make `link` a second name of the node that `target` names in the tree
/// (links not followed), which must be no directory: count a link more on
/// its inode, set its modification and change times to `now`, add the
/// directory entry on disk and in the tree. Where adding fails, the count
/// is taken back.
pub fn make_hardlink(fs: &mut MinixFileSystem, target: &str, link: &String, now: u64) -> (r: Result<u64, CmdError>)
    requires
        old(fs).editable(),
    ensures
        final(fs).editable(),
        match lookup(trees_view(old(fs).tree@), components(target@)) {
            Lookup::Found(v) => if v is Directory {
                r matches Err(CmdError::HardLinkToDirectory(s)) && s@ == target@ && *final(fs) == *old(fs)
            } else {
                r matches Ok(n) ==> {
                    &&& n == view_inode(v)
                    &&& old(fs).inode_at(n) matches Some(i)
                    &&& final(fs).inode_at(n) matches Some(j)
                    &&& j.nlinks == (i.nlinks + 1) as u16 && j.mtime == now as u32 && j.ctime == now as u32
                    &&& j.mode == i.mode && j.uid == i.uid && j.gid == i.gid
                }
            },
            _ => r is Err && *final(fs) == *old(fs),
        },
{
    let item = match get_item(&*fs, target) {
        Ok(i) => i,
        Err(e) => {
            return Err(CmdError::Fs(e));
        },
    };
    if item.is_dir() {
        return Err(CmdError::HardLinkToDirectory(target.to_owned()));
    }
    let n = item.inode();
    let inode = match fs.get_inode_mut(n) {
        Ok(i) => i,
        Err(e) => {
            return Err(CmdError::Fs(e));
        },
    };
    let links = inode.get_nlinks();
    inode.set_nlinks(links + 1);
    inode.set_mtime(now);
    inode.set_ctime(now);
    if (n as usize) / 8 >= fs.imap.map.len() {
        return Err(CmdError::Fs(FsError::InodeOutOfBounds { inode: n }));
    }
    proof {
        lemma_editable_block_size(fs.superblock.block_size);
    }
    let ghost f1 = *fs;
    if let Err(e) = fs.link(n, link) {
        rollback_link(fs, n);
        return Err(CmdError::Fs(e));
    }
    assert(fs.inodes@[n - 1] == f1.inodes@[n - 1] || meta_kept(fs.inodes@, f1.inodes@));
    if let Err(e) = add_item(fs, link.as_str(), n) {
        rollback_link(fs, n);
        return Err(CmdError::Fs(e));
    }
    Ok(n)
}

/// Count one link less on inode `n` (none below 0); nothing changes where
/// the table has no inode `n`.
fn rollback_link(fs: &mut MinixFileSystem, n: u64)
    requires
        old(fs).editable(),
    ensures
        final(fs).editable(),
        match old(fs).inode_at(n) {
            Some(i) => {
                &&& final(fs).inodes@ == old(fs).inodes@.update(
                    n - 1,
                    Inode { nlinks: (if i.nlinks == 0 { 0 } else { i.nlinks - 1 }) as u16, ..i },
                )
                &&& final(fs).superblock == old(fs).superblock
                &&& final(fs).imap == old(fs).imap
                &&& final(fs).zmap == old(fs).zmap
                &&& final(fs).tree == old(fs).tree
                &&& final(fs).image == old(fs).image
                &&& final(fs).bcache == old(fs).bcache
            },
            None => *final(fs) == *old(fs),
        },
{
    if let Ok(inode) = fs.get_inode_mut(n) {
        let links = inode.get_nlinks();
        inode.set_nlinks(links.saturating_sub(1));
    }
}

/// Make `link_name` (from `cwd`) a link to `target`: symbolic where
/// `soft`, else hard. A name that resolves already is refused, unless
/// `force`, which removes it first. The outer error is a refusal before
/// anything changed; the inner result is that of making the link.
pub fn ln(
    fs: &mut MinixFileSystem,
    cwd: &[String],
    target: &str,
    link_name: &str,
    soft: bool,
    force: bool,
    owner: (u32, u32),
    now: u64,
) -> (r: Result<Result<u64, CmdError>, CmdError>)
    requires
        old(fs).editable(),
    ensures
        final(fs).editable(),
        deref_of(*old(fs), strings_view(cwd@), link_name@) is Resolved && !force ==> (r matches Err(CmdError::Exists(s))
            && s@ == link_name@ && final(fs).same_but_cache(&*old(fs))),
{
    let ghost f0 = *fs;
    let (uid, gid) = owner;
    let path = match build_path_deref(fs, cwd, link_name) {
        Ok(canonical) => {
            if !force {
                return Err(CmdError::Exists(link_name.to_owned()));
            }
            let _ = fs.unlink(&canonical);
            canonical
        },
        Err(_) => match entry_path(fs, cwd, link_name) {
            Ok(p) => p,
            Err(e) => {
                return Err(CmdError::Fs(e));
            },
        },
    };
    if soft {
        Ok(make_symlink(fs, target, &path, uid, gid, now))
    } else {
        Ok(make_hardlink(fs, target, &path, now))
    }
}

/// What a `umask` argument gives: an octal number within the permission
/// bits, or the number outside them, or no octal number.
pub enum UmaskArg {
    Mask(u16),
    OutOfRange(u16),
    NotOctal,
}

/// Read a `umask` argument: an octal number of 16 bits at most, which
/// must lie within the permission bits (`777`).
pub fn parse_umask(s: &str) -> (r: UmaskArg)
    ensures
        match spec_parse_unsigned(s.spec_bytes(), 8, 0xFFFF) {
            Ok(m) => if (m as u16) & !0o777u16 != 0 {
                r == UmaskArg::OutOfRange(m as u16)
            } else {
                r == UmaskArg::Mask((m as u16) & 0o777u16)
            },
            Err(_) => r == UmaskArg::NotOctal,
        },
{
    match crate::args::parse_octal(s) {
        Ok(m) => if m & !0o777u16 != 0 {
            UmaskArg::OutOfRange(m)
        } else {
            UmaskArg::Mask(m & 0o777u16)
        },
        Err(_) => UmaskArg::NotOctal,
    }
}

/// The inode number of what `name` names from `cwd` (links followed).
pub fn stat_target(fs: &mut MinixFileSystem, cwd: &[String], name: &str) -> (r: Result<u64, CmdError>)
    ensures
        final(fs).same_but_cache(&*old(fs)),
        match deref_of(*old(fs), strings_view(cwd@), name@) {
            Resolution::Resolved(cs) => match lookup(trees_view(old(fs).tree@), components(join_abs(cs))) {
                Lookup::Found(v) => r == Ok::<u64, CmdError>(view_inode(v)),
                _ => r is Err,
            },
            _ => r is Err,
        },
{
    let path = match build_path_deref(fs, cwd, name) {
        Ok(p) => p,
        Err(e) => {
            return Err(CmdError::Fs(e));
        },
    };
    match get_item(&*fs, path.as_str()) {
        Ok(i) => Ok(i.inode()),
        Err(e) => Err(CmdError::Fs(e)),
    }
}

} // verus!
