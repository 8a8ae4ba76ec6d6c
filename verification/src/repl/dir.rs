//! The shell's directory commands: `mkdir` (with `-p`), `rmdir` and `cd`.
use crate::cache::{item_view, trees_view, Item, ItemView};
use crate::error::FsError;
use crate::filetype::FileType;
use crate::fs::{FileSystem, InodeOperations};
use crate::minix::fs::MinixFileSystem;
use crate::path::{
    build_path_deref, components, find_index, find_parent_mut, find_parent_ref, first_named, fname_from_path, get_item,
    join_abs, lookup, owned_components, parent_comps, replace_at, spec_fname, strings_view, view_inode, walk, Lookup,
    Resolution, Walk,
};
use crate::repl::entry::{child_of, child_path, deref_of, entry_path, has_meta, make_node, raw_path, NodeMeta};
use crate::repl::outcome::CmdError;
use vstd::prelude::*;
use vstd::string::{StrSliceExecFns, StringExecFns};

verus! {

/// The size of a directory that holds only `.` and `..`.
pub const EMPTY_DIR_SIZE: u64 = 128;

/// The inode of the `.` entry among `p`, or the root's inode 1 where there
/// is none.
pub open spec fn dot_inode(p: Seq<ItemView>) -> u64 {
    let k = first_named(p, seq!['.']);
    if k < p.len() {
        view_inode(p[k])
    } else {
        1
    }
}

/// The tree entry of a new directory `name` of inode `n` whose parent has
/// inode `parent`: a directory holding `.` and `..`.
pub open spec fn new_dir_view(name: Seq<char>, n: u64, parent: u64) -> ItemView {
    ItemView::Directory {
        name,
        inode: n,
        children: seq![
            ItemView::Directory { name: seq!['.'], inode: n, children: Seq::empty() },
            ItemView::Directory { name: seq!['.', '.'], inode: parent, children: Seq::empty() },
        ],
    }
}

/// Make a directory at `path` with permission bits `mode`, owner `uid`,
/// group `gid`, times `now` and the size of two entries, and add it to the
/// tree with its `.` and `..` entries (`..` naming the inode of its
/// parent's `.` entry). Give back its inode number.
pub fn mkdir_at(fs: &mut MinixFileSystem, path: &String, mode: u16, uid: u32, gid: u32, now: u64) -> (r: Result<u64, CmdError>)
    requires
        old(fs).editable(),
    ensures
        final(fs).editable(),
        final(fs).superblock == old(fs).superblock,
        r matches Ok(n) ==> {
            let t = trees_view(old(fs).tree@);
            let pc = parent_comps(components(path@));
            &&& final(fs).inode_at(n) matches Some(i)
            &&& has_meta(i, NodeMeta { ftype: FileType::Directory, mode, uid, gid, size: EMPTY_DIR_SIZE, now })
            &&& walk(t, pc) matches Walk::Reached(p)
            &&& trees_view(final(fs).tree@) == replace_at(t, pc, p.push(new_dir_view(spec_fname(path@), n, dot_inode(p))))
        },
        r matches Err(e) ==> e matches CmdError::Fs(fe) && (crate::minix::create::dir_error(*old(fs), path@, fe)
            || crate::minix::create::loose_dentry_error(*old(fs), path@, fe) || !(walk(
            trees_view(old(fs).tree@),
            parent_comps(components(path@)),
        ) is Reached)),
{
    let m = NodeMeta { ftype: FileType::Directory, mode, uid, gid, size: EMPTY_DIR_SIZE, now };
    let n = match make_node(fs, path, &m) {
        Ok(n) => n,
        Err(e) => {
            return Err(CmdError::Fs(e));
        },
    };
    let dir = match find_parent_mut(fs, path.as_str()) {
        Ok(d) => d,
        Err(e) => {
            return Err(CmdError::Fs(e));
        },
    };
    let dot_name = String::from_str(".");
    proof {
        reveal_strlit(".");
        reveal_strlit("..");
    }
    assert(dot_name@ =~= seq!['.']);
    let k = find_index(&*dir, &dot_name);
    let ghost p = trees_view(dir@);
    proof {
        crate::cache::lemma_trees_view(dir@);
    }
    let parent = if k < dir.len() {
        let x = dir[k].inode();
        assert(p[k as int] == item_view(dir@[k as int]));
        assert(view_inode(item_view(dir@[k as int])) == dir@[k as int].spec_inode());
        x
    } else {
        1
    };
    assert(parent == dot_inode(p));
    let fname = fname_from_path(path.as_str()).to_owned();
    let dot_s = String::from_str(".");
    let dotdot_s = String::from_str("..");
    assert(dot_s@ =~= seq!['.']);
    assert(dotdot_s@ =~= seq!['.', '.']);
    let dot = Item::new_dir(dot_s, n, Vec::new());
    let dotdot = Item::new_dir(dotdot_s, parent, Vec::new());
    let ghost vd = item_view(dot);
    let ghost vdd = item_view(dotdot);
    assert(vd == ItemView::Directory { name: seq!['.'], inode: n, children: Seq::empty() }) by {
        assert(trees_view(Seq::<Item>::empty()) =~= Seq::<ItemView>::empty());
    }
    assert(vdd == ItemView::Directory { name: seq!['.', '.'], inode: parent, children: Seq::empty() }) by {
        assert(trees_view(Seq::<Item>::empty()) =~= Seq::<ItemView>::empty());
    }
    let mut children: Vec<Item> = Vec::new();
    children.push(dot);
    children.push(dotdot);
    proof {
        assert(children@.drop_last() =~= seq![dot]);
        assert(seq![dot].drop_last() =~= Seq::<Item>::empty());
        assert(trees_view(seq![dot]) =~= seq![vd]);
        assert(trees_view(children@) =~= seq![vd, vdd]);
    }
    let entry = Item::new_dir(fname, n, children);
    let ghost prev = dir@;
    dir.push(entry);
    proof {
        assert(dir@.drop_last() =~= prev);
        assert(item_view(entry) == new_dir_view(fname@, n, parent));
        assert(trees_view(dir@) == p.push(new_dir_view(fname@, n, parent)));
    }
    Ok(n)
}

/// Make the directory `name` from `cwd` under its resolved parent (see
/// `mkdir_at`); give back its path and inode number.
pub fn mkdir_one(fs: &mut MinixFileSystem, cwd: &[String], name: &str, mode: u16, uid: u32, gid: u32, now: u64) -> (r: Result<
    (String, u64),
    CmdError,
>)
    requires
        old(fs).editable(),
    ensures
        final(fs).editable(),
        r matches Ok((p, n)) ==> {
            let raw = raw_path(strings_view(cwd@), name@);
            &&& deref_of(*old(fs), Seq::empty(), join_abs(parent_comps(components(raw)))) matches Resolution::Resolved(pcs)
            &&& p@ == child_of(join_abs(pcs), spec_fname(raw))
            &&& final(fs).inode_at(n) matches Some(i)
            &&& has_meta(i, NodeMeta { ftype: FileType::Directory, mode, uid, gid, size: EMPTY_DIR_SIZE, now })
        },
        r matches Err(e) ==> e matches CmdError::Fs(fe) && ({
            let raw = raw_path(strings_view(cwd@), name@);
            match deref_of(*old(fs), Seq::empty(), join_abs(parent_comps(components(raw)))) {
                Resolution::Resolved(pcs) => {
                    let p = child_of(join_abs(pcs), spec_fname(raw));
                    ||| crate::minix::create::dir_error(*old(fs), p, fe)
                    ||| crate::minix::create::loose_dentry_error(*old(fs), p, fe)
                    ||| !(walk(trees_view(old(fs).tree@), parent_comps(components(p))) is Reached)
                },
                _ => true,
            }
        }),
{
    let ghost f0 = *fs;
    let path = match entry_path(fs, cwd, name) {
        Ok(p) => p,
        Err(e) => {
            return Err(CmdError::Fs(e));
        },
    };
    let ghost f1 = *fs;
    let n = match mkdir_at(fs, &path, mode, uid, gid, now) {
        Ok(n) => n,
        Err(e) => {
            proof {
                assert forall|b: u64| #[trigger] f1.readable(b) == f0.readable(b) by {}
                assert forall|b: u64| #[trigger] f1.read_err(b) == f0.read_err(b) by {}
            }
            return Err(e);
        },
    };
    Ok((path, n))
}

/// What one component of `mkdir -p` comes to.
pub enum ParentStep {
    /// The path so far goes on at this resolved path.
    Enter(String),
    /// A `.` or `..` that does not resolve: the path so far stays.
    Stay,
    /// Nothing is at this path yet: a directory is to be made there.
    Missing(String),
    /// Something that is no directory is there.
    NotADirectory,
}

/// Decide one component of `mkdir -p`, from the resolved path `prefix`
/// made so far: `.` and `..` move the prefix where they resolve; an
/// existing directory (or a node whose type cannot be read) is entered, a
/// node of another type stops the walk, and a missing one is to be made.
pub fn mkdir_parent_step(fs: &mut MinixFileSystem, prefix: &str, component: &str) -> (r: ParentStep)
    ensures
        final(fs).same_but_cache(&*old(fs)),
        ({
            let cand = child_of(prefix@, component@);
            let res = deref_of(*old(fs), Seq::empty(), cand);
            if component@ == seq!['.'] || component@ == seq!['.', '.'] {
                match res {
                    Resolution::Resolved(cs) => r matches ParentStep::Enter(p) && p@ == join_abs(cs),
                    _ => r is Stay,
                }
            } else {
                match res {
                    Resolution::Resolved(cs) => match lookup(trees_view(old(fs).tree@), components(join_abs(cs))) {
                        Lookup::Found(v) => match old(fs).inode_at(view_inode(v)) {
                            Some(i) => if i.spec_file_type() == FileType::Directory {
                                r matches ParentStep::Enter(p) && p@ == join_abs(cs)
                            } else {
                                r is NotADirectory
                            },
                            None => r matches ParentStep::Enter(p) && p@ == join_abs(cs),
                        },
                        _ => r matches ParentStep::Enter(p) && p@ == join_abs(cs),
                    },
                    _ => r matches ParentStep::Missing(p) && p@ == cand,
                }
            }
        }),
{
    let candidate = child_path(prefix, component);
    let root: Vec<String> = Vec::new();
    assert(strings_view(root@) =~= Seq::<Seq<char>>::empty());
    let ghost f0 = *fs;
    let n = component.unicode_len();
    let is_dot = (n == 1 && component.get_char(0) == '.') || (n == 2 && component.get_char(0) == '.' && component.get_char(
        1,
    ) == '.');
    proof {
        if is_dot {
            assert(component@ =~= seq!['.'] || component@ =~= seq!['.', '.']);
        }
        if component@ == seq!['.'] || component@ == seq!['.', '.'] {
            assert(component@.len() == n);
        }
    }
    let res = build_path_deref(fs, root.as_slice(), candidate.as_str());
    proof {
        assert(components(join_abs(crate::path::noderef_components(Seq::empty(), candidate@))) == components(
            join_abs(crate::path::noderef_components(Seq::empty(), candidate@)),
        ));
    }
    if is_dot {
        return match res {
            Ok(p) => ParentStep::Enter(p),
            Err(_) => ParentStep::Stay,
        };
    }
    match res {
        Ok(resolved) => {
            let is_dir = match get_item(&*fs, resolved.as_str()) {
                Ok(item) => match fs.get_inode(item.inode()) {
                    Ok(i) => i.get_file_type() == FileType::Directory,
                    Err(_) => true,
                },
                Err(_) => true,
            };
            if !is_dir {
                ParentStep::NotADirectory
            } else {
                ParentStep::Enter(resolved)
            }
        },
        Err(_) => ParentStep::Missing(candidate),
    }
}

/// Remove the empty directory that `name` names from `cwd` (links
/// followed): it must be in the tree, be a directory and hold no more than
/// `.` and `..`. Give back its path.
pub fn rmdir(fs: &mut MinixFileSystem, cwd: &[String], name: &str) -> (r: Result<String, CmdError>)
    requires
        old(fs).editable(),
    ensures
        final(fs).editable(),
        r matches Ok(p) ==> {
            &&& deref_of(*old(fs), strings_view(cwd@), name@) matches Resolution::Resolved(cs)
            &&& p@ == join_abs(cs)
            &&& lookup(trees_view(old(fs).tree@), components(p@)) matches Lookup::Found(v)
            &&& old(fs).inode_at(view_inode(v)) matches Some(i)
            &&& i.spec_file_type() == FileType::Directory
            &&& i.size <= EMPTY_DIR_SIZE
        },
        r matches Err(CmdError::NotADirectory(p)) ==> (lookup(trees_view(old(fs).tree@), components(p@)) matches Lookup::Found(v)
            && old(fs).inode_at(view_inode(v)) matches Some(i) && i.spec_file_type() != FileType::Directory),
        r matches Err(CmdError::NotEmpty(p)) ==> (lookup(trees_view(old(fs).tree@), components(p@)) matches Lookup::Found(v)
            && old(fs).inode_at(view_inode(v)) matches Some(i) && i.size > EMPTY_DIR_SIZE),
        r matches Err(e) ==> (e is NotADirectory || e is NotEmpty || (e matches CmdError::Fs(fe) && match deref_of(
            *old(fs),
            strings_view(cwd@),
            name@,
        ) {
            Resolution::Resolved(cs) => {
                let t = trees_view(old(fs).tree@);
                ||| !(lookup(t, components(join_abs(cs))) is Found)
                ||| (lookup(t, components(join_abs(cs))) matches Lookup::Found(v) && old(fs).inode_at(view_inode(v)) is None)
                ||| crate::minix::unlink::unlink_error(*old(fs), join_abs(cs), fe)
            },
            res => crate::path::deref_result(res, Err::<String, FsError>(fe)),
        })),
{
    let ghost f0 = *fs;
    let path = match build_path_deref(fs, cwd, name) {
        Ok(p) => p,
        Err(e) => {
            return Err(CmdError::Fs(e));
        },
    };
    let ghost f1 = *fs;
    let item = match get_item(&*fs, path.as_str()) {
        Ok(i) => i,
        Err(e) => {
            return Err(CmdError::Fs(e));
        },
    };
    let (ft, size) = match fs.get_inode(item.inode()) {
        Ok(i) => (i.get_file_type(), i.get_size()),
        Err(e) => {
            return Err(CmdError::Fs(e));
        },
    };
    if ft != FileType::Directory {
        return Err(CmdError::NotADirectory(path));
    }
    if size > EMPTY_DIR_SIZE {
        return Err(CmdError::NotEmpty(path));
    }
    match fs.unlink(&path) {
        Ok(()) => Ok(path),
        Err(e) => {
            proof {
                assert forall|b: u64| #[trigger] f1.readable(b) == f0.readable(b) by {}
                assert forall|b: u64| #[trigger] f1.content(b) == f0.content(b) by {}
                assert forall|b: u64| #[trigger] f1.read_err(b) == f0.read_err(b) by {}
                let t = trees_view(f0.tree@);
                let cs = components(path@);
                if crate::minix::truncate::read_failure(f1, e) {
                    let b = choose|b: u64| !#[trigger] f1.readable(b) && e == f1.read_err(b);
                    assert(!f0.readable(b));
                }
            }
            Err(CmdError::Fs(e))
        },
    }
}

/// The components of the directory that `name` names from `cwd` (links
/// followed), where it is one: the new working directory of `cd`.
pub fn chdir(fs: &mut MinixFileSystem, cwd: &[String], name: &str) -> (r: Result<Vec<String>, CmdError>)
    ensures
        final(fs).same_but_cache(&*old(fs)),
        r matches Ok(v) ==> {
            &&& deref_of(*old(fs), strings_view(cwd@), name@) matches Resolution::Resolved(cs)
            &&& strings_view(v@) == components(join_abs(cs))
        },
        r matches Err(CmdError::NotADirectory(s)) ==> {
            &&& deref_of(*old(fs), strings_view(cwd@), name@) matches Resolution::Resolved(cs)
            &&& s@ == spec_fname(join_abs(cs))
        },
{
    let to = match build_path_deref(fs, cwd, name) {
        Ok(p) => p,
        Err(e) => {
            return Err(CmdError::Fs(e));
        },
    };
    let comps = owned_components(to.as_str());
    if comps.len() == 0 {
        return Ok(comps);
    }
    let dir = match find_parent_ref(&*fs, to.as_str()) {
        Ok(d) => d,
        Err(e) => {
            return Err(CmdError::Fs(e));
        },
    };
    let fname = fname_from_path(to.as_str()).to_owned();
    let k = find_index(dir, &fname);
    if k < dir.len() && !dir[k].is_dir() {
        return Err(CmdError::NotADirectory(fname));
    }
    Ok(owned_components(to.as_str()))
}

} // verus!
