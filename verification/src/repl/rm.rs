//! The shell's `rm`: what a path names, and the order in which a
//! directory and everything below it is removed.
use crate::cache::{item_view, trees_view, Item, ItemView};
use crate::error::FsError;
use crate::filetype::FileType;
use crate::fs::{FileSystem, InodeOperations};
use crate::minix::fs::MinixFileSystem;
use crate::path::{build_path_noderef, components, get_item, lookup, strings_view, view_inode, Lookup};
use crate::repl::entry::{child_of, child_path, raw_path};
use crate::repl::outcome::CmdError;
use vstd::prelude::*;
use vstd::string::StrSliceExecFns;

verus! {

/// Whether `name` is `.` or `..`.
pub open spec fn is_dot_name(name: Seq<char>) -> bool {
    name == seq!['.'] || name == seq!['.', '.']
}

/// The paths to remove, children before their directory, for the tree
/// entry `v` at `path`: a directory's entries other than `.` and `..`
/// first, in their order, each with everything below it; then `path`.
pub open spec fn removal_order(v: ItemView, path: Seq<char>) -> Seq<Seq<char>>
    decreases v,
{
    match v {
        ItemView::Directory { children, .. } => children_order(children, path, 0) + seq![path],
        _ => seq![path],
    }
}

/// The removal order of the entries `cs[i..]` of the directory at `path`.
pub open spec fn children_order(cs: Seq<ItemView>, path: Seq<char>, i: int) -> Seq<Seq<char>>
    decreases cs, cs.len() - i,
{
    if i < 0 || i >= cs.len() {
        Seq::empty()
    } else {
        let c = cs[i];
        let name = crate::path::view_name(c);
        let here = if is_dot_name(name) {
            Seq::empty()
        } else {
            removal_order(c, child_of(path, name))
        };
        here + children_order(cs, path, i + 1)
    }
}

/// Whether `s` is `.` or `..`.
fn dot_name(s: &String) -> (r: bool)
    ensures
        r == is_dot_name(s@),
{
    let t = s.as_str();
    let n = t.unicode_len();
    let r = (n == 1 && t.get_char(0) == '.') || (n == 2 && t.get_char(0) == '.' && t.get_char(1) == '.');
    proof {
        if r {
            assert(s@ =~= seq!['.'] || s@ =~= seq!['.', '.']);
        }
    }
    r
}

/// Append the removal order of `item` at `path` to `out`.
fn push_removal_order(item: &Item, path: String, out: &mut Vec<String>)
    ensures
        strings_view(final(out)@) == strings_view(old(out)@) + removal_order(item_view(*item), path@),
    decreases item,
{
    let ghost p = path@;
    match item {
        Item::Directory(_, children) => {
            let ghost cs = trees_view(children@);
            proof {
                crate::cache::lemma_trees_view(children@);
            }
            let mut i: usize = 0;
            let ghost start = strings_view(out@);
            assert(children_order(cs, p, 0) == children_order(cs, p, 0));
            while i < children.len()
                invariant
                    i <= children@.len() == cs.len(),
                    cs == trees_view(children@),
                    forall|j: int| 0 <= j < children@.len() ==> #[trigger] cs[j] == item_view(children@[j]),
                    start + children_order(cs, p, 0) == strings_view(out@) + children_order(cs, p, i as int),
                    path@ == p,
                    *item is Directory,
                    (*item)->Directory_1 == *children,
                decreases children@.len() - i,
            {
                let c = &children[i];
                let ghost o0 = strings_view(out@);
                proof {
                    crate::path::lemma_view_name(*c);
                }
                let name = c.clone_name();
                if !dot_name(&name) {
                    let cp = child_path(path.as_str(), name.as_str());
                    proof {
                        assert(*children == (*item)->Directory_1);
                        assert(decreases_to!(*item => (*item)->Directory_1));
                        assert(decreases_to!(*children => children@));
                        assert(decreases_to!(children@ => children@[i as int]));
                    }
                    push_removal_order(c, cp, out);
                } else {
                    assert(strings_view(out@) + Seq::<Seq<char>>::empty() =~= strings_view(out@));
                }
                proof {
                    let here = if is_dot_name(name@) {
                        Seq::<Seq<char>>::empty()
                    } else {
                        removal_order(cs[i as int], child_of(p, name@))
                    };
                    assert(children_order(cs, p, i as int) == here + children_order(cs, p, i + 1));
                    assert(strings_view(out@) == o0 + here);
                    assert(o0 + children_order(cs, p, i as int) =~= strings_view(out@) + children_order(cs, p, i + 1));
                }
                i += 1;
            }
            assert(children_order(cs, p, children@.len() as int) =~= Seq::<Seq<char>>::empty());
            let ghost before = out@;
            out.push(path);
            assert(strings_view(out@) =~= strings_view(before).push(p));
        },
        _ => {
            let ghost before = out@;
            out.push(path);
            assert(strings_view(out@) =~= strings_view(before).push(p));
        },
    }
}

/// The path that `rm` works on for `name` from `cwd` (links not followed)
/// and the type of the node it names.
pub fn rm_target(fs: &mut MinixFileSystem, cwd: &[String], name: &str) -> (r: Result<(String, FileType), CmdError>)
    ensures
        *final(fs) == *old(fs),
        ({
            let p = raw_path(strings_view(cwd@), name@);
            match lookup(trees_view(old(fs).tree@), components(p)) {
                Lookup::Found(v) => match old(fs).inode_at(view_inode(v)) {
                    Some(i) => r matches Ok((q, ft)) && q@ == p && ft == i.spec_file_type(),
                    None => r is Err,
                },
                _ => r is Err,
            }
        }),
{
    let path = build_path_noderef(cwd, name);
    let item = match get_item(&*fs, path.as_str()) {
        Ok(i) => i,
        Err(e) => {
            return Err(CmdError::Fs(e));
        },
    };
    let ft = match fs.get_inode(item.inode()) {
        Ok(i) => i.get_file_type(),
        Err(e) => {
            return Err(CmdError::Fs(e));
        },
    };
    Ok((path, ft))
}

/// The paths that `rm -r` removes for `path`, in the order it removes
/// them: everything below a directory first, each directory after its
/// entries.
pub fn removal_plan(fs: &MinixFileSystem, path: &str) -> (r: Result<Vec<String>, FsError>)
    ensures
        match lookup(trees_view(fs.tree@), components(path@)) {
            Lookup::Found(v) => r matches Ok(ps) && strings_view(ps@) == removal_order(v, path@),
            _ => r is Err,
        },
{
    let item = get_item(fs, path)?;
    let mut out: Vec<String> = Vec::new();
    assert(strings_view(out@) =~= Seq::<Seq<char>>::empty());
    push_removal_order(&item, path.to_owned(), &mut out);
    assert(strings_view(out@) =~= removal_order(item_view(item), path@));
    Ok(out)
}

} // verus!
