//! The shell's `du`: the disk usage of a node and all below it.
use crate::cache::{item_view, trees_view, Item, ItemData, ItemView};
use crate::error::FsError;
use crate::filetype::FileType;
use crate::fs::{FileSystem, InodeOperations};
use crate::minix::fs::MinixFileSystem;
use crate::path::{get_item, view_inode, view_name};
use crate::repl::rm::is_dot_name;
use crate::repl::xfer::{join_slash, slash_join};
use vstd::prelude::*;
use vstd::string::{StrSliceExecFns, StringExecFns};

verus! {

/// Which lines `du` reports.
#[derive(Copy, Clone)]
pub struct DuOptions {
    /// Only the argument itself (depth 0).
    pub summarize: bool,
    /// Only entries at most this deep.
    pub max_depth: Option<u64>,
    /// Only entries of at least this many bytes.
    pub threshold: u64,
}

/// A line of `du`'s report.
pub enum DuLine {
    /// The path and the bytes used by it and all below it.
    Size(String, u64),
    /// The path could not be looked up.
    Error(String, FsError),
}

/// `a + b`, or `u64::MAX` where that is larger.
pub open spec fn sat_add(a: int, b: int) -> int {
    if a + b > u64::MAX {
        u64::MAX as int
    } else {
        a + b
    }
}

/// The bytes `size` bytes take in whole blocks of `blk` bytes.
pub open spec fn rounded(size: u64, blk: u64) -> int {
    if size == 0 {
        0
    } else {
        (size + blk - 1) / blk as int * blk
    }
}

/// The bytes that the tree entry `v` and all below it take in `fs`: its
/// own size in whole blocks, and for a directory the usage of each entry
/// but `.` and `..`, summed (at most `u64::MAX`). An entry whose inode
/// cannot be had takes nothing.
pub open spec fn usage(fs: MinixFileSystem, v: ItemView) -> int
    decreases v,
{
    match fs.inode_at(view_inode(v)) {
        None => 0,
        Some(i) => {
            let own = rounded(i.size as u64, fs.superblock.block_size as u64);
            if i.spec_file_type() != FileType::Directory {
                own
            } else {
                match v {
                    ItemView::Directory { children, .. } => usage_of(fs, children, 0, own),
                    _ => own,
                }
            }
        },
    }
}

/// `acc` plus the usage of the entries `cs[i..]` but `.` and `..`.
pub open spec fn usage_of(fs: MinixFileSystem, cs: Seq<ItemView>, i: int, acc: int) -> int
    decreases cs, cs.len() - i,
{
    if i < 0 || i >= cs.len() {
        acc
    } else {
        let c = cs[i];
        let next = if is_dot_name(view_name(c)) {
            acc
        } else {
            sat_add(acc, usage(fs, c))
        };
        usage_of(fs, cs, i + 1, next)
    }
}

proof fn lemma_usage_of_bounded(fs: MinixFileSystem, cs: Seq<ItemView>, i: int, acc: int)
    requires
        0 <= acc <= u64::MAX,
        fs.superblock.block_size >= 1,
    ensures
        acc <= usage_of(fs, cs, i, acc) <= u64::MAX,
    decreases cs, cs.len() - i,
{
    if 0 <= i < cs.len() {
        let c = cs[i];
        let next = if is_dot_name(view_name(c)) {
            acc
        } else {
            sat_add(acc, usage(fs, c))
        };
        lemma_usage_bounded(fs, c);
        lemma_usage_of_bounded(fs, cs, i + 1, next);
    }
}

proof fn lemma_usage_bounded(fs: MinixFileSystem, v: ItemView)
    requires
        fs.superblock.block_size >= 1,
    ensures
        0 <= usage(fs, v) <= u64::MAX,
    decreases v,
{
    match fs.inode_at(view_inode(v)) {
        None => {},
        Some(i) => {
            let own = rounded(i.size as u64, fs.superblock.block_size as u64);
            lemma_rounded(i.size as u64, fs.superblock.block_size as u64);
            if i.spec_file_type() == FileType::Directory {
                match v {
                    ItemView::Directory { children, .. } => {
                        lemma_usage_of_bounded(fs, children, 0, own);
                    },
                    _ => {},
                }
            }
        },
    }
}

proof fn lemma_rounded(size: u64, blk: u64)
    requires
        size <= u32::MAX,
        1 <= blk <= u16::MAX,
    ensures
        0 <= rounded(size, blk) <= u64::MAX,
{
    if size > 0 {
        assert((size + blk - 1) / blk as int * blk <= size + blk) by (nonlinear_arith)
            requires
                blk >= 1,
                size >= 1,
        ;
        assert((size + blk - 1) / blk as int * blk >= 0) by (nonlinear_arith)
            requires
                blk >= 1,
                size >= 1,
        ;
    }
}

/// Whether `du` reports an entry at `depth` under `opts`: only depth 0
/// where summarizing, else up to the greatest depth if one is given.
pub open spec fn reported_depth(opts: DuOptions, depth: u64) -> bool {
    if opts.summarize {
        depth == 0
    } else {
        match opts.max_depth {
            Some(d) => depth <= d,
            None => true,
        }
    }
}

/// Add up the usage of `item` (at `path`, `depth` below the argument) and
/// of all below it, appending the lines `du` reports in post-order:
/// entries below a directory before the directory. A non-directory is
/// reported only as the argument itself; anything only from `opts.threshold`
/// bytes on.
fn du_node(fs: &mut MinixFileSystem, item: &Item, path: String, depth: u64, opts: DuOptions, out: &mut Vec<DuLine>) -> (r: u64)
    requires
        old(fs).superblock.block_size >= 1,
    ensures
        *final(fs) == *old(fs),
        r == usage(*old(fs), item_view(*item)),
    decreases item,
{
    let n = item.inode();
    let (ft, size) = match fs.get_inode(n) {
        Ok(i) => (i.get_file_type(), i.get_size()),
        Err(e) => {
            out.push(DuLine::Error(path, e));
            return 0;
        },
    };
    let blk = fs.superblock.block_size as u64;
    proof {
        lemma_rounded(size, blk);
    }
    let own = if size == 0 {
        0
    } else {
        (size + blk - 1) / blk * blk
    };
    if ft != FileType::Directory {
        if depth == 0 && own >= opts.threshold {
            out.push(DuLine::Size(path, own));
        }
        return own;
    }
    let mut total = own;
    match item {
        Item::Directory(_, children) => {
            let ghost cs = trees_view(children@);
            proof {
                crate::cache::lemma_trees_view(children@);
                crate::path::lemma_item_views();
            }
            let mut i: usize = 0;
            while i < children.len()
                invariant
                    i <= children@.len() == cs.len(),
                    cs == trees_view(children@),
                    forall|j: int| 0 <= j < children@.len() ==> #[trigger] cs[j] == item_view(children@[j]),
                    forall|it: Item| #[trigger] view_name(item_view(it)) == it.spec_name(),
                    *fs == *old(fs),
                    old(fs).superblock.block_size >= 1,
                    usage_of(*old(fs), cs, 0, own as int) == usage_of(*old(fs), cs, i as int, total as int),
                    *item is Directory,
                    (*item)->Directory_1 == *children,
                decreases children@.len() - i,
            {
                let c = &children[i];
                let name = c.clone_name();
                let t = name.as_str();
                let k = t.unicode_len();
                let dot = (k == 1 && t.get_char(0) == '.') || (k == 2 && t.get_char(0) == '.' && t.get_char(1) == '.');
                proof {
                    if dot {
                        assert(name@ =~= seq!['.'] || name@ =~= seq!['.', '.']);
                    }
                    if is_dot_name(name@) {
                        assert(name@.len() == k);
                    }
                }
                if !dot {
                    let cp = join_slash(path.as_str(), t);
                    proof {
                        assert(decreases_to!(*item => (*item)->Directory_1));
                        assert(decreases_to!(*children => children@));
                        assert(decreases_to!(children@ => children@[i as int]));
                    }
                    let u = du_node(fs, c, cp, depth.saturating_add(1), opts, out);
                    total = total.saturating_add(u);
                }
                i += 1;
            }
        },
        _ => {},
    }
    let within = if opts.summarize {
        depth == 0
    } else {
        match opts.max_depth {
            Some(d) => depth <= d,
            None => true,
        }
    };
    if within && total >= opts.threshold {
        out.push(DuLine::Size(path, total));
    }
    total
}

/// The usage of what the tree holds at `path` (the root's `.` entry and
/// all the root holds for `/`), appending the lines `du` reports.
pub fn du(fs: &mut MinixFileSystem, path: &str, opts: DuOptions, out: &mut Vec<DuLine>) -> (r: u64)
    requires
        old(fs).superblock.block_size >= 1,
    ensures
        *final(fs) == *old(fs),
        path@ != seq!['/'] ==> match crate::path::lookup(trees_view(old(fs).tree@), crate::path::components(path@)) {
            crate::path::Lookup::Found(v) => r == usage(*old(fs), v),
            _ => r == 0,
        },
{
    let is_root = path.unicode_len() == 1 && path.get_char(0) == '/';
    proof {
        if path@ == seq!['/'] {
            assert(path@.len() == 1 && path@[0] == '/');
        }
    }
    if is_root {
        assert(path@ =~= seq!['/']);
        let dot = String::from_str(".");
        let k = crate::path::find_index(&fs.tree, &dot);
        if k >= fs.tree.len() {
            out.push(DuLine::Error(path.to_owned(), FsError::NoRootItem));
            return 0;
        }
        let n = fs.tree[k].inode();
        let root = Item::Directory(ItemData { name: dot, inode_num: n }, crate::repl::ls::clone_entries(&fs.tree));
        du_node(fs, &root, path.to_owned(), 0, opts, out)
    } else {
        let item = match get_item(&*fs, path) {
            Ok(i) => i,
            Err(e) => {
                out.push(DuLine::Error(path.to_owned(), e));
                return 0;
            },
        };
        du_node(fs, &item, path.to_owned(), 0, opts, out)
    }
}

/// `bytes` in kibibytes, rounded up: how `du` shows a size by default.
pub fn kib(bytes: u64) -> (r: u64)
    ensures
        r == (bytes + 1023) / 1024,
{
    if bytes == 0 {
        0
    } else {
        (bytes - 1) / 1024 + 1
    }
}

} // verus!
