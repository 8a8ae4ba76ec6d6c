//! Where the shell puts a new entry, and how it sets one up: the path of a
//! new name under its resolved parent directory, the metadata a new inode
//! gets, and the entry it leaves in the directory tree.
use crate::cache::{item_view, new_entry_view, trees_view, Item};
use crate::error::FsError;
use crate::filetype::FileType;
use crate::fs::{FileSystem, InodeOperations};
use crate::minix::create::create;
use crate::minix::fs::MinixFileSystem;
use crate::minix::inode::{minix_type_bits, Inode};
use crate::minix::truncate::is_pow2;
use crate::path::{
    build_path_deref, build_path_noderef, components, deref_result, find_parent_mut, fname_from_path, join_abs,
    noderef_components, owned_components, parent_comps, replace_at, resolve, spec_fname, strings_view, walk,
    walk_error, Resolution, Walk,
};
use vstd::prelude::*;
use vstd::string::{StrSliceExecFns, StringExecFns};

verus! {

/// `s` without the `/` characters at its end.
pub open spec fn trim_end_slashes(s: Seq<char>) -> Seq<char>
    decreases s.len(),
{
    if s.len() > 0 && s.last() == '/' {
        trim_end_slashes(s.drop_last())
    } else {
        s
    }
}

/// The path of the entry `fname` in the directory whose path is `dir`.
pub open spec fn child_of(dir: Seq<char>, fname: Seq<char>) -> Seq<char> {
    if dir == seq!['/'] {
        seq!['/'] + fname
    } else {
        trim_end_slashes(dir) + seq!['/'] + fname
    }
}

/// The path of the entry `fname` in the directory at `dir`.
pub fn child_path(dir: &str, fname: &str) -> (r: String)
    ensures
        r@ == child_of(dir@, fname@),
{
    let n = dir.unicode_len();
    if n == 1 && dir.get_char(0) == '/' {
        assert(dir@ =~= seq!['/']);
        let mut out = String::from_str("/");
        out.append(fname);
        proof {
            reveal_strlit("/");
        }
        return out;
    }
    assert(dir@ != seq!['/']);
    let mut end = n;
    assert(dir@.subrange(0, n as int) =~= dir@);
    while end > 0 && dir.get_char(end - 1) == '/'
        invariant
            end <= n == dir@.len(),
            trim_end_slashes(dir@) == trim_end_slashes(dir@.subrange(0, end as int)),
        decreases end,
    {
        assert(dir@.subrange(0, end as int).drop_last() =~= dir@.subrange(0, end - 1));
        end -= 1;
    }
    let mut out = dir.substring_char(0, end).to_owned();
    out.append("/");
    out.append(fname);
    proof {
        reveal_strlit("/");
        assert(trim_end_slashes(dir@.subrange(0, end as int)) == dir@.subrange(0, end as int));
    }
    out
}

/// The path of the directory that holds the last component of `path`:
/// its components but the last, joined from the root.
pub fn parent_path(path: &str) -> (r: String)
    ensures
        r@ == join_abs(parent_comps(components(path@))),
{
    let cs = owned_components(path);
    let n = if cs.len() == 0 { 0 } else { cs.len() - 1 };
    assert(strings_view(cs@).take(n as int) =~= parent_comps(strings_view(cs@)));
    crate::path::join_owned(&cs, n)
}

/// How `build_path_deref` resolves `name` from the directory `cwd` in
/// `fs`.
pub open spec fn deref_of<F: FileSystem>(fs: F, cwd: Seq<Seq<char>>, name: Seq<char>) -> Resolution {
    resolve(fs, components(join_abs(noderef_components(cwd, name))), Seq::empty(), Seq::empty())
}

/// The absolute path that `name` names from `cwd`, links not followed.
pub open spec fn raw_path(cwd: Seq<Seq<char>>, name: Seq<char>) -> Seq<char> {
    join_abs(noderef_components(cwd, name))
}

/// The path a new entry `name` gets from `cwd`: its file name under its
/// parent directory, the parent resolved with links followed (an error
/// where that fails).
pub fn entry_path<F: FileSystem>(fs: &mut F, cwd: &[String], name: &str) -> (r: Result<String, FsError>)
    ensures
        match deref_of(*old(fs), Seq::empty(), join_abs(parent_comps(components(raw_path(strings_view(cwd@), name@))))) {
            Resolution::Resolved(cs) => r matches Ok(p) && p@ == child_of(
                join_abs(cs),
                spec_fname(raw_path(strings_view(cwd@), name@)),
            ),
            res => deref_result(res, r),
        },
        final(fs).spec_tree() == old(fs).spec_tree(),
        forall|n: u64| #[trigger] final(fs).spec_inode(n) == old(fs).spec_inode(n),
        forall|n: u64| #[trigger] final(fs).spec_symlink(n) == old(fs).spec_symlink(n),
        final(fs).cache_only_change(old(fs)),
{
    let raw = build_path_noderef(cwd, name);
    let fname = fname_from_path(raw.as_str());
    let parent_raw = parent_path(raw.as_str());
    let root: Vec<String> = Vec::new();
    assert(strings_view(root@) =~= Seq::<Seq<char>>::empty());
    let parent = build_path_deref(fs, root.as_slice(), parent_raw.as_str())?;
    Ok(child_path(parent.as_str(), fname))
}

/// The metadata the shell gives a node it makes.
#[derive(Debug, Copy, Clone)]
pub struct NodeMeta {
    pub ftype: FileType,
    /// Permission bits; the type bits come from `ftype`.
    pub mode: u16,
    pub uid: u32,
    pub gid: u32,
    pub size: u64,
    /// The access, change and modification time.
    pub now: u64,
}

/// Whether inode `i` carries `m`, with one link.
pub open spec fn has_meta(i: Inode, m: NodeMeta) -> bool {
    &&& i.mode == minix_type_bits(m.ftype) | (m.mode & 0o777)
    &&& i.nlinks == 1
    &&& i.uid == m.uid as u16
    &&& i.gid == m.gid as u16
    &&& i.size == m.size as u32
    &&& i.atime == m.now as u32
    &&& i.mtime == m.now as u32
    &&& i.ctime == m.now as u32
}

impl MinixFileSystem {
    /// What the editing commands of the shell need: an open file system
    /// whose block size is a power of two of at least 64 bytes (one directory entry).
    pub open spec fn editable(&self) -> bool {
        &&& self.wf()
        &&& is_pow2(self.superblock.block_size)
        &&& self.superblock.block_size >= 64
    }

    /// Whether the block size is a power of two of at least 64 bytes.
    pub fn can_edit(&self) -> (r: bool)
        ensures
            r == (is_pow2(self.superblock.block_size) && self.superblock.block_size >= 64),
    {
        let bs = self.superblock.block_size;
        bs > 0 && bs & (bs - 1) == 0 && bs >= 64
    }
}

/// A power of two of at least 64 is a multiple of 64.
pub proof fn lemma_editable_block_size(bs: u16)
    requires
        is_pow2(bs),
        bs >= 64,
    ensures
        bs % 64 == 0,
{
    assert(bs & ((bs - 1) as u16) == 0 && bs >= 64 ==> bs % 64 == 0) by (bit_vector);
}

/// Give inode `n` the metadata `m` and one link; its zones stay.
pub fn init_inode(fs: &mut MinixFileSystem, n: u64, m: &NodeMeta) -> (r: Result<(), FsError>)
    ensures
        match old(fs).inode_at(n) {
            None => r == Err::<(), FsError>(FsError::InvalidInode { inode: n }) && *final(fs) == *old(fs),
            Some(i) => {
                &&& r is Ok
                &&& final(fs).inodes@ == old(fs).inodes@.update(n - 1, final(fs).inodes@[n - 1])
                &&& has_meta(final(fs).inodes@[n - 1], *m)
                &&& final(fs).inodes@[n - 1].zones == i.zones
                &&& final(fs).superblock == old(fs).superblock
                &&& final(fs).imap == old(fs).imap
                &&& final(fs).zmap == old(fs).zmap
                &&& final(fs).tree == old(fs).tree
                &&& final(fs).image == old(fs).image
                &&& final(fs).bcache == old(fs).bcache
            },
        },
{
    let inode = fs.get_inode_mut(n)?;
    let ghost m0 = inode.mode;
    inode.set_file_type(m.ftype);
    inode.set_mode(m.mode);
    inode.set_uid(m.uid);
    inode.set_gid(m.gid);
    inode.set_size(m.size);
    inode.set_atime(m.now);
    inode.set_mtime(m.now);
    inode.set_ctime(m.now);
    inode.set_nlinks(1);
    proof {
        let tb = minix_type_bits(m.ftype);
        let x = m.mode;
        lemma_type_bits_in_mask(m.ftype);
        assert((((m0 & 0o777u16) | tb) & 0o170000u16) | (x & 0o777u16) == tb | (x & 0o777u16)) by (bit_vector)
            requires
                tb & 0o170000u16 == tb,
        ;
    }
    Ok(())
}

/// The type bits of a file type lie within the type mask.
proof fn lemma_type_bits_in_mask(ft: FileType)
    ensures
        minix_type_bits(ft) & 0o170000u16 == minix_type_bits(ft),
{
    assert(0o140000u16 & 0o170000u16 == 0o140000u16 && 0o120000u16 & 0o170000u16 == 0o120000u16
        && 0o100000u16 & 0o170000u16 == 0o100000u16 && 0o60000u16 & 0o170000u16 == 0o60000u16
        && 0o40000u16 & 0o170000u16 == 0o40000u16 && 0o20000u16 & 0o170000u16 == 0o20000u16
        && 0o10000u16 & 0o170000u16 == 0o10000u16 && 0u16 & 0o170000u16 == 0u16) by (bit_vector);
}

/// A node set up as `m` is of the type of `m`.
pub proof fn lemma_meta_type(i: Inode, m: NodeMeta)
    requires
        has_meta(i, m),
    ensures
        i.spec_file_type() == m.ftype,
{
    let tb = minix_type_bits(m.ftype);
    let x = m.mode;
    lemma_type_bits_in_mask(m.ftype);
    assert((tb | (x & 0o777u16)) & 0o170000u16 == tb) by (bit_vector)
        requires
            tb & 0o170000u16 == tb,
    ;
}

/// Add `item` to the entries of the directory that holds the last
/// component of `path`.
pub fn push_entry<F: FileSystem>(fs: &mut F, path: &str, item: Item) -> (r: Result<(), FsError>)
    ensures
        match old(fs).spec_tree() {
            None => r == Err::<(), FsError>(FsError::NoTree) && *final(fs) == *old(fs),
            Some(t) => {
                let cs = parent_comps(components(path@));
                &&& final(fs).same_but_tree(old(fs))
                &&& match walk(t, cs) {
                    Walk::Reached(p) => r is Ok && final(fs).spec_tree() == Some(
                        replace_at(t, cs, p.push(item_view(item))),
                    ),
                    w => walk_error(w, path@, r) && final(fs).spec_tree() == old(fs).spec_tree(),
                }
            },
        },
{
    let dir = find_parent_mut(fs, path)?;
    let ghost prev = dir@;
    dir.push(item);
    proof {
        assert(dir@.drop_last() =~= prev);
    }
    Ok(())
}

/// Whether `new` is `old` with node `n` made at `path` with the metadata
/// `m` and its entry, of the type of `m`, added to the directory tree.
pub open spec fn node_added(old: MinixFileSystem, new: MinixFileSystem, path: Seq<char>, n: u64, m: NodeMeta) -> bool {
    let t = trees_view(old.tree@);
    let pc = parent_comps(components(path));
    &&& new.inode_at(n) matches Some(i) && has_meta(i, m)
    &&& new.imap.bits()[n as int]
    &&& walk(t, pc) matches Walk::Reached(p)
    &&& trees_view(new.tree@) == replace_at(t, pc, p.push(new_entry_view(spec_fname(path), n, m.ftype)))
}

/// Make a node at `path` and set it up with `m`; the tree is left as it
/// is.
pub fn make_node(fs: &mut MinixFileSystem, path: &String, m: &NodeMeta) -> (r: Result<u64, FsError>)
    requires
        old(fs).editable(),
    ensures
        final(fs).editable(),
        final(fs).superblock == old(fs).superblock,
        final(fs).tree == old(fs).tree,
        final(fs).image == old(fs).image,
        m.ftype == FileType::Invalid ==> r == Err::<u64, FsError>(FsError::InvalidFileType) && *final(fs) == *old(fs),
        r matches Ok(n) ==> final(fs).inode_at(n) matches Some(i) && has_meta(i, *m) && final(fs).imap.bits()[n as int],
        m.ftype == FileType::Directory ==> (r matches Err(e) ==> crate::minix::create::dir_error(*old(fs), path@, e)
            || crate::minix::create::loose_dentry_error(*old(fs), path@, e)),
        crate::minix::create::plain_node(m.ftype) ==> (r matches Err(e) ==> crate::minix::create::alloc_error(*old(fs), e)
            || crate::minix::create::dentry_error(*old(fs), path@, e)),
        crate::minix::create::plain_node(m.ftype) ==> crate::minix::create::zmap_one_more(old(fs).zmap.bits(), final(fs).zmap.bits()),
        (m.ftype == FileType::BlockDevice || m.ftype == FileType::CharacterDevice) ==> (r matches Err(e)
            ==> crate::minix::create::alloc_error(*old(fs), e) || crate::minix::create::dentry_error(*old(fs), path@, e)
            || crate::minix::create::relink_error(*old(fs), path@, e)),
{
    proof {
        lemma_editable_block_size(fs.superblock.block_size);
    }
    let n = create(fs, path, m.ftype)?;
    init_inode(fs, n, m)?;
    Ok(n)
}

/// Make a node at `path`, set it up with `m`, and add its entry (named as
/// the last component of `path`) to the tree.
pub fn add_node(fs: &mut MinixFileSystem, path: &String, m: &NodeMeta) -> (r: Result<u64, FsError>)
    requires
        old(fs).editable(),
    ensures
        final(fs).editable(),
        final(fs).superblock == old(fs).superblock,
        final(fs).image == old(fs).image,
        crate::minix::create::plain_node(m.ftype) ==> crate::minix::create::zmap_one_more(old(fs).zmap.bits(), final(fs).zmap.bits()),
        m.ftype == FileType::Invalid ==> r == Err::<u64, FsError>(FsError::InvalidFileType) && *final(fs) == *old(fs),
        r matches Ok(n) ==> node_added(*old(fs), *final(fs), path@, n, *m),
        crate::minix::create::plain_node(m.ftype) ==> (r matches Err(e) ==> crate::minix::create::alloc_error(*old(fs), e)
            || crate::minix::create::dentry_error(*old(fs), path@, e) || !(walk(
            trees_view(old(fs).tree@),
            parent_comps(components(path@)),
        ) is Reached)),
{
    let ghost t0 = trees_view(fs.tree@);
    let n = make_node(fs, path, m)?;
    let fname = fname_from_path(path.as_str()).to_owned();
    push_entry(fs, path.as_str(), Item::new(fname, n, m.ftype))?;
    Ok(n)
}

} // verus!
