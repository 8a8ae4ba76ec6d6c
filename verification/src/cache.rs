//! In-memory caching: the directory tree and the block cache.
use crate::filetype::FileType;
use std::collections::HashMap;
use vstd::prelude::*;
use vstd::std_specs::hash::spec_hash_map_iter;
use vstd::std_specs::iter::IteratorSpec;

verus! {

broadcast use {vstd::std_specs::hash::group_hash_axioms, vstd::std_specs::vec::group_vec_axioms};

/// The name and inode number of a tree entry.
#[derive(Debug, Clone)]
pub struct ItemData {
    pub name: String,
    pub inode_num: u64,
}

/// An entry of the in-memory directory tree.
#[derive(Debug)]
pub enum Item {
    File(ItemData),
    Directory(ItemData, Tree),
    /// A symbolic link and its target path.
    Symlink(ItemData, String),
}

/// The entries of one directory.
pub type Tree = Vec<Item>;

/// The mathematical form of a tree entry: its name, inode number, and for a
/// directory its entries, for a symbolic link its target.
pub enum ItemView {
    File { name: Seq<char>, inode: u64 },
    Directory { name: Seq<char>, inode: u64, children: Seq<ItemView> },
    Symlink { name: Seq<char>, inode: u64, target: Seq<char> },
}

/// The mathematical form of an entry.
pub open spec fn item_view(it: Item) -> ItemView
    decreases it,
{
    match it {
        Item::File(d) => ItemView::File { name: d.name@, inode: d.inode_num },
        Item::Directory(d, c) => ItemView::Directory {
            name: d.name@,
            inode: d.inode_num,
            children: trees_view(c@),
        },
        Item::Symlink(d, t) => ItemView::Symlink { name: d.name@, inode: d.inode_num, target: t@ },
    }
}

/// The mathematical form of a sequence of entries.
pub open spec fn trees_view(s: Seq<Item>) -> Seq<ItemView>
    decreases s,
{
    if s.len() == 0 {
        Seq::empty()
    } else {
        trees_view(s.drop_last()).push(item_view(s.last()))
    }
}

pub proof fn lemma_trees_view(s: Seq<Item>)
    ensures
        trees_view(s).len() == s.len(),
        forall|i: int| 0 <= i < s.len() ==> #[trigger] trees_view(s)[i] == item_view(s[i]),
    decreases s.len(),
{
    if s.len() > 0 {
        lemma_trees_view(s.drop_last());
    }
}

/// The entry that a new node of type `ft` gets in the tree.
pub open spec fn new_entry_view(name: Seq<char>, inode: u64, ft: FileType) -> ItemView {
    match ft {
        FileType::Directory => ItemView::Directory { name, inode, children: Seq::empty() },
        FileType::Symlink => ItemView::Symlink { name, inode, target: Seq::empty() },
        _ => ItemView::File { name, inode },
    }
}

impl Item {
    /// The name and inode number of the entry.
    pub open spec fn data(self) -> ItemData {
        match self {
            Item::File(d) => d,
            Item::Directory(d, _) => d,
            Item::Symlink(d, _) => d,
        }
    }

    /// The entry's name.
    pub open spec fn spec_name(self) -> Seq<char> {
        self.data().name@
    }

    /// The entry's inode number.
    pub open spec fn spec_inode(self) -> u64 {
        self.data().inode_num
    }

    /// The entries of a directory (empty for other entries).
    pub open spec fn children(self) -> Seq<Item> {
        match self {
            Item::Directory(_, c) => c@,
            _ => Seq::empty(),
        }
    }

    /// The entry for a new node of type `ftype`: a directory without
    /// children, a symbolic link without target, or a file.
    pub fn new(name: String, inode_num: u64, ftype: FileType) -> (r: Self)
        ensures
            r.spec_name() == name@,
            r.spec_inode() == inode_num,
            item_view(r) == new_entry_view(name@, inode_num, ftype),
            ftype == FileType::Directory ==> r is Directory && r.children().len() == 0,
            ftype == FileType::Symlink ==> (r matches Item::Symlink(_, t) && t@.len() == 0),
            ftype != FileType::Directory && ftype != FileType::Symlink ==> r is File,
    {
        match ftype {
            FileType::Directory => {
                let r = Item::new_dir(name, inode_num, Vec::new());
                assert(trees_view(r.children()) =~= Seq::<ItemView>::empty());
                r
            },
            FileType::Symlink => {
                let r = Item::new_symlink(name, inode_num, String::new());
                assert(item_view(r) == new_entry_view(name@, inode_num, ftype));
                r
            },
            _ => Item::new_file(name, inode_num),
        }
    }

    pub fn new_file(name: String, inode_num: u64) -> (r: Self)
        ensures
            r == Item::File(ItemData { name, inode_num }),
    {
        Item::File(ItemData { name, inode_num })
    }

    pub fn new_dir(name: String, inode_num: u64, children: Tree) -> (r: Self)
        ensures
            r == Item::Directory(ItemData { name, inode_num }, children),
    {
        Item::Directory(ItemData { name, inode_num }, children)
    }

    pub fn new_symlink(name: String, inode_num: u64, target: String) -> (r: Self)
        ensures
            r == Item::Symlink(ItemData { name, inode_num }, target),
    {
        Item::Symlink(ItemData { name, inode_num }, target)
    }

    pub fn is_dir(&self) -> (r: bool)
        ensures
            r == self is Directory,
    {
        match self {
            Item::Directory(_, _) => true,
            _ => false,
        }
    }

    pub fn is_symlink(&self) -> (r: bool)
        ensures
            r == self is Symlink,
    {
        match self {
            Item::Symlink(_, _) => true,
            _ => false,
        }
    }

    pub fn symlink_target(&self) -> (r: Option<String>)
        ensures
            match self {
                Item::Symlink(_, t) => (r matches Some(s) && s@ == t@),
                _ => r is None,
            },
    {
        match self {
            Item::Symlink(_, target) => Some(target.clone()),
            _ => None,
        }
    }

    pub fn inode(&self) -> (r: u64)
        ensures
            r == self.spec_inode(),
    {
        match self {
            Item::File(data) => data.inode_num,
            Item::Directory(data, _) => data.inode_num,
            Item::Symlink(data, _) => data.inode_num,
        }
    }

    pub fn name(&self) -> (r: &String)
        ensures
            r@ == self.spec_name(),
    {
        match self {
            Item::File(data) => &data.name,
            Item::Directory(data, _) => &data.name,
            Item::Symlink(data, _) => &data.name,
        }
    }

    /// A copy of the entry and, for a directory, of all its entries.
    pub fn deep_clone(&self) -> (r: Item)
        ensures
            item_view(r) == item_view(*self),
        decreases *self,
    {
        match self {
            Item::File(d) => Item::File(ItemData { name: d.name.clone(), inode_num: d.inode_num }),
            Item::Symlink(d, t) => Item::Symlink(
                ItemData { name: d.name.clone(), inode_num: d.inode_num },
                t.clone(),
            ),
            Item::Directory(d, c) => {
                let mut out: Vec<Item> = Vec::new();
                let mut i: usize = 0;
                while i < c.len()
                    invariant
                        self is Directory,
                        self->Directory_1 == *c,
                        i <= c@.len(),
                        trees_view(out@) == trees_view(c@.take(i as int)),
                    decreases c@.len() - i,
                {
                    proof {
                        assert(decreases_to!(*self => self->Directory_1@[i as int]));
                    }
                    let e = c[i].deep_clone();
                    let ghost prev = out@;
                    out.push(e);
                    proof {
                        assert(out@.drop_last() =~= prev);
                        assert(c@.take(i + 1).drop_last() =~= c@.take(i as int));
                    }
                    i += 1;
                }
                assert(c@.take(c@.len() as int) =~= c@);
                Item::Directory(ItemData { name: d.name.clone(), inode_num: d.inode_num }, out)
            },
        }
    }

    pub fn clone_name(&self) -> (r: String)
        ensures
            r@ == self.spec_name(),
    {
        self.name().clone()
    }

    /// The entries of a directory.
    pub fn next(&self) -> (r: Option<&Tree>)
        ensures
            match self {
                Item::Directory(_, c) => (r matches Some(t) && t == c),
                _ => r is None,
            },
    {
        match self {
            Item::File(_) => None,
            Item::Directory(_, children) => Some(children),
            Item::Symlink(_, _) => None,
        }
    }

    /// The entries of a directory, to change.
    pub fn next_mut(&mut self) -> (r: Option<&mut Tree>)
        ensures
            match *old(self) {
                Item::Directory(d, c) => (r matches Some(t) && *t == c && *final(self)
                    == Item::Directory(d, *final(t))),
                _ => r is None && *final(self) == *old(self),
            },
    {
        match self {
            Item::File(_) => None,
            Item::Directory(_, children) => Some(children),
            Item::Symlink(_, _) => None,
        }
    }
}

/// Policy for evicting clean blocks when the cache is full.
pub enum CachePolicy {
    /// Least frequently used.
    Lfu,
    /// Least recently used.
    Lru,
    /// First in, first out.
    Fifo,
    /// Stop caching when full, refusing inserts.
    Stop,
}

/// The number of blocks the cache holds before it refuses clean blocks.
pub const CACHE_LINES: usize = 20;

/// A cached block and whether it differs from the backing image.
pub struct CachedBlock {
    pub dirty: bool,
    pub data: Vec<u8>,
}

/// A cache of blocks by block number.
pub struct BlockCache {
    cache: HashMap<u64, CachedBlock>,
    private: usize,
    policy: CachePolicy,
}

impl BlockCache {
    /// The cached blocks: for each block number, whether it is dirty and
    /// its bytes.
    pub closed spec fn view(&self) -> Map<u64, (bool, Seq<u8>)> {
        self.cache@.map_values(|b: CachedBlock| (b.dirty, b.data@))
    }

    /// The eviction policy the cache was made with.
    pub closed spec fn spec_policy(&self) -> CachePolicy {
        self.policy
    }

    pub fn new(policy: CachePolicy) -> (r: Self)
        ensures
            r.view() == Map::<u64, (bool, Seq<u8>)>::empty(),
            r.spec_policy() == policy,
    {
        let r = Self { cache: HashMap::new(), private: 0, policy };
        assert(r.view() =~= Map::<u64, (bool, Seq<u8>)>::empty());
        r
    }

    /// A cache that evicts the least recently used clean block.
    pub fn default() -> (r: Self)
        ensures
            r.view() == Map::<u64, (bool, Seq<u8>)>::empty(),
            r.spec_policy() == CachePolicy::Lru,
    {
        Self::new(CachePolicy::Lru)
    }

    pub fn clear(&mut self)
        ensures
            final(self).view() == Map::<u64, (bool, Seq<u8>)>::empty(),
    {
        self.cache.clear();
        assert(self.view() =~= Map::<u64, (bool, Seq<u8>)>::empty());
    }

    /// Copy the cached bytes of block `bnum` to the front of `data` (as many
    /// as both hold); false when the block is not cached.
    pub fn copy_block_to(&self, bnum: u64, data: &mut [u8]) -> (r: bool)
        ensures
            r == self.view().contains_key(bnum),
            final(data)@.len() == old(data)@.len(),
            r ==> {
                let src = self.view()[bnum].1;
                let size = if src.len() < old(data)@.len() { src.len() } else { old(data)@.len() };
                final(data)@ == src.subrange(0, size as int) + old(data)@.subrange(size as int, old(data)@.len() as int)
            },
            !r ==> final(data)@ == old(data)@,
    {
        if let Some(source) = self.get(bnum) {
            let size = if source.data.len() < data.len() { source.data.len() } else { data.len() };
            let mut k: usize = 0;
            while k < size
                invariant
                    size <= source.data@.len(),
                    size <= data@.len(),
                    data@.len() == old(data)@.len(),
                    k <= size,
                    forall|m: int| 0 <= m < k ==> data@[m] == source.data@[m],
                    forall|m: int| k <= m < data@.len() ==> data@[m] == old(data)@[m],
                decreases size - k,
            {
                data[k] = source.data[k];
                k += 1;
            }
            assert(data@ =~= source.data@.subrange(0, size as int) + old(data)@.subrange(size as int, old(data)@.len() as int));
            true
        } else {
            false
        }
    }

    /// Whether the cache holds at least `CACHE_LINES` blocks.
    pub fn is_full(&self) -> (r: bool)
        ensures
            r == (self.view().len() >= CACHE_LINES),
    {
        proof {
            assert(self.view().dom() =~= self.cache@.dom());
        }
        self.cache.len() >= CACHE_LINES
    }

    /// Every cached block: its number, whether it is dirty, and its bytes,
    /// in the order the map holds them.
    fn entries(&self) -> (r: Vec<(u64, bool, Vec<u8>)>)
        ensures
            forall|i: int| #![trigger r@[i]] 0 <= i < r@.len() ==> self.view().contains_key(r@[i].0)
                && self.view()[r@[i].0] == (r@[i].1, r@[i].2@),
            forall|b: u64| #[trigger] self.view().contains_key(b) ==> exists|i: int| 0 <= i < r@.len() && r@[i].0 == b,
            forall|i: int, j: int| 0 <= i < j < r@.len() ==> r@[i].0 != r@[j].0,
    {
        let ghost entries = spec_hash_map_iter(&self.cache).remaining();
        let ghost m = self.cache@;
        proof {
            assert(entries.len() == m.dom().len());
        }
        let mut out: Vec<(u64, bool, Vec<u8>)> = Vec::new();
        for (k, v) in it: self.cache.iter()
            invariant
                entries == spec_hash_map_iter(&self.cache).remaining(),
                m == self.cache@,
                it.seq() == entries,
                out@.len() == it.index(),
                forall|i: int| 0 <= i < out@.len() ==> (#[trigger] out@[i]).0 == *entries[i].0
                    && out@[i].1 == entries[i].1.dirty && out@[i].2@ == entries[i].1.data@,
        {
            proof {
                assert(*k == *entries[it.index() as int].0);
            }
            out.push((*k, v.dirty, v.data.clone()));
        }
        proof {
            assert forall|i: int| 0 <= i < out@.len() implies #[trigger] self.view().contains_key(out@[i].0)
                && self.view()[out@[i].0] == (out@[i].1, out@[i].2@) by {
                assert(m.contains_key(*entries[i].0) && m[*entries[i].0] == *entries[i].1);
            }
            assert forall|b: u64| #[trigger] self.view().contains_key(b) implies exists|i: int| 0 <= i < out@.len() && out@[i].0 == b by {
                assert(m.contains_key(b));
                assert(entries.contains((&b, &m[b])));
                let j = choose|j: int| 0 <= j < entries.len() && entries[j] == (&b, &m[b]);
                assert(out@[j].0 == b);
            }
            assert forall|i: int, j: int| 0 <= i < j < out@.len() implies out@[i].0 != out@[j].0 by {
                if out@[i].0 == out@[j].0 {
                    assert(m.contains_key(*entries[i].0) && m[*entries[i].0] == *entries[i].1);
                    assert(m.contains_key(*entries[j].0) && m[*entries[j].0] == *entries[j].1);
                    assert(entries[i] == entries[j]);
                }
            }
        }
        out
    }

    /// The dirty blocks, each with its number and bytes, in the order the
    /// map holds them, for the caller to write back one by one.
    pub fn for_each_dirty(&self) -> (r: Vec<(u64, Vec<u8>)>)
        ensures
            forall|i: int| #![trigger r@[i]] 0 <= i < r@.len() ==> self.view().contains_key(r@[i].0)
                && self.view()[r@[i].0] == (true, r@[i].1@),
            forall|b: u64| #[trigger] self.view().contains_key(b) && self.view()[b].0 ==> exists|i: int| 0 <= i < r@.len() && r@[i].0 == b,
            forall|i: int, j: int| 0 <= i < j < r@.len() ==> r@[i].0 != r@[j].0,
    {
        let all = self.entries();
        let mut out: Vec<(u64, Vec<u8>)> = Vec::new();
        let ghost mut pos: Seq<int> = Seq::empty();
        let mut i: usize = 0;
        while i < all.len()
            invariant
                i <= all@.len(),
                forall|a: int| #![trigger all@[a]] 0 <= a < all@.len() ==> self.view().contains_key(all@[a].0)
                    && self.view()[all@[a].0] == (all@[a].1, all@[a].2@),
                forall|b: u64| #[trigger] self.view().contains_key(b) ==> exists|a: int| 0 <= a < all@.len() && all@[a].0 == b,
                forall|a: int, c: int| 0 <= a < c < all@.len() ==> all@[a].0 != all@[c].0,
                pos.len() == out@.len(),
                forall|x: int| 0 <= x < out@.len() ==> 0 <= #[trigger] pos[x] < i && all@[pos[x]].0 == out@[x].0
                    && all@[pos[x]].1 && all@[pos[x]].2@ == out@[x].1@,
                forall|x: int, y: int| 0 <= x < y < out@.len() ==> pos[x] < pos[y],
                forall|a: int| 0 <= a < i && (#[trigger] all@[a]).1 ==> exists|x: int| 0 <= x < out@.len() && pos[x] == a,
            decreases all@.len() - i,
        {
            if all[i].1 {
                let ghost old_pos = pos;
                out.push((all[i].0, all[i].2.clone()));
                proof {
                    pos = pos.push(i as int);
                    assert forall|a: int| 0 <= a < i + 1 && (#[trigger] all@[a]).1 implies exists|x: int| 0 <= x < out@.len() && pos[x] == a by {
                        if a == i {
                            assert(pos[out@.len() - 1] == a);
                        } else {
                            let x = choose|x: int| 0 <= x < old_pos.len() && old_pos[x] == a;
                            assert(pos[x] == a);
                        }
                    }
                }
            }
            i += 1;
        }
        proof {
            assert forall|x: int| #![trigger out@[x]] 0 <= x < out@.len() implies self.view().contains_key(out@[x].0)
                && self.view()[out@[x].0] == (true, out@[x].1@) by {
                assert(self.view().contains_key(all@[pos[x]].0));
            }
            assert forall|x: int, y: int| 0 <= x < y < out@.len() implies out@[x].0 != out@[y].0 by {
                assert(pos[x] < pos[y]);
                assert(all@[pos[x]].0 != all@[pos[y]].0);
            }
            assert forall|b: u64| #[trigger] self.view().contains_key(b) && self.view()[b].0 implies exists|x: int| 0 <= x < out@.len() && out@[x].0 == b by {
                let a = choose|a: int| 0 <= a < all@.len() && all@[a].0 == b;
                assert(all@[a].1);
                let x = choose|x: int| 0 <= x < out@.len() && pos[x] == a;
                assert(out@[x].0 == b);
            }
        }
        out
    }

    /// Mark every cached block clean.
    pub fn clean_all(&mut self)
        ensures
            final(self).view().dom() == old(self).view().dom(),
            forall|b: u64| #[trigger] final(self).view().contains_key(b) ==> final(self).view()[b] == (false, old(self).view()[b].1),
    {
        let all = self.entries();
        let ghost old_view = self.view();
        self.cache.clear();
        let mut i: usize = 0;
        while i < all.len()
            invariant
                i <= all@.len(),
                forall|a: int| #![trigger all@[a]] 0 <= a < all@.len() ==> old_view.contains_key(all@[a].0)
                    && old_view[all@[a].0] == (all@[a].1, all@[a].2@),
                forall|b: u64| #[trigger] old_view.contains_key(b) ==> exists|a: int| 0 <= a < all@.len() && all@[a].0 == b,
                forall|a: int, c: int| 0 <= a < c < all@.len() ==> all@[a].0 != all@[c].0,
                forall|b: u64| #[trigger] self.view().contains_key(b) <==> exists|a: int| 0 <= a < i && all@[a].0 == b,
                forall|b: u64| #[trigger] self.view().contains_key(b) ==> self.view()[b] == (false, old_view[b].1),
            decreases all@.len() - i,
        {
            let k = all[i].0;
            let data = all[i].2.clone();
            let ghost before = self.view();
            self.cache.insert(k, CachedBlock { dirty: false, data });
            proof {
                assert(self.view() =~= before.insert(k, (false, all@[i as int].2@)));
                assert(old_view[k] == (all@[i as int].1, all@[i as int].2@));
                assert forall|b: u64| #[trigger] self.view().contains_key(b) <==> exists|a: int| 0 <= a < i + 1 && all@[a].0 == b by {
                    if b == k {
                        assert(all@[i as int].0 == b);
                    }
                }
            }
            i += 1;
        }
        proof {
            assert forall|b: u64| #[trigger] self.view().contains_key(b) <==> old_view.contains_key(b) by {
                if old_view.contains_key(b) {
                    let a = choose|a: int| 0 <= a < all@.len() && all@[a].0 == b;
                    assert(0 <= a < i && all@[a].0 == b);
                }
                if self.view().contains_key(b) {
                    let a = choose|a: int| 0 <= a < i && all@[a].0 == b;
                    assert(old_view.contains_key(all@[a].0));
                }
            }
            assert(self.view().dom() =~= old_view.dom());
        }
    }

    /// The cached block `bnum`, if any.
    pub fn get(&self, bnum: u64) -> (r: Option<&CachedBlock>)
        ensures
            match r {
                Some(b) => self.view().contains_key(bnum) && self.view()[bnum] == (b.dirty, b.data@),
                None => !self.view().contains_key(bnum),
            },
    {
        self.cache.get(&bnum)
    }

    /// Cache block `bnum`; a full cache refuses it unless `overfill`.
    pub fn insert(&mut self, bnum: u64, data: Vec<u8>, dirty: bool, overfill: bool) -> (r: bool)
        ensures
            r == (!(old(self).view().len() >= CACHE_LINES) || overfill),
            r ==> final(self).view() == old(self).view().insert(bnum, (dirty, data@)),
            !r ==> final(self).view() == old(self).view(),
    {
        if self.is_full() && !overfill {
            return false;
        }
        let c = CachedBlock { dirty, data };
        self.cache.insert(bnum, c);
        assert(self.view() =~= old(self).view().insert(bnum, (dirty, data@)));
        true
    }

    /// Cache a written block; it is always accepted and marked dirty.
    pub fn insert_write(&mut self, bnum: u64, data: Vec<u8>) -> (r: bool)
        ensures
            r,
            final(self).view() == old(self).view().insert(bnum, (true, data@)),
    {
        self.insert(bnum, data, true, true)
    }

    /// Cache a block read from the image as clean; a full cache refuses it.
    pub fn insert_read(&mut self, bnum: u64, data: Vec<u8>) -> (r: bool)
        ensures
            r == !(old(self).view().len() >= CACHE_LINES),
            r ==> final(self).view() == old(self).view().insert(bnum, (false, data@)),
            !r ==> final(self).view() == old(self).view(),
    {
        self.insert(bnum, data, false, false)
    }
}

} // verus!
