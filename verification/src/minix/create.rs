//! Creating nodes and directory entries in a Minix 3 file system.
use crate::bytes::{le_u32, read_u32, u32_bytes, zeros};
use crate::cache::{item_view, lemma_trees_view, trees_view, Item, ItemView};
use crate::error::FsError;
use crate::fs::{FileSystem, InodeOperations, SuperblockOperations};
use crate::minix::consts::{DIR_ENTRY_BYTES, DIR_ENTRY_NAME_SIZE, INDIRECT_ZONE};
use crate::minix::direntry::{padded_name, DirEntry};
use crate::minix::fs::{min, MinixFileSystem};
use crate::minix::truncate::{
    block_error, lemma_cache_grows, lemma_grows_chain, lemma_same_content_grows, read_failure, readable_grows,
};
use crate::minix::inode::Inode;
use crate::bitmap::is_first_clear;
use crate::filetype::FileType;
use crate::stat::{S_IFBLK, S_IFCHR, S_IFDIR, S_IFIFO, S_IFLNK, S_IFMT, S_IFREG, S_IFSOCK};
use crate::path::{
    components, first_named, fname_from_path, get_item, join_rest, lookup, lookup_result, split_items, split_path,
    spec_fname, strs_view, walk, parent_comps, view_inode, Lookup, Walk,
};
use vstd::prelude::*;
use vstd::string::{StrSliceExecFns, StringExecFns, StringSliceAdditionalSpecFns};
use vstd::utf8::encode_utf8;

verus! {

/// `c0/c1/...` for the components `cs` (no leading `/`).
pub open spec fn join_rel(cs: Seq<Seq<char>>) -> Seq<char> {
    if cs.len() == 0 {
        Seq::empty()
    } else {
        cs[0] + join_rest(cs.drop_first())
    }
}

/// Whether `split_items` finds the entry of a path with components `cs`.
pub open spec fn split_found(t: Seq<ItemView>, cs: Seq<Seq<char>>) -> bool {
    &&& cs.len() > 0
    &&& walk(t, cs.drop_last()) matches Walk::Reached(p)
    &&& first_named(p, cs.last()) < p.len()
    &&& (first_named(p, seq!['.']) < p.len() || lookup(t, cs.drop_last()) is Found)
}

/// The entry of the directory that a new entry for the components `cs`
/// goes into: looked up from the root, or the root's `.` entry for a
/// single component.
pub open spec fn dentry_parent(t: Seq<ItemView>, cs: Seq<Seq<char>>) -> Lookup {
    if cs.len() > 1 {
        lookup(t, cs.drop_last())
    } else {
        let k = first_named(t, seq!['.']);
        if k < t.len() {
            Lookup::Found(t[k])
        } else {
            Lookup::Failed(Walk::Missing)
        }
    }
}

/// The 64 bytes of a directory entry for `inode` named `name`.
pub open spec fn entry_bytes(inode: u32, name: Seq<u8>) -> Seq<u8> {
    u32_bytes(inode) + padded_name(name)
}

impl MinixFileSystem {
    /// Whether the dirty cached block `b` holds the entry bytes `e` at a
    /// multiple of the entry size.
    pub open spec fn holds_entry(&self, b: u64, e: Seq<u8>) -> bool {
        &&& self.bcache.view().contains_key(b)
        &&& self.bcache.view()[b].0
        &&& exists|d: int| 0 <= d && d % 64 == 0 && d + 64 <= self.bcache.view()[b].1.len()
            && #[trigger] self.bcache.view()[b].1.subrange(d, d + 64) == e
    }
}

/// `v` with `e` copied in at `d`.
fn put_bytes(v: &mut Vec<u8>, d: usize, e: &Vec<u8>)
    requires
        d + e@.len() <= old(v).len(),
    ensures
        final(v)@ == old(v)@.subrange(0, d as int) + e@ + old(v)@.subrange(d + e@.len(), old(v)@.len() as int),
{
    let mut k: usize = 0;
    while k < e.len()
        invariant
            d + e@.len() <= v.len(),
            v@.len() == old(v)@.len(),
            k <= e@.len(),
            forall|i: int| 0 <= i < d ==> v@[i] == old(v)@[i],
            forall|i: int| d + e@.len() <= i < v@.len() ==> v@[i] == old(v)@[i],
            forall|i: int| 0 <= i < k ==> #[trigger] v@[d + i] == e@[i],
            forall|i: int| d + k <= i < d + e@.len() ==> v@[i] == old(v)@[i],
        decreases e@.len() - k,
    {
        v.set(d + k, e[k]);
        k += 1;
    }
    assert forall|i: int| d <= i < d + e@.len() implies v@[i] == e@[i - d] by {
        assert(v@[d + (i - d)] == e@[i - d]);
    }
    assert(v@ =~= old(v)@.subrange(0, d as int) + e@ + old(v)@.subrange(d + e@.len(), old(v)@.len() as int));
}

/// The relative path `c0/c1/...` of the first `n` components of `cs`.
fn join_rel_owned(cs: &Vec<String>, n: usize) -> (r: String)
    requires
        n <= cs@.len(),
    ensures
        r@ == join_rel(crate::path::strings_view(cs@).take(n as int)),
{
    let mut out = String::new();
    let mut k: usize = 0;
    let ghost sv = crate::path::strings_view(cs@).take(n as int);
    while k < n
        invariant
            k <= n <= cs@.len(),
            sv == crate::path::strings_view(cs@).take(n as int),
            k == 0 ==> out@ == Seq::<char>::empty(),
            k > 0 ==> out@ + join_rest(sv.subrange(k as int, n as int)) == join_rel(sv),
        decreases n - k,
    {
        let ghost rest = sv.subrange(k as int, n as int);
        assert(rest[0] == cs@[k as int]@);
        assert(rest.drop_first() =~= sv.subrange(k + 1, n as int));
        if k > 0 {
            out.append("/");
            proof {
                reveal_strlit("/");
            }
        }
        out.append(cs[k].as_str());
        proof {
            if k == 0 {
                assert(sv.drop_first() =~= sv.subrange(1, n as int));
                assert(out@ == sv[0]);
            } else {
                assert(out@ + join_rest(rest.drop_first()) =~= join_rel(sv));
            }
        }
        k += 1;
    }
    assert(sv.subrange(n as int, n as int) =~= Seq::<Seq<char>>::empty());
    out
}

/// Whether `e` is an error that adding an entry to the directory of inode
/// `dn` of `fs` can give: that its direct zones are all taken, that no
/// zone is free, or the error of a read of one of its direct zones that
/// cannot be read.
pub open spec fn entry_error(fs: MinixFileSystem, dn: u64, e: FsError) -> bool {
    let z = fs.inodes@[dn - 1].zones@;
    ||| e == FsError::DirectoryFull && forall|s: int| 0 <= s < 7 ==> #[trigger] z[s] != 0
    ||| e == FsError::NoBlocksLeft && forall|k: int| 0 <= k < fs.zmap.bits().len() ==> #[trigger] fs.zmap.bits()[k]
    ||| exists|s: int| 0 <= s < 7 && #[trigger] z[s] != 0 && !fs.readable(z[s] as u64) && e == fs.read_err(z[s] as u64)
}

impl MinixFileSystem {
    /// Add `entry` to the directory of inode `dn`, whose zone pointers are
    /// `blocks`: in the first free slot of its direct zones, else in a new
    /// zone in its first unused direct pointer. Its size grows by an entry.
    fn add_entry(&mut self, dn: u64, blocks: &Vec<u64>, entry: &Vec<u8>) -> (r: Result<(), FsError>)
        requires
            old(self).wf(),
            old(self).inode_at(dn) is Some,
            blocks@ == old(self).inodes@[dn - 1].zones@.map_values(|z: u32| z as u64),
            entry@.len() == 64,
            old(self).superblock.block_size % 64 == 0,
            old(self).superblock.block_size >= 64,
        ensures
            final(self).wf(),
            final(self).zones_frame(old(self), dn, true),
            final(self).zmap_grows(old(self)),
            zmap_one_more(old(self).zmap.bits(), final(self).zmap.bits()),
            readable_grows(*final(self), *old(self)),
            one_slot_filled(old(self).inodes@[dn - 1].zones@, final(self).inodes@[dn - 1].zones@),
            forall|s: int| 0 <= s < 10 && #[trigger] final(self).inodes@[dn - 1].zones@[s] != old(self).inodes@[dn - 1].zones@[s]
                ==> fresh_zone(old(self).zmap.bits(), old(self).superblock.first_data_zone, final(self).inodes@[dn - 1].zones@[s]),
            match r {
                Ok(()) => {
                    &&& final(self).inodes@[dn - 1].size == ((old(self).inodes@[dn - 1].size + 64) % 0x1_0000_0000) as u32
                    &&& exists|b: u64, i: int| 0 <= i < 7 && #[trigger] final(self).inodes@[dn - 1].zones@[i] == b as u32
                        && #[trigger] final(self).holds_entry(b, entry@)
                },
                Err(e) => (block_error(e) || e == FsError::DirectoryFull) && entry_error(*old(self), dn, e),
            },
    {
        let ghost f0 = *self;
        let bs = self.superblock.block_size as usize;
        let idx = (dn - 1) as usize;
        let mut bdata = zeros(bs);
        let mut i: usize = 0;
        proof {
            crate::minix::read::lemma_same_content_refl(f0);
        }
        while i < INDIRECT_ZONE
            invariant
                self.wf(),
                f0 == *old(self),
                self.cache_frame(&f0),
                self.same_content(&f0),
                bdata@.len() == bs,
                bs == f0.superblock.block_size,
                bs % 64 == 0,
                bs >= 64,
                idx == dn - 1,
                blocks@.len() == 10,
                entry@.len() == 64,
                blocks@ == f0.inodes@[dn - 1].zones@.map_values(|z: u32| z as u64),
                f0.inode_at(dn) is Some,
            decreases 7 - i,
        {
            let blnum = blocks[i];
            if blnum != 0 {
                let ghost fr = *self;
                let ghost before = bdata@;
                let got = self.read_block(blnum, bdata.as_mut_slice());
                proof {
                    crate::minix::read::lemma_full_block_read(fr, blnum, before);
                    crate::minix::read::lemma_read_keeps_content(fr, *self, blnum, before);
                    crate::minix::read::lemma_same_content_trans(f0, fr, *self);
                    assert(f0.inodes@[dn - 1].zones@[i as int] as u64 == blnum);
                }
                if let Err(e) = got {
                    proof {
                        assert(!f0.readable(blnum) && e == f0.read_err(blnum));
                        assert(f0.inodes@[dn - 1].zones@[i as int] != 0);
                        lemma_same_content_grows(f0, *self);
                    }
                    return Err(e);
                }
                let mut d: usize = 0;
                while d + 64 <= bs
                    invariant
                        self.wf(),
                        f0 == *old(self),
                        self.cache_frame(&f0),
                        self.same_content(&f0),
                        bdata@.len() == bs,
                        bs == f0.superblock.block_size,
                        d % 64 == 0,
                        d <= bs,
                        idx == dn - 1,
                        i < 7,
                        blocks@.len() == 10,
                        entry@.len() == 64,
                        blnum == blocks@[i as int],
                        blocks@ == f0.inodes@[dn - 1].zones@.map_values(|z: u32| z as u64),
                        f0.inode_at(dn) is Some,
                    decreases bs - d,
                {
                    if read_u32(bdata.as_slice(), d) == 0 {
                        put_bytes(&mut bdata, d, entry);
                        assert(bdata@.subrange(d as int, d + 64) =~= entry@);
                        let ghost fw = *self;
                        let _ = self.write_block(blnum, bdata.as_slice());
                        proof {
                            lemma_same_content_grows(f0, fw);
                            lemma_cache_grows(fw, *self);
                            lemma_grows_chain(f0, fw, *self);
                        }
                        let mut ino = self.inodes[idx];
                        ino.size = ((ino.size as u64 + 64) % 0x1_0000_0000) as u32;
                        let ghost fs1 = *self;
                        self.inodes.set(idx, ino);
                        proof {
                            lemma_cache_grows(fs1, *self);
                            lemma_grows_chain(f0, fs1, *self);
                        }
                        proof {
                            let b = blnum;
                            assert(self.inodes@[dn - 1].zones@[i as int] == b as u32);
                            assert(self.bcache.view()[b].1 =~= bdata@);
                            assert(self.bcache.view()[b].1.subrange(d as int, d + 64) == entry@);
                            assert(self.holds_entry(b, entry@));
                        }
                        return Ok(());
                    }
                    d += 64;
                }
            }
            i += 1;
        }
        let mut slot: usize = 0;
        while slot < INDIRECT_ZONE && blocks[slot] != 0
            invariant
                slot <= 7,
                blocks@.len() == 10,
                forall|k: int| 0 <= k < slot ==> #[trigger] blocks@[k] != 0,
            decreases 7 - slot,
        {
            slot += 1;
        }
        proof {
            if slot == 7 {
                assert forall|k: int| 0 <= k < 7 implies #[trigger] f0.inodes@[dn - 1].zones@[k] != 0 by {
                    assert(blocks@[k] != 0);
                }
            }
        }
        proof {
            lemma_same_content_grows(f0, *self);
        }
        if slot == INDIRECT_ZONE {
            return Err(FsError::DirectoryFull);
        }
        let ghost f1 = *self;
        let nb = self.allocate_block();
        proof {
            lemma_cache_grows(f1, *self);
            lemma_grows_chain(f0, f1, *self);
        }
        let new_block = nb?;
        proof {
            let t = new_block - f1.superblock.first_data_zone;
            assert(is_first_clear(f0.zmap.bits(), t));
        }
        let mut fresh = zeros(bs);
        put_bytes(&mut fresh, 0, entry);
        assert(fresh@.subrange(0, 64) =~= entry@);
        let ghost fw = *self;
        let _ = self.write_block(new_block, fresh.as_slice());
        proof {
            lemma_cache_grows(fw, *self);
            lemma_grows_chain(f0, fw, *self);
            assert(blocks@[slot as int] == 0);
        }
        let mut ino = self.inodes[idx];
        ino.zones[slot] = new_block as u32;
        ino.size = ((ino.size as u64 + 64) % 0x1_0000_0000) as u32;
        let ghost fs1 = *self;
        self.inodes.set(idx, ino);
        proof {
            lemma_cache_grows(fs1, *self);
            lemma_grows_chain(f0, fs1, *self);
            let b = new_block;
            assert(self.inodes@[dn - 1].zones@[slot as int] == b as u32);
            assert(self.bcache.view()[b].1 =~= fresh@);
            assert(self.bcache.view()[b].1.subrange(0, 64) == entry@);
            assert(self.holds_entry(b, entry@));
            let t = new_block - f1.superblock.first_data_zone;
            assert(is_first_clear(f0.zmap.bits(), t) && self.inodes@[dn - 1].zones@[slot as int] == (t
                + f0.superblock.first_data_zone) as u32);
        }
        Ok(())
    }
}

/// Link inode `inode` into the file system under `abs_path`: add an entry
/// for it to the directory that holds the path, on disk (the in-memory tree
/// is left as it is). The inode must be taken, the path new and its name at
/// most `DIR_ENTRY_NAME_SIZE` bytes.
pub fn create_dentry(fs: &mut MinixFileSystem, inode: u64, abs_path: &String) -> (r: Result<u64, FsError>)
    requires
        old(fs).wf(),
        (inode as usize) / 8 < old(fs).imap.map.len(),
        old(fs).superblock.block_size % 64 == 0,
        old(fs).superblock.block_size >= 64,
    ensures
        final(fs).wf(),
        zmap_one_more(old(fs).zmap.bits(), final(fs).zmap.bits()),
        readable_grows(*final(fs), *old(fs)),
        final(fs).inodes@.len() == old(fs).inodes@.len(),
        forall|j: int| 0 <= j < old(fs).inodes@.len() ==> one_slot_filled(
            old(fs).inodes@[j].zones@,
            #[trigger] final(fs).inodes@[j].zones@,
        ),
        forall|j: int, s: int|
            0 <= j < old(fs).inodes@.len() && 0 <= s < 10 && #[trigger] final(fs).inodes@[j].zones@[s] != old(fs).inodes@[j].zones@[s]
                ==> fresh_zone(old(fs).zmap.bits(), old(fs).superblock.first_data_zone, final(fs).inodes@[j].zones@[s]),
        ({
            let cs = components(abs_path@);
            let t = trees_view(old(fs).tree@);
            let name = spec_fname(abs_path@);
            if !old(fs).imap.bits()[(inode as usize) as int] {
                r == Err::<u64, FsError>(FsError::InodeNotTaken { inode }) && *final(fs) == *old(fs)
            } else if split_found(t, cs) {
                r == Err::<u64, FsError>(FsError::AlreadyExists) && *final(fs) == *old(fs)
            } else if cs.len() == 0 {
                r == Err::<u64, FsError>(FsError::RootEntry) && *final(fs) == *old(fs)
            } else if encode_utf8(name).len() > DIR_ENTRY_NAME_SIZE {
                &&& r matches Err(FsError::NameTooLong { name: nm, max }) && nm@ == name && max == DIR_ENTRY_NAME_SIZE
                &&& *final(fs) == *old(fs)
            } else {
                match dentry_parent(t, cs) {
                    Lookup::Found(v) => {
                        let dn = view_inode(v);
                        &&& final(fs).zones_frame(old(fs), dn, true)
                        &&& final(fs).zmap_grows(old(fs))
                        &&& match old(fs).inode_at(dn) {
                            None => r == Err::<u64, FsError>(FsError::InvalidInode { inode: dn }),
                            Some(di) => match r {
                                Ok(x) => {
                                    &&& x == inode
                                    &&& final(fs).inodes@[dn - 1].size == ((di.size + 64) % 0x1_0000_0000) as u32
                                    &&& exists|b: u64, i: int| 0 <= i < 7 && #[trigger] final(fs).inodes@[dn - 1].zones@[i] == b as u32
                                        && #[trigger] final(fs).holds_entry(b, entry_bytes(inode as u32, encode_utf8(name)))
                                },
                                Err(e) => (block_error(e) || e == FsError::DirectoryFull) && entry_error(*old(fs), dn, e),
                            },
                        }
                    },
                    Lookup::NoRoot => r == Err::<u64, FsError>(FsError::NoRootItem) && *final(fs) == *old(fs),
                    Lookup::Failed(w) => *final(fs) == *old(fs) && if cs.len() > 1 {
                        crate::path::walk_error(w, join_rel(cs.drop_last()), r)
                    } else {
                        r matches Err(FsError::NotFound { path }) && path@ == abs_path@
                    },
                }
            }
        }),
{
    let ghost f0 = *fs;
    let taken = match fs.imap.is_set(inode as usize) {
        Ok(v) => v,
        Err(_) => {
            return Err(FsError::InodeOutOfBounds { inode });
        },
    };
    if !taken {
        return Err(FsError::InodeNotTaken { inode });
    }
    let found = split_items(&*fs, abs_path.as_str());
    if found.is_ok() {
        return Err(FsError::AlreadyExists);
    }
    let names = crate::path::owned_components(abs_path.as_str());
    assert(!split_found(trees_view(f0.tree@), components(abs_path@)));
    let n = names.len();
    if n == 0 {
        return Err(FsError::RootEntry);
    }
    let fname = fname_from_path(abs_path.as_str());
    let fb = fname.as_bytes();
    if fb.len() > DIR_ENTRY_NAME_SIZE {
        return Err(FsError::NameTooLong { name: fname.to_owned(), max: DIR_ENTRY_NAME_SIZE });
    }
    let dir = if n > 1 {
        let pname = join_rel_owned(&names, n - 1);
        let mut pnames = names;
        pnames.pop();
        assert(crate::path::strings_view(pnames@) =~= crate::path::strings_view(names@).drop_last());
        assert(crate::path::strings_view(names@).take(n - 1) =~= crate::path::strings_view(names@).drop_last());
        match crate::path::lookup_in(&fs.tree, &pnames, pname.as_str()) {
            Ok(it) => it,
            Err(e) => {
                return Err(e);
            },
        }
    } else {
        let dot = String::from_str(".");
        proof {
            reveal_strlit(".");
            assert(dot@ =~= seq!['.']);
        }
        let j = crate::path::find_index(&fs.tree, &dot);
        proof {
            lemma_trees_view(fs.tree@);
        }
        if j < fs.tree.len() {
            fs.tree[j].deep_clone()
        } else {
            return Err(FsError::NotFound { path: abs_path.clone() });
        }
    };
    let dn = dir.inode();
    proof {
        crate::path::lemma_view_name(dir);
    }
    let blocks = match fs.get_inode(dn) {
        Ok(i) => i.get_blocks(),
        Err(e) => {
            return Err(e);
        },
    };
    let entry = DirEntry::new(inode as u32, fname).to_bytes();
    assert(entry@ == entry_bytes(inode as u32, encode_utf8(spec_fname(abs_path@))));
    assert(dentry_parent(trees_view(f0.tree@), components(abs_path@)) == Lookup::Found(item_view(dir)));
    fs.add_entry(dn, &blocks, &entry)?;
    Ok(inode)
}

/// The permission bits a node created as `ft` gets.
pub open spec fn create_mode(ft: FileType) -> u16 {
    match ft {
        FileType::Directory => (S_IFDIR | 0o755u16) as u16,
        FileType::Regular => (S_IFREG | 0o644u16) as u16,
        FileType::Symlink => (S_IFLNK | 0o777u16) as u16,
        FileType::BlockDevice => (S_IFBLK | 0o660u16) as u16,
        FileType::CharacterDevice => (S_IFCHR | 0o660u16) as u16,
        FileType::Fifo => (S_IFIFO | 0o644u16) as u16,
        FileType::Socket => (S_IFSOCK | 0o600u16) as u16,
        FileType::Invalid => 0,
    }
}

impl MinixFileSystem {
    /// Whether `self` differs from `other` at most in the cache, the bits of
    /// both bitmaps, and the inodes.
    pub open spec fn alloc_frame(&self, other: &Self) -> bool {
        &&& self.superblock == other.superblock
        &&& self.tree == other.tree
        &&& self.image == other.image
        &&& self.imap.max == other.imap.max
        &&& self.imap.map@.len() == other.imap.map@.len()
        &&& self.zmap.max == other.zmap.max
        &&& self.zmap.map@.len() == other.zmap.map@.len()
        &&& self.inodes@.len() == other.inodes@.len()
    }
}

/// Whether `new` and `r` are what taking the lowest free inode of `old`
/// gives, with the permission bits of `mode` (its type bits kept),
/// `nlinks` links and size 0: the inode, or `NoInodesLeft` where every
/// inode is taken, or `InvalidInode` where the free one lies outside the
/// table.
pub open spec fn alloc_done(old: MinixFileSystem, new: MinixFileSystem, r: Result<u64, FsError>, mode: u16, nlinks: u16) -> bool {
    &&& new.wf()
    &&& new.alloc_frame(&old)
    &&& new.zmap == old.zmap
    &&& new.bcache == old.bcache
    &&& match r {
        Ok(n) => {
            &&& is_first_clear(old.imap.bits(), n as int)
            &&& new.imap.bits() == old.imap.bits().update(n as int, true)
            &&& old.inode_at(n) is Some
            &&& new.inodes@ == old.inodes@.update(n - 1, Inode {
                mode: (old.inodes@[n - 1].mode & S_IFMT) | (mode & 0o777),
                nlinks,
                size: 0,
                ..old.inodes@[n - 1]
            })
        },
        Err(e) => (e == FsError::NoInodesLeft && new.imap.map@ == old.imap.map@ && new.inodes == old.inodes
            && forall|k: int| 0 <= k < old.imap.bits().len() ==> #[trigger] old.imap.bits()[k])
            || (e is InvalidInode && new.inodes == old.inodes && exists|k: int| is_first_clear(old.imap.bits(), k)
                && old.inode_at(k as u64) is None),
    }
}

/// Take the lowest free inode and give it the permission bits of `mode`
/// (its type bits stay as they were), `nlinks` links and size 0.
pub fn alloc_inode(fs: &mut MinixFileSystem, mode: u16, nlinks: u16) -> (r: Result<u64, FsError>)
    requires
        old(fs).wf(),
    ensures
        alloc_done(*old(fs), *final(fs), r, mode, nlinks),
{
    let n = fs.allocate_inode()?;
    if n == 0 || n > fs.superblock.num_inodes as u64 || (n - 1) as usize >= fs.inodes.len() {
        return Err(FsError::InvalidInode { inode: n });
    }
    let idx = (n - 1) as usize;
    let mut ino = fs.inodes[idx];
    ino.set_mode(mode);
    ino.set_nlinks(nlinks as u32);
    ino.set_size(0);
    fs.inodes.set(idx, ino);
    Ok(n)
}

/// Create a regular file's inode (permissions 644).
fn create_file(fs: &mut MinixFileSystem) -> (r: Result<u64, FsError>)
    requires
        old(fs).wf(),
    ensures
        alloc_done(*old(fs), *final(fs), r, S_IFREG | 0o644, 1),
{
    alloc_inode(fs, S_IFREG | 0o644, 1)
}

/// Create a symbolic link's inode (permissions 777).
fn create_symlink(fs: &mut MinixFileSystem) -> (r: Result<u64, FsError>)
    requires
        old(fs).wf(),
    ensures
        alloc_done(*old(fs), *final(fs), r, S_IFLNK | 0o777, 1),
{
    alloc_inode(fs, S_IFLNK | 0o777, 1)
}

/// Create a fifo's inode (permissions 644).
fn create_fifo(fs: &mut MinixFileSystem) -> (r: Result<u64, FsError>)
    requires
        old(fs).wf(),
    ensures
        alloc_done(*old(fs), *final(fs), r, S_IFIFO | 0o644, 1),
{
    alloc_inode(fs, S_IFIFO | 0o644, 1)
}

/// Create a socket's inode (permissions 600).
fn create_socket(fs: &mut MinixFileSystem) -> (r: Result<u64, FsError>)
    requires
        old(fs).wf(),
    ensures
        alloc_done(*old(fs), *final(fs), r, S_IFSOCK | 0o600, 1),
{
    alloc_inode(fs, S_IFSOCK | 0o600, 1)
}

/// The inode number of the directory that a new node at the components
/// `names` goes into, looked up as `create_dentry` does.
fn parent_inode(fs: &MinixFileSystem, names: &Vec<String>) -> (r: Result<u64, FsError>)
    ensures
        match dentry_parent(trees_view(fs.tree@), crate::path::strings_view(names@)) {
            Lookup::Found(v) => r == Ok::<u64, FsError>(view_inode(v)),
            _ => r is Err,
        },
{
    let n = names.len();
    if n > 1 {
        let pname = join_rel_owned(names, n - 1);
        let mut pnames: Vec<String> = Vec::new();
        let mut k: usize = 0;
        while k < n - 1
            invariant
                k <= n - 1,
                n == names@.len(),
                crate::path::strings_view(pnames@) == crate::path::strings_view(names@).take(k as int),
            decreases n - 1 - k,
        {
            let c = names[k].clone();
            let ghost prev = pnames@;
            pnames.push(c);
            assert(crate::path::strings_view(pnames@) =~= crate::path::strings_view(prev).push(names@[k as int]@));
            assert(crate::path::strings_view(pnames@) =~= crate::path::strings_view(names@).take(k + 1));
            k += 1;
        }
        assert(crate::path::strings_view(names@).take(n - 1) =~= crate::path::strings_view(names@).drop_last());
        let it = crate::path::lookup_in(&fs.tree, &pnames, pname.as_str())?;
        proof {
            crate::path::lemma_view_name(it);
        }
        Ok(it.inode())
    } else {
        let dot = String::from_str(".");
        proof {
            reveal_strlit(".");
            assert(dot@ =~= seq!['.']);
            lemma_trees_view(fs.tree@);
        }
        let j = crate::path::find_index(&fs.tree, &dot);
        if j < fs.tree.len() {
            proof {
                crate::path::lemma_view_name(fs.tree@[j as int]);
            }
            Ok(fs.tree[j].inode())
        } else {
            Err(FsError::RootInodeNotFound)
        }
    }
}

/// Create a directory's inode (permissions 755, two links) with a block
/// holding its `.` and `..` entries (a block of one entry holds only `.`),
/// and count the new `..` link in the parent directory's inode.
fn create_dir(fs: &mut MinixFileSystem, abs_path: &String) -> (r: Result<u64, FsError>)
    requires
        old(fs).wf(),
        old(fs).superblock.block_size >= 64,
    ensures
        final(fs).wf(),
        final(fs).alloc_frame(old(fs)),
        r matches Ok(n) ==> {
            &&& old(fs).inode_at(n) is Some
            &&& final(fs).imap.bits()[n as int]
            &&& (n as int) < final(fs).imap.bits().len()
            &&& final(fs).inodes@[n - 1].size == 128
            &&& exists|b: u64| #[trigger] final(fs).holds_entry(b, entry_bytes(n as u32, encode_utf8(seq!['.'])))
                && final(fs).inodes@[n - 1].zones@[0] == b as u32
        },
        r matches Err(e) ==> dir_error(*old(fs), abs_path@, e),
        r matches Ok(n) ==> {
            &&& is_first_clear(old(fs).imap.bits(), n as int)
            &&& exists|t: int|
                #[trigger] is_first_clear(old(fs).zmap.bits(), t) && final(fs).zmap.bits() == old(fs).zmap.bits().update(t, true)
                    && final(fs).bcache.view() == old(fs).bcache.view().insert(
                    (t + old(fs).superblock.first_data_zone) as u64,
                    final(fs).bcache.view()[(t + old(fs).superblock.first_data_zone) as u64],
                )
            &&& forall|j: int| 0 <= j < old(fs).inodes@.len() && j != n - 1 ==> #[trigger] final(fs).inodes@[j].zones
                == old(fs).inodes@[j].zones
            &&& final(fs).imap.bits() == old(fs).imap.bits().update(n as int, true)
        },
{
    let ghost f0 = *fs;
    let names = crate::path::owned_components(abs_path.as_str());
    let parent = parent_inode(fs, &names)?;
    let n = alloc_inode(fs, S_IFDIR | 0o755, 2)?;
    let ghost f1 = *fs;
    let block_num = fs.allocate_block()?;
    let bs = fs.superblock.block_size as usize;
    let mut bdata = zeros(bs);
    let dot = DirEntry::new(n as u32, ".").to_bytes();
    let dotdot = DirEntry::new(parent as u32, "..").to_bytes();
    proof {
        reveal_strlit(".");
        reveal_strlit("..");
    }
    put_bytes(&mut bdata, 0, &dot);
    let ghost with_dot = bdata@;
    if bs >= 128 {
        put_bytes(&mut bdata, 64, &dotdot);
    }
    assert(bdata@.subrange(0, 64) =~= with_dot.subrange(0, 64));
    assert(with_dot.subrange(0, 64) =~= dot@);
    let _ = fs.write_block(block_num, bdata.as_slice());
    let idx = (n - 1) as usize;
    let mut ino = fs.inodes[idx];
    ino.zones[0] = block_num as u32;
    ino.set_size(128);
    fs.inodes.set(idx, ino);
    proof {
        assert(fs.bcache.view()[block_num].1 =~= bdata@);
        assert(fs.bcache.view()[block_num].1.subrange(0, 64) == dot@);
        assert("."@ =~= seq!['.']);
    }
    if parent == 0 || parent > fs.superblock.num_inodes as u64 || (parent - 1) as usize >= fs.inodes.len() {
        return Err(FsError::InvalidInode { inode: parent });
    }
    let pidx = (parent - 1) as usize;
    let mut p = fs.inodes[pidx];
    let links = p.get_nlinks();
    p.set_nlinks(links + 1);
    fs.inodes.set(pidx, p);
    proof {
        assert(fs.bcache.view()[block_num].1.subrange(0, 64) == dot@);
        assert(fs.holds_entry(block_num, dot@));
        assert(dot@ == entry_bytes(n as u32, encode_utf8(seq!['.'])));
        assert(fs.inodes@[n - 1].zones@[0] == block_num as u32);
        assert(fs.inodes@[n - 1].size == 128);
        assert(fs.imap.bits()[n as int]);
        let t = block_num - f0.superblock.first_data_zone;
        assert(is_first_clear(f0.zmap.bits(), t));
        assert(fs.bcache.view() =~= f0.bcache.view().insert(block_num, fs.bcache.view()[block_num]));
        assert(forall|j: int| 0 <= j < f0.inodes@.len() && j != n - 1 ==> #[trigger] fs.inodes@[j].zones == f0.inodes@[j].zones);
    }
    Ok(n)
}

/// Whether `e` is an error that taking the lowest free inode of `fs` can
/// give: every inode is taken, or the free one lies outside the table.
pub open spec fn alloc_error(fs: MinixFileSystem, e: FsError) -> bool {
    ||| e == FsError::NoInodesLeft && forall|k: int| 0 <= k < fs.imap.bits().len() ==> #[trigger] fs.imap.bits()[k]
    ||| e is InvalidInode && exists|k: int| is_first_clear(fs.imap.bits(), k) && fs.inode_at(k as u64) is None
}

/// Taking an inode or linking one fails the same way on a file system
/// whose cache changed but gives the same bytes.
pub proof fn lemma_make_errors_same_content(f0: MinixFileSystem, f1: MinixFileSystem, path: Seq<char>, e: FsError)
    requires
        f1.same_content(&f0),
    ensures
        alloc_error(f1, e) ==> alloc_error(f0, e),
        dentry_error(f1, path, e) ==> dentry_error(f0, path, e),
        relink_error(f1, path, e) ==> relink_error(f0, path, e),
{
    let t = trees_view(f0.tree@);
    let cs = components(path);
    if let Lookup::Found(v) = dentry_parent(t, cs) {
        let dn = view_inode(v);
        let z = f0.inodes@[dn - 1].zones@;
        if exists|s: int| 0 <= s < 7 && #[trigger] z[s] != 0 && !f1.readable(z[s] as u64) && e == f1.read_err(z[s] as u64) {
            let s = choose|s: int| 0 <= s < 7 && #[trigger] z[s] != 0 && !f1.readable(z[s] as u64) && e == f1.read_err(z[s] as u64);
            assert(!f0.readable(z[s] as u64));
        }
        if f1.inode_at(dn) is Some && entry_error(f1, dn, e) {
            if exists|s: int| 0 <= s < 7 && #[trigger] z[s] != 0 && !f1.readable(z[s] as u64) && e == f1.read_err(z[s] as u64) {
                let s = choose|s: int| 0 <= s < 7 && #[trigger] z[s] != 0 && !f1.readable(z[s] as u64) && e == f1.read_err(z[s] as u64);
                assert(!f0.readable(z[s] as u64));
            }
        }
    }
}

/// Linking fails the same way on a file system whose inodes differ only
/// in what linking does not look at (their zone pointers are kept).
pub proof fn lemma_dentry_error_zones_kept(f0: MinixFileSystem, f1: MinixFileSystem, path: Seq<char>, e: FsError)
    requires
        f1.superblock == f0.superblock,
        f1.tree == f0.tree,
        f1.image == f0.image,
        f1.imap == f0.imap,
        f1.zmap == f0.zmap,
        f1.bcache == f0.bcache,
        f1.inodes@.len() == f0.inodes@.len(),
        forall|j: int| 0 <= j < f0.inodes@.len() ==> #[trigger] f1.inodes@[j].zones == f0.inodes@[j].zones,
        dentry_error(f1, path, e),
    ensures
        dentry_error(f0, path, e),
{
    let t = trees_view(f0.tree@);
    let cs = components(path);
    if let Lookup::Found(v) = dentry_parent(t, cs) {
        let dn = view_inode(v);
        if 1 <= dn <= f0.inodes@.len() {
            assert(f1.inodes@[dn - 1].zones == f0.inodes@[dn - 1].zones);
        }
    }
}

/// Whether `e` is an error that linking a freshly taken inode of `fs` under
/// `path` can give: the path exists, is the root, has too long a name or no
/// directory to go into, that directory's inode is missing, or adding the
/// entry to it fails (see `entry_error`); or the directory's inode is the
/// lowest free one, which the new node takes.
pub open spec fn dentry_error(fs: MinixFileSystem, path: Seq<char>, e: FsError) -> bool {
    let t = trees_view(fs.tree@);
    let cs = components(path);
    ||| split_found(t, cs) && e == FsError::AlreadyExists
    ||| cs.len() == 0 && e == FsError::RootEntry
    ||| encode_utf8(spec_fname(path)).len() > DIR_ENTRY_NAME_SIZE && e is NameTooLong
    ||| !(dentry_parent(t, cs) is Found)
    ||| dentry_parent(t, cs) matches Lookup::Found(v) && (fs.inode_at(view_inode(v)) is None || entry_error(fs, view_inode(v), e)
        || is_first_clear(fs.imap.bits(), view_inode(v) as int))
}

/// Whether the zone pointers `b` are `a` with at most one zero direct
/// pointer set.
pub open spec fn one_slot_filled(a: Seq<u32>, b: Seq<u32>) -> bool {
    &&& b.len() == a.len()
    &&& forall|s: int| 0 <= s < b.len() && #[trigger] b[s] != a[s] ==> 0 <= s < 7 && a[s] == 0
    &&& forall|s: int, j: int| 0 <= s < j < b.len() ==> #[trigger] b[s] == a[s] || #[trigger] b[j] == a[j]
}

/// Whether `z` points at the zone that taking the lowest free bit of the
/// zone bitmap `bits` gives, data zones starting at `fdz`.
pub open spec fn fresh_zone(bits: Seq<bool>, fdz: u16, z: u32) -> bool {
    exists|t: int| is_first_clear(bits, t) && z == (t + fdz) as u32
}

/// Whether `e` is an error that linking a node under `path` a second time
/// can give after a first link succeeded, stated over `fs` before both:
/// the directory had at most one free zone pointer left, the zone map at
/// most one free zone, or a zone of the directory, or the zone that the
/// first link may have taken for it, could not be read.
pub open spec fn relink_error(fs: MinixFileSystem, path: Seq<char>, e: FsError) -> bool {
    match dentry_parent(trees_view(fs.tree@), components(path)) {
        Lookup::Found(v) => {
            let z = fs.inodes@[view_inode(v) - 1].zones@;
            ||| e == FsError::DirectoryFull && at_most_one_zero(z)
            ||| e == FsError::NoBlocksLeft && at_most_one_free(fs.zmap.bits())
            ||| exists|s: int| 0 <= s < 7 && #[trigger] z[s] != 0 && !fs.readable(z[s] as u64) && e == fs.read_err(z[s] as u64)
            ||| exists|t: int| is_first_clear(fs.zmap.bits(), t) && e == fs.read_err(((t + fs.superblock.first_data_zone) as u32) as u64)
        },
        _ => false,
    }
}

/// A second link of node `n` under `path` that fails on `f1`, the file
/// system that the first link left, fails as `relink_error` says of `f0`
/// before it, or as linking can fail on `f0`.
proof fn lemma_relink_error(f0: MinixFileSystem, f1: MinixFileSystem, path: Seq<char>, n: u64, e: FsError)
    requires
        f1.superblock == f0.superblock,
        f1.tree == f0.tree,
        f1.inodes@.len() == f0.inodes@.len(),
        is_first_clear(f0.imap.bits(), n as int),
        readable_grows(f1, f0),
        zmap_one_more(f0.zmap.bits(), f1.zmap.bits()),
        forall|j: int| 0 <= j < f0.inodes@.len() && j != n - 1 ==> one_slot_filled(
            f0.inodes@[j].zones@,
            #[trigger] f1.inodes@[j].zones@,
        ),
        forall|j: int, s: int|
            0 <= j < f0.inodes@.len() && j != n - 1 && 0 <= s < 10 && #[trigger] f1.inodes@[j].zones@[s] != f0.inodes@[j].zones@[s]
                ==> fresh_zone(f0.zmap.bits(), f0.superblock.first_data_zone, f1.inodes@[j].zones@[s]),
    ensures
        match dentry_parent(trees_view(f0.tree@), components(path)) {
            Lookup::Found(v) => (f0.inode_at(view_inode(v)) is Some && entry_error(f1, view_inode(v), e)) ==> (relink_error(
                f0,
                path,
                e,
            ) || is_first_clear(f0.imap.bits(), view_inode(v) as int)),
            _ => true,
        },
{
    let t = trees_view(f0.tree@);
    let cs = components(path);
    if let Lookup::Found(v) = dentry_parent(t, cs) {
        let dn = view_inode(v);
        if f0.inode_at(dn) is Some && entry_error(f1, dn, e) && dn != n {
            let j = dn - 1;
            let z0 = f0.inodes@[j].zones@;
            let z1 = f1.inodes@[j].zones@;
            assert(one_slot_filled(z0, z1));
            if e == FsError::DirectoryFull && forall|s: int| 0 <= s < 7 ==> #[trigger] z1[s] != 0 {
                assert forall|s: int, k: int| 0 <= s < k < 7 implies #[trigger] z0[s] != 0 || #[trigger] z0[k] != 0 by {
                    assert(z1[s] != 0 && z1[k] != 0);
                    assert(z1[s] == z0[s] || z1[k] == z0[k]);
                }
            }
            if e == FsError::NoBlocksLeft && forall|k: int| 0 <= k < f1.zmap.bits().len() ==> #[trigger] f1.zmap.bits()[k] {
                lemma_one_more_full(f0.zmap.bits(), f1.zmap.bits());
            }
            if exists|s: int| 0 <= s < 7 && #[trigger] z1[s] != 0 && !f1.readable(z1[s] as u64) && e == f1.read_err(z1[s] as u64) {
                let s = choose|s: int| 0 <= s < 7 && #[trigger] z1[s] != 0 && !f1.readable(z1[s] as u64) && e == f1.read_err(z1[s] as u64);
                if z1[s] == z0[s] {
                    assert(!f0.readable(z0[s] as u64));
                    assert(e == f0.read_err(z0[s] as u64));
                } else {
                    assert(fresh_zone(f0.zmap.bits(), f0.superblock.first_data_zone, z1[s]));
                    let tz = choose|tz: int| is_first_clear(f0.zmap.bits(), tz) && z1[s] == (tz + f0.superblock.first_data_zone) as u32;
                    assert(e == f0.read_err(((tz + f0.superblock.first_data_zone) as u32) as u64));
                }
            }
        }
    }
}

/// Whether at most one of the direct zone pointers `z` is 0.
pub open spec fn at_most_one_zero(z: Seq<u32>) -> bool {
    forall|s: int, j: int| 0 <= s < j < 7 ==> #[trigger] z[s] != 0 || #[trigger] z[j] != 0
}

/// Whether at most one bit of `bits` is clear.
pub open spec fn at_most_one_free(bits: Seq<bool>) -> bool {
    forall|k: int, j: int| 0 <= k < j < bits.len() ==> #[trigger] bits[k] || #[trigger] bits[j]
}

/// Whether the bitmap `b` is `a`, or `a` with its first clear bit set.
pub open spec fn zmap_one_more(a: Seq<bool>, b: Seq<bool>) -> bool {
    ||| b == a
    ||| exists|t: int| #[trigger] is_first_clear(a, t) && b == a.update(t, true)
}

/// A bitmap with every bit set after at most one was taken had at most
/// one clear bit before.
pub proof fn lemma_one_more_full(a: Seq<bool>, b: Seq<bool>)
    requires
        zmap_one_more(a, b),
        forall|k: int| 0 <= k < b.len() ==> #[trigger] b[k],
    ensures
        at_most_one_free(a),
{
    assert forall|k: int, j: int| 0 <= k < j < a.len() implies #[trigger] a[k] || #[trigger] a[j] by {
        assert(b[k] && b[j]);
    }
}

/// `entry_error`, where one zone more may have been taken before: the
/// direct zones are all taken, at most one zone is free, or a direct zone
/// cannot be read.
pub open spec fn loose_entry_error(fs: MinixFileSystem, dn: u64, e: FsError) -> bool {
    let z = fs.inodes@[dn - 1].zones@;
    ||| e == FsError::DirectoryFull && forall|s: int| 0 <= s < 7 ==> #[trigger] z[s] != 0
    ||| e == FsError::NoBlocksLeft && at_most_one_free(fs.zmap.bits())
    ||| exists|s: int| 0 <= s < 7 && #[trigger] z[s] != 0 && !fs.readable(z[s] as u64) && e == fs.read_err(z[s] as u64)
}

/// `dentry_error` with `loose_entry_error` in place of `entry_error`.
pub open spec fn loose_dentry_error(fs: MinixFileSystem, path: Seq<char>, e: FsError) -> bool {
    let t = trees_view(fs.tree@);
    let cs = components(path);
    ||| split_found(t, cs) && e == FsError::AlreadyExists
    ||| cs.len() == 0 && e == FsError::RootEntry
    ||| encode_utf8(spec_fname(path)).len() > DIR_ENTRY_NAME_SIZE && e is NameTooLong
    ||| !(dentry_parent(t, cs) is Found)
    ||| dentry_parent(t, cs) matches Lookup::Found(v) && (fs.inode_at(view_inode(v)) is None || loose_entry_error(
        fs,
        view_inode(v),
        e,
    ) || is_first_clear(fs.imap.bits(), view_inode(v) as int))
}

/// Whether `e` is an error that making the inode and first block of a
/// directory at `path` in `fs` can give: the path has no directory to go
/// into, no inode or no zone is free, the free inode lies outside the
/// table, or the parent directory's inode is missing.
pub open spec fn dir_error(fs: MinixFileSystem, path: Seq<char>, e: FsError) -> bool {
    let d = dentry_parent(trees_view(fs.tree@), components(path));
    ||| !(d is Found)
    ||| e == FsError::NoInodesLeft && forall|k: int| 0 <= k < fs.imap.bits().len() ==> #[trigger] fs.imap.bits()[k]
    ||| e == FsError::NoBlocksLeft && forall|k: int| 0 <= k < fs.zmap.bits().len() ==> #[trigger] fs.zmap.bits()[k]
    ||| e is InvalidInode && exists|k: int| is_first_clear(fs.imap.bits(), k) && fs.inode_at(k as u64) is None
    ||| e is InvalidInode && (d matches Lookup::Found(v) && fs.inode_at(view_inode(v)) is None)
}

/// Create a device node's inode (permissions 660) with the device number
/// `major:minor` in its first zone pointer, and link it under `abs_path`.
/// It fails only as taking an inode or linking it can (see `alloc_error`
/// and `dentry_error`).
fn create_node(fs: &mut MinixFileSystem, abs_path: &String, node_type: FileType, major: u16, minor: u16) -> (r: Result<u64, FsError>)
    requires
        old(fs).wf(),
        node_type == FileType::BlockDevice || node_type == FileType::CharacterDevice,
        old(fs).superblock.block_size % 64 == 0,
        old(fs).superblock.block_size >= 64,
    ensures
        final(fs).wf(),
        final(fs).alloc_frame(old(fs)),
        r matches Ok(n) ==> old(fs).inode_at(n) is Some && final(fs).imap.bits()[n as int] && (n as int) < final(fs).imap.bits().len(),
        r matches Err(e) ==> alloc_error(*old(fs), e) || dentry_error(*old(fs), abs_path@, e),
        r matches Ok(n) ==> {
            &&& is_first_clear(old(fs).imap.bits(), n as int)
            &&& readable_grows(*final(fs), *old(fs))
            &&& zmap_one_more(old(fs).zmap.bits(), final(fs).zmap.bits())
            &&& forall|j: int| 0 <= j < old(fs).inodes@.len() && j != n - 1 ==> one_slot_filled(
                old(fs).inodes@[j].zones@,
                #[trigger] final(fs).inodes@[j].zones@,
            )
            &&& forall|j: int, s: int|
                0 <= j < old(fs).inodes@.len() && j != n - 1 && 0 <= s < 10 && #[trigger] final(fs).inodes@[j].zones@[s]
                    != old(fs).inodes@[j].zones@[s] ==> fresh_zone(
                    old(fs).zmap.bits(),
                    old(fs).superblock.first_data_zone,
                    final(fs).inodes@[j].zones@[s],
                )
        },
{
    let ghost f0 = *fs;
    let mode = match node_type {
        FileType::BlockDevice => S_IFBLK | 0o660,
        _ => S_IFCHR | 0o660,
    };
    let n = alloc_inode(fs, mode, 1)?;
    proof {
        assert(n / 8 < fs.imap.map@.len());
    }
    let dev = ((major as u64) << 8) | (minor as u64);
    let idx = (n - 1) as usize;
    let mut ino = fs.inodes[idx];
    ino.zones[0] = dev as u32;
    fs.inodes.set(idx, ino);
    let ghost f1 = *fs;
    match create_dentry(fs, n, abs_path) {
        Ok(_) => {},
        Err(e) => {
            proof {
                let t = trees_view(f0.tree@);
                let cs = components(abs_path@);
                assert(f1.imap.bits()[(n as usize) as int]);
                assert(trees_view(f1.tree@) == t);
                if let Lookup::Found(v) = dentry_parent(t, cs) {
                    let dn = view_inode(v);
                    if f0.inode_at(dn) is Some && dn != n {
                        assert(f1.inodes@[dn - 1] == f0.inodes@[dn - 1]);
                        assert forall|b: u64| #[trigger] f1.readable(b) == f0.readable(b) by {}
                        assert forall|b: u64| #[trigger] f1.read_err(b) == f0.read_err(b) by {}
                        assert(entry_error(f1, dn, e) ==> entry_error(f0, dn, e));
                    }
                }
            }
            return Err(e);
        },
    }
    Ok(n)
}

/// Whether a node of type `ft` is made from an inode alone, with no block
/// and no entry of its own before it is linked.
pub open spec fn plain_node(ft: FileType) -> bool {
    ft == FileType::Regular || ft == FileType::Symlink || ft == FileType::Fifo || ft == FileType::Socket
}

/// An entry error of a directory whose zone pointers, zone bitmap and
/// cache stayed as they were is one of the file system before.
proof fn lemma_entry_error_kept(f0: MinixFileSystem, f1: MinixFileSystem, dn: u64, e: FsError)
    requires
        f1.superblock == f0.superblock,
        f1.image == f0.image,
        f1.zmap == f0.zmap,
        f1.bcache == f0.bcache,
        f1.inodes@[dn - 1].zones == f0.inodes@[dn - 1].zones,
        entry_error(f1, dn, e),
    ensures
        entry_error(f0, dn, e),
{
}

/// An entry error of a directory after one more zone was taken and
/// cached, its zone pointers kept, is a loose entry error before.
proof fn lemma_entry_error_loose(f0: MinixFileSystem, f1: MinixFileSystem, dn: u64, t: int, e: FsError)
    requires
        f1.superblock == f0.superblock,
        f1.image == f0.image,
        is_first_clear(f0.zmap.bits(), t),
        f1.zmap.bits() == f0.zmap.bits().update(t, true),
        f1.bcache.view() == f0.bcache.view().insert(
            (t + f0.superblock.first_data_zone) as u64,
            f1.bcache.view()[(t + f0.superblock.first_data_zone) as u64],
        ),
        f1.inodes@[dn - 1].zones == f0.inodes@[dn - 1].zones,
        entry_error(f1, dn, e),
    ensures
        loose_entry_error(f0, dn, e),
{
    let z = f0.inodes@[dn - 1].zones@;
    if e == FsError::NoBlocksLeft && forall|k: int| 0 <= k < f1.zmap.bits().len() ==> #[trigger] f1.zmap.bits()[k] {
        assert forall|k: int, j: int| 0 <= k < j < f0.zmap.bits().len() implies #[trigger] f0.zmap.bits()[k] || #[trigger] f0.zmap.bits()[j] by {
            assert(f1.zmap.bits()[k] && f1.zmap.bits()[j]);
        }
    }
    if exists|s: int| 0 <= s < 7 && #[trigger] z[s] != 0 && !f1.readable(z[s] as u64) && e == f1.read_err(z[s] as u64) {
        let s = choose|s: int| 0 <= s < 7 && #[trigger] z[s] != 0 && !f1.readable(z[s] as u64) && e == f1.read_err(z[s] as u64);
        assert(!f0.readable(z[s] as u64));
        assert(e == f0.read_err(z[s] as u64));
    }
}

/// Create a node of type `ftype` at `abs_path`: allocate and set up its
/// inode, then add its entry to the parent directory on disk. The
/// in-memory tree is left as it is. A device node is linked when its
/// inode is made and then once more here, so its directory gains two
/// entries for it.
pub fn create(fs: &mut MinixFileSystem, abs_path: &String, ftype: FileType) -> (r: Result<u64, FsError>)
    requires
        old(fs).wf(),
        old(fs).superblock.block_size % 64 == 0,
        old(fs).superblock.block_size >= 64,
    ensures
        final(fs).wf(),
        final(fs).alloc_frame(old(fs)),
        ftype == FileType::Invalid ==> r == Err::<u64, FsError>(FsError::InvalidFileType) && *final(fs) == *old(fs),
        r matches Ok(n) ==> old(fs).inode_at(n) is Some && final(fs).imap.bits()[n as int] && (n as int) < final(fs).imap.bits().len(),
        ftype == FileType::Directory ==> (r matches Err(e) ==> dir_error(*old(fs), abs_path@, e) || loose_dentry_error(
            *old(fs),
            abs_path@,
            e,
        )),
        plain_node(ftype) ==> (r matches Err(e) ==> alloc_error(*old(fs), e) || dentry_error(*old(fs), abs_path@, e)),
        plain_node(ftype) ==> zmap_one_more(old(fs).zmap.bits(), final(fs).zmap.bits()),
        (ftype == FileType::BlockDevice || ftype == FileType::CharacterDevice) ==> (r matches Err(e) ==> alloc_error(*old(fs), e)
            || dentry_error(*old(fs), abs_path@, e) || relink_error(*old(fs), abs_path@, e)),
{
    let ghost f0 = *fs;
    let n = match ftype {
        FileType::Directory => create_dir(fs, abs_path)?,
        FileType::Regular => create_file(fs)?,
        FileType::Symlink => create_symlink(fs)?,
        FileType::BlockDevice | FileType::CharacterDevice => create_node(fs, abs_path, ftype, 0, 0)?,
        FileType::Fifo => create_fifo(fs)?,
        FileType::Socket => create_socket(fs)?,
        FileType::Invalid => {
            return Err(FsError::InvalidFileType);
        },
    };
    proof {
        assert(n / 8 < fs.imap.map@.len());
    }
    let ghost f1 = *fs;
    match create_dentry(fs, n, abs_path) {
        Ok(_) => {},
        Err(e) => {
            proof {
                let t = trees_view(f0.tree@);
                let cs = components(abs_path@);
                assert(trees_view(f1.tree@) == t);
                if ftype == FileType::BlockDevice || ftype == FileType::CharacterDevice {
                    lemma_relink_error(f0, f1, abs_path@, n, e);
                }
                if ftype == FileType::Directory || plain_node(ftype) {
                    assert(f1.imap.bits()[(n as usize) as int]);
                    if let Lookup::Found(v) = dentry_parent(t, cs) {
                        let dn = view_inode(v);
                        if f0.inode_at(dn) is Some && dn != n && entry_error(f1, dn, e) {
                            assert(f1.inodes@[dn - 1].zones == f0.inodes@[dn - 1].zones);
                            if ftype == FileType::Directory {
                                let tz = choose|tz: int|
                                    #[trigger] is_first_clear(f0.zmap.bits(), tz) && f1.zmap.bits() == f0.zmap.bits().update(tz, true)
                                        && f1.bcache.view() == f0.bcache.view().insert(
                                        (tz + f0.superblock.first_data_zone) as u64,
                                        f1.bcache.view()[(tz + f0.superblock.first_data_zone) as u64],
                                    );
                                lemma_entry_error_loose(f0, f1, dn, tz, e);
                            } else {
                                lemma_entry_error_kept(f0, f1, dn, e);
                            }
                        }
                    }
                }
            }
            return Err(e);
        },
    }
    Ok(n)
}

/// Whether the inodes `a` are the inodes `b` but for their sizes and zone
/// pointers.
pub open spec fn meta_kept(a: Seq<Inode>, b: Seq<Inode>) -> bool {
    &&& a.len() == b.len()
    &&& forall|j: int| 0 <= j < a.len() ==> {
        let (x, y) = (#[trigger] a[j], b[j]);
        &&& x.mode == y.mode
        &&& x.nlinks == y.nlinks
        &&& x.uid == y.uid
        &&& x.gid == y.gid
        &&& x.atime == y.atime
        &&& x.mtime == y.mtime
        &&& x.ctime == y.ctime
    }
}

impl MinixFileSystem {
    /// Link inode `inode` under `abs_path`, as `create_dentry` does.
    pub fn link(&mut self, inode: u64, abs_path: &String) -> (r: Result<u64, FsError>)
        requires
            old(self).wf(),
            (inode as usize) / 8 < old(self).imap.map.len(),
            old(self).superblock.block_size % 64 == 0,
            old(self).superblock.block_size >= 64,
        ensures
            final(self).wf(),
            final(self).superblock == old(self).superblock,
            final(self).imap == old(self).imap,
            final(self).tree == old(self).tree,
            meta_kept(final(self).inodes@, old(self).inodes@),
            !old(self).imap.bits()[(inode as usize) as int] ==> r == Err::<u64, FsError>(
                FsError::InodeNotTaken { inode },
            ) && *final(self) == *old(self),
            split_found(trees_view(old(self).tree@), components(abs_path@)) && old(self).imap.bits()[(inode as usize) as int]
                ==> r == Err::<u64, FsError>(FsError::AlreadyExists) && *final(self) == *old(self),
            final(self).image == old(self).image,
            readable_grows(*final(self), *old(self)),
            r matches Err(e) ==> (!old(self).imap.bits()[(inode as usize) as int] && e == FsError::InodeNotTaken { inode })
                || dentry_error(*old(self), abs_path@, e),
    {
        let ghost f0 = *self;
        let r = create_dentry(self, inode, abs_path);
        assert forall|j: int| 0 <= j < self.inodes@.len() implies {
            let (x, y) = (#[trigger] self.inodes@[j], f0.inodes@[j]);
            &&& x.mode == y.mode
            &&& x.nlinks == y.nlinks
            &&& x.uid == y.uid
            &&& x.gid == y.gid
            &&& x.atime == y.atime
            &&& x.mtime == y.mtime
            &&& x.ctime == y.ctime
        } by {
        }
        r
    }
}

} // verus!
