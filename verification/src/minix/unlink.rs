//! Removing directory entries of a Minix 3 file system.
use crate::bytes::zeros;
use crate::cache::trees_view;
use crate::error::FsError;
use crate::filetype::FileType;
use crate::fs::{FileSystem, InodeOperations, SuperblockOperations};
use crate::minix::consts::{DIR_ENTRY_BYTES, INDIRECT_ZONE};
use crate::minix::create::split_found;
use crate::minix::direntry::DirEntry;
use crate::minix::fs::MinixFileSystem;
use crate::minix::truncate::{
    is_pow2, lemma_cache_grows, lemma_failure_back, lemma_grows_chain, lemma_same_content_grows, read_failure,
    readable_grows,
};
use crate::minix::direntry::spec_entry_name;
use crate::minix::read::{lemma_full_block_read, lemma_read_keeps_content, lemma_same_content_refl, lemma_same_content_trans};
use crate::path::{
    components, first_named, fname_from_path, law_walk_replace, law_without_name, lookup, parent_comps, remove_item,
    spec_fname, split_items, view_inode, walk, Walk,
};
use crate::cache::ItemView;
use vstd::prelude::*;

verus! {

/// Whether the directory that holds the path with components `cs` has no
/// entry named as its last component.
pub open spec fn name_gone(t: Seq<ItemView>, cs: Seq<Seq<char>>) -> bool {
    &&& cs.len() > 0
    &&& walk(t, cs.drop_last()) matches Walk::Reached(p)
    &&& first_named(p, cs.last()) >= p.len()
}

/// The entries of the directory that holds the path with components `cs`.
pub open spec fn split_parent(t: Seq<ItemView>, cs: Seq<Seq<char>>) -> Seq<ItemView> {
    walk(t, cs.drop_last())->Reached_0
}

/// The inode of the directory whose entry `unlink` clears for `cs`: that
/// of its `.` entry, else of its entry looked up from the root.
pub open spec fn unlink_dir_inode(t: Seq<ItemView>, cs: Seq<Seq<char>>) -> u64 {
    let p = split_parent(t, cs);
    let d = first_named(p, seq!['.']);
    if d < p.len() {
        view_inode(p[d])
    } else {
        view_inode(lookup(t, cs.drop_last())->Found_0)
    }
}

/// The inode of the entry that `unlink` removes for `cs`.
pub open spec fn unlink_file_inode(t: Seq<ItemView>, cs: Seq<Seq<char>>) -> u64 {
    let p = split_parent(t, cs);
    view_inode(p[first_named(p, cs.last())])
}

/// Whether one of the entries of the block bytes `c` (the first `bs`)
/// carries the name `name`.
pub open spec fn block_has_name(c: Seq<u8>, bs: int, name: Seq<char>) -> bool {
    exists|k: int| 0 <= k && 64 * k + 64 <= bs && #[trigger] spec_entry_name(c.subrange(64 * k + 4, 64 * k + 64)) == name
}

/// Whether a direct zone of the directory of inode `dn` that can be read
/// and holds a whole block carries an entry named `name`.
pub open spec fn dir_names(fs: MinixFileSystem, dn: u64, name: Seq<char>) -> bool {
    exists|s: int|
        0 <= s < 7 && #[trigger] fs.inodes@[dn - 1].zones@[s] != 0 && ({
            let z = fs.inodes@[dn - 1].zones@[s] as u64;
            &&& fs.readable(z)
            &&& fs.content(z).len() >= fs.bsize()
            &&& block_has_name(fs.content(z), fs.bsize(), name)
        })
}

/// Whether the block `z`, where it can be read and holds a whole block of
/// `bs` bytes, carries no entry named `name`.
spec fn no_name_at(fs: MinixFileSystem, z: u64, bs: int, name: Seq<char>) -> bool {
    z != 0 && fs.readable(z) && fs.content(z).len() >= bs ==> !block_has_name(fs.content(z), bs, name)
}

/// Whether `e` is an error that `unlink` of `path` in `fs` can give: the
/// path has no entry, the inode of its directory or its own is missing, no
/// block of the directory carries its name, or a block cannot be read.
pub open spec fn unlink_error(fs: MinixFileSystem, path: Seq<char>, e: FsError) -> bool {
    let t = trees_view(fs.tree@);
    let cs = components(path);
    ||| !split_found(t, cs)
    ||| fs.inode_at(unlink_dir_inode(t, cs)) is None && e == FsError::InvalidInode { inode: unlink_dir_inode(t, cs) }
    ||| fs.inode_at(unlink_file_inode(t, cs)) is None && e == FsError::InvalidInode { inode: unlink_file_inode(t, cs) }
    ||| (e matches FsError::NotFound { path: q } && q@ == path && !dir_names(fs, unlink_dir_inode(t, cs), cs.last()))
    ||| read_failure(fs, e)
}

impl MinixFileSystem {
    /// Remove the entry of `abs_path`: clear its directory entry on disk and
    /// drop it from the tree, then count the link off its inode; an inode
    /// left with no link is emptied and given back, and the parent
    /// directory shrinks by an entry.
    pub fn unlink(&mut self, abs_path: &String) -> (r: Result<(), FsError>)
        requires
            old(self).wf(),
            is_pow2(old(self).superblock.block_size),
            old(self).superblock.block_size >= 64,
        ensures
            final(self).wf(),
            final(self).superblock == old(self).superblock,
            final(self).image == old(self).image,
            !split_found(trees_view(old(self).tree@), components(abs_path@)) ==> r is Err && *final(self)
                == *old(self),
            r is Ok ==> split_found(trees_view(old(self).tree@), components(abs_path@)) && name_gone(
                trees_view(final(self).tree@),
                components(abs_path@),
            ),
            r matches Err(e) ==> unlink_error(*old(self), abs_path@, e),
    {
        let ghost f0 = *self;
        let ghost cs = components(abs_path@);
        let split = split_items(&*self, abs_path.as_str())?;
        assert(split_found(trees_view(f0.tree@), cs));
        let fname = fname_from_path(abs_path.as_str()).to_owned();
        assert(fname@ == cs.last());
        let dent_inode = split.dir_part.inode();
        let dent_blocks = match self.get_inode(dent_inode) {
            Ok(i) => i.get_blocks(),
            Err(e) => {
                return Err(e);
            },
        };
        let bs = self.superblock.block_size as usize;
        let mut block_data = zeros(bs);
        let mut found = false;
        let mut i: usize = 0;
        proof {
            lemma_same_content_refl(f0);
            lemma_same_content_grows(f0, f0);
        }
        while i < INDIRECT_ZONE
            invariant
                readable_grows(*self, f0),
                !found ==> self.same_content(&f0),
                f0.inode_at(dent_inode) is Some,
                dent_blocks@ == f0.inodes@[dent_inode - 1].zones@.map_values(|z: u32| z as u64),
                dent_inode == unlink_dir_inode(trees_view(f0.tree@), cs),
                i <= 7,
                !found ==> forall|s: int| 0 <= s < i ==> #[trigger] no_name_at(f0, dent_blocks@[s], bs as int, fname@),
                self.wf(),
                f0 == *old(self),
                self.superblock == f0.superblock,
                self.image == f0.image,
                self.imap == f0.imap,
                self.zmap == f0.zmap,
                self.inodes == f0.inodes,
                block_data@.len() == bs,
                bs == f0.superblock.block_size,
                dent_blocks@.len() == 10,
                fname@ == cs.last(),
                cs == components(abs_path@),
                split_found(trees_view(f0.tree@), cs),
                !found ==> self.tree == f0.tree,
                found ==> name_gone(trees_view(self.tree@), cs),
            decreases 7 - i,
        {
            let zone = dent_blocks[i];
            let ghost cz = f0.content(zone);
            if zone != 0 {
                let ghost fr = *self;
                let ghost before = block_data@;
                let got = self.read_block(zone, block_data.as_mut_slice());
                proof {
                    lemma_full_block_read(fr, zone, before);
                    lemma_read_keeps_content(fr, *self, zone, before);
                    lemma_same_content_grows(fr, *self);
                    lemma_grows_chain(f0, fr, *self);
                    if !found {
                        lemma_same_content_trans(f0, fr, *self);
                    }
                }
                if let Err(e) = got {
                    proof {
                        assert(read_failure(fr, e));
                        lemma_failure_back(f0, fr, e);
                    }
                    return Err(e);
                }
                proof {
                    if !found && cz.len() >= bs {
                        assert forall|m: int| 0 <= m < bs implies #[trigger] block_data@[m] == cz[m] by {}
                    }
                }
                let mut d: usize = 0;
                while d + 64 <= bs
                    invariant
                        readable_grows(*self, f0),
                        !found ==> self.same_content(&f0),
                        f0.inode_at(dent_inode) is Some,
                        dent_blocks@ == f0.inodes@[dent_inode - 1].zones@.map_values(|z: u32| z as u64),
                        dent_inode == unlink_dir_inode(trees_view(f0.tree@), cs),
                        i < 7,
                        zone == dent_blocks@[i as int],
                        zone != 0,
                        cz == f0.content(zone),
                        d % 64 == 0,
                        !found ==> f0.readable(zone),
                        !found ==> forall|s: int| 0 <= s < i ==> #[trigger] no_name_at(f0, dent_blocks@[s], bs as int, fname@),
                        !found && cz.len() >= bs ==> forall|m: int| 0 <= m < bs ==> #[trigger] block_data@[m] == cz[m],
                        !found && cz.len() >= bs ==> forall|k: int|
                            0 <= k && 64 * k + 64 <= d ==> #[trigger] spec_entry_name(cz.subrange(64 * k + 4, 64 * k + 64)) != fname@,
                        !found ==> d <= bs,
                        self.wf(),
                        f0 == *old(self),
                        self.superblock == f0.superblock,
                        self.image == f0.image,
                        self.imap == f0.imap,
                        self.zmap == f0.zmap,
                        self.inodes == f0.inodes,
                        block_data@.len() == bs,
                        bs == f0.superblock.block_size,
                        d <= bs,
                        fname@ == cs.last(),
                        cs == components(abs_path@),
                        split_found(trees_view(f0.tree@), cs),
                        !found ==> self.tree == f0.tree,
                        found ==> name_gone(trees_view(self.tree@), cs),
                    ensures
                        readable_grows(*self, f0),
                        !found ==> self.same_content(&f0),
                        !found ==> d + 64 > bs && d % 64 == 0,
                        !found && cz.len() >= bs ==> forall|k: int|
                            0 <= k && 64 * k + 64 <= d ==> #[trigger] spec_entry_name(cz.subrange(64 * k + 4, 64 * k + 64)) != fname@,
                        self.wf(),
                        self.superblock == f0.superblock,
                        self.image == f0.image,
                        self.imap == f0.imap,
                        self.zmap == f0.zmap,
                        self.inodes == f0.inodes,
                        block_data@.len() == bs,
                        !found ==> self.tree == f0.tree,
                        found ==> name_gone(trees_view(self.tree@), cs),
                    decreases bs - d,
                {
                    let dent = DirEntry::from_bytes(block_data.as_slice(), d);
                    if dent.name().eq(&fname) {
                        crate::bytes::write_u32_at(&mut block_data, d, 0);
                        let copy = crate::bytes::copy_range(block_data.as_slice(), 0, bs);
                        let ghost fw = *self;
                        let _ = self.bcache.insert_write(zone, copy);
                        proof {
                            lemma_cache_grows(fw, *self);
                            lemma_grows_chain(f0, fw, *self);
                        }
                        let ghost before = trees_view(self.tree@);
                        proof {
                            let pc = parent_comps(cs);
                            let p = walk(before, pc)->Reached_0;
                            law_walk_replace(before, pc, crate::path::without_name(p, cs.last()));
                            law_without_name(p, cs.last());
                        }
                        let ghost fm = *self;
                        remove_item(self, abs_path.as_str())?;
                        proof {
                            lemma_cache_grows(fm, *self);
                            lemma_grows_chain(f0, fm, *self);
                        }
                        found = true;
                        break;
                    }
                    proof {
                        if !found && cz.len() >= bs {
                            assert(block_data@.subrange(d + 4, d + 64) =~= cz.subrange(d + 4, d + 64));
                            assert(spec_entry_name(cz.subrange(64 * (d / 64) + 4, 64 * (d / 64) + 64)) != fname@);
                        }
                    }
                    d += 64;
                }
                proof {
                    if !found && cz.len() >= bs {
                        assert(!block_has_name(cz, bs as int, fname@)) by {
                            if block_has_name(cz, bs as int, fname@) {
                                let k = choose|k: int| 0 <= k && 64 * k + 64 <= bs && #[trigger] spec_entry_name(
                                    cz.subrange(64 * k + 4, 64 * k + 64),
                                ) == fname@;
                                assert(64 * k + 64 <= d);
                            }
                        }
                    }
                }
            }
            proof {
                if !found {
                    assert(no_name_at(f0, dent_blocks@[i as int], bs as int, fname@));
                }
            }
            i += 1;
        }
        if !found {
            proof {
                let dn = dent_inode;
                if dir_names(f0, dn, cs.last()) {
                    let s = choose|s: int| 0 <= s < 7 && #[trigger] f0.inodes@[dn - 1].zones@[s] != 0 && ({
                        let z = f0.inodes@[dn - 1].zones@[s] as u64;
                        &&& f0.readable(z)
                        &&& f0.content(z).len() >= f0.bsize()
                        &&& block_has_name(f0.content(z), f0.bsize(), cs.last())
                    });
                    assert(no_name_at(f0, dent_blocks@[s], bs as int, fname@));
                    assert(dent_blocks@[s] == f0.inodes@[dn - 1].zones@[s] as u64);
                }
            }
            return Err(FsError::NotFound { path: abs_path.clone() });
        }
        let ghost fl_state = *self;
        let fl = split.file_part.inode();
        if fl == 0 || fl > self.superblock.num_inodes as u64 || (fl - 1) as usize >= self.inodes.len() {
            return Err(FsError::InvalidInode { inode: fl });
        }
        let fidx = (fl - 1) as usize;
        let mut fino = self.inodes[fidx];
        let nlinks = fino.get_nlinks().saturating_sub(1);
        fino.set_nlinks(nlinks);
        self.inodes.set(fidx, fino);
        if nlinks > 0 {
            if dent_inode == 0 || dent_inode > self.superblock.num_inodes as u64 || (dent_inode - 1) as usize
                >= self.inodes.len() {
                return Err(FsError::InvalidInode { inode: dent_inode });
            }
            let didx = (dent_inode - 1) as usize;
            let mut dino = self.inodes[didx];
            let size = dino.get_size();
            dino.set_size(size.saturating_sub(DIR_ENTRY_BYTES));
            self.inodes.set(didx, dino);
            return Ok(());
        }
        let ghost f1 = *self;
        proof {
            lemma_cache_grows(fl_state, f1);
            lemma_grows_chain(f0, fl_state, f1);
        }
        let tr = self.truncate(fl, 0);
        proof {
            if tr is Err {
                lemma_failure_back(f0, f1, tr->Err_0);
            }
        }
        tr?;
        let mut fino = self.inodes[fidx];
        let ftype = fino.get_file_type();
        fino.set_file_type(FileType::Invalid);
        fino.set_size(0);
        fino.set_mode(0);
        fino.set_atime(0);
        fino.set_mtime(0);
        fino.set_ctime(0);
        self.inodes.set(fidx, fino);
        if dent_inode == 0 || dent_inode > self.superblock.num_inodes as u64 || (dent_inode - 1) as usize
            >= self.inodes.len() {
            return Err(FsError::InvalidInode { inode: dent_inode });
        }
        let didx = (dent_inode - 1) as usize;
        let mut dino = self.inodes[didx];
        let psize = dino.get_size();
        dino.set_size(psize.saturating_sub(DIR_ENTRY_BYTES));
        if ftype == FileType::Directory {
            let pl = dino.get_nlinks().saturating_sub(1);
            dino.set_nlinks(pl);
        }
        self.inodes.set(didx, dino);
        if (fl as usize) / 8 != self.imap.len() {
            let _ = self.deallocate_inode(fl);
        }
        Ok(())
    }
}

} // verus!
