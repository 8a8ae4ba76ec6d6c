//! Reading a Minix 3 file system from its image: the superblock, the
//! bitmaps, the inode table and the directory tree.
use crate::bitmap::Bitmap;
use crate::bytes::{copy_range, push_char, utf8_lossy};
use crate::cache::{BlockCache, Item, Tree};
use crate::error::FsError;
use crate::minix::consts::{INODE_BYTES, MAX_SYMLINK_SIZE, ROOT_INODE};
use crate::minix::direntry::DirEntry;
use crate::minix::fs::MinixFileSystem;
use crate::minix::inode::{spec_inode_at, Inode};
use crate::minix::superblock::{spec_superblock_at, Superblock};
use crate::stat::{S_IFDIR, S_IFLNK, S_IFMT};
use vstd::prelude::*;

verus! {

/// The errors that reading the tree of an image can give.
pub open spec fn load_error(e: FsError) -> bool {
    ||| e == FsError::UnexpectedEof
    ||| e == FsError::DirectoryLoop
    ||| e is InvalidInode
    ||| e is NotADirectoryInode
}

/// Inodes stored at the same bytes are the same.
proof fn lemma_inode_at_eq(a: Seq<u8>, o1: int, b: Seq<u8>, o2: int)
    requires
        forall|i: int| o1 <= i < o1 + 64 ==> #[trigger] a[i] == b[i - o1 + o2],
    ensures
        spec_inode_at(a, o1) == spec_inode_at(b, o2),
{
}

/// The characters of the non-zero bytes of a name, each byte read as the
/// character with its code.
pub open spec fn latin1_name(name: Seq<u8>) -> Seq<char>
    decreases name.len(),
{
    if name.len() == 0 {
        Seq::empty()
    } else if name.last() == 0 {
        latin1_name(name.drop_last())
    } else {
        latin1_name(name.drop_last()).push(name.last() as char)
    }
}

/// The name of an on-disk entry as the tree shows it.
fn entry_name(e: &DirEntry) -> (r: String)
    ensures
        r@ == latin1_name(e.name@),
{
    let mut s = String::new();
    let mut k: usize = 0;
    assert(e.name@.take(0) =~= Seq::<u8>::empty());
    while k < 60
        invariant
            k <= 60,
            e.name@.len() == 60,
            s@ == latin1_name(e.name@.take(k as int)),
        decreases 60 - k,
    {
        let c = e.name[k];
        assert(e.name@.take(k + 1).drop_last() =~= e.name@.take(k as int));
        if c != 0 {
            push_char(&mut s, c as char);
        }
        k += 1;
    }
    assert(e.name@.take(60) =~= e.name@);
    s
}

/// Whether `s` is the one-character name `c`, or the two-character name
/// `c c`.
fn is_dots(s: &String, n: usize) -> (r: bool)
    requires
        n == 1 || n == 2,
    ensures
        r == (s@ == Seq::new(n as nat, |i: int| '.')),
{
    let t = s.as_str();
    if t.unicode_len() != n {
        assert(t@.len() != n);
        assert(Seq::new(n as nat, |i: int| '.').len() == n);
        return false;
    }
    let mut k: usize = 0;
    while k < n
        invariant
            k <= n,
            t@.len() == n,
            t@ == s@,
            forall|i: int| 0 <= i < k ==> t@[i] == '.',
        decreases n - k,
    {
        if t.get_char(k) != '.' {
            assert(Seq::new(n as nat, |i: int| '.')[k as int] == '.');
            return false;
        }
        k += 1;
    }
    assert(t@ =~= Seq::new(n as nat, |i: int| '.'));
    true
}

/// The bytes `image[start..start + len]`, or the error of a read past the
/// end of the image.
fn read_exact(image: &Vec<u8>, start: u64, len: u64) -> (r: Result<Vec<u8>, FsError>)
    ensures
        start + len <= image@.len() ==> (r matches Ok(v) && v@ == image@.subrange(start as int, start + len)),
        start + len > image@.len() ==> r == Err::<Vec<u8>, FsError>(FsError::UnexpectedEof),
{
    let n = image.len() as u64;
    if start > n || len > n - start {
        return Err(FsError::UnexpectedEof);
    }
    Ok(copy_range(image.as_slice(), start as usize, (start + len) as usize))
}

/// Whether the inode `i` is a directory.
pub open spec fn is_dir_inode(i: Inode) -> bool {
    i.mode & S_IFMT == S_IFDIR
}

/// Whether the inode `i` is a symbolic link.
pub open spec fn is_symlink_inode(i: Inode) -> bool {
    i.mode & S_IFMT == S_IFLNK
}

/// Whether the tree entry `it`, read from a directory whose parent is
/// `parent`, agrees with the inode table `inodes`: a `..` entry is a
/// directory entry for `parent`, other entries have an inode other than 0,
/// and those but `.` name
/// an inode of the table, a directory entry a directory, a link entry a
/// link and a file entry neither.
pub open spec fn entry_fits(it: Item, inodes: Seq<Inode>, parent: u64) -> bool {
    let n = it.spec_inode();
    let dot = seq!['.'];
    let dotdot = seq!['.', '.'];
    &&& it.spec_name() != dotdot ==> n != 0
    &&& it.spec_name() == dotdot ==> (it is Directory && n == parent)
    &&& (it.spec_name() != dot && it.spec_name() != dotdot) ==> {
        &&& n <= inodes.len()
        &&& match it {
            Item::Directory(_, _) => is_dir_inode(inodes[n - 1]),
            Item::Symlink(_, _) => !is_dir_inode(inodes[n - 1]) && is_symlink_inode(inodes[n - 1]),
            Item::File(_) => !is_dir_inode(inodes[n - 1]) && !is_symlink_inode(inodes[n - 1]),
        }
    }
}

/// The tree of directory inode `inode_num`: an entry for each used entry
/// of its direct zones, the subdirectories built in turn (their `..`
/// pointing at `parent`), symbolic links with their targets read from the
/// image. `fuel` bounds the depth; running out of it means a directory lies
/// below itself.
fn build_tree(image: &Vec<u8>, inodes: &Vec<Inode>, inode_num: u64, block_size: u64, parent: u64, fuel: u64) -> (r: Result<Tree, FsError>)
    requires
        inode_num >= 1,
        block_size <= 0xFFFF,
    ensures
        r matches Err(e) ==> load_error(e),
        fuel == 0 ==> r == Err::<Tree, FsError>(FsError::DirectoryLoop),
        fuel > 0 && inode_num > inodes@.len() ==> r == Err::<Tree, FsError>(FsError::InvalidInode { inode: inode_num }),
        fuel > 0 && inode_num <= inodes@.len() && !is_dir_inode(inodes@[inode_num - 1]) ==> r == Err::<Tree, FsError>(
            FsError::NotADirectoryInode { inode: inode_num },
        ),
        (fuel > 0 && inode_num <= inodes@.len() && is_dir_inode(inodes@[inode_num - 1]) && forall|s: int|
            0 <= s < 7 ==> #[trigger] inodes@[inode_num - 1].zones@[s] == 0) ==> (r matches Ok(t) && t@.len() == 0),
        r matches Ok(t) ==> forall|k: int| 0 <= k < t@.len() ==> #[trigger] entry_fits(t@[k], inodes@, parent),
    decreases fuel,
{
    if fuel == 0 {
        return Err(FsError::DirectoryLoop);
    }
    if inode_num - 1 >= inodes.len() as u64 {
        return Err(FsError::InvalidInode { inode: inode_num });
    }
    let ino = inodes[(inode_num - 1) as usize];
    if !ino.is_dir() {
        return Err(FsError::NotADirectoryInode { inode: inode_num });
    }
    let mut tree: Tree = Vec::new();
    let mut i: usize = 0;
    while i < 7
        invariant
            i <= 7,
            ino.zones@.len() == 10,
            inode_num >= 1,
            fuel > 0,
            block_size <= 0xFFFF,
            inode_num <= inodes@.len(),
            ino == inodes@[inode_num - 1],
            is_dir_inode(ino),
            (forall|s: int| 0 <= s < i ==> #[trigger] ino.zones@[s] == 0) ==> tree@.len() == 0,
            forall|k: int| 0 <= k < tree@.len() ==> #[trigger] entry_fits(tree@[k], inodes@, parent),
        decreases 7 - i,
    {
        let b = ino.zones[i] as u64;
        if b != 0 {
            assert(b * block_size <= 0xFFFF_FFFF * 0xFFFF) by (nonlinear_arith)
                requires
                    b <= 0xFFFF_FFFF,
                    block_size <= 0xFFFF,
            ;
            let block = read_exact(image, b * block_size, block_size)?;
            let count = block.len() / 64;
            let mut j: usize = 0;
            while j < count
                invariant
                    block@.len() == block_size,
                    block_size <= 0xFFFF,
                    count == block@.len() / 64,
                    j <= count,
                    inode_num >= 1,
                    fuel > 0,
                    inode_num <= inodes@.len(),
                    ino == inodes@[inode_num - 1],
                    is_dir_inode(ino),
                    i < 7,
                    ino.zones@.len() == 10,
                    ino.zones@[i as int] != 0,
                    forall|k: int| 0 <= k < tree@.len() ==> #[trigger] entry_fits(tree@[k], inodes@, parent),
                decreases count - j,
            {
                assert(64 * j + 64 <= block@.len()) by (nonlinear_arith)
                    requires
                        j < count,
                        count == block@.len() / 64,
                ;
                let e = DirEntry::from_bytes(block.as_slice(), 64 * j);
                let n = e.inode as u64;
                if n != 0 {
                    let name = entry_name(&e);
                    proof {
                        assert(Seq::new(1, |i: int| '.') =~= seq!['.']);
                        assert(Seq::new(2, |i: int| '.') =~= seq!['.', '.']);
                    }
                    if is_dots(&name, 1) {
                        tree.push(Item::new_dir(name, n, Vec::new()));
                    } else if is_dots(&name, 2) {
                        tree.push(Item::new_dir(name, parent, Vec::new()));
                    } else {
                        if n - 1 >= inodes.len() as u64 {
                            return Err(FsError::InvalidInode { inode: n });
                        }
                        let next = inodes[(n - 1) as usize];
                        if next.is_dir() {
                            let sub = build_tree(image, inodes, n, block_size, inode_num, fuel - 1)?;
                            tree.push(Item::new_dir(name, n, sub));
                        } else if next.is_symlink() {
                            let bn = next.zones[0] as u64;
                            let sym_size = if (next.size as u64) < MAX_SYMLINK_SIZE as u64 { next.size as u64 } else { MAX_SYMLINK_SIZE as u64 };
                            assert(bn * block_size <= 0xFFFF_FFFF * 0xFFFF) by (nonlinear_arith)
                                requires
                                    bn <= 0xFFFF_FFFF,
                                    block_size <= 0xFFFF,
                            ;
                            let raw = read_exact(image, bn * block_size, sym_size)?;
                            let mut kept: Vec<u8> = Vec::new();
                            let mut m: usize = 0;
                            while m < raw.len()
                                invariant
                                    m <= raw@.len(),
                                    1 <= n <= inodes@.len(),
                                    next == inodes@[n - 1],
                                    !is_dir_inode(next) && is_symlink_inode(next),
                                    name@ != seq!['.'] && name@ != seq!['.', '.'],
                                    forall|k: int| 0 <= k < tree@.len() ==> #[trigger] entry_fits(tree@[k], inodes@, parent),
                                decreases raw@.len() - m,
                            {
                                if raw[m] != 0 {
                                    kept.push(raw[m]);
                                }
                                m += 1;
                            }
                            tree.push(Item::new_symlink(name, n, utf8_lossy(kept.as_slice())));
                        } else {
                            tree.push(Item::new_file(name, n));
                        }
                    }
                }
                j += 1;
            }
        }
        i += 1;
    }
    Ok(tree)
}

impl MinixFileSystem {
    /// Open the Minix 3 file system of an image: read its superblock (which
    /// must carry the Minix magic), its inode and zone bitmaps, its inode
    /// table and its directory tree.
    pub fn new(image: Vec<u8>) -> (r: Result<Self, FsError>)
        ensures
            match r {
                Ok(fs) => {
                    &&& fs.wf()
                    &&& fs.image@ == image@
                    &&& fs.bcache.view() == Map::<u64, (bool, Seq<u8>)>::empty()
                    &&& fs.superblock@ == spec_superblock_at(image@, 1024)
                    &&& fs.superblock.magic == crate::minix::consts::MINIX_MAGIC
                    &&& forall|i: int| 0 <= i < fs.inodes@.len() ==> #[trigger] fs.inodes@[i] == spec_inode_at(
                        image@,
                        (2 + fs.superblock.imap_blocks) * fs.superblock.block_size + (fs.superblock.num_zones + 7) / 8 + 64 * i,
                    )
                },
                Err(e) => e == FsError::ImageTooShort || e == FsError::InvalidSuperblock || load_error(e),
            },
    {
        let superblock = Superblock::from_stream(image.as_slice())?;
        if !superblock.is_valid() {
            return Err(FsError::InvalidSuperblock);
        }
        let bs = superblock.block_size as u64;
        let ni = (superblock.num_inodes as u64 + 7) / 8;
        let nz0 = (superblock.num_zones as u64 + 7) / 8;
        if ni > (usize::MAX / 8) as u64 || nz0 > (usize::MAX / 8) as u64 {
            return Err(FsError::InvalidSuperblock);
        }
        let imap_bytes = read_exact(&image, 2 * bs, ni)?;
        let nz = (superblock.num_zones as u64 + 7) / 8;
        assert((2 + superblock.imap_blocks as u64) * bs <= 0x10001 * 0xFFFF) by (nonlinear_arith)
            requires
                superblock.imap_blocks <= 0xFFFF,
                bs <= 0xFFFF,
        ;
        let zstart = (2 + superblock.imap_blocks as u64) * bs;
        let zmap_bytes = read_exact(&image, zstart, nz)?;
        let istart = zstart + nz;
        let count = superblock.num_inodes as u64;
        let table = read_exact(&image, istart, count * INODE_BYTES)?;
        let mut inodes: Vec<Inode> = Vec::new();
        let mut k: u64 = 0;
        while k < count
            invariant
                k <= count,
                count <= 0xFFFF_FFFF,
                istart + count * 64 <= image@.len(),
                table@.len() == count * 64,
                table.len() == count * 64,
                table@ == image@.subrange(istart as int, istart + count * 64),
                inodes@.len() == k,
                forall|i: int| 0 <= i < k ==> #[trigger] inodes@[i] == spec_inode_at(image@, istart + 64 * i),
            decreases count - k,
        {
            assert(64 * k + 64 <= 64 * count) by (nonlinear_arith)
                requires
                    k < count,
            ;
            let ino = Inode::from_bytes(table.as_slice(), (64 * k) as usize);
            proof {
                assert forall|i: int| 64 * k <= i < 64 * k + 64 implies #[trigger] table@[i] == image@[i - 64 * k + (istart + 64 * k)] by {
                    assert(table@[i] == image@.subrange(istart as int, istart + count * 64)[i]);
                }
                lemma_inode_at_eq(table@, 64 * k, image@, istart + 64 * k);
            }
            inodes.push(ino);
            k += 1;
        }
        let tree = build_tree(&image, &inodes, ROOT_INODE, bs, ROOT_INODE, count + 1)?;
        let imap = Bitmap::take(imap_bytes, superblock.num_inodes as usize);
        let zmap = Bitmap::take(zmap_bytes, superblock.num_zones as usize);
        Ok(MinixFileSystem { superblock, imap, zmap, inodes, tree, image, bcache: BlockCache::default() })
    }
}

} // verus!
