//! An exFAT volume read from its image: the boot sector, the FAT and the
//! allocation bitmap, with the block cache that writes go through.
use crate::bitmap::Bitmap;
use crate::bytes::{copy_range, le_u16, le_u32, le_u64, read_u32};
use crate::cache::{BlockCache, Tree};
use crate::error::FsError;
use crate::exfat::consts::{BOOT_SIGNATURE, EXFAT_EOC_MIN, TYPE_ALLOC_BITMAP};
use crate::exfat::entry::AllocBitmapEntry;
use crate::exfat::mbs::{decodes, shl1, spec_cluster_offset, spec_oem_name, MainBootSector};
use vstd::prelude::*;

verus! {

/// An exFAT volume. The image is held in memory; writes stay in the cache.
pub struct ExfatFileSystem {
    /// The main boot sector.
    pub mbs: MainBootSector,
    /// The file allocation table.
    pub fat: Vec<u32>,
    /// The allocation bitmap.
    pub bitmap: Bitmap,
    /// The directory tree (exFAT directories are not read into it).
    pub tree: Tree,
    /// The image.
    pub image: Vec<u8>,
    /// Clusters read and written.
    pub bcache: BlockCache,
}

/// The boot sector's sizes fit in 64 bits: the shifts are below 64 and a
/// cluster's byte count does not overflow.
pub open spec fn geometry_ok(m: MainBootSector) -> bool {
    &&& m.bytes_per_sector_shift < 64
    &&& m.sectors_per_cluster_shift < 64
    &&& shl1(m.bytes_per_sector_shift) * shl1(m.sectors_per_cluster_shift) <= u64::MAX
}

/// The bytes of a cluster.
pub open spec fn cluster_bytes(m: MainBootSector) -> int {
    shl1(m.bytes_per_sector_shift) * shl1(m.sectors_per_cluster_shift)
}

/// The `n` little-endian `u32` values stored from `bs[off]` on.
pub open spec fn u32s_at(bs: Seq<u8>, off: int, n: int) -> Seq<u32> {
    Seq::new(n as nat, |k: int| le_u32(bs, off + 4 * k))
}

/// Cluster `c` of the image, if the image holds it whole.
pub open spec fn read_cluster(image: Seq<u8>, m: MainBootSector, c: u32) -> Option<Seq<u8>> {
    let off = spec_cluster_offset(m, c);
    if off + cluster_bytes(m) <= image.len() {
        Some(image.subrange(off, off + cluster_bytes(m)))
    } else {
        None
    }
}

/// The index of the first 32-byte entry at or after entry `k` of a
/// directory cluster whose type is the allocation bitmap's.
pub open spec fn bitmap_entry_from(cl: Seq<u8>, k: int) -> Option<int>
    decreases cl.len() / 32 - k,
{
    if k < 0 || k >= cl.len() / 32 {
        None
    } else if cl[32 * k] == TYPE_ALLOC_BITMAP {
        Some(k)
    } else {
        bitmap_entry_from(cl, k + 1)
    }
}

/// The allocation bitmap entry found by walking the root directory's
/// clusters from `c`, with `fuel` steps left before the walk counts as a
/// loop.
pub open spec fn find_bitmap_entry(image: Seq<u8>, m: MainBootSector, fat: Seq<u32>, c: u32, fuel: nat) -> Result<
    Seq<u8>,
    FsError,
>
    decreases fuel,
{
    if c >= EXFAT_EOC_MIN {
        Err(FsError::NoBitmap)
    } else if fuel == 0 {
        Err(FsError::ClusterChainLoop)
    } else {
        match read_cluster(image, m, c) {
            None => Err(FsError::UnexpectedEof),
            Some(cl) => match bitmap_entry_from(cl, 0) {
                Some(k) => Ok(cl.subrange(32 * k, 32 * k + 32)),
                None => if c >= fat.len() {
                    Err(FsError::ClusterOutOfRange { cluster: c })
                } else {
                    find_bitmap_entry(image, m, fat, fat[c as int], (fuel - 1) as nat)
                },
            },
        }
    }
}

/// The bytes of the clusters of the chain from `c`, with `fuel` steps left
/// before the chain counts as a loop.
pub open spec fn chain_bytes(image: Seq<u8>, m: MainBootSector, fat: Seq<u32>, c: u32, fuel: nat) -> Result<
    Seq<u8>,
    FsError,
>
    decreases fuel,
{
    if c >= EXFAT_EOC_MIN {
        Ok(Seq::empty())
    } else if fuel == 0 {
        Err(FsError::ClusterChainLoop)
    } else {
        match read_cluster(image, m, c) {
            None => Err(FsError::UnexpectedEof),
            Some(cl) => if c >= fat.len() {
                Err(FsError::ClusterOutOfRange { cluster: c })
            } else {
                match chain_bytes(image, m, fat, fat[c as int], (fuel - 1) as nat) {
                    Ok(rest) => Ok(cl + rest),
                    Err(e) => Err(e),
                }
            },
        }
    }
}

/// The byte offset of cluster `c`, if it fits in 64 bits.
fn checked_cluster_offset(m: &MainBootSector, c: u32) -> (r: Option<u64>)
    requires
        geometry_ok(*m),
    ensures
        match r {
            Some(o) => o == spec_cluster_offset(*m, c),
            None => spec_cluster_offset(*m, c) > u64::MAX,
        },
{
    let s1 = m.bytes_per_sector_shift;
    let s2 = m.sectors_per_cluster_shift;
    let bps = 1u64 << s1;
    let spc = 1u64 << s2;
    assert(bps >= 1 && spc >= 1) by (bit_vector)
        requires
            s1 < 64,
            s2 < 64,
            bps == 1u64 << s1,
            spc == 1u64 << s2,
    ;
    let k: u64 = if c >= 2 {
        (c - 2) as u64
    } else {
        0
    };
    let heap = match (m.cluster_heap_offset as u64).checked_mul(bps) {
        Some(x) => x,
        None => {
            proof {
                assert(0 <= k * spc * bps) by (nonlinear_arith)
                    requires
                        k >= 0,
                        spc >= 0,
                        bps >= 0,
                ;
            }
            return None;
        },
    };
    let ks = match k.checked_mul(spc) {
        Some(x) => x,
        None => {
            proof {
                assert(k * spc <= k * spc * bps) by (nonlinear_arith)
                    requires
                        bps >= 1,
                        k >= 0,
                        spc >= 0,
                ;
            }
            return None;
        },
    };
    let kb = match ks.checked_mul(bps) {
        Some(x) => x,
        None => {
            return None;
        },
    };
    heap.checked_add(kb)
}

impl ExfatFileSystem {
    /// The volume held by `image`: its boot sector, its FAT, and the
    /// allocation bitmap found through the entry in the root directory.
    pub fn new(image: Vec<u8>) -> (r: Result<Self, FsError>)
        ensures
            image@.len() < 512 ==> r == Err::<Self, FsError>(FsError::UnexpectedEof),
            r matches Ok(fs) ==> {
                &&& decodes(fs.mbs, image@.subrange(0, 512))
                &&& geometry_ok(fs.mbs)
                &&& fs.image@ == image@
                &&& fs.tree@.len() == 0
                &&& fs.bcache.view().len() == 0
                &&& {
                    let fo = fs.mbs.fat_offset * shl1(fs.mbs.bytes_per_sector_shift);
                    let fl = fs.mbs.fat_length * shl1(fs.mbs.bytes_per_sector_shift);
                    &&& fo + fl <= image@.len()
                    &&& fs.fat@ == u32s_at(image@, fo, fl / 4)
                }
                &&& find_bitmap_entry(image@, fs.mbs, fs.fat@, fs.mbs.root_directory_cluster, (fs.fat@.len() + 1) as nat)
                    matches Ok(entry) && {
                    &&& chain_bytes(image@, fs.mbs, fs.fat@, le_u32(entry, 20), (fs.fat@.len() + 1) as nat)
                        == Ok::<Seq<u8>, FsError>(fs.bitmap.map@)
                    &&& fs.bitmap.max == le_u64(entry, 24) as usize
                }
            },
    {
        if image.len() < 512 {
            return Err(FsError::UnexpectedEof);
        }
        let head = copy_range(image.as_slice(), 0, 512);
        let mbs = MainBootSector::from_bytes(head.as_slice());
        if mbs.bytes_per_sector_shift >= 64 || mbs.sectors_per_cluster_shift >= 64 {
            return Err(FsError::InvalidGeometry);
        }
        let bps = 1u64 << mbs.bytes_per_sector_shift;
        let spc = 1u64 << mbs.sectors_per_cluster_shift;
        let cs = match bps.checked_mul(spc) {
            Some(x) => x,
            None => {
                return Err(FsError::InvalidGeometry);
            },
        };
        // The FAT.
        let fat_off = match (mbs.fat_offset as u64).checked_mul(bps) {
            Some(x) => x,
            None => {
                return Err(FsError::InvalidGeometry);
            },
        };
        let fat_len = match (mbs.fat_length as u64).checked_mul(bps) {
            Some(x) => x,
            None => {
                return Err(FsError::InvalidGeometry);
            },
        };
        let ilen_us: usize = image.len();
        let ilen = ilen_us as u64;
        if fat_off > ilen || fat_len > ilen - fat_off {
            return Err(FsError::UnexpectedEof);
        }
        let n = fat_len / 4;
        let mut fat: Vec<u32> = Vec::new();
        let mut k: u64 = 0;
        while k < n
            invariant
                k <= n,
                n == fat_len / 4,
                ilen == image@.len(),
                ilen_us == image@.len(),
                image@.len() >= 512,
                fat_off + fat_len <= image@.len(),
                fat@ == u32s_at(image@, fat_off as int, k as int),
            decreases n - k,
        {
            assert(4 * k + 4 <= fat_len);
            let pos = (fat_off + 4 * k) as usize;
            assert(pos == fat_off + 4 * k);
            let e = read_u32(image.as_slice(), pos);
            let ghost before = fat@;
            fat.push(e);
            assert(fat@[k as int] == le_u32(image@, fat_off + 4 * k));
            k += 1;
            assert(fat@ =~= u32s_at(image@, fat_off as int, k as int));
        }
        // The allocation bitmap entry, in the root directory's chain.
        let fuel0 = fat.len() + 1;
        let mut current = mbs.root_directory_cluster;
        let mut fuel = fuel0;
        let entry: AllocBitmapEntry;
        let ghost eview: Seq<u8>;
        loop
            invariant
                geometry_ok(mbs),
                cs == cluster_bytes(mbs),
                fuel <= fuel0,
                fuel0 == fat@.len() + 1,
                ilen == image@.len(),
                ilen_us == image@.len(),
                image@.len() >= 512,
                find_bitmap_entry(image@, mbs, fat@, mbs.root_directory_cluster, fuel0 as nat)
                    == find_bitmap_entry(image@, mbs, fat@, current, fuel as nat),
            ensures
                find_bitmap_entry(image@, mbs, fat@, mbs.root_directory_cluster, fuel0 as nat) == Ok::<
                    Seq<u8>,
                    FsError,
                >(eview),
                eview.len() == 32,
                entry.first_cluster == le_u32(eview, 20),
                entry.data_length == le_u64(eview, 24),
            decreases fuel,
        {
            if current >= EXFAT_EOC_MIN {
                return Err(FsError::NoBitmap);
            }
            if fuel == 0 {
                return Err(FsError::ClusterChainLoop);
            }
            let off = match checked_cluster_offset(&mbs, current) {
                Some(o) => o,
                None => {
                    return Err(FsError::UnexpectedEof);
                },
            };
            if off > ilen || cs > ilen - off {
                return Err(FsError::UnexpectedEof);
            }
            let start = off as usize;
            let end = (off + cs) as usize;
            assert(start == off && end == off + cs);
            let cl = copy_range(image.as_slice(), start, end);
            let ghost clv = cl@;
            assert(read_cluster(image@, mbs, current) == Some(clv));
            let count = cl.len() / 32;
            let mut j: usize = 0;
            let mut found: Option<usize> = None;
            while j < count
                invariant_except_break
                    found is None,
                invariant
                    count == clv.len() / 32,
                    cl@ == clv,
                    j <= count,
                    bitmap_entry_from(clv, 0) == bitmap_entry_from(clv, j as int),
                ensures
                    match found {
                        Some(i) => i < count && bitmap_entry_from(clv, 0) == Some(i as int),
                        None => bitmap_entry_from(clv, 0) is None,
                    },
                decreases count - j,
            {
                if cl[32 * j] == TYPE_ALLOC_BITMAP {
                    found = Some(j);
                    break;
                }
                j += 1;
            }
            match found {
                Some(j) => {
                    let bytes = copy_range(cl.as_slice(), 32 * j, 32 * j + 32);
                    entry = AllocBitmapEntry::from_bytes(bytes.as_slice());
                    proof {
                        eview = bytes@;
                    }
                    break;
                },
                None => {
                    if current as usize >= fat.len() {
                        return Err(FsError::ClusterOutOfRange { cluster: current });
                    }
                    current = fat[current as usize];
                    fuel = fuel - 1;
                },
            }
        }
        let map_size = entry.get_data_length() as usize;
        // The bitmap's clusters.
        let mut map: Vec<u8> = Vec::new();
        let mut current = entry.get_first_cluster();
        let mut fuel = fuel0;
        while current < EXFAT_EOC_MIN
            invariant
                geometry_ok(mbs),
                cs == cluster_bytes(mbs),
                fuel <= fuel0,
                fuel0 == fat@.len() + 1,
                ilen == image@.len(),
                ilen_us == image@.len(),
                image@.len() >= 512,
                chain_bytes(image@, mbs, fat@, le_u32(eview, 20), fuel0 as nat) matches Ok(all) ==> (
                chain_bytes(image@, mbs, fat@, current, fuel as nat) matches Ok(rest) && all == map@ + rest),
                chain_bytes(image@, mbs, fat@, le_u32(eview, 20), fuel0 as nat) matches Err(e) ==> chain_bytes(
                    image@,
                    mbs,
                    fat@,
                    current,
                    fuel as nat,
                ) == Err::<Seq<u8>, FsError>(e),
            decreases fuel,
        {
            if fuel == 0 {
                return Err(FsError::ClusterChainLoop);
            }
            let off = match checked_cluster_offset(&mbs, current) {
                Some(o) => o,
                None => {
                    return Err(FsError::UnexpectedEof);
                },
            };
            if off > ilen || cs > ilen - off {
                return Err(FsError::UnexpectedEof);
            }
            let start = off as usize;
            let end = (off + cs) as usize;
            assert(start == off && end == off + cs);
            let cl = copy_range(image.as_slice(), start, end);
            assert(read_cluster(image@, mbs, current) == Some(cl@));
            if current as usize >= fat.len() {
                return Err(FsError::ClusterOutOfRange { cluster: current });
            }
            let ghost before = map@;
            let mut j: usize = 0;
            while j < cl.len()
                invariant
                    j <= cl@.len(),
                    map@ == before + cl@.subrange(0, j as int),
                decreases cl@.len() - j,
            {
                map.push(cl[j]);
                j += 1;
                assert(map@ =~= before + cl@.subrange(0, j as int));
            }
            assert(cl@.subrange(0, cl@.len() as int) =~= cl@);
            current = fat[current as usize];
            fuel = fuel - 1;
            proof {
                assert(map@ =~= before + cl@);
            }
        }
        let bitmap = Bitmap::take(map, map_size);
        Ok(ExfatFileSystem { mbs, fat, bitmap, tree: Vec::new(), image, bcache: BlockCache::default() })
    }
}

/// The smaller of two integers.
pub open spec fn min_int(a: int, b: int) -> int {
    if a < b {
        a
    } else {
        b
    }
}

impl ExfatFileSystem {
    /// The bytes that `read_block(c, data)` leaves in `data`, or its error:
    /// at most a cluster, from the cache if it holds the cluster, else from
    /// the image.
    pub open spec fn read_block_data(&self, c: u64, data: Seq<u8>) -> Result<Seq<u8>, FsError> {
        let size = min_int(data.len() as int, cluster_bytes(self.mbs));
        let off = spec_cluster_offset(self.mbs, c as u32);
        if self.bcache.view().contains_key(c) {
            let src = self.bcache.view()[c].1;
            let n = min_int(src.len() as int, size);
            Ok(src.subrange(0, n) + data.subrange(n, data.len() as int))
        } else if off + size > self.image@.len() {
            Err(FsError::UnexpectedEof)
        } else {
            Ok(self.image@.subrange(off, off + size) + data.subrange(size, data.len() as int))
        }
    }

    /// The name of the file system type.
    pub fn name(&self) -> (r: &'static str)
        ensures
            r@ == "exFAT"@,
    {
        "exFAT"
    }

    /// Read cluster `cluster_num` into the front of `data` (at most a
    /// cluster): from the cache if it holds the cluster, else from the
    /// image, caching the bytes read when the cache has room.
    pub fn read_block(&mut self, cluster_num: u64, data: &mut [u8]) -> (r: Result<(), FsError>)
        requires
            geometry_ok(old(self).mbs),
            cluster_bytes(old(self).mbs) <= usize::MAX,
            spec_cluster_offset(old(self).mbs, cluster_num as u32) <= u64::MAX,
        ensures
            match old(self).read_block_data(cluster_num, old(data)@) {
                Ok(d) => r is Ok && final(data)@ == d,
                Err(e) => r == Err::<(), FsError>(e) && final(data)@ == old(data)@,
            },
            final(self).mbs == old(self).mbs,
            final(self).fat@ == old(self).fat@,
            final(self).image@ == old(self).image@,
            final(self).bitmap.map@ == old(self).bitmap.map@,
            final(self).bitmap.max == old(self).bitmap.max,
            !old(self).bcache.view().contains_key(cluster_num) && r is Ok && old(self).bcache.view().len()
                < crate::cache::CACHE_LINES ==> final(self).bcache.view() == old(self).bcache.view().insert(
                cluster_num,
                (
                    false,
                    old(self).image@.subrange(
                        spec_cluster_offset(old(self).mbs, cluster_num as u32),
                        spec_cluster_offset(old(self).mbs, cluster_num as u32) + min_int(
                            old(data)@.len() as int,
                            cluster_bytes(old(self).mbs),
                        ),
                    ),
                ),
            ),
    {
        let bps = 1u64 << self.mbs.bytes_per_sector_shift;
        let spc = 1u64 << self.mbs.sectors_per_cluster_shift;
        let cs = (bps * spc) as usize;
        let size = if data.len() < cs { data.len() } else { cs };
        let byte_offset = self.mbs.cluster_byte_offset(cluster_num as u32);
        if let Some(source) = self.bcache.get(cluster_num) {
            let n = if source.data.len() < size { source.data.len() } else { size };
            let mut k: usize = 0;
            while k < n
                invariant
                    n <= source.data@.len(),
                    n <= data@.len(),
                    data@.len() == old(data)@.len(),
                    k <= n,
                    forall|m: int| 0 <= m < k ==> data@[m] == source.data@[m],
                    forall|m: int| k <= m < data@.len() ==> data@[m] == old(data)@[m],
                decreases n - k,
            {
                data[k] = source.data[k];
                k += 1;
            }
            assert(data@ =~= source.data@.subrange(0, n as int) + old(data)@.subrange(n as int, old(data)@.len() as int));
            return Ok(());
        }
        let ilen = self.image.len();
        if byte_offset > ilen as u64 || (ilen as u64) - byte_offset < size as u64 {
            return Err(FsError::UnexpectedEof);
        }
        let start = byte_offset as usize;
        let cluster = copy_range(self.image.as_slice(), start, start + size);
        let mut k: usize = 0;
        while k < size
            invariant
                size <= data@.len(),
                cluster@.len() == size,
                data@.len() == old(data)@.len(),
                k <= size,
                forall|m: int| 0 <= m < k ==> data@[m] == cluster@[m],
                forall|m: int| k <= m < data@.len() ==> data@[m] == old(data)@[m],
            decreases size - k,
        {
            data[k] = cluster[k];
            k += 1;
        }
        assert(data@ =~= cluster@ + old(data)@.subrange(size as int, old(data)@.len() as int));
        self.bcache.insert_read(cluster_num, cluster);
        Ok(())
    }

    /// Write the front of `data` (at most a cluster) to cluster
    /// `cluster_num`, in the cache.
    pub fn write_block(&mut self, cluster_num: u64, data: &[u8]) -> (r: Result<(), FsError>)
        requires
            geometry_ok(old(self).mbs),
            cluster_bytes(old(self).mbs) <= usize::MAX,
        ensures
            r is Ok,
            final(self).bcache.view() == old(self).bcache.view().insert(
                cluster_num,
                (true, data@.subrange(0, min_int(data@.len() as int, cluster_bytes(old(self).mbs)))),
            ),
            final(self).mbs == old(self).mbs,
            final(self).fat@ == old(self).fat@,
            final(self).image@ == old(self).image@,
    {
        let bps = 1u64 << self.mbs.bytes_per_sector_shift;
        let spc = 1u64 << self.mbs.sectors_per_cluster_shift;
        let cs = (bps * spc) as usize;
        let size = if data.len() < cs { data.len() } else { cs };
        let v = copy_range(data, 0, size);
        if !self.bcache.insert_write(cluster_num, v) {
            return Err(FsError::CacheInsertFailed);
        }
        Ok(())
    }

    /// exFAT has no hard links.
    pub fn link(&mut self, parent_inode: u64, abs_path: &String) -> (r: Result<u64, FsError>)
        ensures
            r == Err::<u64, FsError>(FsError::HardLinksNotSupported),
    {
        Err(FsError::HardLinksNotSupported)
    }

    /// exFAT has no symbolic links.
    pub fn read_symlink(&mut self, inode: u64) -> (r: Result<String, FsError>)
        ensures
            r == Err::<String, FsError>(FsError::SymlinksNotSupported),
    {
        Err(FsError::SymlinksNotSupported)
    }

    /// exFAT has no symbolic links.
    pub fn write_symlink(&mut self, inode: u64, target: &String) -> (r: Result<u64, FsError>)
        ensures
            r == Err::<u64, FsError>(FsError::SymlinksNotSupported),
    {
        Err(FsError::SymlinksNotSupported)
    }
}

/// Whether an image holds an exFAT volume: its first sector names
/// "EXFAT   " and ends with the boot signature. An image shorter than a
/// sector gives `UnexpectedEof`.
pub fn check_valid(image: &[u8]) -> (r: Result<bool, FsError>)
    ensures
        image@.len() < 512 ==> r == Err::<bool, FsError>(FsError::UnexpectedEof),
        image@.len() >= 512 ==> r == Ok::<bool, FsError>(
            image@.subrange(3, 11) == spec_oem_name() && le_u16(image@, 510) == BOOT_SIGNATURE,
        ),
{
    if image.len() < 512 {
        return Err(FsError::UnexpectedEof);
    }
    let head = copy_range(image, 0, 512);
    let mbs = MainBootSector::from_bytes(head.as_slice());
    proof {
        assert(head@.subrange(3, 11) =~= image@.subrange(3, 11));
        assert(le_u16(head@, 510) == le_u16(image@, 510));
    }
    Ok(mbs.is_valid())
}

/// A cluster read gives back what a cluster write wrote: once
/// `write_block(c, data)` has put a whole cluster into the cache,
/// `read_block(c, ..)` into a cluster-sized buffer returns `data`.
pub proof fn law_cluster_write_then_read(
    fs: ExfatFileSystem,
    after: ExfatFileSystem,
    c: u64,
    data: Seq<u8>,
    buf: Seq<u8>,
)
    requires
        after.mbs == fs.mbs,
        after.bcache.view() == fs.bcache.view().insert(
            c,
            (true, data.subrange(0, min_int(data.len() as int, cluster_bytes(fs.mbs)))),
        ),
        data.len() == cluster_bytes(fs.mbs),
        buf.len() == cluster_bytes(fs.mbs),
    ensures
        after.read_block_data(c, buf) == Ok::<Seq<u8>, FsError>(data),
{
    assert(data.subrange(0, data.len() as int) =~= data);
    assert(buf.subrange(data.len() as int, buf.len() as int) =~= Seq::<u8>::empty());
    assert(data.subrange(0, data.len() as int) + buf.subrange(data.len() as int, buf.len() as int) =~= data);
}

} // verus!
