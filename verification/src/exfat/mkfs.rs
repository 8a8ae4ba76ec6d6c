//! Laying out a new exFAT volume: the boot regions, the FAT, the allocation
//! bitmap, the upcase table and the root directory.
use crate::align_up;
use crate::bytes::{push_u16, push_u32, push_u64, push_zeros, u16_bytes, u32_bytes, u64_bytes};
use crate::exfat::mbs::{
    default_boot_code, mbs_bytes, shl1, spec_cluster_offset, spec_oem_name, MainBootSector,
};
use crate::error::FsError;
use crate::fs::{writes_view, ImageWrite};
use crate::exfat::consts::{
    BOOT_SIGNATURE, EXFAT_EOC, EXFAT_FREE, EXFAT_MEDIA, EXTENDED_BOOT_SIGNATURE, FIRST_DATA_CLUSTER,
    MAIN_SECTOR_SHIFT, MINIMUM_IMAGE_SIZE, TYPE_ALLOC_BITMAP, TYPE_UPCASE_TABLE,
};
use vstd::arithmetic::div_mod::{
    lemma_div_is_ordered, lemma_div_is_ordered_by_denominator, lemma_fundamental_div_mod, lemma_mod_pos_bound,
};
use vstd::arithmetic::mul::lemma_mul_is_commutative;
use vstd::prelude::*;

verus! {

/// `c` rotated right by one bit.
pub open spec fn rotr1(c: u32) -> u32 {
    ((c >> 1u32) | (c << 31u32)) as u32
}

/// The boot region checksum over the first `n` bytes of `bs`: each byte but
/// those at 106, 107 (volume flags) and 112 (percent in use) is added to
/// the running sum rotated right by one bit.
pub open spec fn boot_checksum_upto(bs: Seq<u8>, n: int) -> u32
    decreases n,
{
    if n <= 0 {
        0
    } else {
        let c = boot_checksum_upto(bs, n - 1);
        if n - 1 == 106 || n - 1 == 107 || n - 1 == 112 {
            c
        } else {
            vstd::wrapping::u32_specs::wrapping_add(rotr1(c), bs[n - 1] as u32)
        }
    }
}

/// The boot region checksum of sectors 0 to 10.
pub fn boot_checksum(sectors_0_to_10: &[u8]) -> (r: u32)
    ensures
        r == boot_checksum_upto(sectors_0_to_10@, sectors_0_to_10@.len() as int),
{
    let mut csum: u32 = 0;
    let mut i: usize = 0;
    while i < sectors_0_to_10.len()
        invariant
            i <= sectors_0_to_10@.len(),
            csum == boot_checksum_upto(sectors_0_to_10@, i as int),
        decreases sectors_0_to_10@.len() - i,
    {
        if i != 106 && i != 107 && i != 112 {
            let rot = (csum >> 1) | (csum << 31);
            csum = rot.wrapping_add(sectors_0_to_10[i] as u32);
        }
        i += 1;
    }
    csum
}

/// The upper case of code unit `cp` in the tool's table: ASCII a-z,
/// Latin-1 à-ö and ø-þ, and Cyrillic а-я map 0x20 lower; every other code
/// unit maps to itself.
pub open spec fn spec_upcase(cp: int) -> u16 {
    if (0x61 <= cp <= 0x7A) || (0xE0 <= cp <= 0xF6) || (0xF8 <= cp <= 0xFE) || (0x430 <= cp <= 0x44F) {
        (cp - 0x20) as u16
    } else {
        cp as u16
    }
}

/// The first `n` code units of the upcase table, each a little-endian
/// `u16`.
pub open spec fn upcase_bytes(n: int) -> Seq<u8> {
    Seq::new((2 * n) as nat, |i: int| u16_bytes(spec_upcase(i / 2))[i % 2])
}

/// The upcase table: 65536 little-endian `u16` values, 131072 bytes.
pub open spec fn upcase_table() -> Seq<u8> {
    upcase_bytes(0x10000)
}

/// The upcase table of a new volume.
pub fn generate_upcase_table() -> (r: Vec<u8>)
    ensures
        r@ == upcase_table(),
{
    let mut out: Vec<u8> = Vec::new();
    let mut cp: u32 = 0;
    while cp <= 0xFFFF
        invariant
            cp <= 0x10000,
            out@ == upcase_bytes(cp as int),
        decreases 0x10000 - cp,
    {
        let up: u16 = if (0x61 <= cp && cp <= 0x7A) || (0xE0 <= cp && cp <= 0xF6) || (0xF8 <= cp && cp
            <= 0xFE) || (0x430 <= cp && cp <= 0x44F) {
            (cp - 0x20) as u16
        } else {
            cp as u16
        };
        assert(up == spec_upcase(cp as int));
        let ghost before = out@;
        push_u16(&mut out, up);
        proof {
            let next = upcase_bytes(cp + 1);
            assert forall|i: int| 0 <= i < 2 * cp + 2 implies out@[i] == next[i] by {
                if i < 2 * cp {
                    assert(out@[i] == before[i]);
                } else {
                    assert(i / 2 == cp);
                }
            }
            assert(out@ =~= next);
        }
        cp += 1;
    }
    out
}

/// One bit step of the CRC-32: shift left, and fold in the polynomial when
/// the top bit falls out.
pub open spec fn crc_shift(c: u32) -> u32 {
    if c & 0x8000_0000 != 0 {
        ((c << 1u32) ^ 0x04C1_1DB7u32) as u32
    } else {
        (c << 1u32) as u32
    }
}

/// `k` bit steps of the CRC-32.
pub open spec fn crc_bits(c: u32, k: nat) -> u32
    decreases k,
{
    if k == 0 {
        c
    } else {
        crc_shift(crc_bits(c, (k - 1) as nat))
    }
}

/// The CRC-32 register after the first `n` bytes of `data`.
pub open spec fn crc_upto(data: Seq<u8>, n: int) -> u32
    decreases n,
{
    if n <= 0 {
        0xFFFF_FFFF
    } else {
        crc_bits(crc_upto(data, n - 1) ^ (((data[n - 1] as u32) << 24u32) as u32), 8)
    }
}

/// The CRC-32 (MSB-first, polynomial 0x04C11DB7, initial value and final
/// inversion 0xFFFFFFFF) of `data`.
pub open spec fn spec_crc32(data: Seq<u8>) -> u32 {
    !crc_upto(data, data.len() as int)
}

/// The CRC-32 of `data`, as the upcase table entry records it.
pub fn crc32(data: &[u8]) -> (r: u32)
    ensures
        r == spec_crc32(data@),
{
    let mut crc: u32 = 0xFFFF_FFFF;
    let mut i: usize = 0;
    while i < data.len()
        invariant
            i <= data@.len(),
            crc == crc_upto(data@, i as int),
        decreases data@.len() - i,
    {
        crc ^= (data[i] as u32) << 24;
        let ghost start = crc;
        let mut k: usize = 0;
        while k < 8
            invariant
                k <= 8,
                crc == crc_bits(start, k as nat),
            decreases 8 - k,
        {
            crc = if crc & 0x8000_0000 != 0 {
                (crc << 1) ^ 0x04C1_1DB7
            } else {
                crc << 1
            };
            k += 1;
        }
        i += 1;
    }
    !crc
}

/// The sectors per cluster of a new volume of `size` bytes: 4 below
/// 256 MiB, 8 below 1 GiB, 16 below 128 GiB, 32 below 512 GiB, 64 up to
/// 2 TiB, 128 above.
pub open spec fn spec_spc(size: u64) -> u64 {
    if size < 256 * 1024 * 1024 {
        4
    } else if size < 1024 * 1024 * 1024 {
        8
    } else if size < 128 * 1024 * 1024 * 1024 {
        16
    } else if size < 512 * 1024 * 1024 * 1024 {
        32
    } else if size <= 2 * 1024 * 1024 * 1024 * 1024 {
        64
    } else {
        128
    }
}

/// `log2` of the sectors per cluster.
pub open spec fn spec_spc_shift(spc: u64) -> u8 {
    if spc == 4 {
        2
    } else if spc == 8 {
        3
    } else if spc == 16 {
        4
    } else if spc == 32 {
        5
    } else if spc == 64 {
        6
    } else {
        7
    }
}

/// `v` rounded up to a multiple of `a`.
pub open spec fn round_up(v: int, a: int) -> int {
    (v + a - 1) / a * a
}

/// The number of FAT sectors that `cc` clusters need: one 4-byte entry
/// each, plus the two reserved entries.
pub open spec fn fat_sectors(cc: int) -> int {
    ((cc + 2) * 4 + 511) / 512
}

/// The geometry of a new exFAT volume, in 512-byte sectors and clusters.
#[derive(Debug)]
pub struct ExfatLayout {
    /// Sectors per cluster.
    pub spc: u64,
    /// `log2(spc)`.
    pub spc_shift: u8,
    /// Sectors of the volume.
    pub volume_length: u64,
    /// The first sector of the FAT.
    pub fat_offset: u64,
    /// Sectors of the FAT.
    pub fat_length: u64,
    /// The first sector of the cluster heap.
    pub cluster_heap_offset: u64,
    /// Clusters in the heap.
    pub cluster_count: u64,
    /// Bytes of the allocation bitmap.
    pub bitmap_bytes: u64,
    /// Clusters of the allocation bitmap, which starts at cluster 2.
    pub bitmap_clusters: u64,
    /// The first cluster of the upcase table.
    pub upcase_start: u64,
    /// Clusters of the upcase table.
    pub upcase_clusters: u64,
    /// The cluster of the root directory.
    pub root_start: u64,
    /// Clusters taken by the bitmap, the upcase table and the root.
    pub used_clusters: u64,
    /// The percentage of the heap in use.
    pub percent_in_use: u8,
}

/// The FAT length after the estimate (`pass` 1) and the check that it still
/// covers the clusters it leaves (`pass` 2).
pub open spec fn spec_fat_length(size: u64) -> int {
    let spc = spec_spc(size) as int;
    let vl = size as int / 512;
    let fo = round_up(24, spc);
    let cc_est = (vl - fo) / spc;
    let fl1 = round_up(fat_sectors(cc_est), spc);
    let cc1 = (vl - (fo + fl1)) / spc;
    let needed = fat_sectors(cc1);
    if needed > fl1 {
        round_up(needed, spc)
    } else {
        fl1
    }
}

/// The layout that `size` bytes give, whether or not it leaves room.
pub open spec fn spec_layout(size: u64) -> ExfatLayout {
    let spc = spec_spc(size);
    let vl = size as int / 512;
    let fo = round_up(24, spc as int);
    let fl = spec_fat_length(size);
    let cho = fo + fl;
    let cc = (vl - cho) / spc as int;
    let cs = spc * 512;
    let bb = (cc + 7) / 8;
    let bcl = (bb + cs - 1) / cs;
    let ucl = (131072 + cs - 1) / cs;
    let us = 2 + bcl;
    let root = us + ucl;
    let used = bcl + ucl + 1;
    let scaled = if used * 100 > u64::MAX { u64::MAX as int } else { used * 100 };
    let p = (scaled / cc) as u8;
    ExfatLayout {
        spc,
        spc_shift: spec_spc_shift(spc),
        volume_length: vl as u64,
        fat_offset: fo as u64,
        fat_length: fl as u64,
        cluster_heap_offset: cho as u64,
        cluster_count: cc as u64,
        bitmap_bytes: bb as u64,
        bitmap_clusters: bcl as u64,
        upcase_start: us as u64,
        upcase_clusters: ucl as u64,
        root_start: root as u64,
        used_clusters: used as u64,
        percent_in_use: if p < 100 { p } else { 100 },
    }
}

/// The smallest image formatted as exFAT.
pub open spec fn exfat_size_ok(size: u64) -> bool {
    size >= 4096 * 512 * 2
}

/// The layout leaves at least one cluster after the FAT.
pub open spec fn layout_has_clusters(size: u64) -> bool {
    spec_layout(size).cluster_count > 0
}

/// The bitmap, the upcase table and the root directory fit in the heap.
pub open spec fn layout_fits(size: u64) -> bool {
    spec_layout(size).root_start < spec_layout(size).cluster_count + 2
}

/// `v` rounded up to a multiple of `a` lies in `[v, v + a - 1]`.
proof fn lemma_round_up(v: int, a: int)
    requires
        v >= 0,
        a > 0,
    ensures
        v <= round_up(v, a) <= v + a - 1,
        round_up(v, a) % a == 0,
{
    let x = v + a - 1;
    lemma_fundamental_div_mod(x, a);
    lemma_mod_pos_bound(x, a);
    lemma_mul_is_commutative(a, x / a);
    vstd::arithmetic::div_mod::lemma_mod_multiples_basic(x / a, a);
}

/// The bounds of a layout that the code's subtractions need.
proof fn lemma_layout_bounds(size: u64)
    requires
        exfat_size_ok(size),
    ensures
        ({
            let spc = spec_spc(size) as int;
            let vl = size as int / 512;
            let fo = round_up(24, spc);
            let fl = spec_fat_length(size);
            &&& 4 <= spc <= 128
            &&& 24 <= fo <= 151
            &&& fo + fl <= vl
            &&& (vl - fo) / spc <= vl / 4
        }),
{
    let spc = spec_spc(size) as int;
    let vl = size as int / 512;
    assert(vl >= 8192);
    let fo = round_up(24, spc);
    lemma_round_up(24, spc);
    let cc_est = (vl - fo) / spc;
    lemma_div_is_ordered_by_denominator(vl - fo, 4, spc);
    assert(cc_est <= (vl - fo) / 4);
    let fs0 = fat_sectors(cc_est);
    lemma_round_up(fs0, spc);
    let fl1 = round_up(fs0, spc);
    assert(fo + fl1 <= vl);
    let cc1 = (vl - (fo + fl1)) / spc;
    lemma_div_is_ordered(vl - (fo + fl1), vl - fo, spc);
    assert(cc1 <= cc_est);
    let needed = fat_sectors(cc1);
    lemma_round_up(needed, spc);
}

/// The layout of a new exFAT volume of `size` bytes.
///
/// The FAT and the cluster count depend on each other: the count is first
/// estimated as if the FAT took no room, the FAT is sized for it, and the
/// FAT is grown once more if the clusters that are left still need more.
/// The bitmap starts at cluster 2, the upcase table follows it and the
/// root directory takes the cluster after that.
#[verifier::rlimit(80)]
#[verifier::spinoff_prover]
pub fn exfat_layout(size: u64) -> (r: Result<ExfatLayout, FsError>)
    ensures
        !exfat_size_ok(size) ==> r == Err::<ExfatLayout, FsError>(FsError::SizeTooSmall),
        exfat_size_ok(size) && !layout_has_clusters(size) ==> r == Err::<ExfatLayout, FsError>(
            FsError::NoRoomForClusters,
        ),
        exfat_size_ok(size) && layout_has_clusters(size) && !layout_fits(size) ==> r == Err::<
            ExfatLayout,
            FsError,
        >(FsError::MetadataExceedsHeap),
        exfat_size_ok(size) && layout_has_clusters(size) && layout_fits(size) ==> r == Ok::<
            ExfatLayout,
            FsError,
        >(spec_layout(size)),
{
    if size < MINIMUM_IMAGE_SIZE {
        return Err(FsError::SizeTooSmall);
    }
    let (spc, spc_shift): (u64, u8) = if size < 256 * 1024 * 1024 {
        (4, 2)
    } else if size < 1024 * 1024 * 1024 {
        (8, 3)
    } else if size < 128 * 1024 * 1024 * 1024 {
        (16, 4)
    } else if size < 512 * 1024 * 1024 * 1024 {
        (32, 5)
    } else if size <= 2 * 1024 * 1024 * 1024 * 1024 {
        (64, 6)
    } else {
        (128, 7)
    };
    assert(spc == spec_spc(size) && spc_shift == spec_spc_shift(spc));
    assert(spc == 4 || spc == 8 || spc == 16 || spc == 32 || spc == 64 || spc == 128 ==> spc & ((spc - 1) as u64) == 0)
        by (bit_vector);
    proof {
        lemma_layout_bounds(size);
    }
    let bps: u64 = 512;
    let cluster_size: u64 = spc * bps;
    let volume_length: u64 = size / bps;
    let fat_offset: u64 = align_up(24, spc);
    let cc_est: u64 = (volume_length - fat_offset) / spc;
    let fl_raw: u64 = ((cc_est + 2) * 4 + bps - 1) / bps;
    proof {
        lemma_round_up(fl_raw as int, spc as int);
    }
    let fat_length: u64 = align_up(fl_raw, spc);
    let cluster_heap_offset: u64 = fat_offset + fat_length;
    let cluster_count: u64 = (volume_length - cluster_heap_offset) / spc;
    let needed: u64 = ((cluster_count + 2) * 4 + bps - 1) / bps;
    let fat_length: u64 = if needed > fat_length {
        proof {
            lemma_round_up(needed as int, spc as int);
        }
        align_up(needed, spc)
    } else {
        fat_length
    };
    assert(fat_length == spec_fat_length(size));
    let cluster_heap_offset: u64 = fat_offset + fat_length;
    let cluster_count: u64 = (volume_length - cluster_heap_offset) / spc;
    if cluster_count == 0 {
        return Err(FsError::NoRoomForClusters);
    }
    let bitmap_bytes: u64 = (cluster_count + 7) / 8;
    let bitmap_clusters: u64 = (bitmap_bytes + cluster_size - 1) / cluster_size;
    let upcase_bytes: u64 = 131072;
    let upcase_start: u64 = FIRST_DATA_CLUSTER as u64 + bitmap_clusters;
    let upcase_clusters: u64 = (upcase_bytes + cluster_size - 1) / cluster_size;
    let root_start: u64 = upcase_start + upcase_clusters;
    let used_clusters: u64 = bitmap_clusters + upcase_clusters + 1;
    if root_start >= cluster_count + 2 {
        return Err(FsError::MetadataExceedsHeap);
    }
    let scaled: u64 = match used_clusters.checked_mul(100) {
        Some(x) => x,
        None => u64::MAX,
    };
    let p = (scaled / cluster_count) as u8;
    let percent_in_use: u8 = if p < 100 {
        p
    } else {
        100
    };
    let r = ExfatLayout {
        spc,
        spc_shift,
        volume_length,
        fat_offset,
        fat_length,
        cluster_heap_offset,
        cluster_count,
        bitmap_bytes,
        bitmap_clusters,
        upcase_start,
        upcase_clusters,
        root_start,
        used_clusters,
        percent_in_use,
    };
    assert(r == spec_layout(size));
    Ok(r)
}

/// `n` zero bytes.
pub open spec fn zero_bytes(n: int) -> Seq<u8> {
    Seq::new(n as nat, |i: int| 0u8)
}

/// The main boot sector of a new volume with layout `l` and serial number
/// `serial`: the default sector with the layout's sizes filled in.
pub open spec fn new_mbs_bytes(l: ExfatLayout, serial: u32) -> Seq<u8> {
    seq![0xEBu8, 0x76, 0x90] + spec_oem_name() + zero_bytes(53) + u64_bytes(0) + u64_bytes(l.volume_length)
        + u32_bytes(l.fat_offset as u32) + u32_bytes(l.fat_length as u32) + u32_bytes(
        l.cluster_heap_offset as u32,
    ) + u32_bytes(l.cluster_count as u32) + u32_bytes(l.root_start as u32) + u32_bytes(serial) + u16_bytes(
        0x0100,
    ) + u16_bytes(0) + seq![9u8, l.spc_shift, 1, 0x80, l.percent_in_use] + zero_bytes(7) + default_boot_code()
        + u16_bytes(BOOT_SIGNATURE)
}

/// An extended boot sector: zeros, and the extended signature in its last
/// four bytes.
pub open spec fn ext_sector() -> Seq<u8> {
    zero_bytes(508) + u32_bytes(EXTENDED_BOOT_SIGNATURE)
}

/// Sectors 0 to 10 of the boot region: the main boot sector, 8 extended
/// boot sectors, the OEM parameters sector and a reserved sector (zeros).
pub open spec fn boot_sectors(l: ExfatLayout, serial: u32) -> Seq<u8> {
    new_mbs_bytes(l, serial) + Seq::new(8 * 512, |i: int| ext_sector()[i % 512]) + zero_bytes(1024)
}

/// The checksum sector: the checksum repeated 128 times.
pub open spec fn checksum_sector(c: u32) -> Seq<u8> {
    Seq::new(512, |i: int| u32_bytes(c)[i % 4])
}

/// The 12 sectors of the boot region, written twice.
pub open spec fn boot_region(l: ExfatLayout, serial: u32) -> Seq<u8> {
    boot_sectors(l, serial) + checksum_sector(boot_checksum_upto(boot_sectors(l, serial), 5632))
}

/// FAT entry `i`: the media descriptor, the reserved end of chain, the
/// chains of the bitmap and of the upcase table (each cluster pointing at
/// the next, the last at the end of chain), the root's single cluster,
/// and free entries.
pub open spec fn fat_entry(l: ExfatLayout, i: int) -> u32 {
    if i == 0 {
        EXFAT_MEDIA
    } else if i == 1 {
        EXFAT_EOC
    } else if 2 <= i < 2 + l.bitmap_clusters {
        if i + 1 < 2 + l.bitmap_clusters {
            (i + 1) as u32
        } else {
            EXFAT_EOC
        }
    } else if l.upcase_start <= i < l.upcase_start + l.upcase_clusters {
        if i + 1 < l.upcase_start + l.upcase_clusters {
            (i + 1) as u32
        } else {
            EXFAT_EOC
        }
    } else if i == l.root_start {
        EXFAT_EOC
    } else {
        EXFAT_FREE
    }
}

/// The first `n` FAT entries, little-endian.
pub open spec fn fat_bytes(l: ExfatLayout, n: int) -> Seq<u8> {
    Seq::new((4 * n) as nat, |j: int| u32_bytes(fat_entry(l, j / 4))[j % 4])
}

/// The low `k` bits set, for `k` up to 8.
pub open spec fn low_mask(k: int) -> u8 {
    seq![0u8, 1, 3, 7, 15, 31, 63, 127, 255][k]
}

/// Byte `j` of an allocation bitmap whose first `used` bits are set.
pub open spec fn bitmap_byte(used: int, j: int) -> u8 {
    if used >= 8 * j + 8 {
        255
    } else if used <= 8 * j {
        0
    } else {
        low_mask(used - 8 * j)
    }
}

/// The first `n` bytes of the bitmap of a new volume.
pub open spec fn bitmap_bytes(l: ExfatLayout, n: int) -> Seq<u8> {
    Seq::new(n as nat, |j: int| bitmap_byte(l.used_clusters as int, j))
}

/// The bytes of a new volume's root directory cluster: the allocation
/// bitmap entry, the upcase table entry with the table's checksum, then
/// zeros.
pub open spec fn root_cluster(l: ExfatLayout, crc: u32) -> Seq<u8> {
    seq![TYPE_ALLOC_BITMAP, 0u8] + zero_bytes(18) + u32_bytes(FIRST_DATA_CLUSTER) + u64_bytes(l.bitmap_bytes)
        + seq![TYPE_UPCASE_TABLE, 0u8, 0, 0] + u32_bytes(crc) + zero_bytes(12) + u32_bytes(l.upcase_start as u32)
        + u64_bytes(131072) + zero_bytes(l.spc * 512 - 64)
}

/// The byte offset of cluster `c` of a new volume, as its boot sector
/// computes it.
pub open spec fn new_cluster_offset(l: ExfatLayout, c: u32) -> int {
    let k: int = if c >= 2 { c - 2 } else { 0 };
    (l.cluster_heap_offset as u32) as int * 512 + k * l.spc * 512
}

/// The writes that lay out a new exFAT volume with layout `l` and serial
/// number `serial`: the boot region and its backup, the FAT, the
/// allocation bitmap, the upcase table and the root directory.
pub open spec fn exfat_writes(l: ExfatLayout, serial: u32) -> Seq<(u64, Seq<u8>)> {
    let cs = l.spc * 512;
    seq![
        (0u64, boot_region(l, serial)),
        (6144u64, boot_region(l, serial)),
        ((l.fat_offset * 512) as u64, fat_bytes(l, l.fat_length * 128)),
        (new_cluster_offset(l, 2) as u64, bitmap_bytes(l, l.bitmap_clusters * cs)),
        (new_cluster_offset(l, l.upcase_start as u32) as u64, upcase_table() + zero_bytes(
            l.upcase_clusters * cs - 131072,
        )),
        (new_cluster_offset(l, l.root_start as u32) as u64, root_cluster(l, spec_crc32(upcase_table()))),
    ]
}

/// The main boot sector of a new volume with layout `l`.
fn new_boot_sector(l: &ExfatLayout, serial: u32) -> (m: MainBootSector)
    ensures
        mbs_bytes(m) == new_mbs_bytes(*l, serial),
        m.bytes_per_sector_shift == 9,
        m.sectors_per_cluster_shift == l.spc_shift,
        m.cluster_heap_offset == l.cluster_heap_offset as u32,
{
    let mut m = MainBootSector::default();
    m.volume_length = l.volume_length;
    m.fat_offset = l.fat_offset as u32;
    m.fat_length = l.fat_length as u32;
    m.cluster_heap_offset = l.cluster_heap_offset as u32;
    m.cluster_count = l.cluster_count as u32;
    m.root_directory_cluster = l.root_start as u32;
    m.volume_serial_number = serial;
    m.bytes_per_sector_shift = MAIN_SECTOR_SHIFT as u8;
    m.sectors_per_cluster_shift = l.spc_shift;
    m.percent_in_use = l.percent_in_use;
    assert(mbs_bytes(m) =~= new_mbs_bytes(*l, serial));
    m
}

/// The boot region whose first sector is `sector0`: it, 8 extended boot
/// sectors, two zero sectors and the checksum sector.
fn build_boot_region(sector0: &Vec<u8>) -> (r: Vec<u8>)
    requires
        sector0@.len() == 512,
    ensures
        ({
            let s = sector0@ + Seq::new(8 * 512, |i: int| ext_sector()[i % 512]) + zero_bytes(1024);
            r@ == s + checksum_sector(boot_checksum_upto(s, 5632))
        }),
{
    let mut v: Vec<u8> = sector0.clone();
    assert(v@ == sector0@);
    let mut k: u64 = 0;
    while k < 8
        invariant
            k <= 8,
            sector0@.len() == 512,
            v@ == sector0@ + Seq::new((k * 512) as nat, |i: int| ext_sector()[i % 512]),
        decreases 8 - k,
    {
        let ghost before = v@;
        push_zeros(&mut v, 508);
        push_u32(&mut v, EXTENDED_BOOT_SIGNATURE);
        proof {
            let want = sector0@ + Seq::new(((k + 1) * 512) as nat, |i: int| ext_sector()[i % 512]);
            assert forall|i: int| 0 <= i < v@.len() implies v@[i] == want[i] by {
                if i >= 512 + k * 512 {
                    assert((i - 512) % 512 == i - 512 - k * 512);
                }
            }
            assert(v@ =~= want);
        }
        k += 1;
    }
    push_zeros(&mut v, 1024);
    let ghost s = v@;
    assert(s =~= sector0@ + Seq::new(8 * 512, |i: int| ext_sector()[i % 512]) + zero_bytes(1024));
    let csum = boot_checksum(v.as_slice());
    let mut j: u64 = 0;
    while j < 128
        invariant
            j <= 128,
            s.len() == 5632,
            v@ == s + Seq::new((j * 4) as nat, |i: int| u32_bytes(csum)[i % 4]),
        decreases 128 - j,
    {
        push_u32(&mut v, csum);
        proof {
            let want = s + Seq::new(((j + 1) * 4) as nat, |i: int| u32_bytes(csum)[i % 4]);
            assert forall|i: int| 0 <= i < v@.len() implies v@[i] == want[i] by {
                if i >= 5632 + j * 4 {
                    assert((i - 5632) % 4 == i - 5632 - j * 4);
                }
            }
            assert(v@ =~= want);
        }
        j += 1;
    }
    assert(v@ =~= s + checksum_sector(csum));
    v
}

/// FAT entry `i` of a new volume.
fn new_fat_entry(l: &ExfatLayout, i: u64) -> (r: u32)
    requires
        l.upcase_start == 2 + l.bitmap_clusters,
        l.root_start == l.upcase_start + l.upcase_clusters,
    ensures
        r == fat_entry(*l, i as int),
{
    if i == 0 {
        EXFAT_MEDIA
    } else if i == 1 {
        EXFAT_EOC
    } else if 2 <= i && i < 2 + l.bitmap_clusters {
        if i + 1 < 2 + l.bitmap_clusters {
            (i + 1) as u32
        } else {
            EXFAT_EOC
        }
    } else if l.upcase_start <= i && i < l.upcase_start + l.upcase_clusters {
        if i + 1 < l.upcase_start + l.upcase_clusters {
            (i + 1) as u32
        } else {
            EXFAT_EOC
        }
    } else if i == l.root_start {
        EXFAT_EOC
    } else {
        EXFAT_FREE
    }
}

/// The first `n` entries of a new volume's FAT.
fn build_fat(l: &ExfatLayout, n: u64) -> (r: Vec<u8>)
    requires
        l.upcase_start == 2 + l.bitmap_clusters,
        l.root_start == l.upcase_start + l.upcase_clusters,
    ensures
        r@ == fat_bytes(*l, n as int),
{
    let mut v: Vec<u8> = Vec::new();
    let mut i: u64 = 0;
    while i < n
        invariant
            i <= n,
            l.upcase_start == 2 + l.bitmap_clusters,
            l.root_start == l.upcase_start + l.upcase_clusters,
            v@ == fat_bytes(*l, i as int),
        decreases n - i,
    {
        let e = new_fat_entry(l, i);
        let ghost before = v@;
        push_u32(&mut v, e);
        proof {
            let want = fat_bytes(*l, i + 1);
            assert forall|j: int| 0 <= j < v@.len() implies v@[j] == want[j] by {
                if j >= 4 * i {
                    assert(j / 4 == i && j % 4 == j - 4 * i);
                } else {
                    assert(v@[j] == before[j]);
                }
            }
            assert(v@ =~= want);
        }
        i += 1;
    }
    v
}

/// Byte `j` of a bitmap whose first `used` bits are set.
fn new_bitmap_byte(used: u64, j: u64) -> (r: u8)
    requires
        8 * j + 8 <= u64::MAX,
    ensures
        r == bitmap_byte(used as int, j as int),
{
    if used >= 8 * j + 8 {
        255
    } else if used <= 8 * j {
        0
    } else {
        let k = used - 8 * j;
        if k == 1 {
            1
        } else if k == 2 {
            3
        } else if k == 3 {
            7
        } else if k == 4 {
            15
        } else if k == 5 {
            31
        } else if k == 6 {
            63
        } else {
            127
        }
    }
}

/// The first `n` bytes of a new volume's allocation bitmap.
fn build_bitmap(l: &ExfatLayout, n: u64) -> (r: Vec<u8>)
    requires
        n <= u64::MAX / 8,
    ensures
        r@ == bitmap_bytes(*l, n as int),
{
    let mut v: Vec<u8> = Vec::new();
    let mut j: u64 = 0;
    while j < n
        invariant
            j <= n <= u64::MAX / 8,
            v@ == bitmap_bytes(*l, j as int),
        decreases n - j,
    {
        let b = new_bitmap_byte(l.used_clusters, j);
        v.push(b);
        assert(v@ =~= bitmap_bytes(*l, j + 1));
        j += 1;
    }
    v
}

/// The root directory cluster of a new volume, of `cs` bytes.
fn build_root(l: &ExfatLayout, crc: u32, cs: u64) -> (r: Vec<u8>)
    requires
        cs == l.spc * 512,
        64 <= cs <= 0x10000,
    ensures
        r@ == root_cluster(*l, crc),
{
    let mut v: Vec<u8> = Vec::new();
    v.push(TYPE_ALLOC_BITMAP);
    v.push(0);
    push_zeros(&mut v, 18);
    push_u32(&mut v, FIRST_DATA_CLUSTER);
    push_u64(&mut v, l.bitmap_bytes);
    v.push(TYPE_UPCASE_TABLE);
    push_zeros(&mut v, 3);
    push_u32(&mut v, crc);
    push_zeros(&mut v, 12);
    push_u32(&mut v, l.upcase_start as u32);
    push_u64(&mut v, 131072);
    push_zeros(&mut v, (cs - 64) as usize);
    assert(v@ =~= root_cluster(*l, crc));
    v
}

/// A sector is `1 << 9` bytes, and a cluster `1 << spec_spc_shift(spc)`
/// sectors.
proof fn lemma_shifts(spc: u64)
    requires
        spc == 4 || spc == 8 || spc == 16 || spc == 32 || spc == 64 || spc == 128,
    ensures
        shl1(9) == 512,
        shl1(spec_spc_shift(spc)) == spc,
{
    assert((1u64 << 9u8) == 512) by (bit_vector);
    assert((1u64 << 2u8) == 4 && (1u64 << 3u8) == 8 && (1u64 << 4u8) == 16 && (1u64 << 5u8) == 32 && (1u64
        << 6u8) == 64 && (1u64 << 7u8) == 128) by (bit_vector);
}

/// The sizes and offsets of a laid out volume fit the integers that hold
/// them.
proof fn lemma_layout_offsets(size: u64)
    requires
        exfat_size_ok(size),
        layout_has_clusters(size),
        layout_fits(size),
    ensures
        ({
            let l = spec_layout(size);
            let cs = l.spc * 512;
            &&& l.spc == spec_spc(size)
            &&& 4 <= l.spc <= 128
            &&& l.spc_shift == spec_spc_shift(l.spc)
            &&& l.upcase_start == 2 + l.bitmap_clusters
            &&& l.root_start == l.upcase_start + l.upcase_clusters
            &&& l.fat_length * 128 <= u64::MAX
            &&& l.fat_offset * 512 <= u64::MAX
            &&& l.bitmap_clusters * cs <= u64::MAX / 8
            &&& 131072 <= l.upcase_clusters * cs < 131072 + cs
            &&& forall|c: u32| c <= l.root_start ==> #[trigger] new_cluster_offset(l, c) <= size
        }),
{
    let l = spec_layout(size);
    let spc = spec_spc(size) as int;
    let vl = size as int / 512;
    let fo = round_up(24, spc);
    let fl = spec_fat_length(size);
    let cho = fo + fl;
    let cc = (vl - cho) / spc;
    lemma_layout_bounds(size);
    lemma_fundamental_div_mod(vl - cho, spc);
    lemma_mod_pos_bound(vl - cho, spc);
    assert(cc * spc <= vl - cho);
    assert(cc >= 0) by {
        vstd::arithmetic::div_mod::lemma_div_pos_is_pos(vl - cho, spc);
    }
    let cs = spc * 512;
    let bb = (cc + 7) / 8;
    let bcl = (bb + cs - 1) / cs;
    lemma_round_up(bb, cs);
    assert(bcl * cs == round_up(bb, cs));
    assert(bb <= cc);
    assert(bcl * cs <= cc + cs);
    assert(bcl <= bcl * cs) by (nonlinear_arith)
        requires
            bcl >= 0,
            cs >= 1,
    ;
    lemma_round_up(131072, cs);
    let ucl = (131072 + cs - 1) / cs;
    assert(ucl * cs == round_up(131072, cs));
    assert(ucl <= ucl * cs) by (nonlinear_arith)
        requires
            ucl >= 0,
            cs >= 1,
    ;
    assert(cc * spc * 512 <= (vl - cho) * 512) by (nonlinear_arith)
        requires
            cc * spc <= vl - cho,
            cc >= 0,
            spc >= 1,
    ;
    assert forall|c: u32| c <= l.root_start implies #[trigger] new_cluster_offset(l, c) <= size by {
        let k: int = if c >= 2 { c - 2 } else { 0 };
        assert(k <= cc);
        assert((l.cluster_heap_offset as u32) as int <= cho);
        assert(k * spc * 512 <= cc * spc * 512) by (nonlinear_arith)
            requires
                0 <= k <= cc,
                spc >= 1,
        ;
    }
}

/// The image writes of a new exFAT volume of `size` bytes with serial
/// number `serial`, in the order the tool writes them.
#[verifier::rlimit(40)]
pub fn make_filesystem(size: u64, serial: u32) -> (r: Result<Vec<ImageWrite>, FsError>)
    ensures
        !exfat_size_ok(size) ==> r == Err::<Vec<ImageWrite>, FsError>(FsError::SizeTooSmall),
        exfat_size_ok(size) && !layout_has_clusters(size) ==> r == Err::<Vec<ImageWrite>, FsError>(
            FsError::NoRoomForClusters,
        ),
        exfat_size_ok(size) && layout_has_clusters(size) && !layout_fits(size) ==> r == Err::<
            Vec<ImageWrite>,
            FsError,
        >(FsError::MetadataExceedsHeap),
        exfat_size_ok(size) && layout_has_clusters(size) && layout_fits(size) ==> (r matches Ok(w)
            && writes_view(w@) == exfat_writes(spec_layout(size), serial)),
{
    let l = match exfat_layout(size) {
        Ok(l) => l,
        Err(e) => {
            return Err(e);
        },
    };
    proof {
        lemma_layout_bounds(size);
        lemma_layout_offsets(size);
        lemma_shifts(l.spc);
    }
    let cs: u64 = l.spc * 512;
    let upcase = generate_upcase_table();
    let crc = crc32(upcase.as_slice());
    let mbs = new_boot_sector(&l, serial);
    let sector0 = mbs.to_bytes();
    let region = build_boot_region(&sector0);
    let fat = build_fat(&l, l.fat_length * 128);
    let bitmap = build_bitmap(&l, l.bitmap_clusters * cs);
    let mut upcase_buf = upcase;
    push_zeros(&mut upcase_buf, (l.upcase_clusters * cs - 131072) as usize);
    let root = build_root(&l, crc, cs);
    proof {
        let us = l.upcase_start as u32;
        let rs = l.root_start as u32;
        assert(new_cluster_offset(l, 2) <= size);
        assert(new_cluster_offset(l, us) <= size);
        assert(new_cluster_offset(l, rs) <= size);
        assert(spec_cluster_offset(mbs, 2) == new_cluster_offset(l, 2));
        assert(spec_cluster_offset(mbs, us) == new_cluster_offset(l, us));
        assert(spec_cluster_offset(mbs, rs) == new_cluster_offset(l, rs));
    }
    let bitmap_off = mbs.cluster_byte_offset(FIRST_DATA_CLUSTER);
    let upcase_off = mbs.cluster_byte_offset(l.upcase_start as u32);
    let root_off = mbs.cluster_byte_offset(l.root_start as u32);
    let mut w: Vec<ImageWrite> = Vec::new();
    w.push(ImageWrite { offset: 0, data: region.clone() });
    w.push(ImageWrite { offset: 6144, data: region });
    w.push(ImageWrite { offset: l.fat_offset * 512, data: fat });
    w.push(ImageWrite { offset: bitmap_off, data: bitmap });
    w.push(ImageWrite { offset: upcase_off, data: upcase_buf });
    w.push(ImageWrite { offset: root_off, data: root });
    assert(writes_view(w@) =~= exfat_writes(l, serial));
    Ok(w)
}

/// The volume serial number made from a time: the seconds since the Unix
/// epoch times `u32::MAX`, plus the nanoseconds, modulo 2^64, then taken
/// modulo 2^32.
pub fn volume_serial(secs: i64, nanos: u32) -> (r: u32)
    ensures
        r == (vstd::wrapping::u64_specs::wrapping_add(
            vstd::wrapping::u64_specs::wrapping_mul(0xFFFF_FFFFu64, secs as u64),
            nanos as u64,
        ) as u32),
{
    let a = secs as u64;
    let b = (u32::MAX as u64).wrapping_mul(a);
    b.wrapping_add(nanos as u64) as u32
}

/// The image writes of a new exFAT volume of `size` bytes, its serial
/// number made from the current time.
pub fn mkfs(size: u64) -> (r: Result<Vec<ImageWrite>, FsError>)
    ensures
        !exfat_size_ok(size) ==> r == Err::<Vec<ImageWrite>, FsError>(FsError::SizeTooSmall),
        exfat_size_ok(size) && !layout_has_clusters(size) ==> r == Err::<Vec<ImageWrite>, FsError>(
            FsError::NoRoomForClusters,
        ),
        exfat_size_ok(size) && layout_has_clusters(size) && !layout_fits(size) ==> r == Err::<
            Vec<ImageWrite>,
            FsError,
        >(FsError::MetadataExceedsHeap),
        exfat_size_ok(size) && layout_has_clusters(size) && layout_fits(size) ==> (r matches Ok(w)
            && exists|serial: u32| writes_view(w@) == exfat_writes(spec_layout(size), serial)),
{
    let (secs, nanos) = crate::clock::local_now();
    let serial = volume_serial(secs, nanos);
    make_filesystem(size, serial)
}

} // verus!
