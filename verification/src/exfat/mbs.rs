//! The exFAT main boot sector: the first 512 bytes of the volume.
use crate::bytes::{
    array_at, le_u16, le_u32, le_u64, lemma_le_u16_at, lemma_le_u32_at, lemma_le_u64_at,
    lemma_u16_bytes_of_le, lemma_u32_bytes_of_le, lemma_u64_bytes_of_le, push_array, push_u16,
    push_u32, push_u64, read_u16, read_u32, read_u64, u16_bytes, u32_bytes, u64_bytes,
};
use crate::exfat::consts::{bootcode, spec_bootcode, BOOTCODE_MSG, BOOT_SIGNATURE};
use crate::fs::AllocationData;
use vstd::prelude::*;
use vstd::string::StringSliceAdditionalSpecFns;

verus! {

/// The main boot sector. It is followed by 8 extended boot sectors, an OEM
/// parameters sector, a reserved sector and a checksum sector; the backup
/// boot region repeats these 12 sectors at sector 12.
///
/// Sizes are stored as shifts: a sector holds `1 << bytes_per_sector_shift`
/// bytes and a cluster `1 << sectors_per_cluster_shift` sectors.
#[derive(Debug)]
pub struct MainBootSector {
    /// The x86 jump to the boot code.
    pub jump_boot: [u8; 3],
    /// "EXFAT   ".
    pub oem_name: [u8; 8],
    /// Zero, so that FAT drivers do not take the volume for theirs.
    pub must_be_zero: [u8; 53],
    /// The sector offset of the partition on the drive.
    pub partition_offset: u64,
    /// The number of sectors of the volume.
    pub volume_length: u64,
    /// The sector offset of the first FAT.
    pub fat_offset: u32,
    /// The number of sectors of each FAT.
    pub fat_length: u32,
    /// The sector offset of the cluster heap.
    pub cluster_heap_offset: u32,
    /// The number of clusters in the heap.
    pub cluster_count: u32,
    /// The first cluster of the root directory.
    pub root_directory_cluster: u32,
    pub volume_serial_number: u32,
    /// Major version in the high byte, minor in the low byte.
    pub file_system_revision: u16,
    pub volume_flags: u16,
    /// log2 of the bytes per sector (9-12).
    pub bytes_per_sector_shift: u8,
    /// log2 of the sectors per cluster (0-25).
    pub sectors_per_cluster_shift: u8,
    /// 1, or 2 for TexFAT.
    pub number_of_fats: u8,
    /// The INT 13h drive number.
    pub drive_select: u8,
    /// The percentage of the heap in use; 0xFF if unknown.
    pub percent_in_use: u8,
    pub reserved: [u8; 7],
    pub boot_code: [u8; 390],
    /// 0xAA55.
    pub boot_signature: u16,
}

/// The 512 bytes of a main boot sector, fields in order, little-endian.
pub open spec fn mbs_bytes(m: MainBootSector) -> Seq<u8> {
    m.jump_boot@ + m.oem_name@ + m.must_be_zero@ + u64_bytes(m.partition_offset) + u64_bytes(
        m.volume_length,
    ) + u32_bytes(m.fat_offset) + u32_bytes(m.fat_length) + u32_bytes(m.cluster_heap_offset)
        + u32_bytes(m.cluster_count) + u32_bytes(m.root_directory_cluster) + u32_bytes(
        m.volume_serial_number,
    ) + u16_bytes(m.file_system_revision) + u16_bytes(m.volume_flags) + seq![
        m.bytes_per_sector_shift,
        m.sectors_per_cluster_shift,
        m.number_of_fats,
        m.drive_select,
        m.percent_in_use,
    ] + m.reserved@ + m.boot_code@ + u16_bytes(m.boot_signature)
}

/// `m` is the boot sector that the 512 bytes `bs` hold.
pub open spec fn decodes(m: MainBootSector, bs: Seq<u8>) -> bool {
    &&& bs.len() == 512
    &&& m.jump_boot@ == bs.subrange(0, 3)
    &&& m.oem_name@ == bs.subrange(3, 11)
    &&& m.must_be_zero@ == bs.subrange(11, 64)
    &&& m.partition_offset == le_u64(bs, 64)
    &&& m.volume_length == le_u64(bs, 72)
    &&& m.fat_offset == le_u32(bs, 80)
    &&& m.fat_length == le_u32(bs, 84)
    &&& m.cluster_heap_offset == le_u32(bs, 88)
    &&& m.cluster_count == le_u32(bs, 92)
    &&& m.root_directory_cluster == le_u32(bs, 96)
    &&& m.volume_serial_number == le_u32(bs, 100)
    &&& m.file_system_revision == le_u16(bs, 104)
    &&& m.volume_flags == le_u16(bs, 106)
    &&& m.bytes_per_sector_shift == bs[108]
    &&& m.sectors_per_cluster_shift == bs[109]
    &&& m.number_of_fats == bs[110]
    &&& m.drive_select == bs[111]
    &&& m.percent_in_use == bs[112]
    &&& m.reserved@ == bs.subrange(113, 120)
    &&& m.boot_code@ == bs.subrange(120, 510)
    &&& m.boot_signature == le_u16(bs, 510)
}

/// The OEM name of every exFAT volume, "EXFAT   ".
pub open spec fn spec_oem_name() -> Seq<u8> {
    seq![0x45u8, 0x58, 0x46, 0x41, 0x54, 0x20, 0x20, 0x20]
}

/// The boot code area of a new boot sector: the boot code, its message,
/// then zeros.
pub open spec fn default_boot_code() -> Seq<u8> {
    spec_bootcode() + BOOTCODE_MSG.spec_bytes() + Seq::new(
        (390 - 29 - BOOTCODE_MSG.spec_bytes().len()) as nat,
        |i: int| 0u8,
    )
}

/// `1 << s` as a 64-bit value.
pub open spec fn shl1(s: u8) -> u64 {
    1u64 << s
}

impl MainBootSector {
    /// The boot sector that the 512 bytes `bytes` hold.
    pub fn from_bytes(bytes: &[u8]) -> (r: Self)
        requires
            bytes@.len() == 512,
        ensures
            decodes(r, bytes@),
    {
        MainBootSector {
            jump_boot: array_at(bytes, 0),
            oem_name: array_at(bytes, 3),
            must_be_zero: array_at(bytes, 11),
            partition_offset: read_u64(bytes, 64),
            volume_length: read_u64(bytes, 72),
            fat_offset: read_u32(bytes, 80),
            fat_length: read_u32(bytes, 84),
            cluster_heap_offset: read_u32(bytes, 88),
            cluster_count: read_u32(bytes, 92),
            root_directory_cluster: read_u32(bytes, 96),
            volume_serial_number: read_u32(bytes, 100),
            file_system_revision: read_u16(bytes, 104),
            volume_flags: read_u16(bytes, 106),
            bytes_per_sector_shift: bytes[108],
            sectors_per_cluster_shift: bytes[109],
            number_of_fats: bytes[110],
            drive_select: bytes[111],
            percent_in_use: bytes[112],
            reserved: array_at(bytes, 113),
            boot_code: array_at(bytes, 120),
            boot_signature: read_u16(bytes, 510),
        }
    }

    /// The 512 bytes of the boot sector.
    pub fn to_bytes(&self) -> (r: Vec<u8>)
        ensures
            r@ == mbs_bytes(*self),
            r@.len() == 512,
    {
        let mut v: Vec<u8> = Vec::new();
        push_array(&mut v, &self.jump_boot);
        push_array(&mut v, &self.oem_name);
        push_array(&mut v, &self.must_be_zero);
        push_u64(&mut v, self.partition_offset);
        push_u64(&mut v, self.volume_length);
        push_u32(&mut v, self.fat_offset);
        push_u32(&mut v, self.fat_length);
        push_u32(&mut v, self.cluster_heap_offset);
        push_u32(&mut v, self.cluster_count);
        push_u32(&mut v, self.root_directory_cluster);
        push_u32(&mut v, self.volume_serial_number);
        push_u16(&mut v, self.file_system_revision);
        push_u16(&mut v, self.volume_flags);
        v.push(self.bytes_per_sector_shift);
        v.push(self.sectors_per_cluster_shift);
        v.push(self.number_of_fats);
        v.push(self.drive_select);
        v.push(self.percent_in_use);
        push_array(&mut v, &self.reserved);
        push_array(&mut v, &self.boot_code);
        push_u16(&mut v, self.boot_signature);
        assert(v@ =~= mbs_bytes(*self));
        v
    }

    /// Whether the OEM name is "EXFAT   " and the boot signature 0xAA55.
    pub fn is_valid(&self) -> (r: bool)
        ensures
            r == (self.oem_name@ == spec_oem_name() && self.boot_signature == BOOT_SIGNATURE),
    {
        let name = exfat_oem_name();
        let mut k: usize = 0;
        while k < 8
            invariant
                k <= 8,
                name@ == spec_oem_name(),
                forall|i: int| 0 <= i < k ==> self.oem_name@[i] == name@[i],
            decreases 8 - k,
        {
            if self.oem_name[k] != name[k] {
                return false;
            }
            k += 1;
        }
        assert(self.oem_name@ =~= spec_oem_name());
        self.boot_signature == BOOT_SIGNATURE
    }

    /// `num` sectors in bytes.
    pub fn sectors_to_bytes(&self, num: u64) -> (r: u64)
        requires
            self.bytes_per_sector_shift < 64,
            num * shl1(self.bytes_per_sector_shift) <= u64::MAX,
        ensures
            r == num * shl1(self.bytes_per_sector_shift),
    {
        num * (1u64 << self.bytes_per_sector_shift)
    }

    /// `num` clusters in bytes.
    pub fn clusters_to_bytes(&self, num: u64) -> (r: u64)
        requires
            self.bytes_per_sector_shift < 64,
            self.sectors_per_cluster_shift < 64,
            num * shl1(self.sectors_per_cluster_shift) <= u64::MAX,
            num * shl1(self.sectors_per_cluster_shift) * shl1(self.bytes_per_sector_shift) <= u64::MAX,
        ensures
            r == num * shl1(self.sectors_per_cluster_shift) * shl1(self.bytes_per_sector_shift),
    {
        self.sectors_to_bytes(num * (1u64 << self.sectors_per_cluster_shift))
    }

    /// The byte offset of cluster `cluster_num` in the image: the heap's
    /// offset plus the clusters before it (clusters 0 and 1 have no storage,
    /// and stand where cluster 2 does).
    pub fn cluster_byte_offset(&self, cluster_num: u32) -> (r: u64)
        requires
            self.bytes_per_sector_shift < 64,
            self.sectors_per_cluster_shift < 64,
            spec_cluster_offset(*self, cluster_num) <= u64::MAX,
        ensures
            r == spec_cluster_offset(*self, cluster_num),
    {
        let c: u64 = cluster_num.saturating_sub(2) as u64;
        let ghost b = shl1(self.bytes_per_sector_shift);
        let ghost s = shl1(self.sectors_per_cluster_shift);
        proof {
            lemma_shl1_pos(self.bytes_per_sector_shift);
            lemma_shl1_pos(self.sectors_per_cluster_shift);
            assert(c * s <= c * s * b) by (nonlinear_arith)
                requires
                    b >= 1,
            ;
            assert(self.cluster_heap_offset * b <= spec_cluster_offset(*self, cluster_num));
            assert(c * s * b <= spec_cluster_offset(*self, cluster_num));
        }
        self.sectors_to_bytes(self.cluster_heap_offset as u64) + self.clusters_to_bytes(c)
    }

    /// The size of a cluster in bytes.
    pub fn get_block_size(&self) -> (r: u64)
        requires
            self.bytes_per_sector_shift < 64,
            self.sectors_per_cluster_shift < 64,
            shl1(self.bytes_per_sector_shift) * shl1(self.sectors_per_cluster_shift) <= u64::MAX,
        ensures
            r == shl1(self.bytes_per_sector_shift) * shl1(self.sectors_per_cluster_shift),
    {
        let bps = 1u64 << self.bytes_per_sector_shift;
        let spc = 1u64 << self.sectors_per_cluster_shift;
        bps * spc
    }

    /// exFAT has no fixed number of inodes: none taken, `u64::MAX` free.
    pub fn get_num_inodes(&self) -> (r: AllocationData)
        ensures
            r.taken == 0,
            r.free == u64::MAX,
    {
        AllocationData { taken: 0, free: u64::MAX }
    }
}

/// The byte offset of cluster `c`: the heap's offset in bytes plus
/// `c - 2` clusters (none below cluster 2).
pub open spec fn spec_cluster_offset(m: MainBootSector, c: u32) -> int {
    let k: int = if c >= 2 { c - 2 } else { 0 };
    m.cluster_heap_offset * shl1(m.bytes_per_sector_shift) + k * shl1(m.sectors_per_cluster_shift) * shl1(
        m.bytes_per_sector_shift,
    )
}

proof fn lemma_shl1_pos(s: u8)
    requires
        s < 64,
    ensures
        shl1(s) >= 1,
{
    assert(s < 64 ==> (1u64 << s) >= 1) by (bit_vector);
}

/// The bytes "EXFAT   ".
fn exfat_oem_name() -> (r: [u8; 8])
    ensures
        r@ == spec_oem_name(),
{
    let r = [0x45u8, 0x58, 0x46, 0x41, 0x54, 0x20, 0x20, 0x20];
    assert(r@ =~= spec_oem_name());
    r
}

impl Default for MainBootSector {
    /// A boot sector of a 512-byte-sector volume with 8 sectors per
    /// cluster, revision 1.00, on a hard disk, with the boot code and its
    /// message; every size is zero.
    fn default() -> (r: Self)
        ensures
            r.jump_boot@ == seq![0xEBu8, 0x76, 0x90],
            r.oem_name@ == spec_oem_name(),
            r.must_be_zero@ == Seq::new(53, |i: int| 0u8),
            r.partition_offset == 0 && r.volume_length == 0,
            r.fat_offset == 0 && r.fat_length == 0,
            r.cluster_heap_offset == 0 && r.cluster_count == 0,
            r.root_directory_cluster == 0 && r.volume_serial_number == 0,
            r.file_system_revision == 0x0100,
            r.volume_flags == 0,
            r.bytes_per_sector_shift == 9,
            r.sectors_per_cluster_shift == 3,
            r.number_of_fats == 1,
            r.drive_select == 0x80,
            r.percent_in_use == 0,
            r.reserved@ == Seq::new(7, |i: int| 0u8),
            r.boot_code@ == default_boot_code(),
            r.boot_signature == BOOT_SIGNATURE,
    {
        let code = bootcode();
        let msg = BOOTCODE_MSG.as_bytes();
        proof {
            reveal_strlit(
                "This exFAT/GPT volume is not bootable.\r\nPlease insert a bootable disk and press any key to try again.\r\n",
            );
            vstd::string::is_ascii_spec_bytes(BOOTCODE_MSG);
        }
        assert(msg@.len() == 103);
        let mut boot_code = [0u8; 390];
        let mut k: usize = 0;
        while k < 29
            invariant
                k <= 29,
                code@ == spec_bootcode(),
                boot_code@.len() == 390,
                forall|i: int| 0 <= i < k ==> boot_code@[i] == code@[i],
                forall|i: int| 29 <= i < 390 ==> boot_code@[i] == 0,
            decreases 29 - k,
        {
            boot_code[k] = code[k];
            k += 1;
        }
        let mut j: usize = 0;
        while j < msg.len()
            invariant
                j <= msg@.len(),
                msg@.len() == 103,
                code@ == spec_bootcode(),
                boot_code@.len() == 390,
                forall|i: int| 0 <= i < 29 ==> boot_code@[i] == code@[i],
                forall|i: int| 0 <= i < j ==> boot_code@[29 + i] == msg@[i],
                forall|i: int| 29 + j <= i < 390 ==> boot_code@[i] == 0,
            decreases msg@.len() - j,
        {
            boot_code[29 + j] = msg[j];
            j += 1;
        }
        assert(boot_code@ =~= default_boot_code());
        let jump = [0xEBu8, 0x76, 0x90];
        let r = MainBootSector {
            jump_boot: jump,
            oem_name: exfat_oem_name(),
            must_be_zero: [0u8; 53],
            partition_offset: 0,
            volume_length: 0,
            fat_offset: 0,
            fat_length: 0,
            cluster_heap_offset: 0,
            cluster_count: 0,
            root_directory_cluster: 0,
            volume_serial_number: 0,
            file_system_revision: 0x0100,
            volume_flags: 0,
            bytes_per_sector_shift: 9,
            sectors_per_cluster_shift: 3,
            number_of_fats: 1,
            drive_select: 0x80,
            percent_in_use: 0,
            reserved: [0u8; 7],
            boot_code,
            boot_signature: BOOT_SIGNATURE,
        };
        assert(r.jump_boot@ =~= seq![0xEBu8, 0x76, 0x90]);
        assert(r.must_be_zero@ =~= Seq::new(53, |i: int| 0u8));
        assert(r.reserved@ =~= Seq::new(7, |i: int| 0u8));
        r
    }
}

/// Reading the bytes of a boot sector gives it back, field for field.
pub proof fn law_mbs_decode_encode(m: MainBootSector)
    ensures
        decodes(m, mbs_bytes(m)),
{
    let bs = mbs_bytes(m);
    assert(bs.len() == 512);
    assert(bs.subrange(0, 3) =~= m.jump_boot@);
    assert(bs.subrange(3, 11) =~= m.oem_name@);
    assert(bs.subrange(11, 64) =~= m.must_be_zero@);
    assert(bs.subrange(64, 72) =~= u64_bytes(m.partition_offset));
    lemma_le_u64_at(bs, 64, m.partition_offset);
    assert(bs.subrange(72, 80) =~= u64_bytes(m.volume_length));
    lemma_le_u64_at(bs, 72, m.volume_length);
    assert(bs.subrange(80, 84) =~= u32_bytes(m.fat_offset));
    lemma_le_u32_at(bs, 80, m.fat_offset);
    assert(bs.subrange(84, 88) =~= u32_bytes(m.fat_length));
    lemma_le_u32_at(bs, 84, m.fat_length);
    assert(bs.subrange(88, 92) =~= u32_bytes(m.cluster_heap_offset));
    lemma_le_u32_at(bs, 88, m.cluster_heap_offset);
    assert(bs.subrange(92, 96) =~= u32_bytes(m.cluster_count));
    lemma_le_u32_at(bs, 92, m.cluster_count);
    assert(bs.subrange(96, 100) =~= u32_bytes(m.root_directory_cluster));
    lemma_le_u32_at(bs, 96, m.root_directory_cluster);
    assert(bs.subrange(100, 104) =~= u32_bytes(m.volume_serial_number));
    lemma_le_u32_at(bs, 100, m.volume_serial_number);
    assert(bs.subrange(104, 106) =~= u16_bytes(m.file_system_revision));
    lemma_le_u16_at(bs, 104, m.file_system_revision);
    assert(bs.subrange(106, 108) =~= u16_bytes(m.volume_flags));
    lemma_le_u16_at(bs, 106, m.volume_flags);
    assert(bs.subrange(113, 120) =~= m.reserved@);
    assert(bs.subrange(120, 510) =~= m.boot_code@);
    assert(bs.subrange(510, 512) =~= u16_bytes(m.boot_signature));
    lemma_le_u16_at(bs, 510, m.boot_signature);
}

/// Writing out the boot sector that 512 bytes hold gives the same bytes.
pub proof fn law_mbs_encode_decode(m: MainBootSector, bs: Seq<u8>)
    requires
        decodes(m, bs),
    ensures
        mbs_bytes(m) == bs,
{
    lemma_u64_bytes_of_le(bs, 64);
    lemma_u64_bytes_of_le(bs, 72);
    lemma_u32_bytes_of_le(bs, 80);
    lemma_u32_bytes_of_le(bs, 84);
    lemma_u32_bytes_of_le(bs, 88);
    lemma_u32_bytes_of_le(bs, 92);
    lemma_u32_bytes_of_le(bs, 96);
    lemma_u32_bytes_of_le(bs, 100);
    lemma_u16_bytes_of_le(bs, 104);
    lemma_u16_bytes_of_le(bs, 106);
    lemma_u16_bytes_of_le(bs, 510);
    let e = mbs_bytes(m);
    assert(e.len() == 512);
    assert forall|i: int| 0 <= i < 512 implies e[i] == bs[i] by {
        if i < 3 {
            assert(e[i] == m.jump_boot@[i]);
        } else if i < 11 {
            assert(e[i] == m.oem_name@[i - 3]);
        } else if i < 64 {
            assert(e[i] == m.must_be_zero@[i - 11]);
        } else if i < 72 {
            assert(e[i] == u64_bytes(m.partition_offset)[i - 64]);
            assert(bs.subrange(64, 72)[i - 64] == bs[i]);
        } else if i < 80 {
            assert(e[i] == u64_bytes(m.volume_length)[i - 72]);
            assert(bs.subrange(72, 80)[i - 72] == bs[i]);
        } else if i < 84 {
            assert(e[i] == u32_bytes(m.fat_offset)[i - 80]);
            assert(bs.subrange(80, 84)[i - 80] == bs[i]);
        } else if i < 88 {
            assert(e[i] == u32_bytes(m.fat_length)[i - 84]);
            assert(bs.subrange(84, 88)[i - 84] == bs[i]);
        } else if i < 92 {
            assert(e[i] == u32_bytes(m.cluster_heap_offset)[i - 88]);
            assert(bs.subrange(88, 92)[i - 88] == bs[i]);
        } else if i < 96 {
            assert(e[i] == u32_bytes(m.cluster_count)[i - 92]);
            assert(bs.subrange(92, 96)[i - 92] == bs[i]);
        } else if i < 100 {
            assert(e[i] == u32_bytes(m.root_directory_cluster)[i - 96]);
            assert(bs.subrange(96, 100)[i - 96] == bs[i]);
        } else if i < 104 {
            assert(e[i] == u32_bytes(m.volume_serial_number)[i - 100]);
            assert(bs.subrange(100, 104)[i - 100] == bs[i]);
        } else if i < 106 {
            assert(e[i] == u16_bytes(m.file_system_revision)[i - 104]);
            assert(bs.subrange(104, 106)[i - 104] == bs[i]);
        } else if i < 108 {
            assert(e[i] == u16_bytes(m.volume_flags)[i - 106]);
            assert(bs.subrange(106, 108)[i - 106] == bs[i]);
        } else if i < 113 {
        } else if i < 120 {
            assert(e[i] == m.reserved@[i - 113]);
        } else if i < 510 {
            assert(e[i] == m.boot_code@[i - 120]);
        } else {
            assert(e[i] == u16_bytes(m.boot_signature)[i - 510]);
            assert(bs.subrange(510, 512)[i - 510] == bs[i]);
        }
    }
    assert(e =~= bs);
}

} // verus!
