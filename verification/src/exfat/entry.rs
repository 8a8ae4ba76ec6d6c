//! exFAT directory entries. Each entry is 32 bytes; all fields are
//! little-endian.
use crate::bytes::{array_at, le_u32, le_u64, read_u32, read_u64};
use vstd::prelude::*;

verus! {

/// Points to the clusters that hold the allocation bitmap, one bit per data
/// cluster (0 free, 1 allocated).
///
/// On TexFAT volumes (two FATs) there are two such entries; bit 0 of
/// `bitmap_flags` tells them apart.
#[derive(Debug)]
pub struct AllocBitmapEntry {
    /// `TYPE_ALLOC_BITMAP` (0x81).
    pub entry_type: u8,
    /// Bit 0: 0 for the first allocation bitmap, 1 for the second.
    pub bitmap_flags: u8,
    /// Reserved; zero.
    pub reserved: [u8; 18],
    /// The first cluster of the bitmap.
    pub first_cluster: u32,
    /// The size of the bitmap in bytes, `ceil(cluster_count / 8)`.
    pub data_length: u64,
}

impl AllocBitmapEntry {
    /// The entry stored in the 32 bytes `bytes`: type at 0, flags at 1,
    /// reserved bytes 2-19, first cluster at 20, data length at 24.
    pub fn from_bytes(bytes: &[u8]) -> (r: Self)
        requires
            bytes@.len() == 32,
        ensures
            r.entry_type == bytes@[0],
            r.bitmap_flags == bytes@[1],
            r.reserved@ == bytes@.subrange(2, 20),
            r.first_cluster == le_u32(bytes@, 20),
            r.data_length == le_u64(bytes@, 24),
    {
        AllocBitmapEntry {
            entry_type: bytes[0],
            bitmap_flags: bytes[1],
            reserved: array_at(bytes, 2),
            first_cluster: read_u32(bytes, 20),
            data_length: read_u64(bytes, 24),
        }
    }

    pub fn get_first_cluster(&self) -> (r: u32)
        ensures
            r == self.first_cluster,
    {
        self.first_cluster
    }

    pub fn get_data_length(&self) -> (r: u64)
        ensures
            r == self.data_length,
    {
        self.data_length
    }
}

/// Points to the upcase table: 65536 `u16` values that map each code unit
/// to its upper case, used to compare names without regard to case.
#[derive(Debug)]
pub struct UpcaseTableEntry {
    /// `TYPE_UPCASE_TABLE` (0x82).
    pub entry_type: u8,
    /// Reserved; zero.
    pub reserved1: [u8; 3],
    /// The CRC-32 of the table's bytes.
    pub table_checksum: u32,
    /// Reserved; zero.
    pub reserved2: [u8; 12],
    /// The size of the table in bytes.
    pub data_length: u64,
    /// The first cluster of the table.
    pub first_cluster: u32,
}

/// The volume label, up to 11 UTF-16 code units. There is at most one;
/// without it the volume has no label.
#[derive(Debug)]
pub struct VolumeLabelEntry {
    /// `TYPE_VOLUME_LABEL` (0x83).
    pub entry_type: u8,
    /// The number of code units in `volume_label` (0-11).
    pub character_count: u8,
    /// The label, zero padded.
    pub volume_label: [u16; 11],
    /// Reserved; zero.
    pub reserved: [u8; 8],
}

/// The primary entry of every file and directory. It is followed by
/// `secondary_count` secondary entries: a stream extension, then one or
/// more file name entries. `set_checksum` is a CRC-16 over the whole set,
/// computed with this field taken as zero.
#[derive(Debug)]
pub struct FileEntry {
    /// `TYPE_FILE` (0x85).
    pub entry_type: u8,
    /// The number of secondary entries (2-18).
    pub secondary_count: u8,
    pub set_checksum: u16,
    /// Attribute bits (`ATTR_*`).
    pub file_attributes: u16,
    pub reserved1: u16,
    /// Packed creation timestamp.
    pub create_time: u32,
    /// Packed modification timestamp.
    pub modified_time: u32,
    /// Packed access timestamp.
    pub access_time: u32,
    /// 10ms increments of the creation time (0-199).
    pub create_time_10ms: u8,
    /// 10ms increments of the modification time (0-199).
    pub modified_time_10ms: u8,
    /// UTC offsets in 15 minute steps; 0 means none recorded.
    pub create_utc_offset: u8,
    pub modified_utc_offset: u8,
    pub access_utc_offset: u8,
    pub reserved2: [u8; 7],
}

/// The first secondary entry of a set: the file's size, first cluster and
/// the `NoFatChain` flag. `valid_data_length` is at most `data_length`,
/// which is a whole number of clusters.
#[derive(Debug)]
pub struct StreamExtensionEntry {
    /// `TYPE_STREAM_EXTENSION` (0xC0).
    pub entry_type: u8,
    /// `GEN_FLAG_*` bits; with `GEN_FLAG_NO_FAT_CHAIN` the clusters are
    /// contiguous.
    pub general_secondary_flags: u8,
    pub reserved1: u8,
    /// The length of the name in UTF-16 code units (1-255).
    pub name_length: u8,
    /// A hash of the upcased name, to skip names that cannot match.
    pub name_hash: u16,
    pub reserved2: u16,
    /// The number of bytes written.
    pub valid_data_length: u64,
    pub reserved3: u32,
    /// The first cluster of the data; 0 for an empty file.
    pub first_cluster: u32,
    /// The allocated size in bytes.
    pub data_length: u64,
}

/// Up to 15 UTF-16 code units of a file name. The entries follow the
/// stream extension in the order of the name.
#[derive(Debug)]
pub struct FileNameEntry {
    /// `TYPE_FILE_NAME` (0xC1).
    pub entry_type: u8,
    /// Zero for name entries.
    pub general_secondary_flags: u8,
    /// The code units, zero padded.
    pub file_name: [u16; 15],
}

/// An optional root directory entry that identifies the volume by a GUID.
#[derive(Debug)]
pub struct VolumeGuidEntry {
    /// `TYPE_VOLUME_GUID` (0xA0).
    pub entry_type: u8,
    /// Zero.
    pub secondary_count: u8,
    /// The CRC-16 of this entry, computed with this field taken as zero.
    pub set_checksum: u16,
    /// Zero.
    pub general_primary_flags: u16,
    /// The GUID in RFC 4122 byte order.
    pub volume_guid: [u8; 16],
    pub reserved: [u8; 10],
}

} // verus!
