//! exFAT constants.
use vstd::prelude::*;

verus! {

/// The smallest image the tool formats as exFAT.
pub const MINIMUM_IMAGE_SIZE: u64 = 4096 * 512 * 2;
/// Boot sector signature at bytes 510-511.
pub const BOOT_SIGNATURE: u16 = 0xAA55;
/// The signature at the end of each extended boot sector.
pub const EXTENDED_BOOT_SIGNATURE: u32 = 0xAA550000;
/// The size of the main boot sector.
pub const MAIN_BOOT_SECTOR_SIZE: usize = 512;
/// The size of a sector as a shift (1 << 9 = 512).
pub const MAIN_SECTOR_SHIFT: usize = 9;
/// Clusters 0 and 1 are reserved; data starts at cluster 2.
pub const FIRST_DATA_CLUSTER: u32 = 2;
/// A free cluster in the FAT.
pub const EXFAT_FREE: u32 = 0x0000_0000;
/// A bad cluster.
pub const EXFAT_BAD: u32 = 0xFFFF_FFF7;
/// A cluster value at least this marks the end of a chain.
pub const EXFAT_EOC_MIN: u32 = 0xFFFF_FFF8;
/// The media descriptor entry of the FAT.
pub const EXFAT_MEDIA: u32 = 0xFFFF_FFF8;
/// The end-of-chain marker.
pub const EXFAT_EOC: u32 = 0xFFFF_FFFF;
pub const ATTR_READ_ONLY: u16 = 0x0001;
pub const ATTR_HIDDEN: u16 = 0x0002;
pub const ATTR_SYSTEM: u16 = 0x0004;
pub const ATTR_DIRECTORY: u16 = 0x0010;
pub const ATTR_ARCHIVE: u16 = 0x0020;
pub const TYPE_END_OF_DIR: u8 = 0x00;
pub const TYPE_ALLOC_BITMAP: u8 = 0x81;
pub const TYPE_UPCASE_TABLE: u8 = 0x82;
pub const TYPE_VOLUME_LABEL: u8 = 0x83;
pub const TYPE_FILE: u8 = 0x85;
pub const TYPE_VOLUME_GUID: u8 = 0xA0;
pub const TYPE_TEXFAT_PADDING: u8 = 0xA1;
pub const TYPE_STREAM_EXTENSION: u8 = 0xC0;
pub const TYPE_FILE_NAME: u8 = 0xC1;
/// Bit set in an entry type byte when the entry is in use.
pub const ENTRY_IN_USE_BIT: u8 = 0x80;
/// The size of a directory entry.
pub const ENTRY_SIZE: usize = 32;
pub const GEN_FLAG_ALLOC_POSSIBLE: u8 = 0x01;
pub const GEN_FLAG_NO_FAT_CHAIN: u8 = 0x02;
/// The year that packed timestamps count from.
pub const EXFAT_EPOCH_YEAR: u16 = 1980;
pub const EXFAT_10MS_MAX: u8 = 199;
pub const EXFAT_UTC_UNKNOWN: u8 = 0x00;
/// The checksum of the full Microsoft upcase table.
pub const UPCASE_TABLE_CHECKSUM: u32 = 0xE619_D30D;
/// The number of UTF-16 code units in the upcase table.
pub const UPCASE_TABLE_CHARS: usize = 65536;
pub const MAX_NAME_LENGTH: usize = 255;
pub const NAME_CHARS_PER_ENTRY: usize = 15;
pub const MAX_FILE_NAME_ENTRIES: usize = 17;
pub const MAX_SECONDARY_COUNT: u8 = 18;
pub const MAX_VOLUME_LABEL_LENGTH: usize = 11;
/// The length of the boot code that prints the boot message.
pub const BOOTCODE_LEN: usize = 29;

/// The boot code of a new volume: it prints its message and waits for a
/// key.
pub fn bootcode() -> (r: [u8; 29])
    ensures
        r@ == spec_bootcode(),
{
    [
        0x0e, 0x1f, 0xbe, 0x00, 0x68, 0xac, 0x22, 0xc0, 0x74, 0x0b, 0x56, 0xb4, 0x0e, 0xbb, 0x07, 0x00, 0xcd,
        0x10, 0x5e, 0xeb, 0xf0, 0x32, 0xe4, 0xcd, 0x16, 0xcd, 0x19, 0xeb, 0xfe,
    ]
}

/// The boot code bytes.
pub open spec fn spec_bootcode() -> Seq<u8> {
    seq![
        0x0eu8, 0x1f, 0xbe, 0x00, 0x68, 0xac, 0x22, 0xc0, 0x74, 0x0b, 0x56, 0xb4, 0x0e, 0xbb, 0x07, 0x00,
        0xcd, 0x10, 0x5e, 0xeb, 0xf0, 0x32, 0xe4, 0xcd, 0x16, 0xcd, 0x19, 0xeb, 0xfe,
    ]
}

/// The message that the boot code prints.
pub const BOOTCODE_MSG: &'static str = "This exFAT/GPT volume is not bootable.\r\nPlease insert a bootable disk and press any key to try again.\r\n";

} // verus!
