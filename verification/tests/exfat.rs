use fstool::error::FsError;
use fstool::exfat::entry::AllocBitmapEntry;
use fstool::exfat::fs::{check_valid, ExfatFileSystem};
use fstool::exfat::inode::ExfatInode;
use fstool::exfat::mbs::MainBootSector;
use fstool::exfat::mkfs::{
    boot_checksum, crc32, exfat_layout, generate_upcase_table, make_filesystem, mkfs, volume_serial,
};
use fstool::exfat::timestamp::ExfatTimestamp;
use fstool::filetype::FileType;
use fstool::fs::{ImageWrite, InodeOperations};

fn stamp(year: u16, month: u8, day: u8, hour: u8, minute: u8, second: u8) -> ExfatTimestamp {
    ExfatTimestamp { year, month, day, hour, minute, second, increment_ms: 0, utc_offset: i16::MIN }
}

fn apply(size: usize, writes: &[ImageWrite]) -> Vec<u8> {
    let mut image = vec![0u8; size];
    for w in writes {
        let off = w.offset as usize;
        image[off..off + w.data.len()].copy_from_slice(&w.data);
    }
    image
}

#[test]
fn timestamp_pack_exact() {
    assert_eq!(stamp(2024, 6, 8, 12, 30, 44).pack(), 0x58c8_63d6);
}

#[test]
fn timestamp_unpack_pack_round_trip() {
    let t = stamp(2024, 6, 8, 12, 30, 44);
    assert_eq!(ExfatTimestamp::unpack(t.pack()), t);
}

#[test]
fn timestamp_pack_unpack_keeps_low_bits() {
    let x: u64 = 0x1_2345_6789;
    assert_eq!(ExfatTimestamp::unpack(x).pack(), x & 0xFFFF_FFFF);
}

#[test]
fn timestamp_odd_second_rounds_down() {
    let t = stamp(1980, 1, 1, 0, 0, 59);
    assert_eq!(ExfatTimestamp::unpack(t.pack()).second, 58);
}

#[test]
fn alloc_bitmap_entry_fields() {
    let mut b = [0u8; 32];
    b[0] = 0x81;
    b[1] = 1;
    b[20..24].copy_from_slice(&7u32.to_le_bytes());
    b[24..32].copy_from_slice(&0x1234_5678_9abcu64.to_le_bytes());
    let e = AllocBitmapEntry::from_bytes(&b);
    assert_eq!(e.entry_type, 0x81);
    assert_eq!(e.bitmap_flags, 1);
    assert_eq!(e.get_first_cluster(), 7);
    assert_eq!(e.get_data_length(), 0x1234_5678_9abc);
}

#[test]
fn boot_sector_default_is_valid() {
    let m = MainBootSector::default();
    assert!(m.is_valid());
    assert_eq!(m.bytes_per_sector_shift, 9);
    assert_eq!(m.sectors_per_cluster_shift, 3);
    assert_eq!(m.get_block_size(), 4096);
    let bytes = m.to_bytes();
    assert_eq!(bytes.len(), 512);
    assert_eq!(&bytes[3..11], b"EXFAT   ");
    assert_eq!(&bytes[510..512], &[0x55, 0xAA]);
    assert_eq!(&bytes[0..3], &[0xEB, 0x76, 0x90]);
    assert_eq!(bytes[120], 0x0e);
    assert_eq!(&bytes[149..153], b"This");
}

#[test]
fn boot_sector_bytes_round_trip() {
    let mut m = MainBootSector::default();
    m.volume_length = 0x0102_0304_0506_0708;
    m.fat_offset = 24;
    m.cluster_count = 99;
    m.volume_serial_number = 0xdead_beef;
    let bytes = m.to_bytes();
    let back = MainBootSector::from_bytes(&bytes);
    assert_eq!(back.volume_length, m.volume_length);
    assert_eq!(back.fat_offset, 24);
    assert_eq!(back.cluster_count, 99);
    assert_eq!(back.volume_serial_number, 0xdead_beef);
    assert_eq!(back.to_bytes(), bytes);
}

#[test]
fn boot_sector_wrong_name_is_invalid() {
    let mut m = MainBootSector::default();
    m.oem_name[0] = b'F';
    assert!(!m.is_valid());
    let mut m = MainBootSector::default();
    m.boot_signature = 0;
    assert!(!m.is_valid());
}

#[test]
fn boot_sector_geometry() {
    let mut m = MainBootSector::default();
    m.cluster_heap_offset = 40;
    m.sectors_per_cluster_shift = 2;
    assert_eq!(m.sectors_to_bytes(3), 1536);
    assert_eq!(m.clusters_to_bytes(3), 6144);
    assert_eq!(m.cluster_byte_offset(2), 40 * 512);
    assert_eq!(m.cluster_byte_offset(5), 40 * 512 + 3 * 2048);
    assert_eq!(m.cluster_byte_offset(0), 40 * 512);
    assert_eq!(m.get_num_inodes().free, u64::MAX);
}

#[test]
fn check_valid_exfat_image() {
    let bytes = MainBootSector::default().to_bytes();
    assert_eq!(check_valid(&bytes), Ok(true));
    assert_eq!(check_valid(&[0u8; 512]), Ok(false));
    assert_eq!(check_valid(&[0u8; 100]), Err(FsError::UnexpectedEof));
}

#[test]
fn crc32_check_value() {
    assert_eq!(crc32(b"123456789"), 0xFC89_1918);
}

#[test]
fn upcase_table_maps_letters() {
    let t = generate_upcase_table();
    assert_eq!(t.len(), 131072);
    assert_eq!(u16::from_le_bytes([t[0x61 * 2], t[0x61 * 2 + 1]]), 0x41);
    assert_eq!(u16::from_le_bytes([t[0x41 * 2], t[0x41 * 2 + 1]]), 0x41);
    assert_eq!(u16::from_le_bytes([t[0x430 * 2], t[0x430 * 2 + 1]]), 0x410);
    assert_eq!(u16::from_le_bytes([t[0xF7 * 2], t[0xF7 * 2 + 1]]), 0xF7);
    assert_eq!(crc32(&t), 0x0685_6b66);
}

#[test]
fn boot_checksum_skips_flag_bytes() {
    let bytes: Vec<u8> = (0..200u32).map(|i| i as u8).collect();
    assert_eq!(boot_checksum(&bytes), 0x1fff_fd0c);
    let mut changed = bytes.clone();
    changed[106] = 0xff;
    changed[107] = 0xff;
    changed[112] = 0xff;
    assert_eq!(boot_checksum(&changed), 0x1fff_fd0c);
}

#[test]
fn layout_of_small_volume() {
    let l = exfat_layout(4 * 1024 * 1024).unwrap();
    assert_eq!(l.spc, 4);
    assert_eq!(l.volume_length, 8192);
    assert_eq!(l.fat_offset, 24);
    assert_eq!(l.fat_length, 16);
    assert_eq!(l.cluster_heap_offset, 40);
    assert_eq!(l.cluster_count, 2038);
    assert_eq!(l.bitmap_bytes, 255);
    assert_eq!(l.bitmap_clusters, 1);
    assert_eq!(l.upcase_start, 3);
    assert_eq!(l.upcase_clusters, 64);
    assert_eq!(l.root_start, 67);
    assert_eq!(l.used_clusters, 66);
    assert_eq!(l.percent_in_use, 3);
}

#[test]
fn layout_of_larger_volume() {
    let l = exfat_layout(300 * 1024 * 1024).unwrap();
    assert_eq!(l.spc, 8);
    assert_eq!(l.fat_length, 600);
    assert_eq!(l.cluster_count, 76722);
    assert_eq!(l.root_start, 37);
}

#[test]
fn layout_too_small() {
    assert!(matches!(exfat_layout(1024 * 1024), Err(FsError::SizeTooSmall)));
    assert!(matches!(mkfs(4096), Err(FsError::SizeTooSmall)));
}

#[test]
fn volume_serial_formula() {
    assert_eq!(volume_serial(1, 5), 4);
    assert_eq!(volume_serial(1_700_000_000, 123), 0x9aac_0f7b);
}

#[test]
fn new_volume_reads_back() {
    let size = 4 * 1024 * 1024;
    let writes = make_filesystem(size as u64, 0x1234_5678).unwrap();
    assert_eq!(writes.len(), 6);
    assert_eq!(writes[0].offset, 0);
    assert_eq!(writes[1].offset, 6144);
    assert_eq!(writes[0].data, writes[1].data);
    assert_eq!(writes[2].offset, 24 * 512);
    assert_eq!(writes[3].offset, 40 * 512);
    let image = apply(size, &writes);
    assert_eq!(check_valid(&image), Ok(true));
    let fs = ExfatFileSystem::new(image).unwrap();
    assert_eq!(fs.mbs.volume_serial_number, 0x1234_5678);
    assert_eq!(fs.mbs.cluster_count, 2038);
    assert_eq!(fs.mbs.root_directory_cluster, 67);
    assert_eq!(fs.fat[0], 0xFFFF_FFF8);
    assert_eq!(fs.fat[2], 0xFFFF_FFFF);
    assert_eq!(fs.fat[3], 4);
    assert_eq!(fs.fat[66], 0xFFFF_FFFF);
    assert_eq!(fs.fat[67], 0xFFFF_FFFF);
    assert_eq!(fs.fat[68], 0);
    assert_eq!(fs.bitmap.max, 255);
    assert_eq!(fs.bitmap.map.len(), 2048);
    assert_eq!(&fs.bitmap.map[0..9], &[0xFF, 0xFF, 0xFF, 0xFF, 0xFF, 0xFF, 0xFF, 0xFF, 0x03]);
    assert_eq!(fs.bitmap.map[9], 0);
}

#[test]
fn boot_region_checksum_sector() {
    let writes = make_filesystem(4 * 1024 * 1024, 7).unwrap();
    let region = &writes[0].data;
    assert_eq!(region.len(), 12 * 512);
    let csum = boot_checksum(&region[..11 * 512]);
    for i in 0..128 {
        assert_eq!(&region[11 * 512 + 4 * i..11 * 512 + 4 * i + 4], &csum.to_le_bytes());
    }
    assert_eq!(&region[512 + 508..1024], &0xAA55_0000u32.to_le_bytes());
}

#[test]
fn new_volume_without_bitmap_entry() {
    let size = 4 * 1024 * 1024;
    let writes = make_filesystem(size as u64, 1).unwrap();
    let mut image = apply(size, &writes);
    let root = writes[5].offset as usize;
    image[root] = 0;
    assert!(matches!(ExfatFileSystem::new(image), Err(FsError::NoBitmap)));
}

#[test]
fn short_image_is_refused() {
    assert!(matches!(ExfatFileSystem::new(vec![0u8; 100]), Err(FsError::UnexpectedEof)));
}

#[test]
fn exfat_blocks_go_through_the_cache() {
    let size = 4 * 1024 * 1024;
    let writes = make_filesystem(size as u64, 1).unwrap();
    let mut fs = ExfatFileSystem::new(apply(size, &writes)).unwrap();
    assert_eq!(fs.name(), "exFAT");
    let mut buf = vec![0u8; 4];
    fs.read_block(67, &mut buf).unwrap();
    assert_eq!(buf, vec![0x81, 0, 0, 0]);
    fs.write_block(67, &[9, 8, 7]).unwrap();
    let mut buf = vec![0u8; 4];
    fs.read_block(67, &mut buf).unwrap();
    assert_eq!(buf, vec![9, 8, 7, 0]);
    assert!(matches!(fs.link(1, &"/a".to_string()), Err(FsError::HardLinksNotSupported)));
    assert!(matches!(fs.read_symlink(1), Err(FsError::SymlinksNotSupported)));
}

#[test]
fn exfat_inode_operations() {
    let mut ino = ExfatInode {
        first_cluster: 5,
        valid_data_length: 10,
        data_length: 4096,
        file_type: FileType::Regular,
        no_fat_chain: false,
        name_hash: 0,
        name: "a".to_string(),
        create_time: stamp(2000, 1, 1, 0, 0, 0),
        modified_time: stamp(2000, 1, 1, 0, 0, 0),
        access_time: stamp(2000, 1, 1, 0, 0, 0),
        dir_entry_offset: 0,
        secondary_count: 2,
        cluster_chain: vec![5, 6],
    };
    assert_eq!(ino.get_mode(), 0o755);
    ino.set_mode(0o600);
    assert_eq!(ino.get_mode(), 0o755);
    ino.set_file_type(FileType::Symlink);
    assert_eq!(ino.get_file_type(), FileType::Regular);
    ino.set_file_type(FileType::Directory);
    assert_eq!(ino.get_file_type(), FileType::Directory);
    ino.set_atime(0x58c8_63d6);
    assert_eq!(ino.get_atime(), 0x58c8_63d6);
    assert_eq!(ino.get_blocks(), vec![5, 6]);
    ino.set_blocks(&[7, 0x1_0000_0008]);
    assert_eq!(ino.cluster_chain, vec![7, 8]);
    assert_eq!(ino.get_nlinks(), 1);
    assert_eq!(ino.get_size(), 10);
}

#[test]
fn timestamps_convert_with_into() {
    let t = stamp(2024, 6, 8, 12, 30, 44);
    let packed: u64 = t.into();
    assert_eq!(packed, 0x58c8_63d6);
    let back: ExfatTimestamp = packed.into();
    assert_eq!(back, t);
}
