use fstool::filetype::FileType;
use fstool::mzfat::entry::Entry;
use fstool::mzfat::mkfs::{mkfs, mkfs_superblock};
use fstool::mzfat::superblock::{check_valid, Superblock};

#[test]
fn mzfat_superblock_of_16_mib() {
    let s = mkfs_superblock(16 * 1024 * 1024);
    assert_eq!(s.block_shift, 10);
    assert_eq!(s.fat_block_offset, 1);
    assert_eq!(s.fat_num_blocks, 7);
    assert_eq!(s.bitmap_block_offset, 8);
    assert_eq!(s.bitmap_num_blocks, 1);
    assert_eq!(s.root_block_offset, 9);
    assert_eq!(s.num_data_blocks, 4087);
    assert_eq!(s.magic, 0xF4A2);
}

#[test]
fn mzfat_superblock_of_1_gib() {
    let s = mkfs_superblock(1024 * 1024 * 1024);
    assert_eq!(s.fat_num_blocks, 259);
    assert_eq!(s.bitmap_num_blocks, 8);
    assert_eq!(s.root_block_offset, 268);
    assert_eq!(s.num_data_blocks, 261876);
}

#[test]
fn mzfat_superblock_round_trip() {
    let s = mkfs_superblock(16 * 1024 * 1024);
    let b = s.to_bytes();
    assert_eq!(b.len(), 16);
    assert_eq!(&b[14..16], &[0xA2, 0xF4]);
    assert_eq!(Superblock::from_bytes(&b), s);
    assert_eq!(s.get_block_size(), 1024);
    assert_eq!(s.get_num_inodes().taken, 0);
}

#[test]
fn mzfat_mkfs_writes_superblock() {
    let w = mkfs(16 * 1024 * 1024);
    assert_eq!(w.len(), 1);
    assert_eq!(w[0].offset, 0);
    let mut image = vec![0u8; 4096];
    image[..16].copy_from_slice(&w[0].data);
    assert!(check_valid(&image));
    assert!(!check_valid(&[0u8; 16]));
    assert!(!check_valid(&[0xA2]));
}

#[test]
fn mzfat_entry_operations() {
    let mut e = Entry::default();
    e.set_file_type(FileType::Directory);
    e.set_mode(0o750);
    assert_eq!(e.get_file_type(), FileType::Directory);
    assert_eq!(e.get_mode(), 0o750);
    e.set_file_type(FileType::Fifo);
    assert_eq!(e.get_file_type(), FileType::Regular);
    e.set_uid(0x1_0005);
    assert_eq!(e.get_uid(), 5);
    e.set_atime(0x1_0000_0007);
    assert_eq!(e.get_atime(), 7);
    e.set_size(99);
    assert_eq!(e.get_size(), 99);
    assert_eq!(e.get_nlinks(), 1);
    assert_eq!(e.get_node(), (0, 0));
}
