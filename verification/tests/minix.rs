use fstool::error::FsError;
use fstool::filetype::FileType;
use fstool::fs::{FileSystem, ImageWrite, InodeOperations, SuperblockOperations};
use fstool::minix::create::create;
use fstool::minix::fs::MinixFileSystem;
use fstool::minix::superblock::check_valid;
use fstool::path::{build_path_deref, get_item, split_items};

fn apply(size: usize, writes: &[ImageWrite]) -> Vec<u8> {
    let mut image = vec![0u8; size];
    for w in writes {
        let off = w.offset as usize;
        image[off..off + w.data.len()].copy_from_slice(&w.data);
    }
    image
}

fn fresh(size: u64) -> Vec<u8> {
    let writes = MinixFileSystem::make_filesystem(size, 1_700_000_000).unwrap();
    apply(size as usize, &writes)
}

#[test]
fn minix_mkfs_refuses_bad_sizes() {
    assert_eq!(MinixFileSystem::mkfs(1024 * 1024, 0).err(), Some(FsError::SizeTooSmall));
    assert_eq!(MinixFileSystem::mkfs(0x200_0000 + 1, 0).err(), Some(FsError::SizeNotBlockMultiple));
    assert_eq!(MinixFileSystem::make_filesystem(3000, 0).err(), Some(FsError::SizeNotBlockMultiple));
}

#[test]
fn minix_new_image_is_valid() {
    let image = fresh(8 * 1024 * 1024);
    assert_eq!(check_valid(&image), Ok(true));
    assert_eq!(check_valid(&[0u8; 2048]), Ok(false));
    assert_eq!(check_valid(&[0u8; 100]), Err(FsError::ImageTooShort));
}

#[test]
fn minix_superblock_of_new_image() {
    let writes = MinixFileSystem::make_filesystem(1024 * 1024, 1).unwrap();
    let image = apply(1024 * 1024, &writes);
    let sb = fstool::minix::superblock::Superblock::from_bytes(&image, 1024);
    assert_eq!(sb.num_zones, 1024);
    assert_eq!(sb.num_inodes, 341);
    assert_eq!(sb.block_size, 1024);
    assert!(sb.is_valid());
    let bytes = sb.to_bytes();
    assert_eq!(&bytes[..], &image[1024..1056]);
}

#[test]
fn minix_open_short_image() {
    assert!(matches!(MinixFileSystem::new(vec![0u8; 100]), Err(FsError::ImageTooShort)));
    assert!(matches!(MinixFileSystem::new(vec![0u8; 4096]), Err(FsError::InvalidSuperblock)));
}

#[test]
fn minix_write_then_read() {
    let mut fs = match MinixFileSystem::new(fresh(8 * 1024 * 1024)) {
        Ok(fs) => fs,
        Err(e) => panic!("open failed: {:?}", e),
    };
    assert_eq!(fs.name(), "minix");
    let n = create(&mut fs, &"/hello".to_string(), FileType::Regular).unwrap();
    fs.get_inode_mut(n).unwrap().set_file_type(FileType::Regular);
    let data: Vec<u8> = (0..3000u32).map(|i| (i * 7) as u8).collect();
    assert_eq!(fs.write_file(n, 0, &data), Ok(3000));
    assert_eq!(fs.get_inode(n).unwrap().get_size(), 3000);
    let mut out = vec![0u8; 3000];
    assert_eq!(fs.read_file(n, 0, &mut out), Ok(3000));
    assert_eq!(out, data);
    let mut part = vec![0u8; 10];
    assert_eq!(fs.read_file(n, 1020, &mut part), Ok(10));
    assert_eq!(&part[..], &data[1020..1030]);
    assert_eq!(fs.read_file(n, 3000, &mut part), Err(FsError::OffsetBeyondEof));
}

#[test]
fn minix_truncate_shrinks_and_grows() {
    let mut fs = MinixFileSystem::new(fresh(8 * 1024 * 1024)).unwrap();
    let n = create(&mut fs, &"/t".to_string(), FileType::Regular).unwrap();
    fs.get_inode_mut(n).unwrap().set_file_type(FileType::Regular);
    assert_eq!(fs.write_file(n, 0, &[1u8; 2500]), Ok(2500));
    assert_eq!(fs.truncate(n, 100), Ok(100));
    assert_eq!(fs.get_inode(n).unwrap().get_size(), 100);
    let mut out = vec![0u8; 200];
    assert_eq!(fs.read_file(n, 0, &mut out), Ok(100));
    assert_eq!(&out[..100], &[1u8; 100][..]);
}

#[test]
fn minix_symlink_round_trip() {
    let mut fs = MinixFileSystem::new(fresh(8 * 1024 * 1024)).unwrap();
    let n = create(&mut fs, &"/l".to_string(), FileType::Symlink).unwrap();
    fs.get_inode_mut(n).unwrap().set_file_type(FileType::Symlink);
    let target = "/some/where".to_string();
    assert_eq!(fs.write_symlink(n, &target), Ok(target.len() as u64));
    assert_eq!(fs.read_symlink(n), Ok(target));
}

#[test]
fn minix_unknown_inode() {
    let mut fs = MinixFileSystem::new(fresh(8 * 1024 * 1024)).unwrap();
    assert_eq!(fs.write_file(9999, 0, &[1]), Err(FsError::InvalidInode { inode: 9999 }));
    assert!(matches!(create(&mut fs, &"/x".to_string(), FileType::Invalid), Err(FsError::InvalidFileType)));
}

#[test]
fn minix_tree_lookups() {
    let mut fs = MinixFileSystem::new(fresh(8 * 1024 * 1024)).unwrap();
    let tree = fs.get_tree().unwrap();
    assert!(tree.iter().any(|it| it.name() == "."));
    assert!(get_item(&fs, "/nothing").is_err());
    assert!(split_items(&fs, "/nothing").is_err());
    assert!(build_path_deref(&mut fs, &[], "/nothing").is_err());
}

#[test]
fn an_entry_gives_back_the_name_it_was_made_with() {
    let e = fstool::minix::direntry::DirEntry::new(5, "notes.txt");
    assert_eq!(e.inode, 5);
    assert_eq!(e.name(), "notes.txt");
    let long = "x".repeat(70);
    assert_eq!(fstool::minix::direntry::DirEntry::new(9, &long).name(), "x".repeat(60));
}

#[test]
fn minix_write_then_read_past_direct_zones() {
    let mut fs = MinixFileSystem::new(fresh(8 * 1024 * 1024)).unwrap();
    let n = create(&mut fs, &"/big".to_string(), FileType::Regular).unwrap();
    fs.get_inode_mut(n).unwrap().set_file_type(FileType::Regular);
    let data: Vec<u8> = (0..300_000u32).map(|i| (i % 251) as u8).collect();
    assert_eq!(fs.write_file(n, 5000, &data), Ok(300_000));
    assert_eq!(fs.get_inode(n).unwrap().get_size(), 305_000);
    let mut out = vec![0u8; 300_000];
    assert_eq!(fs.read_file(n, 5000, &mut out), Ok(300_000));
    assert_eq!(out, data);
    let patch = [9u8; 2000];
    assert_eq!(fs.write_file(n, 270_000, &patch), Ok(2000));
    let mut around = vec![0u8; 2002];
    assert_eq!(fs.read_file(n, 269_999, &mut around), Ok(2002));
    assert_eq!(around[0], data[269_999 - 5000]);
    assert_eq!(&around[1..2001], &patch[..]);
    assert_eq!(around[2001], data[272_000 - 5000]);
}

#[test]
fn minix_grow_then_shrink_frees_the_blocks() {
    let mut fs = MinixFileSystem::new(fresh(8 * 1024 * 1024)).unwrap();
    let n = create(&mut fs, &"/g".to_string(), FileType::Regular).unwrap();
    fs.get_inode_mut(n).unwrap().set_file_type(FileType::Regular);
    let before = fs.get_num_blocks();
    assert_eq!(fs.truncate(n, 3000), Ok(3000));
    assert_eq!(fs.truncate(n, 0), Ok(0));
    let after = fs.get_num_blocks();
    assert_eq!(after.taken, before.taken);
    assert_eq!(after.free, before.free);
    assert_eq!(fs.get_inode(n).unwrap().get_blocks(), vec![0u64; 10]);
}
