use fstool::align_up;
use fstool::args::{parse_octal, parse_size_string, ParseIntError};
use fstool::bitmap::Bitmap;
use fstool::cache::{BlockCache, CachePolicy, Item};
use fstool::error::FsError;
use fstool::filetype::FileType;
use fstool::fs::AllocationData;
use fstool::path::{build_path_noderef, fname_from_path, split_path};
use fstool::stat::{make_combined_list, parse_symbolic_mode, time_text_or_invalid, ModeError, Stat};

#[test]
fn split_path_doc_examples() {
    assert_eq!(split_path("/foo/bar/../baz"), vec!["foo", "bar", "..", "baz"]);
    assert_eq!(split_path("/"), Vec::<&str>::new());
    assert_eq!(split_path("a//b/"), vec!["a", "b"]);
}

#[test]
fn fname_from_path_doc_examples() {
    assert_eq!(fname_from_path("/foo/bar/baz.txt"), "baz.txt");
    assert_eq!(fname_from_path("plain"), "plain");
}

#[test]
fn build_path_noderef_joins_cwd() {
    let cwd = vec!["home".to_string(), "user".to_string()];
    assert_eq!(build_path_noderef(&cwd, "notes"), "/home/user/notes");
    assert_eq!(build_path_noderef(&cwd, "/etc/passwd"), "/etc/passwd");
    assert_eq!(build_path_noderef(&[], "x"), "/x");
}

#[test]
fn align_up_rounds_to_power_of_two() {
    assert_eq!(align_up(24, 8), 24);
    assert_eq!(align_up(25, 8), 32);
    assert_eq!(align_up(0, 4), 0);
    assert_eq!(align_up(1, 1), 1);
    assert_eq!(align_up(129, 128), 256);
}

#[test]
fn parse_size_suffixes() {
    assert_eq!(parse_size_string(&"4K".to_string()), Ok(4096));
    assert_eq!(parse_size_string(&"2m".to_string()), Ok(2 * 1024 * 1024));
    assert_eq!(parse_size_string(&"1G".to_string()), Ok(1 << 30));
    assert_eq!(parse_size_string(&"1T".to_string()), Ok(1 << 40));
    assert_eq!(parse_size_string(&"1234".to_string()), Ok(1234));
    assert_eq!(parse_size_string(&"".to_string()), Err(ParseIntError::Empty));
    assert_eq!(parse_size_string(&"12x".to_string()), Err(ParseIntError::InvalidDigit));
    assert_eq!(parse_size_string(&"99999999999999999999".to_string()), Err(ParseIntError::PosOverflow));
}

#[test]
fn parse_octal_umask() {
    assert_eq!(parse_octal("022"), Ok(0o22));
    assert_eq!(parse_octal("777"), Ok(0o777));
    assert_eq!(parse_octal("8"), Err(ParseIntError::InvalidDigit));
    assert_eq!(parse_octal(""), Err(ParseIntError::Empty));
    assert_eq!(parse_octal("7777777"), Err(ParseIntError::PosOverflow));
}

#[test]
fn symbolic_modes() {
    assert_eq!(parse_symbolic_mode("755", 0, false), Ok(0o755));
    assert_eq!(parse_symbolic_mode("4755", 0, false), Ok(0o4755));
    assert_eq!(parse_symbolic_mode("u+x", 0o644, false), Ok(0o744));
    assert_eq!(parse_symbolic_mode("a=rw", 0o777, false), Ok(0o666));
    assert_eq!(parse_symbolic_mode("u+s,g-w,o=", 0o775, false), Ok(0o4750));
    assert_eq!(parse_symbolic_mode("+X", 0o644, false), Ok(0o644));
    assert_eq!(parse_symbolic_mode("+X", 0o644, true), Ok(0o755));
    assert_eq!(parse_symbolic_mode("+X", 0o744, false), Ok(0o755));
    assert_eq!(parse_symbolic_mode("u+x,g+X", 0o644, false), Ok(0o744));
    assert!(matches!(parse_symbolic_mode("u", 0o644, false), Err(ModeError::MissingOperator { .. })));
    assert!(matches!(parse_symbolic_mode("u+q", 0o644, false), Err(ModeError::InvalidPermission { .. })));
}

#[test]
fn stat_fields() {
    let s = Stat {
        dev: 0,
        ino: 1,
        mode: 0o100644,
        nlink: 1,
        uid: 0,
        gid: 0,
        rdev: (3 << 8) | 7,
        size: 0,
        blksize: 1024,
        blocks: 0,
        atime: 0,
        mtime: 0,
        ctime: 0,
    };
    assert_eq!(s.permissions(), 0o644);
    assert_eq!(s.file_type(), FileType::Regular);
}

#[test]
fn file_type_mode_bits_round_trip() {
    for ft in [
        FileType::Directory,
        FileType::Regular,
        FileType::Symlink,
        FileType::BlockDevice,
        FileType::CharacterDevice,
        FileType::Fifo,
        FileType::Socket,
    ] {
        assert_eq!(FileType::from_mode(ft.to_mode_bits()), ft);
    }
    assert_eq!(FileType::from_mode(0), FileType::Invalid);
}

#[test]
fn bitmap_next_and_take() {
    let mut b = Bitmap::take(vec![0xFF, 0x0F, 0x00], 24);
    assert_eq!(b.len(), 3);
    assert_eq!(b.next(), Some(12));
    assert_eq!(b.take_next(), Some(12));
    assert_eq!(b.is_set(12), Ok(true));
    assert_eq!(b.next(), Some(13));
    assert_eq!(b.count_taken(), 13);
    assert_eq!(b.count_free(), 11);
    assert_eq!(b.clear(0), Ok(()));
    assert_eq!(b.next(), Some(0));
    assert_eq!(b.set(100), Err(FsError::IndexOutOfBounds));
    assert!(b.is_index_ok(24));
    assert!(!b.is_index_ok(32));
}

#[test]
fn bitmap_full() {
    let b = Bitmap::take(vec![0xFF, 0xFF], 16);
    assert_eq!(b.next(), None);
}

#[test]
fn allocation_totals() {
    let a = AllocationData::new(3, 4);
    assert_eq!(a.total(), 7);
}

#[test]
fn cache_write_then_read() {
    let mut c = BlockCache::new(CachePolicy::Lru);
    assert!(c.insert_write(5, vec![1, 2, 3]));
    let mut out = vec![0u8; 5];
    assert!(c.copy_block_to(5, &mut out));
    assert_eq!(out, vec![1, 2, 3, 0, 0]);
    assert!(!c.copy_block_to(6, &mut out));
    let dirty = c.for_each_dirty();
    assert_eq!(dirty, vec![(5, vec![1, 2, 3])]);
    c.clean_all();
    assert!(c.for_each_dirty().is_empty());
    c.clear();
    assert!(c.get(5).is_none());
}

#[test]
fn cache_refuses_reads_when_full() {
    let mut c = BlockCache::default();
    for b in 0..20u64 {
        assert!(c.insert_read(b, vec![b as u8]));
    }
    assert!(c.is_full());
    assert!(!c.insert_read(99, vec![0]));
    assert!(c.insert_write(99, vec![0]));
}

#[test]
fn tree_items() {
    let f = Item::new_file("a".to_string(), 3);
    assert!(!f.is_dir());
    assert_eq!(f.inode(), 3);
    assert_eq!(f.name(), "a");
    let l = Item::new_symlink("l".to_string(), 4, "/a".to_string());
    assert!(l.is_symlink());
    assert_eq!(l.symlink_target(), Some("/a".to_string()));
    let d = Item::new_dir("d".to_string(), 5, vec![f]);
    assert!(d.is_dir());
    assert_eq!(d.next().unwrap().len(), 1);
    assert_eq!(Item::new("x".to_string(), 9, FileType::Directory).next().unwrap().len(), 0);
}

#[test]
fn combined_list_of_inode() {
    let mut ino = fstool::minix::inode::Inode {
        mode: 0o040755,
        nlinks: 1,
        uid: 0,
        gid: 0,
        size: 0,
        atime: 0,
        mtime: 0,
        ctime: 0,
        zones: [0; 10],
    };
    assert_eq!(make_combined_list(&ino), "drwxr-xr-x");
    ino.mode = 0o100640;
    assert_eq!(make_combined_list(&ino), "-rw-r-----");
}

#[test]
fn a_missing_local_time_reads_invalid() {
    assert_eq!(time_text_or_invalid(None), "invalid");
    assert_eq!(time_text_or_invalid(Some("2024-01-01 00:00:00 +0000".to_string())), "2024-01-01 00:00:00 +0000");
}

#[test]
fn mkfs_sizes_near_a_multiple_of_four_gib_are_refused() {
    assert!(fstool::minix::fs::MinixFileSystem::mkfs_size_ok(0x200_0000));
    assert!(!fstool::minix::fs::MinixFileSystem::mkfs_size_ok(0x1_0000_0000 + 1024));
    assert!(fstool::mzfat::mkfs::mkfs_size_ok(64 * 1024 * 1024));
    assert!(!fstool::mzfat::mkfs::mkfs_size_ok(4096));
}

#[test]
fn clearing_a_bit_just_set_gives_back_the_map() {
    let mut b = Bitmap::take(vec![0b1010_0101, 0x00, 0xFF], 24);
    let before = b.get_map().to_vec();
    assert_eq!(b.set(9), Ok(()));
    assert_ne!(b.get_map().to_vec(), before);
    assert_eq!(b.clear(9), Ok(()));
    assert_eq!(b.get_map().to_vec(), before);
}

#[test]
fn take_next_takes_the_bit_next_names() {
    let mut b = Bitmap::take(vec![0xFF, 0b1111_0111, 0x00], 24);
    let named = b.next();
    assert_eq!(named, Some(11));
    assert_eq!(b.take_next(), named);
    assert_eq!(b.is_set(11), Ok(true));
    assert_eq!(b.next(), Some(16));
}

#[test]
fn taken_bits_are_the_ones_of_the_bytes() {
    let map = vec![0b1011_0001u8, 0xFF, 0x00, 0b0100_0010];
    let b = Bitmap::take(map.clone(), 32);
    let ones: u32 = map.iter().map(|x| x.count_ones()).sum();
    assert_eq!(b.count_taken() as u32, ones);
    assert_eq!(b.count_taken() + b.count_free(), 32);
}
