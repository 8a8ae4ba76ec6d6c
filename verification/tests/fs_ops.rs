use fstool::cache::CachePolicy;
use fstool::cache::BlockCache;
use fstool::error::FsError;
use fstool::filetype::FileType;
use fstool::fs::{FileSystem, ImageWrite, InodeOperations};
use fstool::minix::create::create;
use fstool::minix::fs::MinixFileSystem;
use fstool::repl::cat::{block_lines, hexdump_lines};
use fstool::repl::dir::mkdir_at;
use fstool::repl::ls::{long_row, ls_list, LsEntry};
use fstool::repl::outcome::CmdError;
use fstool::repl::xfer::read_chunks;
use fstool::path::{find_parent_ref, get_item};
use fstool::repl::xfer::{copy, put_data, update_dotdot};

fn apply(size: usize, writes: &[ImageWrite]) -> Vec<u8> {
    let mut image = vec![0u8; size];
    for w in writes {
        let off = w.offset as usize;
        image[off..off + w.data.len()].copy_from_slice(&w.data);
    }
    image
}

fn open_fresh() -> MinixFileSystem {
    let size: u64 = 8 * 1024 * 1024;
    let writes = MinixFileSystem::make_filesystem(size, 1_700_000_000).unwrap();
    MinixFileSystem::new(apply(size as usize, &writes)).unwrap()
}

fn regular_file(fs: &mut MinixFileSystem, path: &str, len: usize) -> u64 {
    let n = create(fs, &path.to_string(), FileType::Regular).unwrap();
    fs.get_inode_mut(n).unwrap().set_file_type(FileType::Regular);
    let data: Vec<u8> = (0..len as u32).map(|i| (i % 251) as u8).collect();
    assert_eq!(fs.write_file(n, 0, &data), Ok(len as u64));
    n
}

#[test]
fn block_dump_has_a_line_per_sixteen_bytes_and_the_size() {
    let mut fs = open_fresh();
    let first = fs.superblock.first_data_zone as u64;
    let lines = block_lines(&mut fs, first).unwrap();
    assert_eq!(lines.len(), 1024 / 16 + 1);
    assert_eq!(lines[lines.len() - 1], "00000400");
    assert!(lines[1].starts_with("00000010  "));
}

#[test]
fn block_dump_of_a_block_before_the_data_zones_fails() {
    let mut fs = open_fresh();
    assert!(matches!(block_lines(&mut fs, 0), Err(FsError::BlockBeforeDataZone { .. })));
}

#[test]
fn hexdump_of_a_range_ends_with_its_length() {
    let mut fs = open_fresh();
    let n = regular_file(&mut fs, "/data", 100);
    let lines = hexdump_lines(&mut fs, n, 100, 0, 40).unwrap();
    assert_eq!(lines.len(), 4);
    assert_eq!(lines[3], "00000028");
    assert!(lines[0].starts_with("00000000  00 01 02"));
}

#[test]
fn hexdump_from_past_the_end_shows_only_the_length() {
    let mut fs = open_fresh();
    let n = regular_file(&mut fs, "/data", 100);
    let lines = hexdump_lines(&mut fs, n, 100, 200, 300).unwrap();
    assert_eq!(lines, vec!["00000064".to_string()]);
}

#[test]
fn hexdump_of_a_missing_inode_fails_at_once() {
    let mut fs = open_fresh();
    match hexdump_lines(&mut fs, 100_000, 10, 0, 10) {
        Err((lines, e)) => {
            assert!(lines.is_empty());
            assert_eq!(e, FsError::InvalidInode { inode: 100_000 });
        }
        Ok(_) => panic!("a missing inode was dumped"),
    }
}

#[test]
fn chunked_read_takes_as_many_pieces_as_the_size_needs() {
    let mut fs = open_fresh();
    let n = regular_file(&mut fs, "/big", 9000);
    let pieces = read_chunks(&mut fs, n, 9000).unwrap();
    assert_eq!(pieces.len(), 3);
    assert_eq!(pieces.iter().map(|p| p.len()).sum::<usize>(), 9000);
    assert_eq!(pieces[2][0], (8192 % 251) as u8);
}

#[test]
fn listing_counts_the_shown_entries() {
    let mut fs = open_fresh();
    let tree = fs.get_tree().unwrap().iter().map(|i| i.deep_clone()).collect::<Vec<_>>();
    let all = ls_list(&mut fs, &tree, true).unwrap();
    let visible = ls_list(&mut fs, &tree, false).unwrap();
    assert_eq!(all.len(), tree.len());
    assert_eq!(visible.len(), tree.iter().filter(|i| !i.name().starts_with('.')).count());
}

#[test]
fn mkdir_under_a_missing_parent_fails() {
    let mut fs = open_fresh();
    let r = mkdir_at(&mut fs, &"/nowhere/sub".to_string(), 0o755, 0, 0, 0);
    assert!(matches!(r, Err(CmdError::Fs(_))));
}

#[test]
fn unlink_of_a_missing_path_fails_and_keeps_the_tree() {
    let mut fs = open_fresh();
    let before = fs.get_tree().unwrap().len();
    assert!(fs.unlink(&"/missing".to_string()).is_err());
    assert_eq!(fs.get_tree().unwrap().len(), before);
}

#[test]
fn unlink_removes_a_file() {
    let mut fs = open_fresh();
    let n = regular_file(&mut fs, "/gone", 10);
    fs.tree.push(fstool::cache::Item::new_file("gone".to_string(), n));
    assert_eq!(fs.unlink(&"/gone".to_string()), Ok(()));
    assert!(fs.get_tree().unwrap().iter().all(|i| i.name() != "gone"));
}

#[test]
fn block_cache_keeps_its_policy_and_starts_empty() {
    let mut c = BlockCache::new(CachePolicy::Fifo);
    assert!(!c.is_full());
    assert!(c.get(3).is_none());
    c.clear();
    assert!(BlockCache::default().get(0).is_none());
}

#[test]
fn the_root_has_no_parent_directory() {
    let fs = open_fresh();
    assert!(matches!(find_parent_ref(&fs, "/"), Err(FsError::EmptyPath)));
    assert!(find_parent_ref(&fs, "/anything").is_ok());
}

#[test]
fn a_read_gives_back_what_a_write_wrote() {
    let mut fs = open_fresh();
    let n = regular_file(&mut fs, "/data", 3000);
    let patch: Vec<u8> = (0..700u32).map(|i| (i % 7) as u8 + 100).collect();
    assert_eq!(fs.write_file(n, 1500, &patch), Ok(700));
    let mut buf = vec![0u8; 700];
    assert_eq!(fs.read_file(n, 1500, &mut buf), Ok(700));
    assert_eq!(buf, patch);
    let mut head = vec![0u8; 10];
    assert_eq!(fs.read_file(n, 0, &mut head), Ok(10));
    assert_eq!(head, (0..10u8).collect::<Vec<u8>>());
}

#[test]
fn growing_then_shrinking_to_nothing_frees_every_block() {
    let mut fs = open_fresh();
    let n = create(&mut fs, &"/grow".to_string(), FileType::Regular).unwrap();
    fs.get_inode_mut(n).unwrap().set_file_type(FileType::Regular);
    let before = fs.zmap.count_taken();
    assert_eq!(fs.truncate(n, 20 * 1024), Ok(20 * 1024));
    assert!(fs.zmap.count_taken() > before);
    assert_eq!(fs.truncate(n, 0), Ok(0));
    assert_eq!(fs.zmap.count_taken(), before);
    assert_eq!(fs.get_inode(n).unwrap().get_size(), 0);
}

#[test]
fn a_copied_file_has_the_size_owner_and_bytes_of_its_source() {
    let mut fs = open_fresh();
    let data: Vec<u8> = (0..5000u32).map(|i| (i % 13) as u8).collect();
    let n = put_data(&mut fs, &"/orig".to_string(), &data, 0o640, 42, 7, 1_700_000_000).unwrap();
    let mut log = Vec::new();
    assert!(copy(&mut fs, "/orig", "/dup", false, 1_700_000_100, &mut log).is_ok());
    assert_eq!(log.len(), 1);
    let m = get_item(&fs, "/dup").unwrap().inode();
    assert_ne!(m, n);
    let (size, uid, gid, mode) = {
        let j = fs.get_inode(m).unwrap();
        (j.get_size(), j.get_uid(), j.get_gid(), j.get_mode())
    };
    assert_eq!((size, uid, gid, mode), (5000, 42, 7, 0o640));
    let mut a = vec![0u8; 5000];
    let mut b = vec![0u8; 5000];
    assert_eq!(fs.read_file(n, 0, &mut a), Ok(5000));
    assert_eq!(fs.read_file(m, 0, &mut b), Ok(5000));
    assert_eq!(a, b);
}

#[test]
fn long_listing_rows_align_their_columns() {
    let file = LsEntry {
        name: "notes".to_string(),
        ftype: FileType::Regular,
        inode: 12,
        mode_list: "-rw-r--r--".to_string(),
        nlinks: 1,
        uid: 1000,
        gid: 100,
        size: 4096,
        node: (0, 0),
        target: None,
    };
    assert_eq!(
        long_row(&file, "notes"),
        format!("{}  {:<5}  {:<4}  {:<4}  {:<9}  {:>5}  {}", "-rw-r--r--", 1, 1000, 100, "4096", 12, "notes")
    );
    assert_eq!(long_row(&file, "notes"), "-rw-r--r--  1      1000  100   4096          12  notes");
    let dev = LsEntry { ftype: FileType::CharacterDevice, node: (4, 1), ..file };
    assert_eq!(long_row(&dev, "tty1"), "-rw-r--r--  1      1000  100   4 , 1         12  tty1");
    let link = LsEntry {
        name: "l".to_string(),
        ftype: FileType::Symlink,
        inode: 123456,
        mode_list: "lrwxrwxrwx".to_string(),
        nlinks: 1,
        uid: 0,
        gid: 0,
        size: 5,
        node: (0, 0),
        target: Some("/etc/x".to_string()),
    };
    assert_eq!(long_row(&link, "l"), "lrwxrwxrwx  1      0     0     5          123456  l -> /etc/x");
}

#[test]
fn a_moved_directory_points_its_dotdot_at_the_new_parent() {
    let mut fs = open_fresh();
    let a = mkdir_at(&mut fs, &"/a".to_string(), 0o755, 0, 0, 0).unwrap();
    let b = mkdir_at(&mut fs, &"/b".to_string(), 0o755, 0, 0, 0).unwrap();
    let d = mkdir_at(&mut fs, &"/a/d".to_string(), 0o755, 0, 0, 0).unwrap();
    let links_a = fs.get_inode(a).unwrap().get_nlinks();
    let links_b = fs.get_inode(b).unwrap().get_nlinks();
    assert!(update_dotdot(&mut fs, "/a/d", b, a).is_ok());
    let moved = get_item(&fs, "/a/d").unwrap();
    let children = moved.next().unwrap();
    let dotdot = children.iter().find(|c| c.name() == "..").unwrap();
    assert_eq!(dotdot.inode(), b);
    assert_eq!(fs.get_inode(a).unwrap().get_nlinks(), links_a - 1);
    assert_eq!(fs.get_inode(b).unwrap().get_nlinks(), links_b + 1);
    let first = fs.get_inode(d).unwrap().get_blocks()[0];
    let mut block = vec![0u8; fs.superblock.block_size as usize];
    fs.read_block(first as u64, &mut block).unwrap();
    assert_eq!(u32::from_le_bytes([block[64], block[65], block[66], block[67]]) as u64, b);
}

#[test]
fn growing_needs_a_free_zone_for_each_new_block() {
    let mut fs = open_fresh();
    let n = create(&mut fs, &"/tight".to_string(), FileType::Regular).unwrap();
    fs.get_inode_mut(n).unwrap().set_file_type(FileType::Regular);
    let bits = 8 * fs.zmap.len();
    let mut kept = 0;
    for k in 0..bits {
        if fs.zmap.is_set(k) == Ok(false) {
            if kept < 2 {
                kept += 1;
            } else {
                fs.zmap.set(k).unwrap();
            }
        }
    }
    assert_eq!(kept, 2);
    assert_eq!(fs.truncate(n, 3 * 1024), Err(FsError::NoBlocksLeft));
    assert!((0..bits).all(|k| fs.zmap.is_set(k) == Ok(true)));
}
