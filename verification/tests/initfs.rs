use swiftcore::initfs::InitFs;
use swiftcore::vfs::{FileType, VfsError};

#[test]
fn fresh_initfs_has_an_empty_root() {
    let fs = InitFs::new();
    assert_eq!(fs.name(), "initfs");
    assert_eq!(fs.root_inode(), 1);
    let attr = fs.stat(1).unwrap();
    assert_eq!(attr.file_type, FileType::Directory);
    assert_eq!(attr.mode, 0o755);
    assert_eq!(attr.size, 0);
    assert_eq!(attr.nlink, 1);
    assert!(fs.readdir(1).unwrap().is_empty());
    assert_eq!(fs.stat(2), Err(VfsError::NotFound));
}

#[test]
fn create_then_lookup() {
    let mut fs = InitFs::new();
    let ino = fs.create(1, "a.txt", 0o644).unwrap();
    assert_eq!(ino, 2);
    assert_eq!(fs.lookup(1, "a.txt"), Ok(2));
    assert_eq!(fs.lookup(1, "b.txt"), Err(VfsError::NotFound));
    assert_eq!(fs.create(1, "a.txt", 0o644), Err(VfsError::AlreadyExists));
    assert_eq!(fs.create(2, "x", 0o644), Err(VfsError::NotDirectory));
    assert_eq!(fs.create(77, "x", 0o644), Err(VfsError::NotFound));
    assert_eq!(fs.lookup(2, "x"), Err(VfsError::NotDirectory));
    assert_eq!(fs.lookup(99, "x"), Err(VfsError::NotFound));
    let attr = fs.stat(ino).unwrap();
    assert_eq!(attr.file_type, FileType::RegularFile);
    assert_eq!(attr.mode, 0o644);
}

#[test]
fn read_after_write() {
    let mut fs = InitFs::new();
    let ino = fs.create(1, "f", 0o644).unwrap();
    assert_eq!(fs.write(ino, 0, b"hello world"), Ok(11));
    let mut buf = vec![0u8; 5];
    assert_eq!(fs.read(ino, 6, &mut buf), Ok(5));
    assert_eq!(&buf, b"world");
    assert_eq!(fs.write(ino, 0, b"J"), Ok(1));
    let mut all = vec![0u8; 32];
    assert_eq!(fs.read(ino, 0, &mut all), Ok(11));
    assert_eq!(&all[..11], b"Jello world");
    assert_eq!(fs.read(ino, 11, &mut all), Ok(0));
    assert_eq!(fs.read(ino, 100, &mut all), Ok(0));
}

#[test]
fn write_past_the_end_fills_with_zeros() {
    let mut fs = InitFs::new();
    let ino = fs.create(1, "f", 0o644).unwrap();
    assert_eq!(fs.write(ino, 4, b"xy"), Ok(2));
    assert_eq!(fs.stat(ino).unwrap().size, 6);
    let mut buf = vec![9u8; 6];
    assert_eq!(fs.read(ino, 0, &mut buf), Ok(6));
    assert_eq!(&buf, &[0, 0, 0, 0, b'x', b'y']);
}

#[test]
fn write_and_read_errors() {
    let mut fs = InitFs::new();
    let mut buf = vec![0u8; 4];
    assert_eq!(fs.write(1, 0, b"x"), Err(VfsError::InvalidArgument));
    assert_eq!(fs.write(9, 0, b"x"), Err(VfsError::NotFound));
    assert_eq!(fs.read(1, 0, &mut buf), Err(VfsError::InvalidArgument));
    assert_eq!(fs.read(9, 0, &mut buf), Err(VfsError::NotFound));
    assert_eq!(fs.truncate(1, 0), Err(VfsError::InvalidArgument));
    assert_eq!(fs.truncate(9, 0), Err(VfsError::NotFound));
}

#[test]
fn truncate_shrinks_and_grows() {
    let mut fs = InitFs::new();
    let ino = fs.create(1, "f", 0o644).unwrap();
    fs.write(ino, 0, b"abcdef").unwrap();
    assert_eq!(fs.truncate(ino, 3), Ok(()));
    assert_eq!(fs.stat(ino).unwrap().size, 3);
    assert_eq!(fs.truncate(ino, 5), Ok(()));
    let mut buf = vec![7u8; 5];
    assert_eq!(fs.read(ino, 0, &mut buf), Ok(5));
    assert_eq!(&buf, &[b'a', b'b', b'c', 0, 0]);
}

#[test]
fn directory_entries_are_sorted_by_name() {
    let mut fs = InitFs::new();
    fs.create(1, "zeta", 0o644).unwrap();
    let d = fs.mkdir(1, "bin", 0o755).unwrap();
    fs.create(1, "alpha", 0o644).unwrap();
    fs.create(1, "Beta", 0o644).unwrap();
    let names: Vec<String> = fs.readdir(1).unwrap().into_iter().map(|e| e.name).collect();
    assert_eq!(names, vec!["Beta", "alpha", "bin", "zeta"]);
    let entries = fs.readdir(1).unwrap();
    assert_eq!(entries[2].file_type, FileType::Directory);
    assert_eq!(entries[2].inode, d);
    assert_eq!(fs.readdir(d).unwrap().len(), 0);
    assert!(matches!(fs.readdir(entries[0].inode), Err(VfsError::NotDirectory)));
    assert!(matches!(fs.readdir(500), Err(VfsError::NotFound)));
}

#[test]
fn unlink_removes_entry_and_node() {
    let mut fs = InitFs::new();
    let ino = fs.create(1, "f", 0o644).unwrap();
    assert_eq!(fs.unlink(1, "f"), Ok(()));
    assert_eq!(fs.lookup(1, "f"), Err(VfsError::NotFound));
    assert_eq!(fs.stat(ino), Err(VfsError::NotFound));
    assert_eq!(fs.unlink(1, "f"), Err(VfsError::NotFound));
    assert_eq!(fs.unlink(9, "f"), Err(VfsError::NotFound));
    let d = fs.mkdir(1, "d", 0o755).unwrap();
    fs.create(d, "inner", 0o644).unwrap();
    assert_eq!(fs.unlink(d, "nope"), Err(VfsError::NotFound));
    assert_eq!(fs.rmdir(1, "d"), Ok(()));
    assert_eq!(fs.lookup(1, "d"), Err(VfsError::NotFound));
    let f = fs.create(1, "g", 0o644).unwrap();
    assert_eq!(fs.unlink(f, "x"), Err(VfsError::NotDirectory));
}

#[test]
fn sample_file() {
    let mut fs = InitFs::new();
    assert_eq!(fs.create_sample_files(), Ok(()));
    let ino = fs.lookup(1, "hello.txt").unwrap();
    let mut buf = vec![0u8; 64];
    let n = fs.read(ino, 0, &mut buf).unwrap();
    assert_eq!(&buf[..n], b"mochiOS InitFs fallback\n");
    assert_eq!(fs.stat(ino).unwrap().mode, 0o644);
    assert_eq!(fs.sync(), Ok(()));
}

#[test]
fn initfs_resolve_path_walks_from_the_root() {
    let mut fs = InitFs::new();
    let d = fs.mkdir(1, "etc", 0o755).unwrap();
    let f = fs.create(d, "motd", 0o644).unwrap();
    assert_eq!(fs.resolve_path("/"), Ok(1));
    assert_eq!(fs.resolve_path("/etc"), Ok(d));
    assert_eq!(fs.resolve_path("etc//motd"), Ok(f));
    assert_eq!(fs.resolve_path("/etc/none"), Err(VfsError::NotFound));
    assert_eq!(fs.resolve_path("/etc/motd/x"), Err(VfsError::NotDirectory));
}

#[test]
fn initfs_open_path_creates_and_empties() {
    let mut fs = InitFs::new();
    let d = fs.mkdir(1, "tmp", 0o755).unwrap();
    // missing, no O_CREAT
    assert_eq!(fs.open_path("/tmp/a", 0), Err(-2));
    // created on O_CREAT
    let a = fs.open_path("/tmp/a", 0o100).unwrap();
    assert_eq!(fs.lookup(d, "a"), Ok(a));
    assert_eq!(fs.stat(a).unwrap().mode, 0o644);
    assert_eq!(fs.write(a, 0, b"hello"), Ok(5));
    // opening again finds it; O_TRUNC empties it
    assert_eq!(fs.open_path("/tmp/a", 0), Ok(a));
    assert_eq!(fs.stat(a).unwrap().size, 5);
    assert_eq!(fs.open_path("/tmp/a", 0o1000), Ok(a));
    assert_eq!(fs.stat(a).unwrap().size, 0);
    // no directory part, or a missing directory
    assert_eq!(fs.open_path("nodir", 0o100), Err(-22));
    assert_eq!(fs.open_path("/none/b", 0o100), Err(-2));
}
