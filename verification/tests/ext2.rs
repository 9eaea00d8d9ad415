use swiftcore::ext2::device::{read_blocks, BlockDevice};
use swiftcore::ext2::dir::{entry_in_directory, find_entry, list_entries};
use swiftcore::ext2::fs::{check_superblock, superblock_location, Ext2Fs};
use swiftcore::vfs::{FileType, VfsError};

const BS: usize = 1024;

/// A disk held in memory, with 1024-byte blocks.
struct MemDisk {
    bytes: Vec<u8>,
}

impl BlockDevice for MemDisk {
    fn block_size(&self) -> usize {
        BS
    }

    fn read_block(&self, block_num: u64, buf: &mut Vec<u8>) -> Result<(), ()> {
        let start = block_num as usize * BS;
        if start + BS > self.bytes.len() || buf.len() < BS {
            return Err(());
        }
        buf[..BS].copy_from_slice(&self.bytes[start..start + BS]);
        Ok(())
    }

    fn write_block(&mut self, block_num: u64, buf: &Vec<u8>) -> Result<(), ()> {
        let start = block_num as usize * BS;
        if start + BS > self.bytes.len() || buf.len() < BS {
            return Err(());
        }
        self.bytes[start..start + BS].copy_from_slice(&buf[..BS]);
        Ok(())
    }
}

fn put16(b: &mut [u8], off: usize, v: u16) {
    b[off..off + 2].copy_from_slice(&v.to_le_bytes());
}

fn put32(b: &mut [u8], off: usize, v: u32) {
    b[off..off + 4].copy_from_slice(&v.to_le_bytes());
}

fn dir_record(b: &mut [u8], off: usize, inode: u32, rec_len: u16, name: &str, file_type: u8) {
    put32(b, off, inode);
    put16(b, off + 4, rec_len);
    b[off + 6] = name.len() as u8;
    b[off + 7] = file_type;
    b[off + 8..off + 8 + name.len()].copy_from_slice(name.as_bytes());
}

fn inode(b: &mut [u8], ino: usize, mode: u16, size: u32, first_block: u32) {
    // inode table starts at block 5, 128 bytes per inode
    let off = 5 * BS + (ino - 1) * 128;
    put16(b, off, mode);
    put32(b, off + 4, size);
    put16(b, off + 26, 1);
    put32(b, off + 28, 2);
    put32(b, off + 40, first_block);
}

const CONTENT: &[u8] = b"Hello, ext2!";

/// A small ext2 image: one group, 1024-byte blocks, a root directory holding
/// `hello.txt` and the directory `docs`.
fn image() -> MemDisk {
    let mut b = vec![0u8; 64 * BS];
    let sb = BS;
    put32(&mut b, sb, 32); // inodes
    put32(&mut b, sb + 4, 64); // blocks
    put32(&mut b, sb + 24, 0); // 1024-byte blocks
    put32(&mut b, sb + 32, 8192); // blocks per group
    put32(&mut b, sb + 40, 32); // inodes per group
    put16(&mut b, sb + 56, 0xEF53);
    // group descriptor table at block 2: inode table at block 5
    put32(&mut b, 2 * BS + 8, 5);
    inode(&mut b, 2, 0x41ED, BS as u32, 10);
    inode(&mut b, 12, 0x81A4, CONTENT.len() as u32, 11);
    inode(&mut b, 13, 0x41ED, BS as u32, 12);
    let root = 10 * BS;
    dir_record(&mut b, root, 2, 12, ".", 2);
    dir_record(&mut b, root + 12, 2, 12, "..", 2);
    dir_record(&mut b, root + 24, 12, 20, "hello.txt", 1);
    dir_record(&mut b, root + 44, 13, (BS - 44) as u16, "docs", 2);
    b[11 * BS..11 * BS + CONTENT.len()].copy_from_slice(CONTENT);
    let docs = 12 * BS;
    dir_record(&mut b, docs, 13, 12, ".", 2);
    dir_record(&mut b, docs + 12, 2, (BS - 12) as u16, "..", 2);
    MemDisk { bytes: b }
}

#[test]
fn mount_reads_the_superblock() {
    let fs = Ext2Fs::new(image()).unwrap();
    assert_eq!(fs.name(), "ext2");
    assert_eq!(fs.root_inode(), 2);
}

#[test]
fn mount_refuses_a_bad_magic() {
    let mut disk = image();
    disk.bytes[BS + 56] = 0;
    assert!(matches!(Ext2Fs::new(disk), Err(VfsError::InvalidArgument)));
    let mut disk = image();
    put32(&mut disk.bytes, BS + 24, 3);
    assert!(matches!(Ext2Fs::new(disk), Err(VfsError::InvalidArgument)));
    let short = MemDisk { bytes: vec![0u8; BS] };
    assert!(matches!(Ext2Fs::new(short), Err(VfsError::IoError)));
}

#[test]
fn stat_lookup_and_read() {
    let mut fs = Ext2Fs::new(image()).unwrap();
    let root = fs.stat(2).unwrap();
    assert_eq!(root.file_type, FileType::Directory);
    assert_eq!(root.size, BS as u64);
    let ino = fs.lookup(2, "hello.txt").unwrap();
    assert_eq!(ino, 12);
    let attr = fs.stat(ino).unwrap();
    assert_eq!(attr.file_type, FileType::RegularFile);
    assert_eq!(attr.size, CONTENT.len() as u64);
    assert_eq!(attr.mode, 0x81A4);
    let mut buf = vec![0u8; 64];
    let n = fs.read(ino, 0, &mut buf).unwrap();
    assert_eq!(&buf[..n], CONTENT);
    let mut tail = vec![0u8; 4];
    assert_eq!(fs.read(ino, 7, &mut tail).unwrap(), 4);
    assert_eq!(&tail, b"ext2");
    assert_eq!(fs.read(ino, 100, &mut tail).unwrap(), 0);
    // a second read comes from the caches and gives the same bytes
    let mut again = vec![0u8; 64];
    assert_eq!(fs.read(ino, 0, &mut again).unwrap(), n);
    assert_eq!(&again[..n], CONTENT);
}

#[test]
fn lookup_errors() {
    let mut fs = Ext2Fs::new(image()).unwrap();
    assert!(matches!(fs.lookup(2, "missing"), Err(VfsError::NotFound)));
    assert!(matches!(fs.lookup(12, "x"), Err(VfsError::NotDirectory)));
    assert!(matches!(fs.stat(0), Err(VfsError::NotFound)));
    assert!(matches!(fs.stat(1000), Err(VfsError::NotFound)));
}

#[test]
fn readdir_lists_records_in_order() {
    let mut fs = Ext2Fs::new(image()).unwrap();
    let entries = fs.readdir(2).unwrap();
    let names: Vec<&str> = entries.iter().map(|e| e.name.as_str()).collect();
    assert_eq!(names, vec![".", "..", "hello.txt", "docs"]);
    assert_eq!(entries[2].inode, 12);
    assert_eq!(entries[2].file_type, FileType::RegularFile);
    assert_eq!(entries[3].file_type, FileType::Directory);
    let docs = fs.lookup(2, "docs").unwrap();
    assert_eq!(fs.readdir(docs).unwrap().len(), 2);
    assert!(matches!(fs.readdir(12), Err(VfsError::NotDirectory)));
}

#[test]
fn ext2_is_read_only() {
    let mut fs = Ext2Fs::new(image()).unwrap();
    assert_eq!(fs.write(12, 0, b"x"), Err(VfsError::ReadOnlyFs));
    assert_eq!(fs.create(2, "n", 0o644), Err(VfsError::ReadOnlyFs));
    assert_eq!(fs.mkdir(2, "n", 0o755), Err(VfsError::ReadOnlyFs));
    assert_eq!(fs.unlink(2, "hello.txt"), Err(VfsError::ReadOnlyFs));
    assert_eq!(fs.rmdir(2, "docs"), Err(VfsError::ReadOnlyFs));
    assert_eq!(fs.truncate(12, 0), Err(VfsError::ReadOnlyFs));
    assert_eq!(fs.sync(), Ok(()));
}

#[test]
fn directory_records() {
    let mut data = vec![0u8; 64];
    dir_record(&mut data, 0, 0, 16, "gone", 1);
    dir_record(&mut data, 16, 7, 20, "notes", 1);
    dir_record(&mut data, 36, 9, 28, "sub", 2);
    assert_eq!(find_entry(&data, b"notes"), Some(7));
    assert_eq!(find_entry(&data, b"gone"), None);
    assert_eq!(find_entry(&data, b"sub"), Some(9));
    let list = list_entries(&data);
    assert_eq!(list.len(), 2);
    assert_eq!(list[0].name, "notes");
    assert_eq!(list[1].file_type, FileType::Directory);
    let mut broken = data.clone();
    put16(&mut broken, 20, 4);
    assert_eq!(find_entry(&broken, b"sub"), None);
}

#[test]
fn reading_several_blocks() {
    let disk = image();
    let mut buf = vec![0xffu8; 3 * BS + 1];
    assert_eq!(read_blocks(&disk, 10, 2, &mut buf), Ok(()));
    assert_eq!(&buf[24 + 8..24 + 17], b"hello.txt");
    assert_eq!(&buf[BS..BS + CONTENT.len()], CONTENT);
    assert_eq!(buf[2 * BS], 0xff);
    let mut small = vec![0u8; 10];
    assert_eq!(read_blocks(&disk, 0, 1, &mut small), Err(()));
    assert_eq!(read_blocks(&disk, 0, 0, &mut small), Ok(()));
}

#[test]
fn lookup_finds_what_readdir_lists_first() {
    let mut fs = Ext2Fs::new(image()).unwrap();
    let entries = fs.readdir(2).unwrap();
    for e in &entries {
        let first = entries.iter().find(|x| x.name == e.name).unwrap();
        assert_eq!(fs.lookup(2, &e.name).unwrap(), first.inode);
    }
    assert!(matches!(fs.lookup(2, "not-listed"), Err(VfsError::NotFound)));
}

#[test]
fn cached_inode_reads_do_not_fail() {
    let mut fs = Ext2Fs::new(image()).unwrap();
    let first = fs.stat(12).unwrap();
    let again = fs.stat(12).unwrap();
    assert_eq!(first.size, again.size);
    let mut buf = vec![0u8; 8];
    assert_eq!(fs.read(12, 1000, &mut buf).unwrap(), 0);
    let mut empty: Vec<u8> = Vec::new();
    assert_eq!(fs.read(12, 0, &mut empty).unwrap(), 0);
    assert!(matches!(fs.read(2, 0, &mut buf), Err(VfsError::IsDirectory)));
}

fn good_superblock() -> swiftcore::ext2::ondisk::Superblock {
    swiftcore::ext2::ondisk::Superblock {
        s_inodes_count: 32,
        s_blocks_count: 20000,
        s_log_block_size: 1,
        s_blocks_per_group: 8192,
        s_inodes_per_group: 32,
        s_magic: 0xEF53,
        s_rev_level: 1,
        s_inode_size: 256,
    }
}

#[test]
fn superblock_checks() {
    let g = check_superblock(&good_superblock()).unwrap();
    assert_eq!(g.block_size, 2048);
    assert_eq!(g.inode_size, 256);
    assert_eq!(g.num_groups, 3);
    let mut old = good_superblock();
    old.s_rev_level = 0;
    assert_eq!(check_superblock(&old).unwrap().inode_size, 128);
    let mut bad = good_superblock();
    bad.s_magic = 0x1234;
    assert!(matches!(check_superblock(&bad), Err(VfsError::InvalidArgument)));
    let mut bad = good_superblock();
    bad.s_log_block_size = 3;
    assert!(matches!(check_superblock(&bad), Err(VfsError::InvalidArgument)));
    let mut bad = good_superblock();
    bad.s_inode_size = 0;
    assert!(matches!(check_superblock(&bad), Err(VfsError::InvalidArgument)));
    let mut bad = good_superblock();
    bad.s_blocks_per_group = 1;
    bad.s_blocks_count = 70000;
    assert!(matches!(check_superblock(&bad), Err(VfsError::InvalidArgument)));
}

#[test]
fn superblock_location_by_block_size() {
    assert_eq!(superblock_location(512), (2, 0));
    assert_eq!(superblock_location(1024), (1, 0));
    assert_eq!(superblock_location(4096), (0, 1024));
}

#[test]
fn mount_refuses_a_bad_magic_with_invalid_argument() {
    let mut disk = image();
    disk.bytes[BS + 56] = 0;
    assert!(matches!(Ext2Fs::new(disk), Err(VfsError::InvalidArgument)));
}

#[test]
fn kind_checks_and_entry_search() {
    let mut fs = Ext2Fs::new(image()).unwrap();
    let mut buf = vec![0u8; 8];
    assert!(matches!(fs.read(2, 0, &mut buf), Err(VfsError::IsDirectory)));
    assert!(matches!(fs.readdir(12), Err(VfsError::NotDirectory)));
    let mut data = vec![0u8; 64];
    dir_record(&mut data, 0, 7, 16, "a.txt", 1);
    dir_record(&mut data, 16, 9, 48, "b", 1);
    assert_eq!(entry_in_directory(&data, "b"), Ok(9));
    assert_eq!(entry_in_directory(&data, "a.txt"), Ok(7));
    assert!(matches!(entry_in_directory(&data, "c"), Err(VfsError::NotFound)));
}

#[test]
fn ext2_resolve_path_walks_from_the_root() {
    let mut fs = Ext2Fs::new(image()).unwrap();
    assert_eq!(fs.resolve_path("/"), Ok(2));
    assert_eq!(fs.resolve_path("/hello.txt"), Ok(12));
    assert_eq!(fs.resolve_path("docs/.."), Ok(2));
    assert_eq!(fs.resolve_path("/docs/../hello.txt"), Ok(12));
    assert!(matches!(fs.resolve_path("/missing"), Err(VfsError::NotFound)));
    assert!(matches!(fs.resolve_path("/hello.txt/x"), Err(VfsError::NotDirectory)));
}

#[test]
fn ext2_open_path_is_read_only() {
    let mut fs = Ext2Fs::new(image()).unwrap();
    assert_eq!(fs.open_path("/hello.txt", 0), Ok(12));
    assert_eq!(fs.open_path("/hello.txt", 0o1000), Ok(12));
    assert_eq!(fs.open_path("/new.txt", 0), Err(-2));
    assert_eq!(fs.open_path("/new.txt", 0o100), Err(-30));
    assert_eq!(fs.open_path("/none/x", 0o100), Err(-2));
}
