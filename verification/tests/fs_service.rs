use swiftcore::fs_service::{
    cap_for_path, classify_path, has_write_intent, is_special_path, list_page, needs_read,
    needs_write, path_len, special_read_len, split_parent, vfs_error_to_errno, HandleTable,
    HomeFolder, PathArea, FS_DATA_MAX, FS_PATH_MAX, MAX_HANDLES, O_CREAT, O_RDWR, O_TRUNC,
    O_WRONLY,
};
use swiftcore::vfs::{DirEntry, FileHandle, FileType, VfsError};

#[test]
fn errno_table_matches_posix_numbers() {
    assert_eq!(vfs_error_to_errno(VfsError::NotFound), -2);
    assert_eq!(vfs_error_to_errno(VfsError::PermissionDenied), -13);
    assert_eq!(vfs_error_to_errno(VfsError::AlreadyExists), -17);
    assert_eq!(vfs_error_to_errno(VfsError::IsDirectory), -21);
    assert_eq!(vfs_error_to_errno(VfsError::NotDirectory), -20);
    assert_eq!(vfs_error_to_errno(VfsError::InvalidArgument), -22);
    assert_eq!(vfs_error_to_errno(VfsError::IoError), -5);
    assert_eq!(vfs_error_to_errno(VfsError::OutOfSpace), -28);
    assert_eq!(vfs_error_to_errno(VfsError::ReadOnlyFs), -30);
    assert_eq!(vfs_error_to_errno(VfsError::TooManyOpenFiles), -24);
    assert_eq!(vfs_error_to_errno(VfsError::FileTooBig), -27);
    assert_eq!(vfs_error_to_errno(VfsError::NotSupported), -38);
}

#[test]
fn open_flags_write_intent() {
    assert!(!has_write_intent(0));
    assert!(has_write_intent(O_WRONLY));
    assert!(has_write_intent(O_RDWR));
    assert!(has_write_intent(O_CREAT));
    assert!(has_write_intent(O_TRUNC));
    assert!(needs_write(O_RDWR | O_CREAT));
    assert!(!needs_write(0));
    assert!(needs_read(0));
    assert!(needs_read(O_RDWR));
    assert!(!needs_read(O_WRONLY));
}

#[test]
fn special_paths_are_the_three_devices() {
    assert!(is_special_path("/dev/null"));
    assert!(is_special_path("/dev/zero"));
    assert!(is_special_path("/var/zero"));
    assert!(!is_special_path("/dev/nul"));
    assert!(!is_special_path("/dev/null/"));
}

#[test]
fn path_areas() {
    assert_eq!(classify_path("/tmp/x"), PathArea::Tmp);
    assert_eq!(classify_path("tmp"), PathArea::Tmp);
    assert_eq!(classify_path("/mount/removable/usb/a"), PathArea::Removable);
    assert_eq!(classify_path("/home/alice/Documents/a.txt"), PathArea::Home(HomeFolder::Documents));
    assert_eq!(classify_path("/home/alice/Downloads"), PathArea::Home(HomeFolder::Downloads));
    assert_eq!(classify_path("/home/alice/Music/x"), PathArea::Home(HomeFolder::Music));
    assert_eq!(classify_path("/home/alice/notes"), PathArea::Home(HomeFolder::Other));
    assert_eq!(classify_path("/home/alice"), PathArea::Home(HomeFolder::Other));
    assert_eq!(classify_path("/etc/passwd"), PathArea::Anywhere);
}

#[test]
fn capability_for_each_area() {
    assert_eq!(cap_for_path("/tmp/a", false), "fs.read.tmp");
    assert_eq!(cap_for_path("/tmp/a", true), "fs.write.tmp");
    assert_eq!(cap_for_path("/mount/removable/a", true), "fs.write.removable");
    assert_eq!(cap_for_path("/home/u/Documents/a", false), "fs.read.user.documents");
    assert_eq!(cap_for_path("/home/u/Pictures/a", true), "fs.write.user.pictures");
    assert_eq!(cap_for_path("/home/u/Videos/a", false), "fs.read.user.videos");
    assert_eq!(cap_for_path("/home/u/Desktop/a", false), "fs.read.user.desktop");
    assert_eq!(cap_for_path("/home/u/other", true), "fs.write.user");
    assert_eq!(cap_for_path("/bin/ls", false), "fs.read.all");
    assert_eq!(cap_for_path("/bin/ls", true), "fs.write.all");
}

#[test]
fn handle_table_takes_lowest_free_descriptor() {
    let mut t = HandleTable::new();
    let a = t.open(FileHandle::new(5, 0), false, b"/a".to_vec());
    let b = t.open(FileHandle::new(6, 0), true, b"/dev/null".to_vec());
    assert_eq!(a, 0);
    assert_eq!(b, 1);
    assert_eq!(t.close(0), 0);
    let c = t.open(FileHandle::new(7, 0), false, b"/c".to_vec());
    assert_eq!(c, 0);
    assert_eq!(t.get(0).unwrap().handle.inode, 7);
    assert!(t.get(1).unwrap().is_special);
    assert!(t.get(2).is_none());
}

#[test]
fn handle_table_full_and_bad_descriptors() {
    let mut t = HandleTable::new();
    for i in 0..MAX_HANDLES {
        assert_eq!(t.open(FileHandle::new(i as u64, 0), false, Vec::new()), i as i64);
    }
    assert_eq!(t.open(FileHandle::new(99, 0), false, Vec::new()), -1);
    assert_eq!(t.close(100), -9);
    assert_eq!(t.close(3), 0);
    assert_eq!(t.close(3), -9);
    assert_eq!(t.seek(3, 10), -9);
}

#[test]
fn seek_and_advance_move_the_position() {
    let mut t = HandleTable::new();
    let fd = t.open(FileHandle::new(1, 0), false, Vec::new()) as u64;
    assert_eq!(t.seek(fd, 100), 100);
    t.advance(fd, 20);
    assert_eq!(t.get(fd).unwrap().handle.offset, 120);
    t.advance(fd, u64::MAX);
    assert_eq!(t.get(fd).unwrap().handle.offset, u64::MAX);
}

#[test]
fn request_path_length_stops_at_nul_or_limit() {
    assert_eq!(path_len(&b"/etc/x\0junk".to_vec()), 6);
    assert_eq!(path_len(&b"abc".to_vec()), 3);
    assert_eq!(path_len(&vec![b'a'; FS_PATH_MAX + 10]), FS_PATH_MAX);
    assert_eq!(path_len(&Vec::new()), 0);
}

fn entry(name: &str) -> DirEntry {
    DirEntry { name: name.to_string(), inode: 1, file_type: FileType::RegularFile }
}

#[test]
fn listing_pages_hold_whole_names() {
    let entries = vec![entry("a"), entry("bb"), entry("ccc")];
    let page = list_page(&entries, 0, 100);
    assert_eq!(page.bytes, b"a\nbb\nccc\n".to_vec());
    assert_eq!(page.next, 3);
    let page = list_page(&entries, 0, 5);
    assert_eq!(page.bytes, b"a\nbb\n".to_vec());
    assert_eq!(page.next, 2);
    let page = list_page(&entries, 2, 3);
    assert_eq!(page.bytes, Vec::<u8>::new());
    assert_eq!(page.next, 2);
    let page = list_page(&entries, 7, 100);
    assert_eq!(page.bytes.len(), 0);
    assert_eq!(page.next, 3);
}

#[test]
fn device_reads() {
    assert_eq!(special_read_len(true, 100), 0);
    assert_eq!(special_read_len(false, 100), 100);
    assert_eq!(special_read_len(false, 100_000), FS_DATA_MAX);
}

#[test]
fn split_parent_at_last_slash() {
    assert_eq!(split_parent("/a/b/c.txt"), Some(("/a/b", "c.txt")));
    assert_eq!(split_parent("/c.txt"), Some(("/", "c.txt")));
    assert_eq!(split_parent("noslash"), None);
    assert_eq!(split_parent("/dir/"), None);
}

#[test]
fn closed_descriptor_is_reused_first() {
    let mut t = HandleTable::new();
    for i in 0..5u64 {
        assert_eq!(t.open(FileHandle::new(i, 0), false, Vec::new()), i as i64);
    }
    assert_eq!(t.close(2), 0);
    assert_eq!(t.open(FileHandle::new(9, 0), false, Vec::new()), 2);
    assert_eq!(t.open(FileHandle::new(10, 0), false, Vec::new()), 5);
}
