use swiftcore::fs_server::{
    created_inode, disk_appearance, exec_chunk_len, idle_poll, open_step, read_reply, readdir_reply,
    required_capabilities, stat_reply, status_reply, truncates, write_reply_status, OpenStep,
};
use swiftcore::fs_service::{cap_for_path, FS_DATA_MAX, O_CREAT, O_RDWR, O_TRUNC, O_WRONLY};
use swiftcore::user::fs_client::{
    OP_CLOSE, OP_EXEC_STREAM, OP_FSTAT, OP_OPEN, OP_READ, OP_READDIR, OP_SEEK, OP_STAT, OP_WRITE,
};
use swiftcore::vfs::{DirEntry, FileAttr, FileType, VfsError};

#[test]
fn capabilities_per_request() {
    let p = "/tmp/a";
    let r = cap_for_path(p, false);
    let w = cap_for_path(p, true);
    assert_eq!(required_capabilities(OP_OPEN, 0, p), vec![r]);
    assert_eq!(required_capabilities(OP_OPEN, O_WRONLY, p), vec![w]);
    assert_eq!(required_capabilities(OP_OPEN, O_RDWR, p), vec![r, w]);
    assert_eq!(required_capabilities(OP_READ, 0, p), vec![r]);
    assert_eq!(required_capabilities(OP_WRITE, 0, p), vec![w]);
    for op in [OP_STAT, OP_FSTAT, OP_READDIR, OP_EXEC_STREAM] {
        assert_eq!(required_capabilities(op, 0, p), vec![r]);
    }
    assert!(required_capabilities(OP_CLOSE, 0, p).is_empty());
    assert!(required_capabilities(OP_SEEK, 0, p).is_empty());
    assert_eq!(r, "fs.read.tmp");
}

#[test]
fn mount_retries() {
    assert_eq!(idle_poll(0), (1, false));
    assert_eq!(idle_poll(199), (200, true));
    assert_eq!(idle_poll(u64::MAX), (0, true));
    assert_eq!(disk_appearance(false, true), (true, true));
    assert_eq!(disk_appearance(true, true), (true, false));
    assert_eq!(disk_appearance(false, false), (false, false));
}

#[test]
fn open_steps() {
    assert_eq!(open_step(Ok(5), 0), OpenStep::Use(5));
    assert_eq!(open_step(Err(VfsError::NotFound), O_CREAT), OpenStep::Create);
    assert_eq!(open_step(Err(VfsError::NotFound), 0), OpenStep::Fail(-2));
    assert_eq!(open_step(Err(VfsError::NotDirectory), O_CREAT), OpenStep::Fail(-20));
    assert_eq!(created_inode(false, Ok(3)), Err(-22));
    assert_eq!(created_inode(true, Ok(3)), Ok(3));
    assert_eq!(created_inode(true, Err(VfsError::ReadOnlyFs)), Err(-30));
    assert!(truncates(O_TRUNC | O_WRONLY));
    assert!(!truncates(O_WRONLY));
}

#[test]
fn replies() {
    let r = status_reply(-9);
    assert_eq!((r.status, r.len, r.data.len()), (-9, 0, FS_DATA_MAX));
    let bytes = b"abcdef".to_vec();
    let r = read_reply(Ok(3), &bytes);
    assert_eq!((r.status, r.len), (3, 3));
    assert_eq!(&r.data[..4], b"abc\0");
    assert_eq!(r.data.len(), FS_DATA_MAX);
    let r = read_reply(Err(VfsError::IsDirectory), &bytes);
    assert_eq!((r.status, r.len), (-21, 0));
    let attr = FileAttr {
        file_type: FileType::RegularFile,
        size: 77,
        blocks: 1,
        atime: 0,
        mtime: 0,
        ctime: 0,
        mode: 0o100644,
        uid: 0,
        gid: 0,
        nlink: 1,
    };
    let r = stat_reply(Ok(attr));
    assert_eq!((r.status, r.len), (0o100644, 77));
    assert_eq!(stat_reply(Err(VfsError::NotFound)).status, -2);
    assert_eq!(write_reply_status(None), -1);
    assert_eq!(write_reply_status(Some(VfsError::ReadOnlyFs)), -30);
    assert_eq!(exec_chunk_len(10000, 0), 4000);
    assert_eq!(exec_chunk_len(10000, 9000), 1000);
}

fn entries() -> Vec<DirEntry> {
    vec![
        DirEntry { name: "ab".to_string(), inode: 2, file_type: FileType::RegularFile },
        DirEntry { name: "cde".to_string(), inode: 3, file_type: FileType::RegularFile },
    ]
}

#[test]
fn listing_reply_pages() {
    let all = readdir_reply(&Ok(entries()), 100);
    assert_eq!(all.status, 2);
    assert_eq!(&all.data[..all.len as usize], b"ab\ncde\n");
    let first = readdir_reply(&Ok(entries()), 4);
    assert_eq!(first.status, 1);
    assert_eq!(&first.data[..first.len as usize], b"ab\n");
    let rest = readdir_reply(&Ok(entries()), (1u64 << 32) | 100);
    assert_eq!(rest.status, 2);
    assert_eq!(&rest.data[..rest.len as usize], b"cde\n");
    assert_eq!(readdir_reply(&Err(VfsError::NotDirectory), 0).status, -20);
}

#[test]
fn write_pieces() {
    assert_eq!(swiftcore::fs_server::write_piece_len(10, 100), 10);
    assert_eq!(swiftcore::fs_server::write_piece_len(10000, 100), 100);
    assert_eq!(swiftcore::fs_server::write_piece_len(100000, 10000), 4128);
}
