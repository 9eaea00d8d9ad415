use swiftcore::disk::{
    copy_bulk_chunk, parse_bulk_reply, write_reply_ok, DiskServiceDevice, KernelBlockDevice,
    MessageStash, DISK_OP_READ, DISK_RESPONSE_SIZE, IPC_MAX_MSG_SIZE, SECTOR_SIZE, STASH_CAP,
};
use swiftcore::vfs::VfsError;
use swiftcore::disk::{read_sectors_check, MAX_SECTORS_PER_REQ};
use swiftcore::disk::{reply_count, reply_sectors};
use swiftcore::disk::{next_run, SectorRun};

fn reply(status: u64, data_len: u64, data: &[u8], total: usize) -> Vec<u8> {
    let mut v = Vec::new();
    v.extend_from_slice(&status.to_le_bytes());
    v.extend_from_slice(&data_len.to_le_bytes());
    v.extend_from_slice(data);
    v.resize(total, 0);
    v
}

#[test]
fn devices_use_512_byte_sectors() {
    let d = DiskServiceDevice::new(7, 2);
    assert_eq!(d.disk_service_pid, 7);
    assert_eq!(d.disk_id, 2);
    assert_eq!(d.sector_size, SECTOR_SIZE);
    let k = KernelBlockDevice::new(3);
    assert_eq!(k.disk_id, 3);
    assert_eq!(k.sector_size, 512);
}

#[test]
fn disk_request_layout() {
    let d = DiskServiceDevice::new(7, 2);
    let data = vec![0xabu8; SECTOR_SIZE];
    let req = d.request(DISK_OP_READ, 0x10, 4, &data);
    assert_eq!(req.len(), 32 + SECTOR_SIZE);
    assert_eq!(&req[0..8], &1u64.to_le_bytes());
    assert_eq!(&req[8..16], &2u64.to_le_bytes());
    assert_eq!(&req[16..24], &0x10u64.to_le_bytes());
    assert_eq!(&req[24..32], &4u64.to_le_bytes());
    assert_eq!(req[32], 0xab);
}

#[test]
fn bulk_chunks_land_in_place() {
    let mut dst = vec![0u8; 4 * 512 * 2];
    let src = vec![9u8; 512 * 3];
    assert_eq!(copy_bulk_chunk(512, 1, 512 * 3, &src, &mut dst), Ok(()));
    assert_eq!(dst[4 * 512 - 1], 0);
    assert_eq!(dst[4 * 512], 9);
    assert_eq!(dst[4 * 512 + 3 * 512 - 1], 9);
    assert_eq!(dst[4 * 512 + 3 * 512], 0);
}

#[test]
fn bulk_chunk_errors() {
    let mut dst = vec![0u8; 1024];
    assert_eq!(copy_bulk_chunk(512, 0, 600, &[1u8; 100], &mut dst), Err(VfsError::IoError));
    assert_eq!(copy_bulk_chunk(512, 1, 512, &[1u8; 512], &mut dst), Err(VfsError::InvalidArgument));
    assert_eq!(copy_bulk_chunk(512, usize::MAX, 1, &[1u8; 1], &mut dst), Err(VfsError::InvalidArgument));
    assert!(dst.iter().all(|b| *b == 0));
}

#[test]
fn bulk_reply_forms() {
    let one = reply(0, 512, &[5u8; 512], DISK_RESPONSE_SIZE);
    assert_eq!(parse_bulk_reply(&one, DISK_RESPONSE_SIZE, 1, 512), Ok(vec![5u8; 512]));
    let bad = reply(1, 512, &[5u8; 512], DISK_RESPONSE_SIZE);
    assert_eq!(parse_bulk_reply(&bad, DISK_RESPONSE_SIZE, 1, 512), Err(VfsError::IoError));
    let two = reply(0, 1024, &[6u8; 1024], 16 + 1024);
    assert_eq!(parse_bulk_reply(&two, 16 + 1024, 2, 512), Ok(vec![6u8; 1024]));
    assert_eq!(parse_bulk_reply(&two, 16 + 1000, 2, 512), Err(VfsError::IoError));
    let wrong_len = reply(0, 1000, &[6u8; 1024], 16 + 1024);
    assert_eq!(parse_bulk_reply(&wrong_len, 16 + 1024, 2, 512), Err(VfsError::IoError));
}

#[test]
fn write_replies() {
    let ok = reply(0, 0, &[], DISK_RESPONSE_SIZE);
    assert_eq!(write_reply_ok(&ok, DISK_RESPONSE_SIZE), Ok(()));
    assert_eq!(write_reply_ok(&ok, 10), Err(VfsError::IoError));
    let failed = reply(3, 0, &[], DISK_RESPONSE_SIZE);
    assert_eq!(write_reply_ok(&failed, DISK_RESPONSE_SIZE), Err(VfsError::IoError));
}

#[test]
fn stash_keeps_messages_in_order() {
    let mut s = MessageStash::new();
    let mut buf = vec![0u8; 4];
    assert_eq!(s.pop(&mut buf), None);
    s.push(1, b"hello");
    s.push(2, b"ab");
    assert_eq!(s.pop(&mut buf), Some((1, 4)));
    assert_eq!(&buf, b"hell");
    assert_eq!(s.pop(&mut buf), Some((2, 2)));
    assert_eq!(&buf, b"abll");
    assert_eq!(s.pop(&mut buf), None);
}

#[test]
fn stash_drops_oldest_when_full() {
    let mut s = MessageStash::new();
    for i in 0..(STASH_CAP as u64 + 2) {
        s.push(i, &[i as u8]);
    }
    let mut buf = vec![0u8; 1];
    assert_eq!(s.pop(&mut buf), Some((2, 1)));
    let mut count = 1;
    while s.pop(&mut buf).is_some() {
        count += 1;
    }
    assert_eq!(count, STASH_CAP);
    let big = vec![1u8; IPC_MAX_MSG_SIZE + 10];
    s.push(9, &big);
    let mut into = vec![0u8; IPC_MAX_MSG_SIZE + 10];
    assert_eq!(s.pop(&mut into), Some((9, IPC_MAX_MSG_SIZE as u64)));
}

#[test]
fn read_requests_are_checked() {
    assert_eq!(read_sectors_check(0, 512, 4096), Err(VfsError::InvalidArgument));
    assert_eq!(read_sectors_check(MAX_SECTORS_PER_REQ + 1, 512, 1 << 20), Err(VfsError::InvalidArgument));
    assert_eq!(read_sectors_check(4, 512, 2047), Err(VfsError::InvalidArgument));
    assert_eq!(read_sectors_check(4, 512, 2048), Ok(2048));
    assert_eq!(read_sectors_check(2, usize::MAX, usize::MAX), Err(VfsError::InvalidArgument));
}

#[test]
fn replies_per_read() {
    assert_eq!(reply_count(1), 1);
    assert_eq!(reply_count(4), 1);
    assert_eq!(reply_count(5), 2);
    assert_eq!(reply_count(64), 16);
    assert_eq!(reply_sectors(5, 0), 4);
    assert_eq!(reply_sectors(5, 1), 1);
    assert_eq!(reply_sectors(8, 1), 4);
}

#[test]
fn replies_are_stored_in_place() {
    let d = DiskServiceDevice::new(7, 1);
    let mut dst = vec![0u8; 5 * 512];
    let second = reply(0, 512, &[3u8; 512], DISK_RESPONSE_SIZE);
    assert_eq!(d.store_reply(&second, DISK_RESPONSE_SIZE, 5, 1, &mut dst), Ok(()));
    assert_eq!(dst[4 * 512], 3);
    assert_eq!(dst[4 * 512 - 1], 0);
    let first = reply(0, 2048, &[1u8; 2048], 16 + 2048);
    assert_eq!(d.store_reply(&first, 16 + 2048, 5, 0, &mut dst), Ok(()));
    assert!(dst[..2048].iter().all(|b| *b == 1));
    let bad = reply(5, 2048, &[1u8; 2048], 16 + 2048);
    assert_eq!(d.store_reply(&bad, 16 + 2048, 5, 0, &mut dst), Err(VfsError::IoError));
    let mut small = vec![0u8; 100];
    assert_eq!(d.store_reply(&first, 16 + 2048, 5, 0, &mut small), Err(VfsError::InvalidArgument));
}

#[test]
fn long_reads_split_into_runs() {
    assert_eq!(
        next_run(100, 150, 0, 512),
        Ok(SectorRun { lba: 100, sectors: 64, begin: 0, end: 64 * 512 })
    );
    assert_eq!(
        next_run(100, 150, 128, 512),
        Ok(SectorRun { lba: 228, sectors: 22, begin: 128 * 512, end: 150 * 512 })
    );
    assert_eq!(next_run(u64::MAX, 3, 1, 512), Err(()));
}

#[test]
fn one_sector_reply_checks_size_and_status_only() {
    let mut b = vec![0u8; 528];
    b[8] = 7; // a length field that the one-sector read does not look at
    for i in 0..512 {
        b[16 + i] = (i % 251) as u8;
    }
    let data = swiftcore::disk::sector_reply(&b, 528).unwrap();
    assert_eq!(data, b[16..528].to_vec());
    assert!(matches!(swiftcore::disk::sector_reply(&b, 527), Err(VfsError::IoError)));
    b[0] = 1;
    assert!(matches!(swiftcore::disk::sector_reply(&b, 528), Err(VfsError::IoError)));
}

#[test]
fn sector_buffer_must_hold_a_sector() {
    assert!(matches!(swiftcore::disk::sector_buffer_check(511), Err(VfsError::InvalidArgument)));
    assert!(swiftcore::disk::sector_buffer_check(512).is_ok());
}
