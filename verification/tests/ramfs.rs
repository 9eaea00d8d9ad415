use swiftcore::ramfs::{decode_ram_request, encode_ram_reply, RamFs, RamReply, RamRequest, RAM_REQUEST_SIZE};

const WELCOME: &str = "Welcome to SwiftCore OS!\nThis file is served by libc-based fs.service.\n";

fn path(s: &str) -> Vec<u8> {
    let mut p = s.as_bytes().to_vec();
    p.resize(128, 0);
    p
}

#[test]
fn ramfs_open_and_read_readme_in_pieces() {
    let mut fs = RamFs::new();
    let fd = fs.open(&path("readme.txt"));
    assert_eq!(fd, 0);
    let first = fs.read(0, 10);
    assert_eq!(first.status, 10);
    assert_eq!(first.data, b"Welcome to".to_vec());
    let rest = fs.read(0, 500);
    assert_eq!(rest.status as usize, WELCOME.len() - 10);
    assert_eq!(rest.data, WELCOME.as_bytes()[10..].to_vec());
    let end = fs.read(0, 16);
    assert_eq!(end.status, 0);
    assert!(end.data.is_empty());
}

#[test]
fn ramfs_read_is_capped_at_128_bytes() {
    let mut fs = RamFs::new();
    assert_eq!(fs.open(&path("readme.txt")), 0);
    let r = fs.read(0, 1000);
    assert_eq!(r.status as usize, WELCOME.len());
    assert!(WELCOME.len() < 128);
    assert_eq!(r.data, WELCOME.as_bytes().to_vec());
}

#[test]
fn ramfs_open_unknown_name_is_enoent() {
    let mut fs = RamFs::new();
    assert_eq!(fs.open(&path("missing.txt")), -2);
    assert_eq!(fs.open(&path("readme.tx")), -2);
    assert_eq!(fs.open(&path("")), -2);
}

#[test]
fn ramfs_path_without_terminator_still_matches() {
    let mut fs = RamFs::new();
    assert_eq!(fs.open(&b"readme.txt".to_vec()), 0);
}

#[test]
fn ramfs_runs_out_of_descriptors() {
    let mut fs = RamFs::new();
    for i in 0..16 {
        assert_eq!(fs.open(&path("readme.txt")), i);
    }
    assert_eq!(fs.open(&path("readme.txt")), -1);
    assert_eq!(fs.close(5), 0);
    assert_eq!(fs.open(&path("readme.txt")), 5);
}

#[test]
fn ramfs_close_and_bad_descriptors() {
    let mut fs = RamFs::new();
    assert_eq!(fs.open(&path("readme.txt")), 0);
    assert_eq!(fs.close(0), 0);
    assert_eq!(fs.close(0), -9);
    assert_eq!(fs.close(99), -9);
    assert_eq!(fs.read(0, 4).status, -9);
    assert_eq!(fs.read(16, 4).status, -9);
}

#[test]
fn ramfs_each_descriptor_keeps_its_own_offset() {
    let mut fs = RamFs::new();
    assert_eq!(fs.open(&path("readme.txt")), 0);
    assert_eq!(fs.open(&path("readme.txt")), 1);
    assert_eq!(fs.read(0, 8).data, b"Welcome ".to_vec());
    assert_eq!(fs.read(1, 3).data, b"Wel".to_vec());
    assert_eq!(fs.read(0, 2).data, b"to".to_vec());
}

fn request(op: u64, arg1: u64, arg2: u64, p: &str) -> RamRequest {
    RamRequest { op, arg1, arg2, path: path(p) }
}

#[test]
fn ramfs_handle_dispatches_by_operation() {
    let mut fs = RamFs::new();
    let r = fs.handle(&request(1, 0, 0, "readme.txt"));
    assert_eq!(r.status, 0);
    assert!(r.data.is_empty());
    let r = fs.handle(&request(2, 0, 7, ""));
    assert_eq!(r.status, 7);
    assert_eq!(r.data, b"Welcome".to_vec());
    assert_eq!(fs.handle(&request(3, 0, 5, "")).status, 0);
    assert_eq!(fs.handle(&request(4, 0, 0, "")).status, 0);
    assert_eq!(fs.handle(&request(4, 0, 0, "")).status, -9);
    assert_eq!(fs.handle(&request(9, 0, 0, "")).status, -1);
}

#[test]
fn ramfs_decode_request_fields() {
    let mut b = vec![0u8; RAM_REQUEST_SIZE];
    b[0] = 2;
    b[8] = 3;
    b[16] = 0x10;
    b[17] = 0x01;
    b[24..27].copy_from_slice(b"abc");
    let r = decode_ram_request(&b).unwrap();
    assert_eq!(r.op, 2);
    assert_eq!(r.arg1, 3);
    assert_eq!(r.arg2, 0x110);
    assert_eq!(r.path.len(), 128);
    assert_eq!(&r.path[..4], b"abc\0");
    assert!(decode_ram_request(&b[..RAM_REQUEST_SIZE - 1]).is_none());
}

#[test]
fn ramfs_encode_reply_layout() {
    let reply = RamReply { status: -9, data: Vec::new() };
    let b = encode_ram_reply(&reply);
    assert_eq!(b.len(), 144);
    assert_eq!(&b[..8], &(-9i64).to_le_bytes());
    assert_eq!(&b[8..16], &0u64.to_le_bytes());
    let reply = RamReply { status: 2, data: b"hi".to_vec() };
    let b = encode_ram_reply(&reply);
    assert_eq!(b.len(), 144);
    assert_eq!(&b[8..16], &2u64.to_le_bytes());
    assert_eq!(&b[16..18], b"hi");
    assert!(b[18..].iter().all(|&x| x == 0));
}
