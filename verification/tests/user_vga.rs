use swiftcore::user::calls::{
    address_result, block_result, block_transfer_check, c_io_result, capability_query_check,
    capability_result, fork_result, isatty, looks_like_user_mapping, map_physical_check,
    process_lookup_result, process_name_ok, read_scancode, read_scancode_tap, sbrk_target,
    wait_nonblocking, wait_nonblocking_status, wait_result, WaitNonblockingStatus, ENODATA,
    USER_MAP_FLOOR, USER_SPACE_END,
};
use swiftcore::user::fs_client::{
    classify_arrival, cwd_from_buffer, path_buf, read_reply, status_result, Arrival, FsRequestIp,
    FsResponseIp, PendingQueue, EIO, FS_PENDING_CAPACITY, FS_REQUEST_SIZE, FS_RESPONSE_SIZE,
    OP_EXEC, OP_OPEN, OP_READ,
};
use swiftcore::vga::{cell_color, DrawOp, Writer, BACKGROUND, FOREGROUND};
use swiftcore::user::calls::SyscallNumber;

fn neg(v: i64) -> u64 {
    v as u64
}

#[test]
fn block_calls() {
    assert_eq!(block_transfer_check(1024, 2), Ok(()));
    assert_eq!(block_transfer_check(1023, 2), Err(-22));
    assert_eq!(block_transfer_check(usize::MAX, u64::MAX), Err(-22));
    assert_eq!(block_result(0), Ok(()));
    assert_eq!(block_result(neg(-5)), Err(-5));
}

#[test]
fn capability_calls() {
    assert_eq!(capability_query_check(1, 10), Ok(()));
    assert_eq!(capability_query_check(0, 10), Err(-22));
    assert_eq!(capability_query_check(1, 0), Err(-22));
    assert_eq!(capability_query_check(1, 129), Err(-22));
    assert_eq!(capability_query_check(1, 128), Ok(()));
    assert_eq!(capability_result(1), Ok(true));
    assert_eq!(capability_result(0), Ok(false));
    assert_eq!(capability_result(neg(-1)), Err(-1));
}

#[test]
fn process_calls() {
    assert_eq!(fork_result(42), 42);
    assert_eq!(fork_result(neg(-12)), -1);
    assert_eq!(wait_result(7), (7, 0));
    assert_eq!(wait_result(neg(-10)), (-1, 0));
    assert_eq!(wait_nonblocking_status(5), WaitNonblockingStatus::Exited(5));
    assert_eq!(wait_nonblocking_status(0), WaitNonblockingStatus::Running);
    assert_eq!(wait_nonblocking_status(neg(-10)), WaitNonblockingStatus::NoChild);
    assert_eq!(wait_nonblocking_status(neg(-3)), WaitNonblockingStatus::Error(-3));
    assert_eq!(wait_nonblocking(WaitNonblockingStatus::Exited(5)), Some(5));
    assert_eq!(wait_nonblocking(WaitNonblockingStatus::Running), None);
    assert!(process_name_ok(1));
    assert!(process_name_ok(64));
    assert!(!process_name_ok(0));
    assert!(!process_name_ok(65));
    assert_eq!(process_lookup_result(0), None);
    assert_eq!(process_lookup_result(3), Some(3));
}

#[test]
fn memory_calls() {
    assert_eq!(map_physical_check(0x1000, 4096), Ok(()));
    assert_eq!(map_physical_check(0x1000, 0), Err(22u64.wrapping_neg()));
    assert_eq!(map_physical_check(u64::MAX, 1), Err((-22i64) as u64));
    assert_eq!(address_result(0x7000_0000), Ok(0x7000_0000));
    assert_eq!(address_result(neg(-12)), Err(12));
    assert_eq!(address_result(neg(-4096)), Ok(neg(-4096)));
    assert!(looks_like_user_mapping(USER_MAP_FLOOR, 4096));
    assert!(!looks_like_user_mapping(USER_MAP_FLOOR + 1, 4096));
    assert!(!looks_like_user_mapping(USER_MAP_FLOOR, 100));
    assert!(!looks_like_user_mapping(0x1000, 4096));
    assert!(!looks_like_user_mapping(USER_SPACE_END - 4095, 8192));
    assert!(looks_like_user_mapping(USER_SPACE_END - 4095, 4096));
    assert!(!looks_like_user_mapping(0, 4096));
    assert_eq!(sbrk_target(0x1000, 0), Some(0x1000));
    assert_eq!(sbrk_target(0x1000, 0x20), Some(0x1020));
    assert_eq!(sbrk_target(0x1000, -1), None);
    assert_eq!(sbrk_target(0, 1), None);
    assert_eq!(sbrk_target(0xffff_ffff_ffff_f001, 1), None);
    assert_eq!(sbrk_target(0xffff_ffff_ffff_f000, i64::MAX), None);
}

#[test]
fn keyboard_and_c_io() {
    assert_eq!(ENODATA, u64::MAX - 4);
    assert_eq!(read_scancode(ENODATA), None);
    assert_eq!(read_scancode(0x1e), Some(0x1e));
    assert_eq!(read_scancode(0x11e), Some(0x1e));
    assert_eq!(read_scancode_tap(ENODATA), Ok(None));
    assert_eq!(read_scancode_tap(neg(-1)), Err(neg(-1)));
    assert_eq!(read_scancode_tap(0x2a), Ok(Some(0x2a)));
    assert_eq!(isatty(0), 1);
    assert_eq!(isatty(2), 1);
    assert_eq!(isatty(3), 0);
    assert_eq!(isatty(-1), 0);
    assert_eq!(c_io_result(u64::MAX), -1);
    assert_eq!(c_io_result(12), 12);
}

#[test]
fn paths_for_system_calls() {
    let (buf, n) = path_buf("/bin/sh");
    assert_eq!(n, 7);
    assert_eq!(buf.len(), 512);
    assert_eq!(&buf[..7], b"/bin/sh");
    assert_eq!(buf[7], 0);
    let long = "a".repeat(600);
    let (buf, n) = path_buf(&long);
    assert_eq!(n, 511);
    assert_eq!(buf[510], b'a');
    assert_eq!(buf[511], 0);
}

#[test]
fn file_service_requests() {
    let req = FsRequestIp::open("/etc/motd").unwrap();
    assert_eq!(req.op, OP_OPEN);
    let bytes = req.encode();
    assert_eq!(bytes.len(), FS_REQUEST_SIZE);
    assert_eq!(&bytes[0..8], &OP_OPEN.to_le_bytes());
    assert_eq!(&bytes[24..33], b"/etc/motd");
    let back = FsRequestIp::decode(&bytes).unwrap();
    assert_eq!(back.op, OP_OPEN);
    assert_eq!(back.path, req.path);
    assert_eq!(FsRequestIp::exec("/bin/x").unwrap().op, OP_EXEC);
    assert!(FsRequestIp::exec(&"p".repeat(512)).is_none());
    assert!(FsRequestIp::open(&"p".repeat(511)).is_some());
    let plain = FsRequestIp::plain(OP_READ, 3, 100);
    let d = FsRequestIp::decode(&plain.encode()).unwrap();
    assert_eq!((d.op, d.arg1, d.arg2), (OP_READ, 3, 100));
    assert!(FsRequestIp::decode(&[0u8; 10]).is_none());
}

#[test]
fn file_service_replies() {
    let mut data = vec![0u8; 4096];
    data[..5].copy_from_slice(b"hello");
    let resp = FsResponseIp { status: 0, len: 5, data };
    let bytes = resp.encode();
    assert_eq!(bytes.len(), FS_RESPONSE_SIZE);
    let back = FsResponseIp::decode(&bytes).unwrap();
    assert_eq!(back.status, 0);
    assert_eq!(back.len, 5);
    let mut out = vec![0u8; 8];
    assert_eq!(read_reply(&back, &mut out), Ok(5));
    assert_eq!(&out[..5], b"hello");
    let mut tiny = vec![0u8; 2];
    assert_eq!(read_reply(&back, &mut tiny), Err(EIO));
    let failed = FsResponseIp { status: -2, len: 0, data: vec![0u8; 4096] };
    assert_eq!(read_reply(&failed, &mut out), Err(-2));
    assert_eq!(status_result(-13), Err(-13));
    assert_eq!(status_result(4), Ok(4));
    assert!(FsResponseIp::decode(&bytes[..100]).is_none());
}

#[test]
fn working_directory_buffer() {
    let mut buf = vec![0u8; 16];
    buf[..5].copy_from_slice(b"/home");
    assert_eq!(cwd_from_buffer(1, &buf), Some("/home".to_string()));
    assert_eq!(cwd_from_buffer(0, &buf), None);
    assert_eq!(cwd_from_buffer(u64::MAX, &buf), None);
    let bad = vec![0xffu8, 0];
    assert_eq!(cwd_from_buffer(1, &bad), None);
}

#[test]
fn arrivals() {
    assert_eq!(classify_arrival(0, 0, 5, 100), Arrival::Nothing);
    assert_eq!(classify_arrival(4, 200, 5, 100), Arrival::Hold);
    assert_eq!(classify_arrival(5, 50, 5, 100), Arrival::Hold);
    assert_eq!(classify_arrival(5, 100, 5, 100), Arrival::Reply);
}

#[test]
fn pending_replies_are_held_and_taken() {
    let mut q = PendingQueue::new();
    let mut reply = vec![0u8; FS_RESPONSE_SIZE];
    reply[0] = 3;
    reply[8] = 1;
    reply[16] = b'z';
    assert!(q.enqueue(9, 10, &reply));
    assert!(q.enqueue(9, FS_RESPONSE_SIZE, &reply));
    assert!(q.take_for(4).is_none());
    let r = q.take_for(9).unwrap();
    assert_eq!(r.status, 3);
    assert_eq!(r.len, 1);
    assert_eq!(r.data[0], b'z');
    assert!(q.take_for(9).is_none());
    let mut q = PendingQueue::new();
    for _ in 0..FS_PENDING_CAPACITY {
        assert!(q.enqueue(1, 1, &[0]));
    }
    assert!(!q.enqueue(1, 1, &[0]));
}

#[test]
fn writer_draws_at_the_cursor() {
    let mut w = Writer::new(16, 32);
    assert_eq!(w.write_byte(b'a'), vec![DrawOp::Char { ch: b'a', x: 0, y: 0 }]);
    assert_eq!(w.write_byte(b'b'), vec![DrawOp::Char { ch: b'b', x: 8, y: 0 }]);
    // the row is full: a new line first
    assert_eq!(w.write_byte(b'c'), vec![DrawOp::Char { ch: b'c', x: 0, y: 16 }]);
    // past the last row the screen is cleared
    assert_eq!(w.write_byte(b'\n'), vec![DrawOp::Clear]);
    assert_eq!(w.write_string("x\u{e9}"), vec![
        DrawOp::Char { ch: b'x', x: 0, y: 0 },
        DrawOp::Char { ch: b' ', x: 8, y: 0 },
        DrawOp::Char { ch: b' ', x: 0, y: 16 },
    ]);
    assert_eq!(w.clear_screen(), DrawOp::Clear);
    assert_eq!(w.write_byte(b'q'), vec![DrawOp::Char { ch: b'q', x: 0, y: 0 }]);
}

#[test]
fn cell_pixels() {
    assert_eq!(cell_color(b'a', 0, 3, FOREGROUND, BACKGROUND), FOREGROUND);
    assert_eq!(cell_color(b'a', 15, 3, FOREGROUND, BACKGROUND), FOREGROUND);
    assert_eq!(cell_color(b'a', 5, 7, FOREGROUND, BACKGROUND), FOREGROUND);
    assert_eq!(cell_color(b'a', 5, 3, FOREGROUND, BACKGROUND), BACKGROUND);
    assert_eq!(cell_color(b' ', 0, 0, FOREGROUND, BACKGROUND), BACKGROUND);
}

#[test]
fn syscall_numbers() {
    assert_eq!(SyscallNumber::Yield.code(), 1);
    assert_eq!(SyscallNumber::IpcRecv.code(), 4);
    assert_eq!(SyscallNumber::GetTid.code(), 10);
    assert_eq!(SyscallNumber::Wait.code(), 15);
}

#[test]
fn writing_in_pieces_draws_the_same() {
    let mut one = Writer::new(24, 48);
    let mut two = Writer::new(24, 48);
    let whole = one.write_string("abcd\nefghij");
    let mut parts = two.write_string("abcd\nef");
    parts.extend(two.write_string("ghij"));
    assert_eq!(whole, parts);
    assert_eq!(one.write_byte(b'k'), two.write_byte(b'k'));
}

#[test]
fn text_element_and_colour() {
    let t = swiftcore::ui::Text::new("hi");
    assert_eq!(t.text, "hi");
    assert_eq!(t.color, None);
    let t = t.color("red");
    assert_eq!(t.text, "hi");
    assert_eq!(t.color.as_deref(), Some("red"));
}
