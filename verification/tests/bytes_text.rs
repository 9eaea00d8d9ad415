use swiftcore::bytes::{
    bytes_equal, bytes_less, copy_into, copy_range, fill_zero, find_byte, push_u64_le, range_equals,
    read_u64_le, zeroed,
};
use swiftcore::text::{
    char_is_ws, str_contains_char, str_eq, str_find_char_from, str_rfind_char, str_starts_with,
    str_strip_all, str_strip_all_end, str_trim,
};
use swiftcore::text::decimal_bytes;

#[test]
fn little_endian_round_trip() {
    for x in [0u64, 1, 0x1234_5678_9abc_def0, u64::MAX] {
        let mut out = vec![7u8];
        push_u64_le(&mut out, x);
        assert_eq!(out.len(), 9);
        assert_eq!(&out[1..], &x.to_le_bytes());
        assert_eq!(read_u64_le(&out, 1), x);
    }
}

#[test]
fn byte_buffers() {
    assert_eq!(zeroed(3), vec![0, 0, 0]);
    let src = vec![1u8, 2, 3, 4, 5];
    assert_eq!(copy_range(&src, 1, 4), vec![2, 3, 4]);
    let mut dst = vec![9u8; 6];
    copy_into(&mut dst, 2, &src, 3, 2);
    assert_eq!(dst, vec![9, 9, 4, 5, 9, 9]);
    fill_zero(&mut dst, 1, 3);
    assert_eq!(dst, vec![9, 0, 0, 5, 9, 9]);
    assert!(range_equals(&src, 1, 2, &[2, 3]));
    assert!(!range_equals(&src, 1, 2, &[2, 4]));
    assert!(!range_equals(&src, 1, 2, &[2]));
    assert_eq!(find_byte(&src, 4, 0), 3);
    assert_eq!(find_byte(&src, 4, 4), 5);
}

#[test]
fn byte_order_is_lexicographic() {
    assert!(bytes_less(b"abc", b"abd"));
    assert!(bytes_less(b"ab", b"abc"));
    assert!(!bytes_less(b"abc", b"abc"));
    assert!(bytes_less(b"B", b"a"));
    assert!(!bytes_less(b"b", b"a"));
    assert!(bytes_equal(b"x", b"x"));
    assert!(!bytes_equal(b"x", b"xy"));
}

#[test]
fn text_helpers() {
    assert!(str_starts_with("service:x", "service:"));
    assert!(!str_starts_with("serv", "service:"));
    assert!(str_eq("a", "a"));
    assert!(!str_eq("a", "b"));
    assert_eq!(str_find_char_from("a=b=c", '=', 0), 1);
    assert_eq!(str_find_char_from("a=b=c", '=', 2), 3);
    assert_eq!(str_find_char_from("abc", '=', 0), 3);
    assert_eq!(str_rfind_char("/a/b", '/'), Some(2));
    assert_eq!(str_rfind_char("ab", '/'), None);
    assert!(char_is_ws(' '));
    assert!(char_is_ws('\t'));
    assert!(!char_is_ws('x'));
    assert_eq!(str_trim("  a b \t\r"), "a b");
    assert_eq!(str_trim("   "), "");
    assert_eq!(str_strip_all_end("dir///", '/'), "dir");
    assert_eq!(str_strip_all("\"\"q\"", '"'), "q");
    assert!(str_contains_char("a[b", '['));
    assert!(!str_contains_char("ab", '['));
}

#[test]
fn decimal_forms() {
    assert_eq!(decimal_bytes(0), b"0".to_vec());
    assert_eq!(decimal_bytes(7), b"7".to_vec());
    assert_eq!(decimal_bytes(10), b"10".to_vec());
    assert_eq!(decimal_bytes(1234567890), b"1234567890".to_vec());
    assert_eq!(decimal_bytes(u64::MAX), u64::MAX.to_string().into_bytes());
}
