use swiftcore::capability::db::AllowDb;
use swiftcore::capability::policy::{classify, is_bootstrap_trusted_service, should_grant, CapabilityLevel};
use swiftcore::capability::protocol::{
    decode_request, encode_response, AlignedBuf, CapabilityRequestMsg, CapabilityResponseMsg,
    SubjectType, MSG_DATA_SIZE, OP_GRANT_FOR_EXEC, OP_LIST_GRANTED, RECV_BUF_SIZE, REQUEST_SIZE,
};
use swiftcore::capability::registry::CapabilityRegistry;
use swiftcore::capability::service::{
    check_status, encode_nul_list, grant_for_exec, is_trusted_grant_caller, list_granted,
    make_response, read_str_from_msg, record_granted, resolve_status, split_nul_list, GrantLedger,
};
use swiftcore::capability::client::{decode_response, grant_request, granted_names_of, record_request};

const REGISTRY_TEXT: &str = "\
# capabilities known to the system
[capabilities.ipc.client]
level = \"normal\"

[capabilities.fs.read.all]
level = \"privileged\"
[capabilities.camera.access]
[capabilities.kernel.debug]
  [capabilities.ipc.client]  
[capabilities.]
[other.section]
";

fn registry() -> CapabilityRegistry {
    CapabilityRegistry::load(REGISTRY_TEXT)
}

fn request(op: u64, arg0: u64, arg1: u64, len0: u64, len1: u64, payload: &[u8]) -> CapabilityRequestMsg {
    let mut data = vec![0u8; MSG_DATA_SIZE];
    data[..payload.len()].copy_from_slice(payload);
    CapabilityRequestMsg { op, arg0, arg1, len0, len1, data }
}

fn payload_of(resp: &CapabilityResponseMsg) -> Vec<u8> {
    resp.data[..resp.len as usize].to_vec()
}

#[test]
fn registry_reads_section_headers_once_each() {
    let r = registry();
    assert_eq!(r.len(), 4);
    assert!(r.contains("ipc.client"));
    assert!(r.contains("fs.read.all"));
    assert!(r.contains("camera.access"));
    assert!(r.contains("kernel.debug"));
    assert!(!r.contains(""));
    assert!(!r.contains("other.section"));
}

#[test]
fn allow_list_parsing_and_replacement() {
    let db = AllowDb::parse(
        "# comment\n\nservice:net.service = net.raw, device.net\napp:editor=camera.access\napp: editor = clipboard.read , \nbogus line\nservice:=x\n",
    );
    assert_eq!(db.services_len(), 1);
    assert_eq!(db.apps_len(), 1);
    assert!(db.allows(SubjectType::Service, "net.service", "net.raw"));
    assert!(db.allows(SubjectType::Service, "net.service", "device.net"));
    assert!(!db.allows(SubjectType::App, "net.service", "net.raw"));
    assert!(db.allows(SubjectType::App, "editor", "clipboard.read"));
    assert!(!db.allows(SubjectType::App, "editor", "camera.access"));
    assert!(!db.allows(SubjectType::App, "editor", ""));
    let empty = AllowDb::empty();
    assert_eq!(empty.services_len(), 0);
    assert!(!empty.allows(SubjectType::Service, "net.service", "net.raw"));
}

#[test]
fn capability_levels() {
    assert_eq!(classify("ipc.client"), CapabilityLevel::Normal);
    assert_eq!(classify("fs.read.user.documents"), CapabilityLevel::Normal);
    assert_eq!(classify("camera.access"), CapabilityLevel::Sensitive);
    assert_eq!(classify("fs.read.all"), CapabilityLevel::Privileged);
    assert_eq!(classify("kernel.debug"), CapabilityLevel::Dangerous);
    assert_eq!(classify("no.such.capability"), CapabilityLevel::Sensitive);
}

#[test]
fn trusted_services_at_boot() {
    assert!(is_bootstrap_trusted_service("core.service"));
    assert!(is_bootstrap_trusted_service("shell.service"));
    assert!(!is_bootstrap_trusted_service("editor"));
}

#[test]
fn grant_rules_per_level() {
    let db = AllowDb::parse("service:dbg.service=kernel.debug\napp:cam=camera.access\nservice:logger=system.logs.read\n");
    // normal: always
    assert!(should_grant(SubjectType::App, "x", "ipc.client", &db, false, false));
    // sensitive: allow list or switch
    assert!(should_grant(SubjectType::App, "cam", "camera.access", &db, false, false));
    assert!(!should_grant(SubjectType::App, "other", "camera.access", &db, false, false));
    assert!(should_grant(SubjectType::App, "other", "camera.access", &db, true, false));
    assert!(!should_grant(SubjectType::App, "other", "unknown.cap", &db, false, false));
    // privileged: trusted service or allow list
    assert!(should_grant(SubjectType::Service, "core.service", "fs.read.all", &db, false, false));
    assert!(!should_grant(SubjectType::App, "core.service", "fs.read.all", &db, false, false));
    assert!(should_grant(SubjectType::Service, "logger", "system.logs.read", &db, false, false));
    // dangerous: service on the list with the switch on
    assert!(!should_grant(SubjectType::Service, "dbg.service", "kernel.debug", &db, true, false));
    assert!(should_grant(SubjectType::Service, "dbg.service", "kernel.debug", &db, false, true));
    assert!(!should_grant(SubjectType::Service, "core.service", "kernel.debug", &db, true, true));
}

#[test]
fn subject_type_codes() {
    assert_eq!(SubjectType::from_u64(1), Some(SubjectType::App));
    assert_eq!(SubjectType::from_u64(2), Some(SubjectType::Service));
    assert_eq!(SubjectType::from_u64(0), None);
    assert_eq!(SubjectType::from_u64(3), None);
}

#[test]
fn request_decoding_is_little_endian() {
    let mut raw = vec![0u8; REQUEST_SIZE];
    raw[0] = 3;
    raw[8] = 0x34;
    raw[9] = 0x12;
    raw[16] = 0xff;
    raw[24] = 5;
    raw[32] = 7;
    raw[40] = b'h';
    raw[REQUEST_SIZE - 1] = 9;
    let req = decode_request(&raw).unwrap();
    assert_eq!(req.op, 3);
    assert_eq!(req.arg0, 0x1234);
    assert_eq!(req.arg1, 0xff);
    assert_eq!(req.len0, 5);
    assert_eq!(req.len1, 7);
    assert_eq!(req.data.len(), MSG_DATA_SIZE);
    assert_eq!(req.data[0], b'h');
    assert_eq!(req.data[MSG_DATA_SIZE - 1], 9);
    assert!(decode_request(&raw[..REQUEST_SIZE - 1]).is_none());
    assert_eq!(AlignedBuf::new().0.len(), RECV_BUF_SIZE);
}

#[test]
fn response_encoding() {
    let resp = CapabilityResponseMsg { op: 4, status: -22, len: 2, data: vec![7, 8] };
    let bytes = encode_response(&resp);
    assert_eq!(bytes.len(), 26);
    assert_eq!(&bytes[0..8], &[4, 0, 0, 0, 0, 0, 0, 0]);
    assert_eq!(&bytes[8..16], &(-22i64).to_le_bytes());
    assert_eq!(&bytes[16..24], &[2, 0, 0, 0, 0, 0, 0, 0]);
    assert_eq!(&bytes[24..], &[7, 8]);
}

#[test]
fn zero_separated_lists() {
    let v = split_nul_list(b"a.b\0\0c\0\xff\xfe\0d");
    assert_eq!(v, vec!["a.b".to_string(), "c".to_string(), "d".to_string()]);
    assert!(split_nul_list(b"").is_empty());
    let enc = encode_nul_list(&vec!["x".to_string(), "yz".to_string()]);
    assert_eq!(enc, b"x\0yz\0".to_vec());
    let long: Vec<String> = (0..200).map(|_| "abcd".to_string()).collect();
    assert_eq!(encode_nul_list(&long).len(), MSG_DATA_SIZE);
}

#[test]
fn nul_list_round_trip() {
    let names = vec!["ipc.client".to_string(), "fs.read.all".to_string()];
    assert_eq!(split_nul_list(&encode_nul_list(&names)), names);
}

#[test]
fn reading_strings_out_of_a_request() {
    let req = request(1, 0, 0, 0, 0, b"hello\xff");
    assert_eq!(read_str_from_msg(&req, 0, 5), Some("hello".to_string()));
    assert_eq!(read_str_from_msg(&req, 1, 3), Some("ell".to_string()));
    assert_eq!(read_str_from_msg(&req, 0, 6), None);
    assert_eq!(read_str_from_msg(&req, MSG_DATA_SIZE, 1), None);
    assert_eq!(read_str_from_msg(&req, usize::MAX, 2), None);
}

#[test]
fn responses_are_padded() {
    let r = make_response(2, 1, &vec![1, 2, 3]);
    assert_eq!(r.op, 2);
    assert_eq!(r.status, 1);
    assert_eq!(r.len, 3);
    assert_eq!(r.data.len(), MSG_DATA_SIZE);
    assert_eq!(&r.data[..4], &[1, 2, 3, 0]);
}

#[test]
fn resolve_and_check_statuses() {
    let reg = registry();
    assert_eq!(resolve_status(&request(1, 0, 0, 10, 0, b"ipc.client"), &reg), 0);
    assert_eq!(resolve_status(&request(1, 0, 0, 3, 0, b"ipc.client"), &reg), -22);
    assert_eq!(resolve_status(&request(1, 0, 0, 600, 0, b"ipc.client"), &reg), -22);
    assert_eq!(check_status(Ok(true)), 1);
    assert_eq!(check_status(Ok(false)), 0);
    assert_eq!(check_status(Err(-3)), -3);
}

#[test]
fn grant_callers() {
    assert!(is_trusted_grant_caller(5, Some(5), None));
    assert!(is_trusted_grant_caller(6, Some(5), Some(6)));
    assert!(!is_trusted_grant_caller(7, Some(5), Some(6)));
    assert!(!is_trusted_grant_caller(7, None, None));
}

#[test]
fn grant_for_exec_filters_requested_names() {
    let reg = registry();
    let db = AllowDb::parse("app:editor=camera.access\n");
    let mut payload = b"editor".to_vec();
    let requested = b"ipc.client\0camera.access\0fs.read.all\0unknown.cap\0kernel.debug\0";
    payload.extend_from_slice(requested);
    let req = request(OP_GRANT_FOR_EXEC, 1, 0, 6, requested.len() as u64, &payload);
    let resp = grant_for_exec(&req, &reg, &db, true, false, false);
    assert_eq!(resp.op, OP_GRANT_FOR_EXEC);
    assert_eq!(resp.status, 0);
    assert_eq!(payload_of(&resp), b"ipc.client\0camera.access\0".to_vec());
    let as_service = request(OP_GRANT_FOR_EXEC, 2, 0, 6, requested.len() as u64, &payload);
    let resp = grant_for_exec(&as_service, &reg, &db, true, false, false);
    assert_eq!(payload_of(&resp), b"ipc.client\0".to_vec());
}

#[test]
fn grant_for_exec_errors() {
    let reg = registry();
    let db = AllowDb::empty();
    let req = request(OP_GRANT_FOR_EXEC, 1, 0, 1, 2, b"a\0\0");
    assert_eq!(grant_for_exec(&req, &reg, &db, false, false, false).status, -1);
    let bad_type = request(OP_GRANT_FOR_EXEC, 9, 0, 1, 2, b"a\0\0");
    assert_eq!(grant_for_exec(&bad_type, &reg, &db, true, false, false).status, -22);
    let bad_id = request(OP_GRANT_FOR_EXEC, 1, 0, 1, 2, b"\xff\0\0");
    assert_eq!(grant_for_exec(&bad_id, &reg, &db, true, false, false).status, -22);
    let too_long = request(OP_GRANT_FOR_EXEC, 1, 0, 1, 600, b"a");
    assert_eq!(grant_for_exec(&too_long, &reg, &db, true, false, false).status, -22);
}

#[test]
fn ledger_records_and_lists() {
    let mut ledger = GrantLedger::new();
    assert!(ledger.list(9).is_empty());
    let rec = request(5, 9, 0, 8, 0, b"a.b\0c.d\0xyz");
    assert_eq!(record_granted(&rec, &mut ledger, true), 0);
    assert_eq!(ledger.list(9), vec!["a.b".to_string(), "c.d".to_string()]);
    let untrusted = request(5, 9, 0, 4, 0, b"zzz\0");
    assert_eq!(record_granted(&untrusted, &mut ledger, false), -1);
    assert_eq!(ledger.list(9).len(), 2);
    let resp = list_granted(&request(OP_LIST_GRANTED, 9, 0, 0, 0, b""), &ledger);
    assert_eq!(resp.status, 0);
    assert_eq!(payload_of(&resp), b"a.b\0c.d\0".to_vec());
    ledger.record(9, vec!["only".to_string()]);
    assert_eq!(ledger.list(9), vec!["only".to_string()]);
    let none = list_granted(&request(OP_LIST_GRANTED, 4, 0, 0, 0, b""), &ledger);
    assert_eq!(none.len, 0);
}

#[test]
fn grant_request_layout() {
    let names = vec!["ipc.client".to_string(), "fs.read.all".to_string()];
    let req = grant_request(SubjectType::Service, "net.service", &names, 42).unwrap();
    assert_eq!(req.op, OP_GRANT_FOR_EXEC);
    assert_eq!(req.arg0, 2);
    assert_eq!(req.arg1, 42);
    assert_eq!(req.len0, 11);
    assert_eq!(req.len1, 23);
    assert_eq!(req.data.len(), MSG_DATA_SIZE);
    assert_eq!(&req.data[..11], b"net.service");
    assert_eq!(&req.data[11..34], b"ipc.client\0fs.read.all\0");
    assert_eq!(req.data[34], 0);
    let app = grant_request(SubjectType::App, "editor", &Vec::new(), 1).unwrap();
    assert_eq!(app.arg0, 1);
    assert_eq!(app.len1, 0);
}

#[test]
fn grant_request_too_long() {
    let long_id = "x".repeat(MSG_DATA_SIZE + 1);
    assert!(grant_request(SubjectType::App, &long_id, &Vec::new(), 1).is_none());
    let names: Vec<String> = (0..100).map(|_| "abcdef".to_string()).collect();
    assert!(grant_request(SubjectType::App, "a", &names, 1).is_none());
    let exact = vec!["y".repeat(MSG_DATA_SIZE - 1)];
    assert!(grant_request(SubjectType::App, "", &exact, 1).is_some());
    assert!(grant_request(SubjectType::App, "z", &exact, 1).is_none());
}

#[test]
fn granted_request_is_answered_by_the_service() {
    let reg = registry();
    let db = AllowDb::empty();
    let names = vec!["ipc.client".to_string(), "camera.access".to_string()];
    let req = grant_request(SubjectType::App, "editor", &names, 3).unwrap();
    let resp = grant_for_exec(&req, &reg, &db, true, false, false);
    let bytes = encode_response(&resp);
    let back = decode_response(&bytes).unwrap();
    assert_eq!(back.op, OP_GRANT_FOR_EXEC);
    assert_eq!(back.status, 0);
    assert_eq!(granted_names_of(back.status, back.len, &back.data), Some(vec!["ipc.client".to_string()]));
    assert_eq!(granted_names_of(-1, 0, &back.data), None);
    assert_eq!(granted_names_of(0, 0, &back.data), Some(Vec::new()));
    assert!(decode_response(&bytes[..100]).is_none());
}

#[test]
fn record_request_then_list() {
    let names = vec!["a.b".to_string(), "c.d".to_string()];
    let req = record_request(77, &names);
    assert_eq!(req.op, 5);
    assert_eq!(req.arg0, 77);
    assert_eq!(req.len0, 8);
    let mut ledger = GrantLedger::new();
    assert_eq!(record_granted(&req, &mut ledger, true), 0);
    let resp = list_granted(&request(OP_LIST_GRANTED, 77, 0, 0, 0, b""), &ledger);
    assert_eq!(payload_of(&resp), b"a.b\0c.d\0".to_vec());
    let many: Vec<String> = (0..200).map(|_| "abcd".to_string()).collect();
    assert_eq!(record_request(1, &many).len0, MSG_DATA_SIZE as u64);
}
