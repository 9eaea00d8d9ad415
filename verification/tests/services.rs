use swiftcore::boot::{
    decode_process_request, driver_list, grant_plan, running_names, GrantPlan, PROCESS_REQUEST_SIZE,
};
use swiftcore::capability::client::{decode_status_reply, STATUS_REPLY_SIZE};
use swiftcore::capability::policy::switch_is_on;
use swiftcore::capability::protocol::{decode_request, encode_request, CapabilityRequestMsg, MSG_DATA_SIZE};
use swiftcore::fs_service::{caller_check, path_components};
use swiftcore::gate::{
    classify_gate_arrival, decode_gate_request, encode_status_reply, gate_status, required_capability,
    GateArrival, GateRequest, GateService, EACCES, ENOSYS,
};
use swiftcore::user::calls::{call_status, received};
use swiftcore::user::fs_client::WholeFileRead;

fn strings(v: &[&str]) -> Vec<String> {
    v.iter().map(|s| s.to_string()).collect()
}

#[test]
fn gate_capabilities_per_operation() {
    assert_eq!(required_capability(GateService::Device, 1), Some("device.gpu"));
    assert_eq!(required_capability(GateService::Device, 6), Some("usb.access"));
    assert_eq!(required_capability(GateService::Device, 8), Some("bluetooth.access"));
    assert_eq!(required_capability(GateService::Device, 9), None);
    assert_eq!(required_capability(GateService::Net, 2), Some("net.listen"));
    assert_eq!(required_capability(GateService::Net, 4), None);
    assert_eq!(required_capability(GateService::Window, 4), Some("display.capture"));
    assert_eq!(required_capability(GateService::Window, 0), None);
}

#[test]
fn gate_answers() {
    assert_eq!(gate_status(None), ENOSYS);
    assert_eq!(gate_status(Some(Ok(true))), ENOSYS);
    assert_eq!(gate_status(Some(Ok(false))), EACCES);
    assert_eq!(gate_status(Some(Err(-22))), EACCES);
    let bytes = encode_status_reply(-13, 7);
    assert_eq!(&bytes[..8], &(-13i64).to_le_bytes());
    assert_eq!(&bytes[8..], &7u64.to_le_bytes());
}

#[test]
fn gate_arrivals_and_requests() {
    assert_eq!(classify_gate_arrival(0xFFFF_FFFF, 5), GateArrival::Yield);
    assert_eq!(classify_gate_arrival(3, 0xFFFF_FFFD), GateArrival::Yield);
    assert_eq!(classify_gate_arrival(0, 40), GateArrival::Skip);
    assert_eq!(classify_gate_arrival(3, 31), GateArrival::Skip);
    assert_eq!(classify_gate_arrival(3, 32), GateArrival::Request);
    let mut raw = vec![0u8; 32];
    raw[0] = 2;
    raw[8] = 9;
    raw[31] = 1;
    assert_eq!(
        decode_gate_request(&raw),
        Some(GateRequest { op: 2, arg0: 9, arg1: 0, arg2: 1 << 56 })
    );
    assert_eq!(decode_gate_request(&raw[..31]), None);
}

#[test]
fn grant_plans() {
    let manifest = "[service]\nid = \"net.service\"\n[capabilities]\nrequired = [\n\"net.raw\",\n]\n";
    match grant_plan("net.service", Some(manifest)) {
        GrantPlan::Ask(id, caps) => {
            assert_eq!(id, "net.service");
            assert_eq!(caps, strings(&["net.raw"]));
        }
        other => panic!("unexpected plan {:?}", other),
    }
    match grant_plan("disk.service", None) {
        GrantPlan::Ask(id, caps) => {
            assert_eq!(id, "disk.service");
            assert_eq!(caps, strings(&["ipc.server", "device.storage"]));
        }
        other => panic!("unexpected plan {:?}", other),
    }
    match grant_plan("capability.service", Some("[service]\nid=capability.service\n[capabilities]\nrequired = [\n\"ipc.server\"\n]\n")) {
        GrantPlan::Direct(caps) => assert_eq!(caps, strings(&["ipc.server"])),
        other => panic!("unexpected plan {:?}", other),
    }
    assert!(matches!(grant_plan("capability.service", None), GrantPlan::Nothing));
    assert!(matches!(grant_plan("editor", None), GrantPlan::Nothing));
    assert!(matches!(grant_plan("editor", Some("no id here")), GrantPlan::Nothing));
}

#[test]
fn running_service_names() {
    assert_eq!(
        running_names("/bin/net.service"),
        strings(&["/bin/net.service", "net.service", "/system/services/net.service"])
    );
}

#[test]
fn driver_lists() {
    assert_eq!(driver_list(Some(b"# drivers\nBinaries/a.elf\n\n b.elf \n".to_vec())), strings(&["Binaries/a.elf", "b.elf"]));
    assert_eq!(driver_list(None), strings(&["Binaries/drivers/usb.elf"]));
    assert_eq!(driver_list(Some(b"# only comments\n".to_vec())), strings(&["Binaries/drivers/usb.elf"]));
    assert_eq!(driver_list(Some(vec![0xff, 0xfe])), strings(&["Binaries/drivers/usb.elf"]));
}

#[test]
fn process_requests() {
    let mut raw = vec![0u8; PROCESS_REQUEST_SIZE];
    raw[0] = 1;
    raw[8] = 4;
    raw[16..20].copy_from_slice(b"/app");
    let req = decode_process_request(&raw).unwrap();
    assert_eq!(req.op, 1);
    assert_eq!(req.path, Some("/app".to_string()));
    raw[8] = 0xff;
    raw[9] = 0xff;
    let whole = decode_process_request(&raw).unwrap();
    assert_eq!(whole.path.unwrap().len(), 512);
    raw[16] = 0xff;
    raw[8] = 2;
    raw[9] = 0;
    assert_eq!(decode_process_request(&raw).unwrap().path, None);
    assert!(decode_process_request(&raw[..100]).is_none());
}

#[test]
fn status_replies() {
    let mut raw = vec![0u8; STATUS_REPLY_SIZE];
    raw[0..8].copy_from_slice(&(-1i64).to_le_bytes());
    raw[8] = 3;
    raw[16] = b'x';
    let r = decode_status_reply(&raw).unwrap();
    assert_eq!(r.status, -1);
    assert_eq!(r.len, 3);
    assert_eq!(r.data.len(), 512);
    assert_eq!(r.data[0], b'x');
    assert!(decode_status_reply(&raw[..527]).is_none());
}

#[test]
fn request_bytes_read_back() {
    let mut data = vec![0u8; MSG_DATA_SIZE];
    data[0] = 7;
    data[MSG_DATA_SIZE - 1] = 8;
    let msg = CapabilityRequestMsg { op: 3, arg0: 2, arg1: 99, len0: 1, len1: 0, data };
    let bytes = encode_request(&msg);
    assert_eq!(bytes.len(), 552);
    let back = decode_request(&bytes).unwrap();
    assert_eq!((back.op, back.arg0, back.arg1, back.len0, back.len1), (3, 2, 99, 1, 0));
    assert_eq!(back.data, msg.data);
}

#[test]
fn developer_switches() {
    assert!(switch_is_on("1"));
    assert!(switch_is_on(" true\n"));
    assert!(switch_is_on("TRUE"));
    assert!(switch_is_on("TrUe"));
    assert!(!switch_is_on("yes"));
    assert!(!switch_is_on("0"));
    assert!(!switch_is_on("true1"));
    assert!(!switch_is_on(""));
}

#[test]
fn path_names_and_checks() {
    assert_eq!(path_components("/a//b/c.txt"), strings(&["a", "b", "c.txt"]));
    assert_eq!(path_components("/"), Vec::<String>::new());
    assert_eq!(path_components("rel/x/"), strings(&["rel", "x"]));
    assert_eq!(caller_check(Ok(true)), Ok(()));
    assert_eq!(caller_check(Ok(false)), Err(-13));
    assert_eq!(caller_check(Err(-22)), Err(-22));
}

#[test]
fn raw_call_results() {
    assert_eq!(call_status(u64::MAX), -1);
    assert_eq!(call_status(3), 3);
    assert_eq!(received(5, 9), (5, 9));
    assert_eq!(received(5, 0xffff_ffff_ffff_ff00), (0, 0));
}

#[test]
fn whole_file_read_asks_in_pieces_up_to_the_limit() {
    let mut r = WholeFileRead::new(5000);
    assert_eq!(r.next_request(), Some(4096));
    r.take(&vec![7u8; 4096]);
    assert_eq!(r.next_request(), Some(904));
    r.take(&[1, 2, 3]);
    assert_eq!(r.out.len(), 4099);
    assert_eq!(r.next_request(), Some(901));
    r.take(&[]);
    assert!(r.finished);
    assert_eq!(r.next_request(), None);
    assert_eq!(r.out.len(), 4099);
}

#[test]
fn whole_file_read_stops_at_the_limit() {
    let mut r = WholeFileRead::new(3);
    assert_eq!(r.next_request(), Some(3));
    r.take(b"abc");
    assert_eq!(r.next_request(), None);
    assert_eq!(r.out, b"abc".to_vec());
    let r = WholeFileRead::new(0);
    assert_eq!(r.next_request(), None);
}
