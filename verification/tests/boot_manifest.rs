use swiftcore::boot::{
    app_manifest_path, config_lines, disk_service_last, fallback_required_caps_for_service,
    is_allowed_service_path, is_disk_service, service_manifest_path, service_name_from_path,
    ReadyWait, OP_NOTIFY_READY,
};
use swiftcore::manifest::{parse_app_manifest, parse_service_id_and_required_caps};

fn strings(v: &[&str]) -> Vec<String> {
    v.iter().map(|s| s.to_string()).collect()
}

#[test]
fn service_manifest_with_required_list() {
    let text = "\
# a service
[service]
id = \"net.service\"
name = \"Network\"

[capabilities]
required = [
    \"ipc.server\",
    'device.net',
    \"net.raw\"
]
other = 1
";
    let (id, caps) = parse_service_id_and_required_caps(text).unwrap();
    assert_eq!(id, "net.service");
    assert_eq!(caps, strings(&["ipc.server", "device.net", "net.raw"]));
}

#[test]
fn service_manifest_without_id() {
    assert!(parse_service_id_and_required_caps("[service]\nname = \"x\"\n").is_none());
    assert!(parse_service_id_and_required_caps("[app]\nid = \"x\"\n").is_none());
    assert!(parse_service_id_and_required_caps("[service]\nid = \"\"\n").is_none());
}

#[test]
fn id_outside_the_main_section_is_ignored() {
    let text = "[capabilities]\nid = \"wrong\"\n[service]\nid=right\n";
    let (id, caps) = parse_service_id_and_required_caps(text).unwrap();
    assert_eq!(id, "right");
    assert!(caps.is_empty());
}

#[test]
fn app_manifest_needs_id_and_entry() {
    let text = "[app]\nid = \"editor\"\nentry = \"/apps/editor/bin\"\n[capabilities]\nrequired = [\n\"window.create\",\n]\n";
    let (id, entry, caps) = parse_app_manifest(text).unwrap();
    assert_eq!(id, "editor");
    assert_eq!(entry, "/apps/editor/bin");
    assert_eq!(caps, strings(&["window.create"]));
    assert!(parse_app_manifest("[app]\nid = \"editor\"\n").is_none());
    assert!(parse_app_manifest("[app]\nentry = \"/x\"\n").is_none());
}

#[test]
fn service_names_and_paths() {
    assert_eq!(service_name_from_path("/system/services/net.service"), "net.service");
    assert_eq!(service_name_from_path("net.service"), "net.service");
    assert_eq!(service_name_from_path("/bin/"), "");
    assert!(is_allowed_service_path("/system/services/net.service"));
    assert!(is_allowed_service_path("/bin/shell"));
    assert!(is_allowed_service_path("system/services/a"));
    assert!(is_allowed_service_path("bin/a"));
    assert!(!is_allowed_service_path(""));
    assert!(!is_allowed_service_path("/system/services/../x"));
    assert!(!is_allowed_service_path("/usr/bin/a"));
}

#[test]
fn fallback_capabilities() {
    assert_eq!(
        fallback_required_caps_for_service("capability.service"),
        Some(strings(&["ipc.server", "system.info.read"]))
    );
    assert_eq!(
        fallback_required_caps_for_service("disk.service"),
        Some(strings(&["ipc.server", "device.storage"]))
    );
    assert_eq!(
        fallback_required_caps_for_service("process.service"),
        Some(strings(&["ipc.server", "process.spawn", "process.inspect", "process.kill"]))
    );
    assert_eq!(fallback_required_caps_for_service("device.service"), Some(strings(&["ipc.server"])));
    assert_eq!(fallback_required_caps_for_service("editor"), None);
}

#[test]
fn service_list_file() {
    let lines = config_lines("# services\n/system/services/a.service\n\n  /bin/b  \n#x\nc");
    assert_eq!(lines, strings(&["/system/services/a.service", "/bin/b", "c"]));
    assert!(config_lines("").is_empty());
}

#[test]
fn disk_service_starts_last() {
    assert!(is_disk_service("/system/services/disk.service"));
    assert!(is_disk_service("bin/x/disk.service"));
    assert!(!is_disk_service("disk.service"));
    let order = disk_service_last(strings(&[
        "/system/services/disk.service",
        "/system/services/a.service",
        "/x/disk.service",
        "/system/services/b.service",
    ]));
    assert_eq!(
        order,
        strings(&[
            "/system/services/a.service",
            "/system/services/b.service",
            "/system/services/disk.service",
            "/x/disk.service",
        ])
    );
}

#[test]
fn manifest_paths() {
    assert_eq!(service_manifest_path("net.service"), "/system/services/net.service.manifest.toml");
    assert_eq!(service_manifest_path("net"), "/system/services/net.service.manifest.toml");
    assert_eq!(app_manifest_path("/apps/editor/"), "/apps/editor/manifest.toml");
    assert_eq!(app_manifest_path("/apps/editor"), "/apps/editor/manifest.toml");
}

#[test]
fn ready_wait_strikes_off_reports() {
    let mut w = ReadyWait::new(&[3, 0, 5, 7]);
    assert!(!w.is_done());
    assert!(!w.on_message(5, 4, OP_NOTIFY_READY));
    assert!(!w.on_message(5, 8, 1));
    assert!(!w.on_message(9, 8, OP_NOTIFY_READY));
    assert!(!w.on_message(0, 8, OP_NOTIFY_READY));
    assert!(w.on_message(5, 8, OP_NOTIFY_READY));
    assert!(!w.on_message(5, 8, OP_NOTIFY_READY));
    assert!(w.on_message(3, 16, OP_NOTIFY_READY));
    assert!(!w.is_done());
    assert!(w.on_message(7, 8, OP_NOTIFY_READY));
    assert!(w.is_done());
    assert!(ReadyWait::new(&[0, 0]).is_done());
}
