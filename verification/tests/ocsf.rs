use linux_agent::exec_event::ExecEvent;
use linux_agent::ocsf::{process_uid, to_ocsf_json, type_uid_launch, AgentMeta};

#[test]
fn type_uid_is_100701() {
    assert_eq!(type_uid_launch(), 100701);
}

#[test]
fn uid_includes_boot_pid_start() {
    let u = process_uid("b", 42, 99);
    assert_eq!(u, "b:42:99");
}

#[test]
fn json_carries_required_fields() {
    let ev = ExecEvent::from_fixture(
        100, 1, 1000, 1_700_000_000_000_000_000, 1_600_000_000_000_000_000,
        "curl", "/usr/bin/curl",
    );
    let v = to_ocsf_json(&ev, &AgentMeta::default());
    assert_eq!(v.header.type_uid, 100701);
    assert!(v.process.uid.contains(":100:"));
    assert!(!v.process.parent_process.uid.is_empty());
}

#[test]
fn uid_of_zero_and_max() {
    assert_eq!(process_uid("", 0, 0), ":0:0");
    assert_eq!(
        process_uid("boot", u32::MAX, u64::MAX),
        "boot:4294967295:18446744073709551615"
    );
}

#[test]
fn launch_event_fields() {
    let ev = ExecEvent::from_fixture(
        100, 1, 1000, 1_700_000_000_123_456_789, 1_600_000_000_000_000_000,
        "curl", "/usr/bin/curl",
    );
    let meta = AgentMeta::for_host(Some("host-a".to_string()));
    let v = to_ocsf_json(&ev, &meta);
    assert_eq!(v.header.class_uid, 1007);
    assert_eq!(v.header.category_uid, 1);
    assert_eq!(v.header.activity_id, 1);
    assert_eq!(v.header.severity_id, 1);
    assert_eq!(v.header.time, 1_700_000_000_123);
    assert_eq!(v.header.metadata.product.name, "linux-agent");
    assert_eq!(v.header.metadata.product.vendor_name, "systemdrd");
    assert_eq!(v.header.metadata.product.version, "0.1.0");
    assert_eq!(v.header.metadata.version, "1.8.0");
    assert_eq!(v.header.device.hostname, "host-a");
    assert_eq!(v.header.device.os.caption, "Linux");
    assert_eq!(v.header.device.os.type_id, 200);
    assert_eq!(v.header.device.agent_id, "linux-agent-lab");
    assert_eq!(v.actor.user.uid, "1000");
    assert_eq!(v.actor.process.pid, 1);
    assert_eq!(v.actor.process.uid, "lab-boot:1:1600000000000000000");
    assert_eq!(v.actor.process.name, "");
    assert_eq!(v.process.uid, "lab-boot:100:1700000000123456789");
    assert_eq!(v.process.pid, 100);
    assert_eq!(v.process.name, "curl");
    assert_eq!(v.process.cmd_line, "/usr/bin/curl");
    assert_eq!(v.process.created_time, 1_700_000_000_123);
    assert_eq!(v.process.file.path, "/usr/bin/curl");
    assert_eq!(v.process.parent_process.pid, 1);
    assert_eq!(v.process.parent_process.uid, v.actor.process.uid);
    assert_eq!(v.process.parent_process.cmd_line, "");
}

#[test]
fn missing_hostname_is_unknown() {
    let meta = AgentMeta::for_host(None);
    assert_eq!(meta.hostname, "unknown");
    assert_eq!(meta.boot_id, "lab-boot");
    let d = AgentMeta::default();
    assert_eq!(d.boot_id, "lab-boot");
    assert_eq!(d.ocsf_version, "1.8.0");
    assert!(!d.hostname.is_empty());
}
