use linux_agent::deep::{
    default_activity, default_time, encode_file, encode_network, encode_persistence, FileFixture,
    NetworkFixture, PersistenceFixture,
};
use linux_agent::ocsf::AgentMeta;

#[test]
fn file_type_uid() {
    let row = FileFixture {
        process_uid: "lab-boot:100:1".into(),
        process_pid: 100,
        process_name: "writer".into(),
        file_path: "/tmp/x.bin".into(),
        activity: "Create".into(),
        time: 1,
    };
    let v = encode_file(&row, &AgentMeta::default());
    assert_eq!(v.header.type_uid, 100101);
    assert_eq!(v.process.uid, "lab-boot:100:1");
}

#[test]
fn file_event_fields() {
    let row = FileFixture {
        process_uid: "u".into(),
        process_pid: 9,
        process_name: "w".into(),
        file_path: "C:\\tmp\\dir/a.txt".into(),
        activity: default_activity(),
        time: default_time(),
    };
    let v = encode_file(&row, &AgentMeta::for_host(None));
    assert_eq!(v.header.class_uid, 1001);
    assert_eq!(v.header.category_uid, 1);
    assert_eq!(v.header.time, 1_700_000_001_000);
    assert_eq!(v.file.path, "C:\\tmp\\dir/a.txt");
    assert_eq!(v.file.name, "a.txt");
    assert_eq!(v.unmapped.activity_name, "Create");
    assert_eq!(v.unmapped.hook, "fanotify_fixture");
    let row2 = FileFixture { file_path: "C:\\tmp\\b.txt".into(), ..row };
    assert_eq!(encode_file(&row2, &AgentMeta::for_host(None)).file.name, "b.txt");
}

#[test]
fn network_event_fields() {
    let row = NetworkFixture {
        process_uid: "u".into(),
        process_pid: 9,
        process_name: "curl".into(),
        src_ip: "10.0.0.2".into(),
        src_port: 50000,
        dst_ip: "1.1.1.1".into(),
        dst_port: 443,
        time: 5,
    };
    let v = encode_network(&row, &AgentMeta::for_host(None));
    assert_eq!(v.header.class_uid, 4001);
    assert_eq!(v.header.category_uid, 4);
    assert_eq!(v.header.type_uid, 400101);
    assert_eq!(v.src_endpoint.ip, "10.0.0.2");
    assert_eq!(v.src_endpoint.port, 50000);
    assert_eq!(v.dst_endpoint.ip, "1.1.1.1");
    assert_eq!(v.dst_endpoint.port, 443);
    assert_eq!(v.connection_info.protocol_name, "TCP");
    assert_eq!(v.unmapped.hook, "ebpf_tcp_connect_fixture");
    assert_eq!(v.process.name, "curl");
}

#[test]
fn persistence_event_fields() {
    let row = PersistenceFixture {
        process_uid: "u".into(),
        process_pid: 9,
        process_name: "crontab".into(),
        mechanism: "cron".into(),
        path_or_key: "/etc/cron.d/x".into(),
        time: 6,
    };
    let v = encode_persistence(&row, &AgentMeta::for_host(None));
    assert_eq!(v.header.class_uid, 1007);
    assert_eq!(v.header.type_uid, 100701);
    assert_eq!(v.unmapped.event_kind, "persistence");
    assert_eq!(v.unmapped.mechanism, "cron");
    assert_eq!(v.unmapped.path_or_key, "/etc/cron.d/x");
    assert_eq!(v.unmapped.hook, "cron_systemd_ldpreload_fixture");
    assert_eq!(v.process.pid, 9);
}
