use linux_agent::exec_event::ExecEvent;
use linux_agent::ocsf::{process_uid, AgentMeta};
use linux_agent::tree::ProcessTree;

#[test]
fn links_child_to_parent_uid() {
    let meta = AgentMeta {
        boot_id: "b".into(),
        ..AgentMeta::default()
    };
    let mut tree = ProcessTree::default();
    let parent = ExecEvent::from_fixture(1, 0, 0, 100, 0, "bash", "/bin/bash");
    let child = ExecEvent::from_fixture(2, 1, 0, 200, 100, "curl", "/usr/bin/curl");
    tree.ingest(&parent, &meta);
    tree.ingest(&child, &meta);
    let child_uid = process_uid("b", 2, 200);
    let parent_uid = process_uid("b", 1, 100);
    assert_eq!(tree.parent_of(&child_uid), Some(parent_uid.as_str()));
}

#[test]
fn unknown_uid_has_no_parent() {
    let tree = ProcessTree::default();
    assert_eq!(tree.parent_of("b:1:1"), None);
    assert!(tree.render_lines().is_empty());
}

#[test]
fn render_lines_sorted_by_uid() {
    let meta = AgentMeta::for_host(None);
    let mut tree = ProcessTree::default();
    tree.ingest(&ExecEvent::from_fixture(30, 1, 0, 5, 0, "zsh", "/bin/zsh"), &meta);
    tree.ingest(&ExecEvent::from_fixture(200, 30, 0, 9, 5, "curl", "/usr/bin/curl"), &meta);
    tree.ingest(&ExecEvent::from_fixture(100, 30, 0, 7, 5, "ls", "/bin/ls"), &meta);
    assert_eq!(
        tree.render_lines(),
        vec![
            "ls uid=lab-boot:100:7 parent_uid=lab-boot:30:5".to_string(),
            "curl uid=lab-boot:200:9 parent_uid=lab-boot:30:5".to_string(),
            "zsh uid=lab-boot:30:5 parent_uid=lab-boot:1:0".to_string(),
        ]
    );
}

#[test]
fn reingest_replaces_entry() {
    let meta = AgentMeta::for_host(None);
    let mut tree = ProcessTree::default();
    tree.ingest(&ExecEvent::from_fixture(5, 1, 0, 9, 0, "sh", "/bin/sh"), &meta);
    tree.ingest(&ExecEvent::from_fixture(5, 2, 0, 9, 3, "dash", "/bin/dash"), &meta);
    assert_eq!(tree.parent_of("lab-boot:5:9"), Some("lab-boot:2:3"));
    assert_eq!(
        tree.render_lines(),
        vec!["dash uid=lab-boot:5:9 parent_uid=lab-boot:2:3".to_string()]
    );
}

#[test]
fn same_pid_new_start_is_new_process() {
    let meta = AgentMeta::for_host(None);
    let mut tree = ProcessTree::default();
    tree.ingest(&ExecEvent::from_fixture(5, 1, 0, 9, 0, "sh", "/bin/sh"), &meta);
    tree.ingest(&ExecEvent::from_fixture(5, 2, 0, 10, 3, "sh", "/bin/sh"), &meta);
    assert_eq!(tree.render_lines().len(), 2);
    assert_eq!(tree.parent_of("lab-boot:5:9"), Some("lab-boot:1:0"));
    assert_eq!(tree.parent_of("lab-boot:5:10"), Some("lab-boot:2:3"));
}

#[test]
fn ingest_sequence_renders_each_uid_once() {
    let meta = AgentMeta::for_host(None);
    let mut tree = ProcessTree::default();
    let evs = [
        ExecEvent::from_fixture(1, 0, 0, 10, 0, "init", "/sbin/init"),
        ExecEvent::from_fixture(2, 1, 0, 20, 10, "sh", "/bin/sh"),
        ExecEvent::from_fixture(2, 1, 0, 20, 10, "sh", "/bin/sh"),
        ExecEvent::from_fixture(3, 2, 0, 30, 20, "ls", "/bin/ls"),
    ];
    for ev in &evs {
        tree.ingest(ev, &meta);
    }
    let lines = tree.render_lines();
    assert_eq!(lines.len(), 3);
    for ev in &evs {
        let uid = process_uid("lab-boot", ev.pid, ev.start_time_ns);
        assert!(tree.parent_of(&uid).is_some());
        assert!(lines.iter().any(|l| l.contains(&format!("uid={uid} "))));
    }
    assert!(lines.iter().all(|l| !l.starts_with("? ") && !l.ends_with("=-")));
}
