use linux_agent::agent::{default_fixture_for, fixture_override, handle_exec_event};
use linux_agent::deep::EventClass;
use linux_agent::exec_event::ExecEvent;
use linux_agent::filter::NoiseFilter;
use linux_agent::ocsf::AgentMeta;
use linux_agent::text::{is_skipped_line, trim};
use linux_agent::tree::ProcessTree;

#[test]
fn kept_exec_is_recorded_and_emitted() {
    let filter = NoiseFilter::new(4242);
    let meta = AgentMeta::for_host(None);
    let mut tree = ProcessTree::default();
    let ev = ExecEvent::from_fixture(2, 1, 0, 200, 100, "curl", "/usr/bin/curl");
    let out = handle_exec_event(&filter, &mut tree, &ev, &meta).unwrap();
    assert_eq!(
        tree.parent_of(&out.process.uid),
        Some(out.process.parent_process.uid.as_str())
    );
}

#[test]
fn dropped_exec_leaves_tree_alone() {
    let filter = NoiseFilter::new(4242);
    let meta = AgentMeta::for_host(None);
    let mut tree = ProcessTree::default();
    let ev = ExecEvent::from_fixture(2, 1, 0, 200, 100, "sleep", "/usr/bin/sleep");
    assert!(handle_exec_event(&filter, &mut tree, &ev, &meta).is_none());
    assert!(tree.render_lines().is_empty());
}

#[test]
fn fixture_defaults_per_class() {
    assert_eq!(default_fixture_for(EventClass::Process), "fixtures/exec-events.jsonl");
    assert_eq!(default_fixture_for(EventClass::File), "fixtures/file-events.jsonl");
    assert_eq!(default_fixture_for(EventClass::Network), "fixtures/network-events.jsonl");
    assert_eq!(
        default_fixture_for(EventClass::Persistence),
        "fixtures/persistence-events.jsonl"
    );
    assert_eq!(fixture_override(EventClass::File, true), Some("fixtures/file-events.jsonl"));
    assert_eq!(fixture_override(EventClass::File, false), None);
    assert_eq!(fixture_override(EventClass::Process, true), None);
}

#[test]
fn blank_and_comment_lines_are_skipped() {
    assert!(is_skipped_line(""));
    assert!(is_skipped_line("   \t"));
    assert!(is_skipped_line("  # comment"));
    assert!(!is_skipped_line("  {\"pid\": 1}"));
    assert!(!is_skipped_line("x#"));
    assert_eq!(trim("\u{3000} a b \n"), "a b");
}
