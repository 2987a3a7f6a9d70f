use linux_agent::agent::deny_list_from_arg;
use linux_agent::exec_event::ExecEvent;
use linux_agent::filter::{basename, NoiseFilter};

const SELF_PID: u32 = 4242;

#[test]
fn drops_denylisted_basename() {
    let f = NoiseFilter::new(SELF_PID);
    let ev = ExecEvent::from_fixture(10, 1, 0, 1, 0, "sleep", "/usr/bin/sleep");
    assert!(!f.allow(&ev));
}

#[test]
fn keeps_interesting_binary() {
    let f = NoiseFilter::new(SELF_PID);
    let ev = ExecEvent::from_fixture(10, 1, 0, 1, 0, "curl", "/usr/bin/curl");
    assert!(f.allow(&ev));
}

#[test]
fn drops_own_pid() {
    let f = NoiseFilter::new(SELF_PID);
    let ev = ExecEvent::from_fixture(SELF_PID, 1, 0, 1, 0, "curl", "/usr/bin/curl");
    assert!(!f.allow(&ev));
}

#[test]
fn drops_denylisted_comm_with_other_path() {
    let f = NoiseFilter::new(SELF_PID);
    let ev = ExecEvent::from_fixture(10, 1, 0, 1, 0, "true", "/opt/tool");
    assert!(!f.allow(&ev));
}

#[test]
fn extra_denylist_drops_more() {
    let f = NoiseFilter::new(SELF_PID);
    let ev = ExecEvent::from_fixture(10, 1, 0, 1, 0, "curl", "/usr/bin/curl");
    assert!(f.allow(&ev));
    let f = f.with_extra_denylist(deny_list_from_arg(" wget , curl"));
    assert!(!f.allow(&ev));
    let sleep = ExecEvent::from_fixture(11, 1, 0, 1, 0, "sleep", "/usr/bin/sleep");
    assert!(!f.allow(&sleep));
}

#[test]
fn basename_takes_last_component() {
    assert_eq!(basename("/usr/bin/curl"), "curl");
    assert_eq!(basename("curl"), "curl");
    assert_eq!(basename("/usr/bin/"), "");
    assert_eq!(basename("C:\\tools\\x.exe"), "C:\\tools\\x.exe");
}

#[test]
fn deny_argument_splits_and_trims() {
    assert!(deny_list_from_arg("").is_empty());
    assert_eq!(deny_list_from_arg("a, b ,c"), vec!["a", "b", "c"]);
    assert_eq!(deny_list_from_arg(" x "), vec!["x"]);
    assert_eq!(deny_list_from_arg("a,,"), vec!["a", "", ""]);
}
