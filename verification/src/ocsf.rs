//! OCSF identifiers, the durable `process.uid`, agent identity and the
//! Process Activity (Launch) event built from an exec record.

use vstd::prelude::*;
use vstd::string::StringExecFns;
use crate::exec_event::ExecEvent;
use crate::text::{decimal, push_decimal, string_push};

verus! {

/// OCSF `type_uid`: `class_uid * 100 + activity_id`.
pub open spec fn type_uid_of(class_uid: int, activity_id: int) -> int {
    class_uid * 100 + activity_id
}

/// Durable process id `{boot_id}:{pid}:{start_time_ns}`.
pub open spec fn process_uid_text(boot_id: Seq<char>, pid: nat, start_time_ns: nat) -> Seq<char> {
    boot_id + seq![':'] + decimal(pid) + seq![':'] + decimal(start_time_ns)
}

/// Identity of this agent and host, stamped on every event.
#[derive(Clone, Debug)]
pub struct AgentMeta {
    pub boot_id: String,
    pub hostname: String,
    pub agent_id: String,
    pub product_version: String,
    pub ocsf_version: String,
}

/// The host name the system reports, when it is valid Unicode.
///
/// Trusted: calls `hostname::get`, which asks the operating system; nothing is
/// promised about what comes back, and `None` stands for an error or a name
/// that is not valid UTF-8.
#[verifier::external_body]
fn system_hostname() -> Option<String> {
    match hostname::get() {
        Ok(name) => name.into_string().ok(),
        Err(_) => None,
    }
}

impl AgentMeta {
    /// Lab identity for the given host name (`"unknown"` when there is none).
    pub fn for_host(hostname: Option<String>) -> (meta: Self)
        ensures
            meta.boot_id@ == "lab-boot"@,
            meta.hostname@ == match hostname {
                Some(h) => h@,
                None => "unknown"@,
            },
            meta.agent_id@ == "linux-agent-lab"@,
            meta.product_version@ == "0.1.0"@,
            meta.ocsf_version@ == "1.8.0"@,
    {
        let hostname = match hostname {
            Some(h) => h,
            None => String::from_str("unknown"),
        };
        AgentMeta {
            boot_id: String::from_str("lab-boot"),
            hostname,
            agent_id: String::from_str("linux-agent-lab"),
            product_version: String::from_str("0.1.0"),
            ocsf_version: String::from_str("1.8.0"),
        }
    }
}

impl Default for AgentMeta {
    /// Lab identity for this machine's host name.
    fn default() -> (meta: Self)
        ensures
            meta.boot_id@ == "lab-boot"@,
            meta.agent_id@ == "linux-agent-lab"@,
            meta.product_version@ == "0.1.0"@,
            meta.ocsf_version@ == "1.8.0"@,
    {
        AgentMeta::for_host(system_hostname())
    }
}

/// `type_uid` of Process Activity / Launch.
pub fn type_uid_launch() -> (t: i32)
    ensures
        t == type_uid_of(1007, 1),
{
    1007 * 100 + 1
}

/// The durable `process.uid` for a process: `{boot_id}:{pid}:{start_time_ns}`.
pub fn process_uid(boot_id: &str, pid: u32, start_time_ns: u64) -> (uid: String)
    ensures
        uid@ == process_uid_text(boot_id@, pid as nat, start_time_ns as nat),
{
    let mut uid = String::from_str(boot_id);
    string_push(&mut uid, ':');
    push_decimal(&mut uid, pid as u64);
    string_push(&mut uid, ':');
    push_decimal(&mut uid, start_time_ns);
    assert(uid@ =~= process_uid_text(boot_id@, pid as nat, start_time_ns as nat));
    uid
}

} // verus!

verus! {

/// `metadata.product`.
pub struct Product {
    pub name: String,
    pub vendor_name: String,
    pub version: String,
}

/// `metadata`: product identity and the OCSF schema version.
pub struct Metadata {
    pub product: Product,
    pub version: String,
}

/// `device.os`: caption (`type`) and OCSF enum value (`type_id`).
pub struct OsInfo {
    pub caption: String,
    pub type_id: i32,
}

/// `device`.
pub struct Device {
    pub hostname: String,
    pub os: OsInfo,
    pub agent_id: String,
}

/// The top-level Base Event attributes every emitted event carries.
pub struct EventHeader {
    pub class_uid: i32,
    pub category_uid: i32,
    pub activity_id: i32,
    pub type_uid: i32,
    pub severity_id: i32,
    pub time: i64,
    pub metadata: Metadata,
    pub device: Device,
}

/// The header of a Linux agent event of class `class_uid` in category
/// `category_uid` at `time`: activity 1 (Launch / Create / Open), severity 1
/// (Informational), `type_uid` derived from class and activity, and product,
/// schema version, host and agent taken from `meta`.
pub open spec fn is_header_for(
    h: EventHeader,
    class_uid: int,
    category_uid: int,
    time: int,
    meta: AgentMeta,
) -> bool {
    &&& h.class_uid == class_uid
    &&& h.category_uid == category_uid
    &&& h.activity_id == 1
    &&& h.type_uid == type_uid_of(class_uid, 1)
    &&& h.severity_id == 1
    &&& h.time == time
    &&& h.metadata.product.name@ == "linux-agent"@
    &&& h.metadata.product.vendor_name@ == "systemdrd"@
    &&& h.metadata.product.version@ == meta.product_version@
    &&& h.metadata.version@ == meta.ocsf_version@
    &&& h.device.hostname@ == meta.hostname@
    &&& h.device.os.caption@ == "Linux"@
    &&& h.device.os.type_id == 200
    &&& h.device.agent_id@ == meta.agent_id@
}

/// Builds the common header (see `is_header_for`).
pub fn event_header(class_uid: i32, category_uid: i32, time: i64, meta: &AgentMeta) -> (h:
    EventHeader)
    requires
        -21474836 <= class_uid <= 21474836,
    ensures
        is_header_for(h, class_uid as int, category_uid as int, time as int, *meta),
{
    EventHeader {
        class_uid,
        category_uid,
        activity_id: 1,
        type_uid: class_uid * 100 + 1,
        severity_id: 1,
        time,
        metadata: Metadata {
            product: Product {
                name: String::from_str("linux-agent"),
                vendor_name: String::from_str("systemdrd"),
                version: meta.product_version.clone(),
            },
            version: meta.ocsf_version.clone(),
        },
        device: Device {
            hostname: meta.hostname.clone(),
            os: OsInfo { caption: String::from_str("Linux"), type_id: 200 },
            agent_id: meta.agent_id.clone(),
        },
    }
}

/// `actor.user`.
pub struct UserRef {
    pub uid: String,
}

/// `actor.process`: the launching process.
pub struct ActorProcess {
    pub pid: u32,
    pub uid: String,
    pub name: String,
}

/// `actor`.
pub struct Actor {
    pub user: UserRef,
    pub process: ActorProcess,
}

/// `process.file`.
pub struct FileRef {
    pub path: String,
}

/// `process.parent_process`.
pub struct ParentProcess {
    pub pid: u32,
    pub uid: String,
    pub cmd_line: String,
}

/// `process`: the launched process.
pub struct LaunchedProcess {
    pub uid: String,
    pub pid: u32,
    pub name: String,
    pub cmd_line: String,
    pub created_time: i64,
    pub file: FileRef,
    pub parent_process: ParentProcess,
}

/// An OCSF Process Activity (class 1007) Launch event.
pub struct ProcessActivity {
    pub header: EventHeader,
    pub actor: Actor,
    pub process: LaunchedProcess,
}

/// Milliseconds since the epoch of a nanosecond timestamp.
pub open spec fn millis(ns: u64) -> int {
    ns as int / 1_000_000
}

/// `out` is the Launch event for `ev` on the agent `meta`: the launched
/// process is identified by its durable uid, the actor is the parent process
/// (the launcher), the path doubles as command line, and times are in
/// epoch milliseconds. The exec record carries no parent command line, so the
/// parent's `cmd_line` (and the actor's name) stay empty until enrichment.
pub open spec fn is_launch_event_for(out: ProcessActivity, ev: ExecEvent, meta: AgentMeta) -> bool {
    &&& is_header_for(out.header, 1007, 1, millis(ev.start_time_ns), meta)
    &&& out.header.type_uid == out.header.class_uid * 100 + out.header.activity_id
    &&& out.actor.user.uid@ == decimal(ev.uid as nat)
    &&& out.actor.process.pid == ev.ppid
    &&& out.actor.process.uid@ == process_uid_text(
        meta.boot_id@,
        ev.ppid as nat,
        ev.parent_start_time_ns as nat,
    )
    &&& out.actor.process.name@ == Seq::<char>::empty()
    &&& out.process.uid@ == process_uid_text(meta.boot_id@, ev.pid as nat, ev.start_time_ns as nat)
    &&& out.process.pid == ev.pid
    &&& out.process.name@ == ev.comm_text()
    &&& out.process.cmd_line@ == ev.filename_text()
    &&& out.process.created_time == millis(ev.start_time_ns)
    &&& out.process.file.path@ == ev.filename_text()
    &&& out.process.parent_process.pid == ev.ppid
    &&& out.process.parent_process.uid@ == out.actor.process.uid@
    &&& out.process.parent_process.cmd_line@ == Seq::<char>::empty()
}

/// Maps an exec record into an OCSF-shaped Process Activity / Launch event.
pub fn to_ocsf_json(ev: &ExecEvent, meta: &AgentMeta) -> (out: ProcessActivity)
    ensures
        is_launch_event_for(out, *ev, *meta),
{
    let proc_uid = process_uid(meta.boot_id.as_str(), ev.pid, ev.start_time_ns);
    let parent_uid = process_uid(meta.boot_id.as_str(), ev.ppid, ev.parent_start_time_ns);
    let name = ev.comm_str();
    let path = ev.filename_str();
    let start_ms = (ev.start_time_ns / 1_000_000) as i64;
    let mut user_uid = String::new();
    push_decimal(&mut user_uid, ev.uid as u64);
    ProcessActivity {
        header: event_header(1007, 1, start_ms, meta),
        actor: Actor {
            user: UserRef { uid: user_uid },
            process: ActorProcess { pid: ev.ppid, uid: parent_uid.clone(), name: String::new() },
        },
        process: LaunchedProcess {
            uid: proc_uid,
            pid: ev.pid,
            name: String::from_str(name),
            cmd_line: String::from_str(path),
            created_time: start_ms,
            file: FileRef { path: String::from_str(path) },
            parent_process: ParentProcess {
                pid: ev.ppid,
                uid: parent_uid,
                cmd_line: String::new(),
            },
        },
    }
}

} // verus!
