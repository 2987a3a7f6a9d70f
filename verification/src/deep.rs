//! File, network and persistence telemetry replayed from fixture rows into
//! OCSF-shaped events (File System Activity, Network Activity, and the
//! persistence slice of Process Activity).

use vstd::prelude::*;
use vstd::string::StringExecFns;
use crate::ocsf::{event_header, is_header_for, AgentMeta, EventHeader};
use crate::text::{last_component, last_path_component};

verus! {

/// Which telemetry class a replay stream carries.
#[derive(Clone, Copy, PartialEq, Eq, Structural, Debug)]
pub enum EventClass {
    Process,
    File,
    Network,
    Persistence,
}

/// A recorded file-activity row.
pub struct FileFixture {
    pub process_uid: String,
    pub process_pid: u32,
    pub process_name: String,
    pub file_path: String,
    pub activity: String,
    pub time: i64,
}

/// A recorded outbound-connection row.
pub struct NetworkFixture {
    pub process_uid: String,
    pub process_pid: u32,
    pub process_name: String,
    pub src_ip: String,
    pub src_port: u16,
    pub dst_ip: String,
    pub dst_port: u16,
    pub time: i64,
}

/// A recorded persistence row (cron, systemd unit, LD_PRELOAD, ...).
pub struct PersistenceFixture {
    pub process_uid: String,
    pub process_pid: u32,
    pub process_name: String,
    pub mechanism: String,
    pub path_or_key: String,
    pub time: i64,
}

/// Activity name a file row gets when it names none.
pub fn default_activity() -> (a: String)
    ensures
        a@ == "Create"@,
{
    String::from_str("Create")
}

/// Time (epoch milliseconds) a row gets when it names none.
pub fn default_time() -> (t: i64)
    ensures
        t == 1_700_000_001_000,
{
    1_700_000_001_000
}

/// `process`: the acting process of a deep-telemetry event.
pub struct ProcessRef {
    pub uid: String,
    pub pid: u32,
    pub name: String,
}

/// `file`.
pub struct FileObject {
    pub path: String,
    pub name: String,
}

/// `unmapped` of a file event.
pub struct FileUnmapped {
    pub activity_name: String,
    pub hook: String,
}

/// An OCSF File System Activity (class 1001) event.
pub struct FileActivity {
    pub header: EventHeader,
    pub file: FileObject,
    pub process: ProcessRef,
    pub unmapped: FileUnmapped,
}

/// `src_endpoint` / `dst_endpoint`.
pub struct Endpoint {
    pub ip: String,
    pub port: u16,
}

/// `connection_info`.
pub struct ConnectionInfo {
    pub protocol_name: String,
}

/// `unmapped` of a network event.
pub struct NetworkUnmapped {
    pub hook: String,
}

/// An OCSF Network Activity (class 4001) event.
pub struct NetworkActivity {
    pub header: EventHeader,
    pub src_endpoint: Endpoint,
    pub dst_endpoint: Endpoint,
    pub connection_info: ConnectionInfo,
    pub process: ProcessRef,
    pub unmapped: NetworkUnmapped,
}

/// `unmapped` of a persistence event.
pub struct PersistenceUnmapped {
    pub event_kind: String,
    pub mechanism: String,
    pub path_or_key: String,
    pub hook: String,
}

/// A persistence event, carried as Process Activity (class 1007).
pub struct PersistenceActivity {
    pub header: EventHeader,
    pub process: ProcessRef,
    pub unmapped: PersistenceUnmapped,
}

/// `r` names the process with this uid, pid and name.
pub open spec fn is_process_ref(r: ProcessRef, uid: Seq<char>, pid: u32, name: Seq<char>) -> bool {
    r.uid@ == uid && r.pid == pid && r.name@ == name
}

fn process_ref(uid: &String, pid: u32, name: &String) -> (r: ProcessRef)
    ensures
        is_process_ref(r, uid@, pid, name@),
{
    ProcessRef { uid: uid.clone(), pid, name: name.clone() }
}

/// Maps a file row into a File System Activity event.
pub fn encode_file(row: &FileFixture, meta: &AgentMeta) -> (out: FileActivity)
    ensures
        is_header_for(out.header, 1001, 1, row.time as int, *meta),
        out.header.type_uid == out.header.class_uid * 100 + out.header.activity_id,
        out.file.path@ == row.file_path@,
        out.file.name@ == last_component(row.file_path@, true),
        is_process_ref(out.process, row.process_uid@, row.process_pid, row.process_name@),
        out.unmapped.activity_name@ == row.activity@,
        out.unmapped.hook@ == "fanotify_fixture"@,
{
    let name = last_path_component(row.file_path.as_str(), true);
    FileActivity {
        header: event_header(1001, 1, row.time, meta),
        file: FileObject { path: row.file_path.clone(), name: String::from_str(name) },
        process: process_ref(&row.process_uid, row.process_pid, &row.process_name),
        unmapped: FileUnmapped {
            activity_name: row.activity.clone(),
            hook: String::from_str("fanotify_fixture"),
        },
    }
}

/// Maps a connection row into a Network Activity event over TCP.
pub fn encode_network(row: &NetworkFixture, meta: &AgentMeta) -> (out: NetworkActivity)
    ensures
        is_header_for(out.header, 4001, 4, row.time as int, *meta),
        out.header.type_uid == out.header.class_uid * 100 + out.header.activity_id,
        out.src_endpoint.ip@ == row.src_ip@,
        out.src_endpoint.port == row.src_port,
        out.dst_endpoint.ip@ == row.dst_ip@,
        out.dst_endpoint.port == row.dst_port,
        out.connection_info.protocol_name@ == "TCP"@,
        is_process_ref(out.process, row.process_uid@, row.process_pid, row.process_name@),
        out.unmapped.hook@ == "ebpf_tcp_connect_fixture"@,
{
    NetworkActivity {
        header: event_header(4001, 4, row.time, meta),
        src_endpoint: Endpoint { ip: row.src_ip.clone(), port: row.src_port },
        dst_endpoint: Endpoint { ip: row.dst_ip.clone(), port: row.dst_port },
        connection_info: ConnectionInfo { protocol_name: String::from_str("TCP") },
        process: process_ref(&row.process_uid, row.process_pid, &row.process_name),
        unmapped: NetworkUnmapped { hook: String::from_str("ebpf_tcp_connect_fixture") },
    }
}

/// Maps a persistence row into a Process Activity event marked as persistence.
pub fn encode_persistence(row: &PersistenceFixture, meta: &AgentMeta) -> (out:
    PersistenceActivity)
    ensures
        is_header_for(out.header, 1007, 1, row.time as int, *meta),
        out.header.type_uid == out.header.class_uid * 100 + out.header.activity_id,
        is_process_ref(out.process, row.process_uid@, row.process_pid, row.process_name@),
        out.unmapped.event_kind@ == "persistence"@,
        out.unmapped.mechanism@ == row.mechanism@,
        out.unmapped.path_or_key@ == row.path_or_key@,
        out.unmapped.hook@ == "cron_systemd_ldpreload_fixture"@,
{
    PersistenceActivity {
        header: event_header(1007, 1, row.time, meta),
        process: process_ref(&row.process_uid, row.process_pid, &row.process_name),
        unmapped: PersistenceUnmapped {
            event_kind: String::from_str("persistence"),
            mechanism: row.mechanism.clone(),
            path_or_key: row.path_or_key.clone(),
            hook: String::from_str("cron_systemd_ldpreload_fixture"),
        },
    }
}

} // verus!
