//! The agent's per-event pipeline and its command-line decisions.

use vstd::prelude::*;
use crate::deep::EventClass;
use crate::exec_event::ExecEvent;
use crate::filter::{allows, NoiseFilter};
use crate::ocsf::{is_launch_event_for, to_ocsf_json, AgentMeta, ProcessActivity};
use crate::text::{split_on, split_trimmed, trimmed};
use crate::tree::{ingested, ProcessTree};

verus! {

/// The fixture a replay of `class` reads when no other is given.
pub open spec fn default_fixture_path(class: EventClass) -> Seq<char> {
    match class {
        EventClass::Process => "fixtures/exec-events.jsonl"@,
        EventClass::File => "fixtures/file-events.jsonl"@,
        EventClass::Network => "fixtures/network-events.jsonl"@,
        EventClass::Persistence => "fixtures/persistence-events.jsonl"@,
    }
}

/// The fixture a replay of `class` reads when no other is given.
pub fn default_fixture_for(class: EventClass) -> (path: &'static str)
    ensures
        path@ == default_fixture_path(class),
{
    match class {
        EventClass::Process => "fixtures/exec-events.jsonl",
        EventClass::File => "fixtures/file-events.jsonl",
        EventClass::Network => "fixtures/network-events.jsonl",
        EventClass::Persistence => "fixtures/persistence-events.jsonl",
    }
}

/// The fixture to replay instead of the one requested: when the request is
/// the (process) default and another class is replayed, that class's own
/// default; otherwise `None`, and the requested fixture is used.
pub fn fixture_override(class: EventClass, requested_is_default: bool) -> (path: Option<
    &'static str,
>)
    ensures
        path is Some <==> requested_is_default && class != EventClass::Process,
        path matches Some(p) ==> p@ == default_fixture_path(class),
{
    if requested_is_default && class != EventClass::Process {
        Some(default_fixture_for(class))
    } else {
        None
    }
}

/// Extra basenames from the `--deny` argument: comma-separated, each trimmed;
/// none when the argument is empty.
pub fn deny_list_from_arg(deny: &str) -> (names: Vec<String>)
    ensures
        deny@.len() == 0 ==> names@.len() == 0,
        deny@.len() != 0 ==> {
            &&& names@.len() == split_on(deny@, ',').len()
            &&& forall|i: int|
                0 <= i < names@.len() ==> #[trigger] names@[i]@ == trimmed(split_on(deny@, ',')[i])
        },
{
    if deny.is_empty() {
        Vec::new()
    } else {
        split_trimmed(deny, ',')
    }
}

/// One step of the exec pipeline: a record the filter keeps is recorded in
/// the tree and mapped to its Launch event; a dropped one leaves the tree as
/// it was and yields nothing.
pub fn handle_exec_event(
    filter: &NoiseFilter,
    tree: &mut ProcessTree,
    ev: &ExecEvent,
    meta: &AgentMeta,
) -> (out: Option<ProcessActivity>)
    ensures
        out is Some <==> allows(filter.denied(), filter.own_pids(), *ev),
        out matches Some(e) ==> is_launch_event_for(e, *ev, *meta),
        final(tree)@ == if out is Some {
            ingested(old(tree)@, *ev, *meta)
        } else {
            old(tree)@
        },
{
    if !filter.allow(ev) {
        return None;
    }
    tree.ingest(ev, meta);
    Some(to_ocsf_json(ev, meta))
}

} // verus!
