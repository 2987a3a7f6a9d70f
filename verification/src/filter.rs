//! Drops high-volume or self-generated execs before they become events.

use vstd::prelude::*;
use vstd::hash_set::{HashSetWithView, StringHashSet};
use vstd::string::StringExecFns;
use crate::exec_event::ExecEvent;
use crate::text::{last_component, last_path_component};

verus! {

broadcast use vstd::std_specs::hash::group_hash_axioms;

/// Denylisted basenames and the agent's own pids.
pub struct NoiseFilter {
    deny_basenames: StringHashSet,
    self_pids: HashSetWithView<u32>,
}

/// The basenames every filter starts with.
pub open spec fn default_denied() -> Set<Seq<char>> {
    set!["linux-agent"@, "sleep"@, "true"@, "false"@]
}

/// Whether a filter with denylist `denied` and own pids `self_pids` keeps `ev`:
/// it is dropped when its pid is one of the agent's own, or when the basename
/// of its path or its process name is denylisted.
pub open spec fn allows(denied: Set<Seq<char>>, self_pids: Set<u32>, ev: ExecEvent) -> bool {
    &&& !self_pids.contains(ev.pid)
    &&& !denied.contains(last_component(ev.filename_text(), false))
    &&& !denied.contains(ev.comm_text())
}

impl NoiseFilter {
    /// The denylisted basenames.
    pub closed spec fn denied(&self) -> Set<Seq<char>> {
        self.deny_basenames@
    }

    /// The pids whose execs are the agent's own.
    pub closed spec fn own_pids(&self) -> Set<u32> {
        self.self_pids@
    }

    /// The default filter for an agent running as process `self_pid`.
    pub fn new(self_pid: u32) -> (f: Self)
        ensures
            f.denied() == default_denied(),
            f.own_pids() == set![self_pid],
    {
        let mut deny_basenames = StringHashSet::new();
        deny_basenames.insert(String::from_str("linux-agent"));
        deny_basenames.insert(String::from_str("sleep"));
        deny_basenames.insert(String::from_str("true"));
        deny_basenames.insert(String::from_str("false"));
        let mut self_pids = HashSetWithView::new();
        self_pids.insert(self_pid);
        assert(deny_basenames@ =~= default_denied());
        assert(self_pids@ =~= set![self_pid]);
        NoiseFilter { deny_basenames, self_pids }
    }

    /// Adds `names` to the denylist.
    pub fn with_extra_denylist(self, names: Vec<String>) -> (f: Self)
        ensures
            f.denied() == self.denied().union(Set::new(|n: Seq<char>| exists|i: int| 0 <= i < names@.len() && names@[i]@ == n)),
            f.own_pids() == self.own_pids(),
    {
        let ghost added = Set::new(|n: Seq<char>| exists|i: int| 0 <= i < names@.len() && names@[i]@ == n);
        let mut f = self;
        let mut i: usize = 0;
        while i < names.len()
            invariant
                i <= names@.len(),
                f.self_pids@ == self.self_pids@,
                f.deny_basenames@ == self.deny_basenames@.union(
                    Set::new(|n: Seq<char>| exists|j: int| 0 <= j < i && names@[j]@ == n),
                ),
            decreases names@.len() - i,
        {
            let ghost before = f.deny_basenames@;
            f.deny_basenames.insert(names[i].clone());
            assert(f.deny_basenames@ =~= self.deny_basenames@.union(
                Set::new(|n: Seq<char>| exists|j: int| 0 <= j < i + 1 && names@[j]@ == n),
            )) by {
                assert forall|n: Seq<char>| #[trigger] f.deny_basenames@.contains(n) implies
                    self.deny_basenames@.union(
                        Set::new(|n: Seq<char>| exists|j: int| 0 <= j < i + 1 && names@[j]@ == n),
                    ).contains(n) by {
                    if n == names@[i as int]@ {
                        assert(0 <= i < i + 1 && names@[i as int]@ == n);
                    } else if !self.deny_basenames@.contains(n) {
                        let j = choose|j: int| 0 <= j < i && names@[j]@ == n;
                        assert(0 <= j < i + 1 && names@[j]@ == n);
                    }
                }
                assert forall|n: Seq<char>| self.deny_basenames@.union(
                        Set::new(|n: Seq<char>| exists|j: int| 0 <= j < i + 1 && names@[j]@ == n),
                    ).contains(n) implies #[trigger] f.deny_basenames@.contains(n) by {
                    if !self.deny_basenames@.contains(n) {
                        let j = choose|j: int| 0 <= j < i + 1 && names@[j]@ == n;
                        if j < i {
                            assert(before.contains(n));
                        }
                    }
                }
            }
            i = i + 1;
        }
        assert(f.deny_basenames@ =~= self.deny_basenames@.union(added));
        f
    }

    /// Whether `ev` should become an event (see `allows`).
    pub fn allow(&self, ev: &ExecEvent) -> (keep: bool)
        ensures
            keep == allows(self.denied(), self.own_pids(), *ev),
    {
        if self.self_pids.contains(&ev.pid) {
            return false;
        }
        let base = basename(ev.filename_str());
        let comm = ev.comm_str();
        if self.deny_basenames.contains(base) || self.deny_basenames.contains(comm) {
            return false;
        }
        true
    }
}

/// The last `/`-separated component of `path`.
pub fn basename(path: &str) -> (base: &str)
    ensures
        base@ == last_component(path@, false),
{
    last_path_component(path, false)
}

} // verus!
