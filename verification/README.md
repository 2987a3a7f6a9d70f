# linux_agent

Exec telemetry for Linux, verified with Verus: exec records (from the
`sched_process_exec` eBPF probe or from recorded fixtures) are filtered,
indexed into an in-memory process tree keyed by the durable `process.uid`
(`{boot_id}:{pid}:{start_time_ns}`), and mapped to OCSF-shaped events.

- `src/` — the verified library
  - `exec_event` — the fixed-size exec record, its NUL-terminated text fields and its
    little-endian ring-buffer layout
  - `filter` — the noise filter (denylisted basenames, the agent's own pids)
  - `tree` — the process tree (uid → parent uid, name), rendered in uid order
  - `ocsf` — OCSF identifiers, `process.uid`, agent identity, Process Activity / Launch
  - `deep` — file / network / persistence fixture rows and their events
  - `agent` — the per-event pipeline step and command-line decisions
  - `text`, `order` — decimal rendering, path components, trimming, splitting, text order
  - `laws` — properties across operations (durable uids, fixture round trip, filter
    monotonicity, tree/event agreement)
- `app/` — the `linux-agent` binary: arguments, fixture files, JSON output, live attach
  through Aya
- `tests/` — unit and scenario tests
