//! Properties that hold across the library's operations.

use vstd::prelude::*;
use vstd::utf8::*;
use crate::exec_event::{c_field, c_string_bytes, c_string_text, le_u32, le_u64, ExecEvent};
use crate::filter::allows;
use crate::ocsf::{is_launch_event_for, process_uid_text, AgentMeta, ProcessActivity};
use crate::text::{
    component_start, content_end, content_start, decimal, digit_char, is_blank_or_comment,
    is_white_space, last_component, split_on, trimmed,
};
use crate::tree::{ingested, tree_line};

verus! {

proof fn lemma_decimal_digits(n: nat)
    ensures
        decimal(n).len() >= 1,
        n >= 10 ==> decimal(n).len() >= 2,
        forall|i: int| 0 <= i < decimal(n).len() ==> #[trigger] decimal(n)[i] != ':',
    decreases n,
{
    if n >= 10 {
        lemma_decimal_digits(n / 10);
        let d = decimal(n / 10);
        assert forall|i: int| 0 <= i < decimal(n).len() implies #[trigger] decimal(n)[i] != ':' by {
            if i < d.len() {
                assert(decimal(n)[i] == d[i]);
            }
        }
    }
}

proof fn lemma_digit_char_injective(x: nat, y: nat)
    requires
        x < 10,
        y < 10,
        digit_char(x) == digit_char(y),
    ensures
        x == y,
{
    assert((digit_char(x) as u32) == 48 + x);
    assert((digit_char(y) as u32) == 48 + y);
}

proof fn lemma_decimal_injective(a: nat, b: nat)
    requires
        decimal(a) == decimal(b),
    ensures
        a == b,
    decreases a,
{
    lemma_decimal_digits(a);
    lemma_decimal_digits(b);
    if a >= 10 && b >= 10 {
        assert(decimal(a) == decimal(a / 10).push(digit_char(a % 10)));
        assert(decimal(b) == decimal(b / 10).push(digit_char(b % 10)));
        assert(decimal(a).last() == digit_char(a % 10));
        assert(decimal(b).last() == digit_char(b % 10));
        lemma_digit_char_injective(a % 10, b % 10);
        assert(decimal(a).drop_last() =~= decimal(a / 10));
        assert(decimal(b).drop_last() =~= decimal(b / 10));
        lemma_decimal_injective(a / 10, b / 10);
    } else if a < 10 && b < 10 {
        assert(decimal(a) == seq![digit_char(a)]);
        assert(decimal(b) == seq![digit_char(b)]);
        assert(seq![digit_char(a)][0] == digit_char(a));
        assert(decimal(a)[0] == digit_char(a));
        assert(decimal(b)[0] == digit_char(b));
        lemma_digit_char_injective(a, b);
    }
}

proof fn lemma_split_at_last_colon(a1: Seq<char>, t1: Seq<char>, a2: Seq<char>, t2: Seq<char>)
    requires
        a1 + seq![':'] + t1 == a2 + seq![':'] + t2,
        forall|i: int| 0 <= i < t1.len() ==> #[trigger] t1[i] != ':',
        forall|i: int| 0 <= i < t2.len() ==> #[trigger] t2[i] != ':',
    ensures
        a1 == a2,
        t1 == t2,
{
    let x = a1 + seq![':'] + t1;
    let y = a2 + seq![':'] + t2;
    let n = x.len() as int;
    if t1.len() < t2.len() {
        assert(x[n - t1.len() - 1] == ':');
        assert(y[n - t1.len() - 1] == t2[t2.len() - t1.len() - 1]);
    } else if t2.len() < t1.len() {
        assert(y[n - t2.len() - 1] == ':');
        assert(x[n - t2.len() - 1] == t1[t1.len() - t2.len() - 1]);
    }
    assert(t1 =~= x.skip(n - t1.len()));
    assert(t2 =~= y.skip(n - t2.len()));
    assert(a1 =~= x.take(a1.len() as int));
    assert(a2 =~= y.take(a2.len() as int));
}

/// A `process.uid` determines the boot id, the pid and the start time it was
/// built from: distinct processes (on one boot or across boots) never share a
/// uid, and a reused pid with a new start time is never confused with the
/// earlier process.
pub proof fn process_uid_is_durable(
    boot1: Seq<char>,
    pid1: nat,
    start1: nat,
    boot2: Seq<char>,
    pid2: nat,
    start2: nat,
)
    requires
        process_uid_text(boot1, pid1, start1) == process_uid_text(boot2, pid2, start2),
    ensures
        boot1 == boot2,
        pid1 == pid2,
        start1 == start2,
{
    lemma_decimal_digits(pid1);
    lemma_decimal_digits(pid2);
    lemma_decimal_digits(start1);
    lemma_decimal_digits(start2);
    let h1 = boot1 + seq![':'] + decimal(pid1);
    let h2 = boot2 + seq![':'] + decimal(pid2);
    lemma_split_at_last_colon(h1, decimal(start1), h2, decimal(start2));
    lemma_split_at_last_colon(boot1, decimal(pid1), boot2, decimal(pid2));
    lemma_decimal_injective(pid1, pid2);
    lemma_decimal_injective(start1, start2);
}

/// A `process.uid` is never empty, even for a process whose start time is
/// not known yet (0).
pub proof fn process_uid_is_never_empty(boot_id: Seq<char>, pid: nat, start_time_ns: nat)
    ensures
        process_uid_text(boot_id, pid, start_time_ns).len() > 0,
{
}

/// A name or path whose UTF-8 encoding fits in its field (shorter than the
/// field, without NUL bytes) reads back unchanged from a fixture record.
pub proof fn fixture_text_round_trip(text: Seq<char>, field_len: nat)
    requires
        encode_utf8(text).len() < field_len,
        forall|i: int| 0 <= i < encode_utf8(text).len() ==> #[trigger] encode_utf8(text)[i] != 0,
    ensures
        c_string_text(c_field(encode_utf8(text), field_len)) == text,
{
    let b = encode_utf8(text);
    let f = c_field(b, field_len);
    let n = b.len() as int;
    assert forall|i: int| 0 <= i < n implies f[i] != 0 by {
        assert(f[i] == b[i]);
    }
    crate::exec_event::lemma_first_nul(f, n);
    assert(c_string_bytes(f) =~= b);
    encode_utf8_valid_utf8(text);
    encode_utf8_decode_utf8(text);
}

/// Extending the denylist never lets through an exec that was dropped before.
pub proof fn extra_denylist_only_drops(
    denied: Set<Seq<char>>,
    extra: Set<Seq<char>>,
    self_pids: Set<u32>,
    ev: ExecEvent,
)
    ensures
        allows(denied.union(extra), self_pids, ev) ==> allows(denied, self_pids, ev),
{
}

/// The agent's own execs are always dropped, whatever the denylist.
pub proof fn own_execs_are_dropped(denied: Set<Seq<char>>, self_pids: Set<u32>, ev: ExecEvent)
    requires
        self_pids.contains(ev.pid),
    ensures
        !allows(denied, self_pids, ev),
{
}

/// The tree and the emitted event agree: after an exec is recorded, the tree
/// maps the emitted `process.uid` to the emitted `process.parent_process.uid`
/// (and to the process name).
pub proof fn tree_links_emitted_parent(
    tree: Map<Seq<char>, (Seq<char>, Seq<char>)>,
    ev: ExecEvent,
    meta: AgentMeta,
    out: ProcessActivity,
)
    requires
        is_launch_event_for(out, ev, meta),
    ensures
        ingested(tree, ev, meta).contains_key(out.process.uid@),
        ingested(tree, ev, meta)[out.process.uid@] == (
            out.process.parent_process.uid@,
            out.process.name@,
        ),
{
}

/// Recording the same exec twice leaves the tree as recording it once.
pub proof fn ingest_is_idempotent(
    tree: Map<Seq<char>, (Seq<char>, Seq<char>)>,
    ev: ExecEvent,
    meta: AgentMeta,
)
    ensures
        ingested(ingested(tree, ev, meta), ev, meta) == ingested(tree, ev, meta),
{
    assert(ingested(ingested(tree, ev, meta), ev, meta) =~= ingested(tree, ev, meta));
}

} // verus!

verus! {

/// The tree after recording each of `evs` in turn, starting from `m`.
pub open spec fn ingest_all(
    m: Map<Seq<char>, (Seq<char>, Seq<char>)>,
    evs: Seq<ExecEvent>,
    meta: AgentMeta,
) -> Map<Seq<char>, (Seq<char>, Seq<char>)>
    decreases evs.len(),
{
    if evs.len() == 0 {
        m
    } else {
        ingested(ingest_all(m, evs.drop_last(), meta), evs.last(), meta)
    }
}

/// The distinct `process.uid`s of `evs`.
pub open spec fn uids_of(evs: Seq<ExecEvent>, meta: AgentMeta) -> Set<Seq<char>> {
    Set::new(
        |u: Seq<char>|
            exists|i: int|
                0 <= i < evs.len() && u == process_uid_text(
                    meta.boot_id@,
                    evs[i].pid as nat,
                    evs[i].start_time_ns as nat,
                ),
    )
}

/// A tree built from the empty tree by recording `evs` holds exactly one
/// entry per distinct `process.uid` among them, each mapped to a recorded
/// parent uid and name; so `parent_of` knows exactly those uids and
/// `render_lines` prints exactly one line for each.
pub proof fn ingest_sequence_has_one_entry_per_uid(evs: Seq<ExecEvent>, meta: AgentMeta)
    ensures
        ingest_all(Map::empty(), evs, meta).dom() == uids_of(evs, meta),
        ingest_all(Map::empty(), evs, meta).dom().finite(),
        ingest_all(Map::empty(), evs, meta).dom().len() == uids_of(evs, meta).len(),
        forall|i: int|
            0 <= i < evs.len() ==> ingest_all(Map::empty(), evs, meta).contains_key(
                #[trigger] process_uid_text(meta.boot_id@, evs[i].pid as nat, evs[i].start_time_ns as nat),
            ),
    decreases evs.len(),
{
    let m = ingest_all(Map::empty(), evs, meta);
    if evs.len() > 0 {
        let prev = evs.drop_last();
        ingest_sequence_has_one_entry_per_uid(prev, meta);
        assert forall|u: Seq<char>| m.dom().contains(u) <==> uids_of(evs, meta).contains(u) by {
            if uids_of(prev, meta).contains(u) {
                let i = choose|i: int|
                    0 <= i < prev.len() && u == process_uid_text(
                        meta.boot_id@,
                        prev[i].pid as nat,
                        prev[i].start_time_ns as nat,
                    );
                assert(evs[i] == prev[i]);
            }
            if uids_of(evs, meta).contains(u) {
                let i = choose|i: int|
                    0 <= i < evs.len() && u == process_uid_text(
                        meta.boot_id@,
                        evs[i].pid as nat,
                        evs[i].start_time_ns as nat,
                    );
                if i < prev.len() {
                    assert(prev[i] == evs[i]);
                    assert(uids_of(prev, meta).contains(u));
                }
            }
        }
        assert(m.dom() =~= uids_of(evs, meta));
        assert forall|i: int| 0 <= i < evs.len() implies m.contains_key(
            #[trigger] process_uid_text(meta.boot_id@, evs[i].pid as nat, evs[i].start_time_ns as nat),
        ) by {
            let u = process_uid_text(meta.boot_id@, evs[i].pid as nat, evs[i].start_time_ns as nat);
            assert(uids_of(evs, meta).contains(u));
        }
    } else {
        assert(m.dom() =~= uids_of(evs, meta));
    }
}

} // verus!

verus! {

/// The number a text of decimal digits denotes (most significant first).
pub open spec fn digits_value(s: Seq<char>) -> int
    decreases s.len(),
{
    if s.len() == 0 {
        0
    } else {
        digits_value(s.drop_last()) * 10 + ((s.last() as u32) - 48)
    }
}

/// `s` is a canonical decimal numeral: non-empty, only `0`-`9`, and no leading
/// zero unless it is the single digit `0`.
pub open spec fn is_decimal_numeral(s: Seq<char>) -> bool {
    &&& s.len() > 0
    &&& forall|i: int| 0 <= i < s.len() ==> '0' <= #[trigger] s[i] <= '9'
    &&& (s.len() == 1 || s[0] != '0')
}

/// Decimal rendering is the canonical numeral of the number: it reads back as
/// `n`, is never empty (`0` renders as `0`) and has no leading zero.
pub proof fn decimal_is_canonical_numeral(n: nat)
    ensures
        is_decimal_numeral(decimal(n)),
        digits_value(decimal(n)) == n,
        n >= 1 ==> decimal(n)[0] != '0',
    decreases n,
{
    if n < 10 {
        assert(decimal(n) == seq![digit_char(n)]);
        assert((digit_char(n) as u32) == 48 + n);
        assert(decimal(n).drop_last() =~= Seq::<char>::empty());
        assert(digits_value(Seq::<char>::empty()) == 0);
        assert(decimal(n).last() == digit_char(n));
        assert(digits_value(decimal(n)) == digits_value(decimal(n).drop_last()) * 10 + ((
        decimal(n).last() as u32) - 48));
    } else {
        decimal_is_canonical_numeral(n / 10);
        let d = decimal(n / 10);
        assert(decimal(n) == d.push(digit_char(n % 10)));
        assert((digit_char(n % 10) as u32) == 48 + n % 10);
        assert(decimal(n).drop_last() =~= d);
        assert(decimal(n).last() == digit_char(n % 10));
        assert(digits_value(decimal(n)) == digits_value(d) * 10 + ((decimal(n).last() as u32) - 48));
        assert(n == (n / 10) * 10 + n % 10);
        assert(decimal(n)[0] == d[0]);
        assert forall|i: int| 0 <= i < decimal(n).len() implies '0' <= #[trigger] decimal(n)[i] <= '9' by {
            if i < d.len() {
                assert(decimal(n)[i] == d[i]);
            }
        }
    }
}

/// The actor's user id of a Launch event is the record's uid written as a
/// canonical decimal numeral (root, uid 0, gives `0`).
pub proof fn launch_user_uid_is_decimal_uid(out: ProcessActivity, ev: ExecEvent, meta: AgentMeta)
    requires
        is_launch_event_for(out, ev, meta),
    ensures
        is_decimal_numeral(out.actor.user.uid@),
        digits_value(out.actor.user.uid@) == ev.uid,
{
    decimal_is_canonical_numeral(ev.uid as nat);
}

/// A `process.uid` is the boot id, `:`, the pid as a canonical decimal numeral,
/// `:`, and the start time as a canonical decimal numeral.
pub proof fn process_uid_spells_pid_and_start(boot_id: Seq<char>, pid: nat, start_time_ns: nat)
    ensures
        ({
            let u = process_uid_text(boot_id, pid, start_time_ns);
            let p = u.subrange(boot_id.len() + 1int, u.len() - decimal(start_time_ns).len() - 1);
            let t = u.subrange(u.len() - decimal(start_time_ns).len(), u.len() as int);
            &&& u.take(boot_id.len() as int) == boot_id
            &&& u[boot_id.len() as int] == ':'
            &&& u[u.len() - decimal(start_time_ns).len() - 1] == ':'
            &&& is_decimal_numeral(p) && digits_value(p) == pid
            &&& is_decimal_numeral(t) && digits_value(t) == start_time_ns
        }),
{
    decimal_is_canonical_numeral(pid);
    decimal_is_canonical_numeral(start_time_ns);
    let u = process_uid_text(boot_id, pid, start_time_ns);
    let bl = boot_id.len() as int;
    let pl = decimal(pid).len() as int;
    assert(u.take(bl) =~= boot_id);
    assert(u.subrange(bl + 1int, u.len() - decimal(start_time_ns).len() - 1) =~= decimal(pid));
    assert(u.subrange(u.len() - decimal(start_time_ns).len(), u.len() as int) =~= decimal(start_time_ns));
    assert(u[bl + 1 + pl] == ':');
}

/// Reading four little-endian bytes gives back the `u32` they encode: a record
/// field written as `v.to_le_bytes()` decodes to `v`, for every `v`.
pub proof fn le_u32_reads_back(b: Seq<u8>, at: int, v: u32)
    requires
        0 <= at,
        at + 4 <= b.len(),
        b[at] == v % 256,
        b[at + 1] == (v / 256) % 256,
        b[at + 2] == (v / 65536) % 256,
        b[at + 3] == v / 16777216,
    ensures
        le_u32(b, at) == v,
{
    assert(v == v % 256 + ((v / 256) % 256) * 256 + ((v / 65536) % 256) * 65536 + (v / 16777216)
        * 16777216) by (nonlinear_arith);
}

/// Reading eight little-endian bytes gives back the `u64` they encode.
pub proof fn le_u64_reads_back(b: Seq<u8>, at: int, v: u64)
    requires
        0 <= at,
        at + 8 <= b.len(),
        b[at] == v % 256,
        b[at + 1] == (v / 256) % 256,
        b[at + 2] == (v / 65536) % 256,
        b[at + 3] == (v / 16777216) % 256,
        b[at + 4] == (v / 4294967296) % 256,
        b[at + 5] == (v / 1099511627776) % 256,
        b[at + 6] == (v / 281474976710656) % 256,
        b[at + 7] == v / 72057594037927936,
    ensures
        le_u64(b, at) == v,
{
    let lo = v % 4294967296;
    let hi = v / 4294967296;
    assert(v == v % 4294967296 + (v / 4294967296) * 4294967296) by (bit_vector);
    assert(v % 256 == (v % 4294967296) % 256) by (bit_vector);
    assert((v / 256) % 256 == ((v % 4294967296) / 256) % 256) by (bit_vector);
    assert((v / 65536) % 256 == ((v % 4294967296) / 65536) % 256) by (bit_vector);
    assert((v / 16777216) % 256 == (v % 4294967296) / 16777216) by (bit_vector);
    assert((v / 4294967296) % 256 == (v / 4294967296) % 256) by (bit_vector);
    assert((v / 1099511627776) % 256 == ((v / 4294967296) / 256) % 256) by (bit_vector);
    assert((v / 281474976710656) % 256 == ((v / 4294967296) / 65536) % 256) by (bit_vector);
    assert(v / 72057594037927936 == (v / 4294967296) / 16777216) by (bit_vector);
    le_u32_reads_back(b, at, lo as u32);
    le_u32_reads_back(b, at + 4, hi as u32);
}

proof fn lemma_component_start_of_split(dir: Seq<char>, base: Seq<char>, also_backslash: bool)
    requires
        forall|i: int|
            0 <= i < base.len() ==> #[trigger] base[i] != '/' && !(also_backslash && base[i] == '\\'),
        dir.len() == 0 || dir.last() == '/' || (also_backslash && dir.last() == '\\'),
    ensures
        component_start(dir + base, also_backslash) == dir.len(),
    decreases base.len(),
{
    if base.len() == 0 {
        assert(dir + base =~= dir);
        if dir.len() > 0 {
        }
    } else {
        let s = dir + base;
        assert(s.last() == base.last());
        assert(s.drop_last() =~= dir + base.drop_last());
        lemma_component_start_of_split(dir, base.drop_last(), also_backslash);
    }
}

proof fn lemma_component_start_facts(s: Seq<char>, also_backslash: bool)
    ensures
        0 <= component_start(s, also_backslash) <= s.len(),
        component_start(s, also_backslash) == 0 || s[component_start(s, also_backslash) - 1] == '/'
            || (also_backslash && s[component_start(s, also_backslash) - 1] == '\\'),
        forall|i: int|
            component_start(s, also_backslash) <= i < s.len() ==> #[trigger] s[i] != '/' && !(
            also_backslash && s[i] == '\\'),
    decreases s.len(),
{
    if s.len() > 0 {
        lemma_component_start_facts(s.drop_last(), also_backslash);
        assert forall|i: int|
            component_start(s, also_backslash) <= i < s.len() implies #[trigger] s[i] != '/' && !(
            also_backslash && s[i] == '\\') by {
            if i < s.len() - 1 {
                assert(s[i] == s.drop_last()[i]);
            }
        }
        let c = component_start(s, also_backslash);
        if 0 < c < s.len() {
            assert(s[c - 1] == s.drop_last()[c - 1]);
        }
    }
}

/// The last component of a path is what follows its last separator (`/`, and
/// `\` when `also_backslash`): the path is a prefix that is empty or ends in a
/// separator, followed by the component, which holds no separator (so spaces
/// and other characters stay in it). Conversely, any such split of the path
/// has exactly the last component as its tail.
pub proof fn last_component_follows_last_separator(path: Seq<char>, also_backslash: bool)
    ensures
        ({
            let name = last_component(path, also_backslash);
            let dir = path.take(path.len() - name.len());
            &&& path == dir + name
            &&& dir.len() == 0 || dir.last() == '/' || (also_backslash && dir.last() == '\\')
            &&& forall|i: int|
                0 <= i < name.len() ==> #[trigger] name[i] != '/' && !(also_backslash && name[i]
                    == '\\')
        }),
        forall|dir: Seq<char>, base: Seq<char>|
            #![trigger dir + base]
            path == dir + base && (dir.len() == 0 || dir.last() == '/' || (also_backslash
                && dir.last() == '\\')) && (forall|i: int|
                0 <= i < base.len() ==> #[trigger] base[i] != '/' && !(also_backslash && base[i]
                    == '\\')) ==> last_component(path, also_backslash) == base,
{
    lemma_component_start_facts(path, also_backslash);
    let c = component_start(path, also_backslash);
    let name = last_component(path, also_backslash);
    let dir = path.take(path.len() - name.len());
    assert(dir =~= path.take(c));
    assert(path =~= dir + name);
    assert forall|i: int| 0 <= i < name.len() implies #[trigger] name[i] != '/' && !(also_backslash
        && name[i] == '\\') by {
        assert(name[i] == path[c + i]);
    }
    assert forall|dir: Seq<char>, base: Seq<char>|
        #![trigger dir + base]
        path == dir + base && (dir.len() == 0 || dir.last() == '/' || (also_backslash
            && dir.last() == '\\')) && (forall|i: int|
            0 <= i < base.len() ==> #[trigger] base[i] != '/' && !(also_backslash && base[i]
                == '\\')) implies last_component(path, also_backslash) == base by {
        lemma_component_start_of_split(dir, base, also_backslash);
        assert(path.subrange(dir.len() as int, path.len() as int) =~= base);
    }
}

/// An exec whose path basename (the text after its last `/`) is denylisted is
/// dropped, whatever its process name and pid.
pub proof fn denylisted_basename_is_dropped(
    denied: Set<Seq<char>>,
    self_pids: Set<u32>,
    ev: ExecEvent,
    dir: Seq<char>,
    base: Seq<char>,
)
    requires
        ev.filename_text() == dir + base,
        dir.len() == 0 || dir.last() == '/',
        forall|i: int| 0 <= i < base.len() ==> #[trigger] base[i] != '/',
        denied.contains(base),
    ensures
        !allows(denied, self_pids, ev),
{
    lemma_component_start_of_split(dir, base, false);
    assert(last_component(dir + base, false) =~= base);
}

/// An exec whose process name is denylisted is dropped, whatever its path.
pub proof fn denylisted_name_is_dropped(
    denied: Set<Seq<char>>,
    self_pids: Set<u32>,
    ev: ExecEvent,
)
    requires
        denied.contains(ev.comm_text()),
    ensures
        !allows(denied, self_pids, ev),
{
}

/// An exec that is not the agent's own, and whose name and path basename are
/// not denylisted, is kept.
pub proof fn undenied_exec_is_kept(
    denied: Set<Seq<char>>,
    self_pids: Set<u32>,
    ev: ExecEvent,
    dir: Seq<char>,
    base: Seq<char>,
)
    requires
        ev.filename_text() == dir + base,
        dir.len() == 0 || dir.last() == '/',
        forall|i: int| 0 <= i < base.len() ==> #[trigger] base[i] != '/',
        !denied.contains(base),
        !denied.contains(ev.comm_text()),
        !self_pids.contains(ev.pid),
    ensures
        allows(denied, self_pids, ev),
{
    lemma_component_start_of_split(dir, base, false);
    assert(last_component(dir + base, false) =~= base);
}

/// A rendered tree line starts with the full recorded name followed by
/// ` uid=` and the uid, then ` parent_uid=` and the parent uid, and nothing
/// else: names of any length are kept whole.
pub proof fn tree_line_keeps_fields_whole(name: Seq<char>, uid: Seq<char>, parent_uid: Seq<char>)
    ensures
        ({
            let line = tree_line(name, uid, parent_uid);
            let a = name.len() as int;
            let b = a + 5 + uid.len();
            &&& line.len() == name.len() + uid.len() + parent_uid.len() + 17
            &&& line.take(a) == name
            &&& line.subrange(a, a + 5) == seq![' ', 'u', 'i', 'd', '=']
            &&& line.subrange(a + 5, b) == uid
            &&& line.subrange(b, b + 12) == seq![
                ' ',
                'p',
                'a',
                'r',
                'e',
                'n',
                't',
                '_',
                'u',
                'i',
                'd',
                '=',
            ]
            &&& line.skip(b + 12) == parent_uid
        }),
{
    reveal_strlit(" uid=");
    reveal_strlit(" parent_uid=");
    let line = tree_line(name, uid, parent_uid);
    let a = name.len() as int;
    let b = a + 5 + uid.len();
    assert(line.take(a) =~= name);
    assert(line.subrange(a, a + 5) =~= seq![' ', 'u', 'i', 'd', '=']);
    assert(line.subrange(a + 5, b) =~= uid);
    assert(line.subrange(b, b + 12) =~= seq![' ', 'p', 'a', 'r', 'e', 'n', 't', '_', 'u', 'i', 'd', '=']);
    assert(line.skip(b + 12) =~= parent_uid);
}

} // verus!

verus! {

proof fn lemma_content_end_facts(s: Seq<char>)
    ensures
        0 <= content_end(s) <= s.len(),
        content_end(s) == 0 || !is_white_space(s[content_end(s) - 1]),
        forall|i: int| content_end(s) <= i < s.len() ==> is_white_space(#[trigger] s[i]),
    decreases s.len(),
{
    if s.len() > 0 && is_white_space(s.last()) {
        let t = s.drop_last();
        lemma_content_end_facts(t);
        assert forall|i: int| content_end(s) <= i < s.len() implies is_white_space(#[trigger] s[i]) by {
            if i < t.len() {
                assert(s[i] == t[i]);
            }
        }
        if content_end(t) > 0 {
            assert(s[content_end(t) - 1] == t[content_end(t) - 1]);
        }
    }
}

/// Trimming removes exactly the white space at both ends: the result is a
/// contiguous part of the text, everything before and after it is white space,
/// and it neither starts nor ends with white space.
pub proof fn trim_removes_outer_white_space(s: Seq<char>)
    ensures
        ({
            let t = trimmed(s);
            exists|a: int|
                #![trigger s.subrange(a, a + t.len())]
                0 <= a && a + t.len() <= s.len() && s.subrange(a, a + t.len()) == t && (forall|i: int|
                    0 <= i < a ==> is_white_space(#[trigger] s[i])) && (forall|i: int|
                    a + t.len() <= i < s.len() ==> is_white_space(#[trigger] s[i]))
        }),
        trimmed(s).len() > 0 ==> !is_white_space(trimmed(s)[0]) && !is_white_space(
            trimmed(s).last(),
        ),
{
    crate::text::lemma_content_bounds(s);
    lemma_content_end_facts(s);
    let a = content_start(s);
    let e = content_end(s);
    let t = trimmed(s);
    if a < s.len() {
        if e <= a {
            assert(is_white_space(s[a]));
        }
        assert(t =~= s.subrange(a, e));
        assert(s.subrange(a, a + t.len()) == t);
        assert(t[0] == s[a]);
        assert(t.last() == s[e - 1]);
    } else {
        assert(t.len() == 0);
        assert(s.subrange(a, a + t.len()) =~= t);
    }
}

/// A replay line is skipped exactly when, trimmed, it is empty or starts with `#`.
pub proof fn skipped_lines_are_blank_or_comments(s: Seq<char>)
    ensures
        is_blank_or_comment(s) <==> (trimmed(s).len() == 0 || trimmed(s)[0] == '#'),
{
    crate::text::lemma_content_bounds(s);
    lemma_content_end_facts(s);
    let a = content_start(s);
    let e = content_end(s);
    if a < s.len() {
        if e <= a {
            assert(is_white_space(s[a]));
        }
        assert(trimmed(s)[0] == s[a]);
    }
}

/// Pieces joined back together with `sep` between consecutive ones.
pub open spec fn joined(parts: Seq<Seq<char>>, sep: char) -> Seq<char>
    decreases parts.len(),
{
    if parts.len() == 0 {
        Seq::empty()
    } else if parts.len() == 1 {
        parts[0]
    } else {
        joined(parts.drop_last(), sep) + seq![sep] + parts.last()
    }
}

/// Splitting loses nothing: the pieces hold no separator and, joined with the
/// separator, give back the text.
pub proof fn split_pieces_rejoin(s: Seq<char>, sep: char)
    ensures
        joined(split_on(s, sep), sep) == s,
        forall|i: int, j: int|
            0 <= i < split_on(s, sep).len() && 0 <= j < split_on(s, sep)[i].len() ==> #[trigger] split_on(
                s,
                sep,
            )[i][j] != sep,
    decreases s.len(),
{
    if s.len() == 0 {
        assert(joined(split_on(s, sep), sep) =~= s);
    } else {
        let t = s.drop_last();
        let parts = split_on(t, sep);
        split_pieces_rejoin(t, sep);
        crate::text::lemma_split_on_nonempty(t, sep);
        let c = s.last();
        let now = split_on(s, sep);
        if c == sep {
            assert(now == parts.push(Seq::<char>::empty()));
            assert(now.drop_last() =~= parts);
            assert(joined(now, sep) =~= s);
            assert forall|i: int, j: int|
                0 <= i < now.len() && 0 <= j < now[i].len() implies #[trigger] now[i][j] != sep by {
                assert(now[i] == parts[i]);
            }
        } else {
            let last = parts.last().push(c);
            assert(now == parts.update(parts.len() - 1, last));
            assert(now.drop_last() =~= parts.drop_last());
            if parts.len() == 1 {
                assert(joined(now, sep) =~= s);
            } else {
                assert(joined(parts, sep) == joined(parts.drop_last(), sep) + seq![sep] + parts.last());
                assert(now.last() == last);
                assert(joined(now, sep) == joined(now.drop_last(), sep) + seq![sep] + now.last());
                assert(s =~= t.push(c));
                assert(joined(now, sep) =~= s);
            }
            assert forall|i: int, j: int|
                0 <= i < now.len() && 0 <= j < now[i].len() implies #[trigger] now[i][j] != sep by {
                if i < parts.len() - 1 {
                    assert(now[i] == parts[i]);
                } else if j < parts.last().len() {
                    assert(now[i][j] == parts[i][j]);
                }
            }
        }
    }
}

} // verus!

verus! {

/// A fixture field of `n` bytes holds the first `min(len, n - 1)` bytes of the
/// source, then zeros: a source too long for the field keeps its first `n - 1`
/// bytes and is still NUL-terminated.
pub proof fn fixture_field_keeps_longest_prefix(src: Seq<u8>, n: nat)
    requires
        n > 0,
    ensures
        ({
            let k: int = if src.len() + 1 <= n { src.len() as int } else { n - 1 };
            let f = c_field(src, n);
            &&& f.len() == n
            &&& f.take(k) == src.take(k)
            &&& forall|i: int| k <= i < n ==> #[trigger] f[i] == 0
        }),
{
    let k: int = if src.len() + 1 <= n { src.len() as int } else { n - 1 };
    assert(c_field(src, n).take(k) =~= src.take(k));
}

} // verus!
