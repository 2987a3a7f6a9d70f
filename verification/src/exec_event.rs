//! The fixed-size exec record shared between the kernel probe and userspace.
//!
//! On the wire (the ring buffer written by the `sched_process_exec` probe) the
//! record is laid out as a little-endian C struct of `ExecEvent::SIZE` bytes:
//! `pid`, `ppid`, `uid` at offsets 0, 4, 8, four bytes of padding, the two start
//! times at 16 and 24, `comm` at 32 and `filename` at 48.

use vstd::prelude::*;
use vstd::slice::slice_subrange;
use vstd::string::StringSliceAdditionalSpecFns;
use vstd::utf8::*;

verus! {

broadcast use vstd::string::group_string_axioms;

/// Fixed-size exec record pushed through the ring buffer.
#[derive(Clone, Copy)]
pub struct ExecEvent {
    pub pid: u32,
    pub ppid: u32,
    pub uid: u32,
    pub start_time_ns: u64,
    pub parent_start_time_ns: u64,
    pub comm: [u8; 16],
    pub filename: [u8; 256],
}

/// Index of the first NUL byte of `b`, or its length when it has none.
pub open spec fn first_nul(b: Seq<u8>) -> nat
    decreases b.len(),
{
    if b.len() == 0 {
        0
    } else if b[0] == 0 {
        0
    } else {
        1 + first_nul(b.drop_first())
    }
}

/// The bytes of a NUL-terminated field, up to (not including) the first NUL.
pub open spec fn c_string_bytes(b: Seq<u8>) -> Seq<u8> {
    b.take(first_nul(b) as int)
}

/// The text of a NUL-terminated field: its bytes up to the first NUL decoded as
/// UTF-8, or the empty text when those bytes are not valid UTF-8.
pub open spec fn c_string_text(b: Seq<u8>) -> Seq<char> {
    let p = c_string_bytes(b);
    if valid_utf8(p) {
        decode_utf8(p)
    } else {
        Seq::empty()
    }
}

/// The number of bytes of `src` that fit in a NUL-terminated field of `len` bytes.
pub open spec fn c_copy_len(src: Seq<u8>, len: nat) -> int {
    if src.len() < len - 1 {
        src.len() as int
    } else {
        len - 1
    }
}

/// A field of `len` bytes holding as much of `src` as fits before a NUL
/// terminator, zero-filled after it.
pub open spec fn c_field(src: Seq<u8>, len: nat) -> Seq<u8> {
    Seq::new(len, |i: int| if i < c_copy_len(src, len) { src[i] } else { 0u8 })
}

/// Little-endian `u32` stored at `at` in `b`.
pub open spec fn le_u32(b: Seq<u8>, at: int) -> int {
    b[at] + b[at + 1] * 256 + b[at + 2] * 65536 + b[at + 3] * 16777216
}

/// Little-endian `u64` stored at `at` in `b`.
pub open spec fn le_u64(b: Seq<u8>, at: int) -> int {
    le_u32(b, at) + le_u32(b, at + 4) * 4294967296
}

impl ExecEvent {
    /// Size in bytes of the record in the ring buffer.
    pub const SIZE: usize = 304;

    /// The process name as text (see `c_string_text`).
    pub open spec fn comm_text(&self) -> Seq<char> {
        c_string_text(self.comm@)
    }

    /// The executable path as text (see `c_string_text`).
    pub open spec fn filename_text(&self) -> Seq<char> {
        c_string_text(self.filename@)
    }

    pub fn comm_str(&self) -> (s: &str)
        ensures
            s@ == self.comm_text(),
    {
        cstr_from_bytes(&self.comm)
    }

    pub fn filename_str(&self) -> (s: &str)
        ensures
            s@ == self.filename_text(),
    {
        cstr_from_bytes(&self.filename)
    }
}

impl ExecEvent {
    /// Builds a record from replay-fixture values; `comm` and `filename` are
    /// copied as NUL-terminated fields, truncated to fit.
    pub fn from_fixture(
        pid: u32,
        ppid: u32,
        uid: u32,
        start_time_ns: u64,
        parent_start_time_ns: u64,
        comm: &str,
        filename: &str,
    ) -> (ev: Self)
        ensures
            ev.pid == pid,
            ev.ppid == ppid,
            ev.uid == uid,
            ev.start_time_ns == start_time_ns,
            ev.parent_start_time_ns == parent_start_time_ns,
            ev.comm@ == c_field(comm.spec_bytes(), 16),
            ev.filename@ == c_field(filename.spec_bytes(), 256),
    {
        let mut comm_field = [0u8; 16];
        let mut filename_field = [0u8; 256];
        copy_cstr(&mut comm_field, comm);
        copy_cstr(&mut filename_field, filename);
        assert(comm_field@ =~= c_field(comm.spec_bytes(), 16));
        assert(filename_field@ =~= c_field(filename.spec_bytes(), 256));
        ExecEvent {
            pid,
            ppid,
            uid,
            start_time_ns,
            parent_start_time_ns,
            comm: comm_field,
            filename: filename_field,
        }
    }
}

impl ExecEvent {
    /// Decodes a record as the probe wrote it into the ring buffer; `None` when
    /// fewer than `SIZE` bytes were delivered. Bytes past `SIZE` are ignored.
    pub fn from_ring_bytes(bytes: &[u8]) -> (res: Option<Self>)
        ensures
            res is None <==> bytes@.len() < Self::SIZE,
            res matches Some(ev) ==> {
                &&& ev.pid == le_u32(bytes@, 0)
                &&& ev.ppid == le_u32(bytes@, 4)
                &&& ev.uid == le_u32(bytes@, 8)
                &&& ev.start_time_ns == le_u64(bytes@, 16)
                &&& ev.parent_start_time_ns == le_u64(bytes@, 24)
                &&& ev.comm@ == bytes@.subrange(32, 48)
                &&& ev.filename@ == bytes@.subrange(48, 304)
            },
    {
        if bytes.len() < Self::SIZE {
            return None;
        }
        let mut comm = [0u8; 16];
        let mut i: usize = 0;
        while i < 16
            invariant
                bytes@.len() >= 304,
                i <= 16,
                forall|j: int| 0 <= j < i ==> #[trigger] comm@[j] == bytes@[32 + j],
            decreases 16 - i,
        {
            comm[i] = bytes[32 + i];
            i = i + 1;
        }
        let mut filename = [0u8; 256];
        let mut k: usize = 0;
        while k < 256
            invariant
                bytes@.len() >= 304,
                k <= 256,
                forall|j: int| 0 <= j < k ==> #[trigger] filename@[j] == bytes@[48 + j],
            decreases 256 - k,
        {
            filename[k] = bytes[48 + k];
            k = k + 1;
        }
        assert(comm@ =~= bytes@.subrange(32, 48));
        assert(filename@ =~= bytes@.subrange(48, 304));
        Some(ExecEvent {
            pid: read_le_u32(bytes, 0),
            ppid: read_le_u32(bytes, 4),
            uid: read_le_u32(bytes, 8),
            start_time_ns: read_le_u64(bytes, 16),
            parent_start_time_ns: read_le_u64(bytes, 24),
            comm,
            filename,
        })
    }

    /// The record the exec tracepoint emits from the kernel helpers' results:
    /// the thread-group id (upper half of `pid_tgid`), the uid (lower half of
    /// `uid_gid`) and the task's `comm` (all zero when the helper failed).
    /// Parent pid and start times are left 0 for userspace enrichment, and
    /// `filename` starts with a copy of `comm` so the path is never empty.
    pub fn from_tracepoint(pid_tgid: u64, uid_gid: u64, comm: Option<[u8; 16]>) -> (ev: Self)
        ensures
            ev.pid == pid_tgid / 4294967296,
            ev.ppid == 0,
            ev.uid == uid_gid % 4294967296,
            ev.start_time_ns == 0,
            ev.parent_start_time_ns == 0,
            ev.comm@ == match comm {
                Some(c) => c@,
                None => Seq::new(16, |i: int| 0u8),
            },
            ev.filename@ == ev.comm@ + Seq::new(240, |i: int| 0u8),
    {
        let comm_field: [u8; 16] = match comm {
            Some(c) => c,
            None => [0u8; 16],
        };
        let pid = (pid_tgid >> 32u64) as u32;
        let uid = (uid_gid & 0xffff_ffffu64) as u32;
        assert((pid_tgid >> 32u64) == pid_tgid / 4294967296) by (bit_vector);
        assert((uid_gid & 0xffff_ffffu64) == uid_gid % 4294967296) by (bit_vector);
        let mut filename = [0u8; 256];
        let mut i: usize = 0;
        while i < 16
            invariant
                i <= 16,
                filename@.len() == 256,
                forall|j: int| 0 <= j < i ==> #[trigger] filename@[j] == comm_field@[j],
                forall|j: int| 16 <= j < 256 ==> #[trigger] filename@[j] == 0u8,
            decreases 16 - i,
        {
            filename[i] = comm_field[i];
            i = i + 1;
        }
        let ev = ExecEvent {
            pid,
            ppid: 0,
            uid,
            start_time_ns: 0,
            parent_start_time_ns: 0,
            comm: comm_field,
            filename,
        };
        assert(ev.filename@ =~= ev.comm@ + Seq::new(240, |i: int| 0u8));
        assert(comm is None ==> ev.comm@ =~= Seq::new(16, |i: int| 0u8));
        ev
    }
}

fn read_le_u32(bytes: &[u8], at: usize) -> (v: u32)
    requires
        at + 4 <= bytes@.len(),
        at + 4 <= usize::MAX,
    ensures
        v == le_u32(bytes@, at as int),
{
    (bytes[at] as u32) + (bytes[at + 1] as u32) * 256 + (bytes[at + 2] as u32) * 65536
        + (bytes[at + 3] as u32) * 16777216
}

fn read_le_u64(bytes: &[u8], at: usize) -> (v: u64)
    requires
        at + 8 <= bytes@.len(),
        at + 8 <= usize::MAX,
    ensures
        v == le_u64(bytes@, at as int),
{
    let lo = read_le_u32(bytes, at) as u64;
    let hi = read_le_u32(bytes, at + 4) as u64;
    lo + hi * 4294967296
}

/// Copies as much of `src` as fits into `dst` followed by a NUL terminator;
/// bytes after the terminator are left as they were.
fn copy_cstr<const N: usize>(dst: &mut [u8; N], src: &str)
    requires
        N > 0,
    ensures
        final(dst)@.len() == N,
        forall|i: int|
            0 <= i < N ==> #[trigger] final(dst)@[i] == if i < c_copy_len(src.spec_bytes(), N as nat) {
                src.spec_bytes()[i]
            } else if i == c_copy_len(src.spec_bytes(), N as nat) {
                0u8
            } else {
                old(dst)@[i]
            },
{
    let bytes = src.as_bytes();
    let n: usize = if bytes.len() < N - 1 {
        bytes.len()
    } else {
        N - 1
    };
    let ghost start = dst@;
    let mut i: usize = 0;
    while i < n
        invariant
            n == c_copy_len(src.spec_bytes(), N as nat),
            n < N,
            n <= bytes@.len(),
            bytes@ == src.spec_bytes(),
            i <= n,
            dst@.len() == N,
            forall|j: int| 0 <= j < N ==> #[trigger] dst@[j] == if j < i { bytes@[j] } else { start[j] },
        decreases n - i,
    {
        dst[i] = bytes[i];
        i = i + 1;
    }
    dst[n] = 0;
}

/// Decodes `bytes` as UTF-8.
///
/// Trusted: `core::str::from_utf8` succeeds exactly on valid UTF-8 and then
/// returns the text those bytes encode.
#[verifier::external_body]
fn utf8_str(bytes: &[u8]) -> (res: Option<&str>)
    ensures
        res is Some <==> valid_utf8(bytes@),
        res matches Some(s) ==> s@ == decode_utf8(bytes@),
{
    core::str::from_utf8(bytes).ok()
}

pub(crate) proof fn lemma_first_nul(b: Seq<u8>, n: int)
    requires
        0 <= n <= b.len(),
        forall|i: int| 0 <= i < n ==> b[i] != 0,
        n == b.len() || b[n] == 0,
    ensures
        first_nul(b) == n,
    decreases n,
{
    if n > 0 {
        let t = b.drop_first();
        assert forall|i: int| 0 <= i < n - 1 implies t[i] != 0 by {
            assert(t[i] == b[i + 1]);
        }
        if n < b.len() {
            assert(t[n - 1] == b[n]);
        }
        lemma_first_nul(t, n - 1);
    }
}

fn cstr_from_bytes(bytes: &[u8]) -> (s: &str)
    ensures
        s@ == c_string_text(bytes@),
{
    let mut end: usize = 0;
    while end < bytes.len() && bytes[end] != 0
        invariant
            end <= bytes@.len(),
            forall|i: int| 0 <= i < end ==> bytes@[i] != 0,
        decreases bytes@.len() - end,
    {
        end = end + 1;
    }
    proof {
        lemma_first_nul(bytes@, end as int);
    }
    match utf8_str(slice_subrange(bytes, 0, end)) {
        Some(s) => s,
        None => {
            proof {
                reveal_strlit("");
            }
            ""
        },
    }
}

} // verus!
