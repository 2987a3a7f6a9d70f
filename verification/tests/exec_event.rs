use linux_agent::exec_event::ExecEvent;

#[test]
fn size_is_stable() {
    // pid+ppid+uid (12) + pad to 8 for u64s + times + arrays
    assert!(ExecEvent::SIZE >= 16 + 16 + 256);
}

#[test]
fn fixture_fields_read_back() {
    let ev = ExecEvent::from_fixture(7, 3, 1000, 55, 44, "curl", "/usr/bin/curl");
    assert_eq!(ev.pid, 7);
    assert_eq!(ev.ppid, 3);
    assert_eq!(ev.uid, 1000);
    assert_eq!(ev.start_time_ns, 55);
    assert_eq!(ev.parent_start_time_ns, 44);
    assert_eq!(ev.comm_str(), "curl");
    assert_eq!(ev.filename_str(), "/usr/bin/curl");
    assert_eq!(ev.comm[4], 0);
}

#[test]
fn long_comm_is_truncated_to_fifteen_bytes() {
    let ev = ExecEvent::from_fixture(1, 0, 0, 0, 0, "abcdefghijklmnopqrst", "/x");
    assert_eq!(ev.comm_str(), "abcdefghijklmno");
    assert_eq!(ev.comm[15], 0);
}

#[test]
fn split_multibyte_char_reads_as_empty() {
    // 14 ASCII bytes then a 2-byte char: only its first byte fits.
    let ev = ExecEvent::from_fixture(1, 0, 0, 0, 0, "abcdefghijklmné", "/x");
    assert_eq!(ev.comm_str(), "");
}

#[test]
fn text_stops_at_first_nul() {
    let mut ev = ExecEvent::from_fixture(1, 0, 0, 0, 0, "bash", "/bin/bash");
    ev.comm[2] = 0;
    assert_eq!(ev.comm_str(), "ba");
}

#[test]
fn ring_bytes_decode_little_endian() {
    let mut b = vec![0u8; ExecEvent::SIZE + 3];
    b[0..4].copy_from_slice(&1234u32.to_le_bytes());
    b[4..8].copy_from_slice(&1u32.to_le_bytes());
    b[8..12].copy_from_slice(&1000u32.to_le_bytes());
    b[16..24].copy_from_slice(&1_700_000_000_000_000_000u64.to_le_bytes());
    b[24..32].copy_from_slice(&42u64.to_le_bytes());
    b[32..36].copy_from_slice(b"curl");
    b[48..61].copy_from_slice(b"/usr/bin/curl");
    let ev = ExecEvent::from_ring_bytes(&b).unwrap();
    assert_eq!(ev.pid, 1234);
    assert_eq!(ev.ppid, 1);
    assert_eq!(ev.uid, 1000);
    assert_eq!(ev.start_time_ns, 1_700_000_000_000_000_000);
    assert_eq!(ev.parent_start_time_ns, 42);
    assert_eq!(ev.comm_str(), "curl");
    assert_eq!(ev.filename_str(), "/usr/bin/curl");
}

#[test]
fn short_ring_record_is_rejected() {
    let b = vec![0u8; ExecEvent::SIZE - 1];
    assert!(ExecEvent::from_ring_bytes(&b).is_none());
}

#[test]
fn tracepoint_record_copies_comm_into_path() {
    let mut comm = [0u8; 16];
    comm[..3].copy_from_slice(b"vim");
    let ev = ExecEvent::from_tracepoint((77u64 << 32) | 78, (5u64 << 32) | 1000, Some(comm));
    assert_eq!(ev.pid, 77);
    assert_eq!(ev.uid, 1000);
    assert_eq!(ev.ppid, 0);
    assert_eq!(ev.start_time_ns, 0);
    assert_eq!(ev.comm_str(), "vim");
    assert_eq!(ev.filename_str(), "vim");
    let none = ExecEvent::from_tracepoint(0, 0, None);
    assert_eq!(none.comm_str(), "");
    assert_eq!(none.filename_str(), "");
}
