use chronosys::common::{
    decode_lifecycle_event, ProcessLifecycleEvent, ProcessMetrics, LIFECYCLE_RECORD_LEN, TASK_COMM_LEN,
};
use chronosys::event_kind;
use chronosys::probes::{
    exec_event, exit_event, handle_generic_sys_exit, handle_sys_exit_read, handle_sys_exit_write,
    initial_process_metrics,
};

fn comm_of(name: &[u8]) -> [u8; TASK_COMM_LEN] {
    let mut comm = [0u8; TASK_COMM_LEN];
    comm[..name.len()].copy_from_slice(name);
    comm
}

fn event_with(kind: u8, comm: [u8; TASK_COMM_LEN]) -> ProcessLifecycleEvent {
    ProcessLifecycleEvent {
        timestamp_ns: 1,
        pid: 2,
        ppid: 3,
        uid: 4,
        gid: 5,
        exit_code: 0,
        event_kind: kind,
        _pad: [0; 3],
        comm,
    }
}

#[test]
fn kind_accepts_only_known_kinds() {
    assert_eq!(event_with(event_kind::EXEC, comm_of(b"a")).kind(), Some(event_kind::EXEC));
    assert_eq!(event_with(event_kind::EXIT, comm_of(b"a")).kind(), Some(event_kind::EXIT));
    assert_eq!(event_with(1, comm_of(b"a")).kind(), Some(1));
    assert_eq!(event_with(2, comm_of(b"a")).kind(), Some(2));
    assert_eq!(event_with(0, comm_of(b"a")).kind(), None);
    assert_eq!(event_with(3, comm_of(b"a")).kind(), None);
    assert_eq!(event_with(255, comm_of(b"a")).kind(), None);
}

#[test]
fn comm_str_stops_at_first_nul() {
    let mut comm = comm_of(b"bash");
    comm[6] = b'x';
    assert_eq!(event_with(0, comm).comm_str(), "bash");
    assert_eq!(event_with(0, [0u8; TASK_COMM_LEN]).comm_str(), "");
}

#[test]
fn comm_str_uses_all_bytes_without_nul() {
    let comm = *b"abcdefghijklmnop";
    assert_eq!(event_with(0, comm).comm_str(), "abcdefghijklmnop");
}

#[test]
fn comm_str_of_invalid_utf8_is_question_mark() {
    let comm = comm_of(&[b'a', 0xff, b'b']);
    assert_eq!(event_with(0, comm).comm_str(), "?");
    let comm = comm_of("héllo".as_bytes());
    assert_eq!(event_with(0, comm).comm_str(), "héllo");
}

#[test]
fn exec_event_splits_ids() {
    let comm = comm_of(b"sh");
    let e = exec_event(77, (1234u64 << 32) | 99, 1, (1000u64 << 32) | 500, comm);
    assert_eq!(e.timestamp_ns, 77);
    assert_eq!(e.pid, 1234);
    assert_eq!(e.ppid, 1);
    assert_eq!(e.uid, 500);
    assert_eq!(e.gid, 1000);
    assert_eq!(e.exit_code, 0);
    assert_eq!(e.event_kind, event_kind::EXEC);
    assert_eq!(e.event_kind, 1);
    assert_eq!(e._pad, [0, 0, 0]);
    assert_eq!(e.comm, comm);
    assert_eq!(e.kind(), Some(event_kind::EXEC));
}

#[test]
fn exit_event_decodes_wait_status() {
    let comm = comm_of(b"sh");
    let e = exit_event(9, 3 << 8, 42u64 << 32, 7, comm);
    assert_eq!(e.pid, 42);
    assert_eq!(e.ppid, 0);
    assert_eq!(e.uid, 7);
    assert_eq!(e.gid, 0);
    assert_eq!(e.exit_code, 3);
    assert_eq!(e.event_kind, event_kind::EXIT);
    assert_eq!(e.event_kind, 2);
    let e = exit_event(9, -256, 0, 0, comm);
    assert_eq!(e.exit_code, -1);
    let e = exit_event(9, 0x7f, 0, 0, comm);
    assert_eq!(e.exit_code, 0);
}

fn zero() -> ProcessMetrics {
    initial_process_metrics()
}

#[test]
fn initial_metrics_are_zero() {
    let m = zero();
    assert_eq!(
        (m.bytes_read, m.bytes_written, m.read_ops, m.write_ops, m.cpu_cycles_ns, m.syscall_errors),
        (0, 0, 0, 0, 0, 0)
    );
}

#[test]
fn read_exit_counts_bytes_or_error() {
    let mut m = zero();
    handle_sys_exit_read(&mut m, 100);
    handle_sys_exit_read(&mut m, 0);
    assert_eq!((m.read_ops, m.bytes_read, m.syscall_errors), (2, 100, 0));
    handle_sys_exit_read(&mut m, -9);
    assert_eq!((m.read_ops, m.bytes_read, m.syscall_errors), (2, 100, 1));
    assert_eq!((m.write_ops, m.bytes_written), (0, 0));
}

#[test]
fn write_exit_counts_bytes_or_error() {
    let mut m = zero();
    handle_sys_exit_write(&mut m, 4096);
    assert_eq!((m.write_ops, m.bytes_written, m.syscall_errors), (1, 4096, 0));
    handle_sys_exit_write(&mut m, -1);
    assert_eq!((m.write_ops, m.bytes_written, m.syscall_errors), (1, 4096, 1));
    assert_eq!((m.read_ops, m.bytes_read), (0, 0));
}

#[test]
fn counters_wrap_around() {
    let mut m = zero();
    m.bytes_read = u64::MAX;
    m.read_ops = u64::MAX;
    handle_sys_exit_read(&mut m, 2);
    assert_eq!((m.read_ops, m.bytes_read), (0, 1));
}

#[test]
fn generic_exit_counts_errors_of_other_syscalls() {
    let mut m = zero();
    handle_generic_sys_exit(&mut m, 63, -1);
    handle_generic_sys_exit(&mut m, 64, -1);
    assert_eq!(m.syscall_errors, 0);
    handle_generic_sys_exit(&mut m, 5, 0);
    assert_eq!(m.syscall_errors, 0);
    handle_generic_sys_exit(&mut m, 5, -2);
    assert_eq!(m.syscall_errors, 1);
    assert_eq!((m.read_ops, m.write_ops), (0, 0));
}

fn record_bytes(e: &ProcessLifecycleEvent) -> Vec<u8> {
    let mut b = Vec::new();
    b.extend_from_slice(&e.timestamp_ns.to_ne_bytes());
    b.extend_from_slice(&e.pid.to_ne_bytes());
    b.extend_from_slice(&e.ppid.to_ne_bytes());
    b.extend_from_slice(&e.uid.to_ne_bytes());
    b.extend_from_slice(&e.gid.to_ne_bytes());
    b.extend_from_slice(&e.exit_code.to_ne_bytes());
    b.push(e.event_kind);
    b.extend_from_slice(&e._pad);
    b.extend_from_slice(&e.comm);
    b
}

#[test]
fn event_kinds_are_one_and_two() {
    assert_eq!(event_kind::EXEC, 1);
    assert_eq!(event_kind::EXIT, 2);
}

#[test]
fn lifecycle_record_round_trips() {
    let mut e = event_with(event_kind::EXIT, comm_of(b"bash"));
    e.timestamp_ns = 0x0102_0304_0506_0708;
    e.pid = 0x1122_3344;
    e.ppid = 7;
    e.uid = 1000;
    e.gid = 100;
    e.exit_code = -3;
    e._pad = [9, 8, 7];
    let bytes = record_bytes(&e);
    assert_eq!(bytes.len(), LIFECYCLE_RECORD_LEN);
    let d = decode_lifecycle_event(&bytes).unwrap();
    assert_eq!(format!("{:?}", d), format!("{:?}", e));
    assert_eq!(d.kind(), Some(2));
    assert_eq!(d.comm_str(), "bash");
}

#[test]
fn lifecycle_record_of_wrong_length_is_dropped() {
    let bytes = record_bytes(&event_with(event_kind::EXEC, comm_of(b"sh")));
    assert!(decode_lifecycle_event(&bytes[..LIFECYCLE_RECORD_LEN - 1]).is_none());
    let mut longer = bytes.clone();
    longer.push(0);
    assert!(decode_lifecycle_event(&longer).is_none());
    assert!(decode_lifecycle_event(&[]).is_none());
    assert!(decode_lifecycle_event(&bytes).is_some());
}
