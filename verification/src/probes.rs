//! Decisions of the kernel-side tracepoint probes: the lifecycle record
//! written on `sched_process_exec` and `sched_process_exit`, and how the
//! per-process counters change when a syscall returns.

use vstd::prelude::*;
use crate::common::{known_kind, ProcessLifecycleEvent, ProcessMetrics, TASK_COMM_LEN};
use crate::event_kind;

verus! {

/// Syscall numbers that the generic syscall-exit probe leaves to the
/// dedicated `read` and `write` probes.
pub const EXCLUDED_SYSCALL_NUMS: [i64; 2] = [63, 64];

/// The upper half of a 64-bit value.
pub open spec fn high_half(x: u64) -> u32 {
    (x / 0x1_0000_0000) as u32
}

/// The lower half of a 64-bit value.
pub open spec fn low_half(x: u64) -> u32 {
    (x % 0x1_0000_0000) as u32
}

proof fn lemma_halves(x: u64)
    ensures
        (x >> 32u64) as u32 == high_half(x),
        x >> 32u64 == high_half(x),
        x as u32 == low_half(x),
{
    assert((x >> 32u64) == x / 0x1_0000_0000) by (bit_vector);
    assert(x / 0x1_0000_0000 < 0x1_0000_0000) by (nonlinear_arith);
    assert(x as u32 == x % 0x1_0000_0000) by (bit_vector);
}

/// The record written when a process image is executed. `pid_tgid` holds the
/// process id in its upper half; `uid_gid` holds the user id in its lower half
/// and the group id in its upper half.
pub open spec fn exec_record(
    timestamp_ns: u64,
    pid_tgid: u64,
    ppid: u32,
    uid_gid: u64,
    comm: [u8; TASK_COMM_LEN],
) -> ProcessLifecycleEvent {
    ProcessLifecycleEvent {
        timestamp_ns,
        pid: high_half(pid_tgid),
        ppid,
        uid: low_half(uid_gid),
        gid: high_half(uid_gid),
        exit_code: 0,
        event_kind: event_kind::EXEC,
        _pad: [0u8, 0u8, 0u8],
        comm,
    }
}

/// The record written when a process exits. `raw_exit` is the kernel's wait
/// status, whose exit code is the status shifted right by 8; the parent pid is
/// not read at exit and is 0.
pub open spec fn exit_record(
    timestamp_ns: u64,
    raw_exit: i32,
    pid_tgid: u64,
    uid_gid: u64,
    comm: [u8; TASK_COMM_LEN],
) -> ProcessLifecycleEvent {
    ProcessLifecycleEvent {
        timestamp_ns,
        pid: high_half(pid_tgid),
        ppid: 0,
        uid: low_half(uid_gid),
        gid: high_half(uid_gid),
        exit_code: raw_exit >> 8i32,
        event_kind: event_kind::EXIT,
        _pad: [0u8, 0u8, 0u8],
        comm,
    }
}

/// Builds the record written when a process image is executed.
pub fn exec_event(
    timestamp_ns: u64,
    pid_tgid: u64,
    ppid: u32,
    uid_gid: u64,
    comm: [u8; TASK_COMM_LEN],
) -> (res: ProcessLifecycleEvent)
    ensures
        res == exec_record(timestamp_ns, pid_tgid, ppid, uid_gid, comm),
        res._pad@ == seq![0u8, 0u8, 0u8],
        res.timestamp_ns == timestamp_ns,
        res.pid == pid_tgid >> 32u64,
        res.ppid == ppid,
        res.uid == uid_gid as u32,
        res.gid == uid_gid >> 32u64,
        res.exit_code == 0,
        res.event_kind == 1,
        res.comm == comm,
{
    proof {
        lemma_halves(pid_tgid);
        lemma_halves(uid_gid);
    }
    let res = ProcessLifecycleEvent {
        timestamp_ns,
        pid: (pid_tgid >> 32) as u32,
        ppid,
        uid: uid_gid as u32,
        gid: (uid_gid >> 32) as u32,
        exit_code: 0,
        event_kind: event_kind::EXEC,
        _pad: [0u8, 0u8, 0u8],
        comm,
    };
    assert(res._pad@ =~= seq![0u8, 0u8, 0u8]);
    res
}

/// Builds the record written when a process exits.
pub fn exit_event(
    timestamp_ns: u64,
    raw_exit: i32,
    pid_tgid: u64,
    uid_gid: u64,
    comm: [u8; TASK_COMM_LEN],
) -> (res: ProcessLifecycleEvent)
    ensures
        res == exit_record(timestamp_ns, raw_exit, pid_tgid, uid_gid, comm),
        res._pad@ == seq![0u8, 0u8, 0u8],
        res.timestamp_ns == timestamp_ns,
        res.pid == pid_tgid >> 32u64,
        res.ppid == 0,
        res.uid == uid_gid as u32,
        res.gid == uid_gid >> 32u64,
        res.exit_code == raw_exit >> 8i32,
        res.event_kind == 2,
        res.comm == comm,
{
    proof {
        lemma_halves(pid_tgid);
        lemma_halves(uid_gid);
    }
    let res = ProcessLifecycleEvent {
        timestamp_ns,
        pid: (pid_tgid >> 32) as u32,
        ppid: 0,
        uid: uid_gid as u32,
        gid: (uid_gid >> 32) as u32,
        exit_code: raw_exit >> 8,
        event_kind: event_kind::EXIT,
        _pad: [0u8, 0u8, 0u8],
        comm,
    };
    assert(res._pad@ =~= seq![0u8, 0u8, 0u8]);
    res
}

/// Every record the probes write has a known kind, and the two kinds are
/// told apart: exec records report `EXEC`, exit records `EXIT`.
pub proof fn lemma_probe_records_have_known_kind(
    timestamp_ns: u64,
    raw_exit: i32,
    pid_tgid: u64,
    ppid: u32,
    uid_gid: u64,
    comm: [u8; TASK_COMM_LEN],
)
    ensures
        known_kind(exec_record(timestamp_ns, pid_tgid, ppid, uid_gid, comm).event_kind) == Some(
            event_kind::EXEC,
        ),
        known_kind(exit_record(timestamp_ns, raw_exit, pid_tgid, uid_gid, comm).event_kind)
            == Some(event_kind::EXIT),
        event_kind::EXEC != event_kind::EXIT,
{
}

/// The records carry what the probe read: the timestamp and the task name it
/// was given, the process id from the upper half of `pid_tgid`, the user id
/// from the lower half of `uid_gid` and the group id from its upper half; an
/// exec record the parent pid it was given and exit code 0, kind 1; an exit
/// record parent pid 0 and the wait status shifted right by 8, kind 2.
pub proof fn lemma_records_carry_their_inputs(
    timestamp_ns: u64,
    raw_exit: i32,
    pid_tgid: u64,
    ppid: u32,
    uid_gid: u64,
    comm: [u8; TASK_COMM_LEN],
)
    ensures
        ({
            let e = exec_record(timestamp_ns, pid_tgid, ppid, uid_gid, comm);
            &&& e.timestamp_ns == timestamp_ns
            &&& e.pid == pid_tgid >> 32u64
            &&& e.ppid == ppid
            &&& e.uid == uid_gid as u32
            &&& e.gid == uid_gid >> 32u64
            &&& e.exit_code == 0
            &&& e.event_kind == 1
            &&& e.comm == comm
        }),
        ({
            let x = exit_record(timestamp_ns, raw_exit, pid_tgid, uid_gid, comm);
            &&& x.timestamp_ns == timestamp_ns
            &&& x.pid == pid_tgid >> 32u64
            &&& x.ppid == 0
            &&& x.uid == uid_gid as u32
            &&& x.gid == uid_gid >> 32u64
            &&& x.exit_code == raw_exit >> 8i32
            &&& x.event_kind == 2
            &&& x.comm == comm
        }),
{
    lemma_halves(pid_tgid);
    lemma_halves(uid_gid);
}

/// `x + y` wrapped to 64 bits, as the kernel-side counters wrap.
pub open spec fn wrapped_add(x: u64, y: u64) -> u64 {
    ((x + y) % 0x1_0000_0000_0000_0000) as u64
}

fn counter_add(x: u64, y: u64) -> (res: u64)
    ensures
        res == wrapped_add(x, y),
{
    x.wrapping_add(y)
}

/// The counters a freshly executed process starts with: all zero.
pub fn initial_process_metrics() -> (res: ProcessMetrics)
    ensures
        res == (ProcessMetrics {
            bytes_read: 0,
            bytes_written: 0,
            read_ops: 0,
            write_ops: 0,
            cpu_cycles_ns: 0,
            syscall_errors: 0,
        }),
{
    ProcessMetrics {
        bytes_read: 0,
        bytes_written: 0,
        read_ops: 0,
        write_ops: 0,
        cpu_cycles_ns: 0,
        syscall_errors: 0,
    }
}

/// A `read` syscall returned `ret`: a negative return counts one syscall
/// error; otherwise one read operation of `ret` bytes.
pub fn handle_sys_exit_read(metrics: &mut ProcessMetrics, ret: i64)
    ensures
        ret < 0 ==> *final(metrics) == (ProcessMetrics {
            syscall_errors: wrapped_add(old(metrics).syscall_errors, 1),
            ..*old(metrics)
        }),
        ret >= 0 ==> *final(metrics) == (ProcessMetrics {
            read_ops: wrapped_add(old(metrics).read_ops, 1),
            bytes_read: wrapped_add(old(metrics).bytes_read, ret as u64),
            ..*old(metrics)
        }),
{
    if ret < 0 {
        metrics.syscall_errors = counter_add(metrics.syscall_errors, 1);
    } else {
        metrics.read_ops = counter_add(metrics.read_ops, 1);
        metrics.bytes_read = counter_add(metrics.bytes_read, ret as u64);
    }
}

/// A `write` syscall returned `ret`: a negative return counts one syscall
/// error; otherwise one write operation of `ret` bytes.
pub fn handle_sys_exit_write(metrics: &mut ProcessMetrics, ret: i64)
    ensures
        ret < 0 ==> *final(metrics) == (ProcessMetrics {
            syscall_errors: wrapped_add(old(metrics).syscall_errors, 1),
            ..*old(metrics)
        }),
        ret >= 0 ==> *final(metrics) == (ProcessMetrics {
            write_ops: wrapped_add(old(metrics).write_ops, 1),
            bytes_written: wrapped_add(old(metrics).bytes_written, ret as u64),
            ..*old(metrics)
        }),
{
    if ret < 0 {
        metrics.syscall_errors = counter_add(metrics.syscall_errors, 1);
    } else {
        metrics.write_ops = counter_add(metrics.write_ops, 1);
        metrics.bytes_written = counter_add(metrics.bytes_written, ret as u64);
    }
}

/// Whether the generic probe leaves syscall `nr` to a dedicated probe.
pub open spec fn is_excluded_syscall(nr: i64) -> bool {
    nr == 63 || nr == 64
}

/// The generic probe leaves exactly `read` (63) and `write` (64) to their own
/// probes: a failing syscall of any other number counts one error, one more
/// than before unless the counter wraps.
pub proof fn lemma_only_read_and_write_are_excluded(nr: i64, errors: u64)
    ensures
        is_excluded_syscall(nr) <==> (nr == 63 || nr == 64),
        errors < u64::MAX ==> wrapped_add(errors, 1) == errors + 1,
        wrapped_add(u64::MAX, 1) == 0,
{
}

/// Any other syscall numbered `syscall_nr` returned `ret`: a negative return
/// counts one syscall error; reads and writes are left to their own probes.
pub fn handle_generic_sys_exit(metrics: &mut ProcessMetrics, syscall_nr: i64, ret: i64)
    ensures
        !is_excluded_syscall(syscall_nr) && ret < 0 ==> *final(metrics) == (ProcessMetrics {
            syscall_errors: wrapped_add(old(metrics).syscall_errors, 1),
            ..*old(metrics)
        }),
        is_excluded_syscall(syscall_nr) || ret >= 0 ==> *final(metrics) == *old(metrics),
        syscall_nr != 63 && syscall_nr != 64 && ret < 0 ==> final(metrics).syscall_errors
            == wrapped_add(old(metrics).syscall_errors, 1),
        syscall_nr != 63 && syscall_nr != 64 && ret < 0 && old(metrics).syscall_errors < u64::MAX
            ==> final(metrics).syscall_errors == old(metrics).syscall_errors + 1,
        syscall_nr == 63 || syscall_nr == 64 ==> *final(metrics) == *old(metrics),
{
    let excluded = EXCLUDED_SYSCALL_NUMS;
    if syscall_nr == excluded[0] || syscall_nr == excluded[1] {
        return;
    }
    if ret < 0 {
        metrics.syscall_errors = counter_add(metrics.syscall_errors, 1);
    }
}

} // verus!
