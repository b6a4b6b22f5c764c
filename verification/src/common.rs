//! Records shared between the kernel-side probes and user space.

use vstd::prelude::*;
use vstd::utf8::{decode_utf8, valid_utf8};
use vstd::endian::endianness;
use crate::event_kind;
use crate::text::str_from_utf8;

verus! {

/// Length of a Linux task name (`comm`), in bytes.
pub const TASK_COMM_LEN: usize = 16;

/// One process lifecycle event as written by the kernel-side probes.
#[derive(Clone, Copy, Debug)]
pub struct ProcessLifecycleEvent {
    pub timestamp_ns: u64,
    pub pid: u32,
    pub ppid: u32,
    pub uid: u32,
    pub gid: u32,
    /// Only meaningful for exit events.
    pub exit_code: i32,
    /// The kind of event: 1 = exec (`event_kind::EXEC`), 2 = exit (`event_kind::EXIT`).
    pub event_kind: u8,
    /// Padding that keeps the record 8-byte aligned.
    pub _pad: [u8; 3],
    /// NUL-terminated task name.
    pub comm: [u8; TASK_COMM_LEN],
}

/// Per-process I/O and syscall counters kept by the kernel-side probes.
#[derive(Clone, Copy, Debug)]
pub struct ProcessMetrics {
    pub bytes_read: u64,
    pub bytes_written: u64,
    pub read_ops: u64,
    pub write_ops: u64,
    pub cpu_cycles_ns: u64,
    pub syscall_errors: u64,
}

/// Index of the first NUL byte of `s` at or after `i`, or `s.len()` when there is none.
pub open spec fn nul_index_from(s: Seq<u8>, i: int) -> int
    decreases s.len() - i,
{
    if i >= s.len() {
        s.len() as int
    } else if s[i] == 0 {
        i
    } else {
        nul_index_from(s, i + 1)
    }
}

/// The bytes of a task name before its first NUL (all of them when there is none).
pub open spec fn comm_name_bytes(comm: Seq<u8>) -> Seq<u8> {
    comm.take(nul_index_from(comm, 0))
}

/// `Some(k)` when `k` is one of the known event kinds, `None` otherwise.
pub open spec fn known_kind(k: u8) -> Option<u8> {
    if k == event_kind::EXEC || k == event_kind::EXIT {
        Some(k)
    } else {
        None
    }
}

impl ProcessLifecycleEvent {
    /// The event kind, when it is one of the known kinds.
    pub fn kind(&self) -> (res: Option<u8>)
        ensures
            res == known_kind(self.event_kind),
    {
        if self.event_kind == event_kind::EXEC || self.event_kind == event_kind::EXIT {
            Some(self.event_kind)
        } else {
            None
        }
    }

    /// The task name up to its first NUL byte, or `"?"` when those bytes are not valid UTF-8.
    pub fn comm_str(&self) -> (res: &str)
        ensures
            valid_utf8(comm_name_bytes(self.comm@)) ==> res@ == decode_utf8(comm_name_bytes(self.comm@)),
            !valid_utf8(comm_name_bytes(self.comm@)) ==> res@ == "?"@,
    {
        let comm: &[u8] = self.comm.as_slice();
        let mut end: usize = 0;
        while end < TASK_COMM_LEN && comm[end] != 0
            invariant
                comm@ == self.comm@,
                comm@.len() == TASK_COMM_LEN,
                0 <= end <= TASK_COMM_LEN,
                nul_index_from(comm@, end as int) == nul_index_from(comm@, 0),
            decreases TASK_COMM_LEN - end,
        {
            end = end + 1;
        }
        let name = vstd::slice::slice_subrange(comm, 0, end);
        assert(name@ == comm_name_bytes(self.comm@));
        match str_from_utf8(name) {
            Some(s) => s,
            None => "?",
        }
    }
}

/// Length in bytes of a lifecycle event as the probes write it into the ring
/// buffer: `timestamp_ns` at 0, `pid` at 8, `ppid` at 12, `uid` at 16, `gid`
/// at 20, `exit_code` at 24, `event_kind` at 28, `_pad` at 29 and `comm` at 32.
pub const LIFECYCLE_RECORD_LEN: usize = 48;

/// The unsigned number whose little-endian bytes are `s`.
pub open spec fn le_value(s: Seq<u8>) -> nat
    decreases s.len(),
{
    if s.len() == 0 {
        0
    } else {
        s[0] as nat + 256 * le_value(s.drop_first())
    }
}

/// The unsigned number whose bytes are `s`, little-endian when `little` holds
/// and big-endian otherwise.
pub open spec fn ordered_value(s: Seq<u8>, little: bool) -> nat {
    if little {
        le_value(s)
    } else {
        le_value(s.reverse())
    }
}

/// `v` is the number that the bytes `s` hold in the machine's byte order,
/// which is either little-endian or big-endian.
pub open spec fn native_value(s: Seq<u8>, v: int) -> bool {
    v == ordered_value(s, true) || v == ordered_value(s, false)
}

/// Whether `e` is the lifecycle event that the record `b` holds, every number
/// read in one and the same byte order: little-endian when `little` holds,
/// big-endian otherwise.
pub open spec fn decodes_lifecycle_record(b: Seq<u8>, e: ProcessLifecycleEvent, little: bool) -> bool {
    &&& e.timestamp_ns == ordered_value(b.subrange(0, 8), little)
    &&& e.pid == ordered_value(b.subrange(8, 12), little)
    &&& e.ppid == ordered_value(b.subrange(12, 16), little)
    &&& e.uid == ordered_value(b.subrange(16, 20), little)
    &&& e.gid == ordered_value(b.subrange(20, 24), little)
    &&& e.exit_code as u32 == ordered_value(b.subrange(24, 28), little)
    &&& e.event_kind == b[28]
    &&& e._pad@ == b.subrange(29, 32)
    &&& e.comm@ == b.subrange(32, 48)
}

/// Whether `e` is the lifecycle event that the record `b` holds, every number
/// read in one byte order (the machine's, which is not named here).
pub open spec fn holds_lifecycle_event(b: Seq<u8>, e: ProcessLifecycleEvent) -> bool {
    exists|little: bool| decodes_lifecycle_record(b, e, little)
}

/// `256` to the power `k`.
pub open spec fn pow256(k: nat) -> nat
    decreases k,
{
    if k == 0 {
        1
    } else {
        256 * pow256((k - 1) as nat)
    }
}

proof fn lemma_pow256_up_to_eight(k: nat)
    requires
        k <= 8,
    ensures
        pow256(k) <= pow256(8),
        pow256(4) == 0x1_0000_0000,
        pow256(8) == 0x1_0000_0000_0000_0000,
    decreases 8 - k,
{
    reveal_with_fuel(pow256, 9);
    if k < 8 {
        lemma_pow256_up_to_eight(k + 1);
    }
}

/// Whether the machine this runs on stores numbers little-endian (vstd's
/// `endianness()`, the byte order of the executing hardware).
pub open spec fn native_little_endian() -> bool {
    endianness() is Little
}

/// `u16::from_ne_bytes`: the number whose bytes, in the machine's byte order,
/// are `a`. That order is the executing hardware's, vstd's `endianness()`;
/// which of the two it is is not stated.
#[verifier::external_body]
fn u16_from_ne_bytes(a: [u8; 2]) -> (v: u16)
    ensures
        native_value(a@, v as int),
        v == ordered_value(a@, native_little_endian()),
{
    u16::from_ne_bytes(a)
}

/// Whether this machine stores numbers little-endian: the bytes `[1, 0]` read
/// in its byte order give 1.
fn machine_is_little_endian() -> (little: bool)
    ensures
        little == native_little_endian(),
{
    let one: [u8; 2] = [1, 0];
    let v = u16_from_ne_bytes(one);
    proof {
        reveal_with_fuel(le_value, 3);
        assert(one@ =~= seq![1u8, 0u8]);
        assert(one@.drop_first() =~= seq![0u8]);
        assert(one@.drop_first().drop_first() =~= Seq::<u8>::empty());
        let r = one@.reverse();
        assert(r =~= seq![0u8, 1u8]);
        assert(r.drop_first() =~= seq![1u8]);
        assert(r.drop_first().drop_first() =~= Seq::<u8>::empty());
        assert(le_value(one@) == 1);
        assert(le_value(r) == 256);
    }
    v == 1
}

/// The `len` bytes of the number `n`, least significant first.
pub open spec fn le_bytes(n: nat, len: nat) -> Seq<u8>
    decreases len,
{
    if len == 0 {
        Seq::empty()
    } else {
        seq![(n % 256) as u8] + le_bytes(n / 256, (len - 1) as nat)
    }
}

/// The `len` bytes of the number `n`, little-endian when `little` holds and
/// big-endian otherwise.
pub open spec fn ordered_bytes(n: nat, len: nat, little: bool) -> Seq<u8> {
    if little {
        le_bytes(n, len)
    } else {
        le_bytes(n, len).reverse()
    }
}

/// The 48 bytes in which the probes write the event `e`, every number
/// little-endian when `little` holds and big-endian otherwise.
pub open spec fn lifecycle_record_bytes(e: ProcessLifecycleEvent, little: bool) -> Seq<u8> {
    ordered_bytes(e.timestamp_ns as nat, 8, little) + ordered_bytes(e.pid as nat, 4, little)
        + ordered_bytes(e.ppid as nat, 4, little) + ordered_bytes(e.uid as nat, 4, little)
        + ordered_bytes(e.gid as nat, 4, little) + ordered_bytes(
        (e.exit_code as u32) as nat,
        4,
        little,
    ) + seq![e.event_kind] + e._pad@ + e.comm@
}

proof fn lemma_le_bytes_value(n: nat, len: nat)
    requires
        n < pow256(len),
    ensures
        le_bytes(n, len).len() == len,
        le_value(le_bytes(n, len)) == n,
    decreases len,
{
    if len > 0 {
        lemma_le_bytes_value(n / 256, (len - 1) as nat);
        let t = le_bytes(n, len);
        assert(t.drop_first() =~= le_bytes(n / 256, (len - 1) as nat));
    }
}

proof fn lemma_ordered_bytes_value(n: nat, len: nat, little: bool)
    requires
        n < pow256(len),
    ensures
        ordered_bytes(n, len, little).len() == len,
        ordered_value(ordered_bytes(n, len, little), little) == n,
{
    lemma_le_bytes_value(n, len);
    assert(le_bytes(n, len).reverse().reverse() =~= le_bytes(n, len));
}

/// Decoding is the inverse of the probes' encoding: reading back the record in
/// which an event was written, in the same byte order, gives that event and no
/// other. Every record is 48 bytes long.
pub proof fn lemma_decoding_inverts_encoding(e: ProcessLifecycleEvent, little: bool, d: ProcessLifecycleEvent)
    requires
        decodes_lifecycle_record(lifecycle_record_bytes(e, little), d, little),
    ensures
        d == e,
        lifecycle_record_bytes(e, little).len() == LIFECYCLE_RECORD_LEN,
{
    lemma_record_bytes_read_back(e, little);
    let exit = d.exit_code;
    let exit2 = e.exit_code;
    assert(exit == exit2) by (bit_vector)
        requires
            exit as u32 == exit2 as u32,
    ;
    assert(d._pad =~= e._pad);
    assert(d.comm =~= e.comm);
}

/// The record in which an event is written is 48 bytes long and decodes to
/// that event.
pub proof fn lemma_record_bytes_read_back(e: ProcessLifecycleEvent, little: bool)
    ensures
        lifecycle_record_bytes(e, little).len() == LIFECYCLE_RECORD_LEN,
        decodes_lifecycle_record(lifecycle_record_bytes(e, little), e, little),
{
    lemma_pow256_up_to_eight(4);
    let t = ordered_bytes(e.timestamp_ns as nat, 8, little);
    let p = ordered_bytes(e.pid as nat, 4, little);
    let pp = ordered_bytes(e.ppid as nat, 4, little);
    let u = ordered_bytes(e.uid as nat, 4, little);
    let g = ordered_bytes(e.gid as nat, 4, little);
    let x = ordered_bytes((e.exit_code as u32) as nat, 4, little);
    lemma_ordered_bytes_value(e.timestamp_ns as nat, 8, little);
    lemma_ordered_bytes_value(e.pid as nat, 4, little);
    lemma_ordered_bytes_value(e.ppid as nat, 4, little);
    lemma_ordered_bytes_value(e.uid as nat, 4, little);
    lemma_ordered_bytes_value(e.gid as nat, 4, little);
    lemma_ordered_bytes_value((e.exit_code as u32) as nat, 4, little);
    let b = lifecycle_record_bytes(e, little);
    assert(b.len() == 48);
    assert(b.subrange(0, 8) =~= t);
    assert(b.subrange(8, 12) =~= p);
    assert(b.subrange(12, 16) =~= pp);
    assert(b.subrange(16, 20) =~= u);
    assert(b.subrange(20, 24) =~= g);
    assert(b.subrange(24, 28) =~= x);
    assert(b[28] == e.event_kind);
    assert(b.subrange(29, 32) =~= e._pad@);
    assert(b.subrange(32, 48) =~= e.comm@);
}

/// The number held by the `len` bytes of `b` from `start`, little-endian when
/// `little` holds and big-endian otherwise.
fn read_number(b: &[u8], start: usize, len: usize, little: bool) -> (v: u64)
    requires
        start + len <= b@.len(),
        len <= 8,
    ensures
        v as nat == ordered_value(b@.subrange(start as int, start + len), little),
        (v as nat) < pow256(len as nat),
{
    let n = b.len();
    let end = start + len;
    let mut v: u64 = 0;
    let mut k: usize = 0;
    while k < len
        invariant
            k <= len <= 8,
            end == start + len,
            end <= b@.len(),
            little ==> v as nat == le_value(b@.subrange(end - k, end as int)),
            !little ==> v as nat == le_value(b@.subrange(start as int, start + k).reverse()),
            (v as nat) < pow256(k as nat),
        decreases len - k,
    {
        proof {
            lemma_pow256_up_to_eight((k + 1) as nat);
        }
        let j: usize = if little {
            end - k - 1
        } else {
            start + k
        };
        let byte = b[j];
        proof {
            if little {
                let t = b@.subrange(end - k - 1, end as int);
                assert(t.drop_first() =~= b@.subrange(end - k, end as int));
                assert(le_value(t) == byte as nat + 256 * (v as nat));
            } else {
                let t = b@.subrange(start as int, start + k + 1);
                assert(t.reverse().drop_first() =~= b@.subrange(start as int, start + k).reverse());
                assert(t.reverse()[0] == byte);
                assert(le_value(t.reverse()) == byte as nat + 256 * (v as nat));
            }
        }
        v = 256 * v + byte as u64;
        k = k + 1;
    }
    proof {
        if little {
            assert(b@.subrange(end - k, end as int) =~= b@.subrange(start as int, end as int));
        }
    }
    v
}

/// The lifecycle event held by one ring-buffer record, or `None` when the
/// record does not have the length of one (such a record is dropped). Every
/// number in the record is read in one byte order, the machine's.
pub fn decode_lifecycle_event(bytes: &[u8]) -> (res: Option<ProcessLifecycleEvent>)
    ensures
        res is Some <==> bytes@.len() == LIFECYCLE_RECORD_LEN,
        res matches Some(e) ==> holds_lifecycle_event(bytes@, e),
        res matches Some(e) ==> decodes_lifecycle_record(bytes@, e, native_little_endian()),
        forall|e: ProcessLifecycleEvent|
            bytes@ == #[trigger] lifecycle_record_bytes(e, native_little_endian()) ==> res == Some(e),
{
    if bytes.len() != LIFECYCLE_RECORD_LEN {
        proof {
            assert forall|e: ProcessLifecycleEvent|
                bytes@ == #[trigger] lifecycle_record_bytes(e, native_little_endian()) implies false by {
                lemma_record_bytes_read_back(e, native_little_endian());
            }
        }
        return None;
    }
    let little = machine_is_little_endian();
    proof {
        lemma_pow256_up_to_eight(0);
    }
    let timestamp_ns = read_number(bytes, 0, 8, little);
    let pid = read_number(bytes, 8, 4, little) as u32;
    let ppid = read_number(bytes, 12, 4, little) as u32;
    let uid = read_number(bytes, 16, 4, little) as u32;
    let gid = read_number(bytes, 20, 4, little) as u32;
    let raw_exit = read_number(bytes, 24, 4, little) as u32;
    let exit_code = raw_exit as i32;
    assert((exit_code as u32) == raw_exit) by (bit_vector)
        requires
            exit_code == raw_exit as i32,
    ;
    let pad: [u8; 3] = [bytes[29], bytes[30], bytes[31]];
    let comm: [u8; TASK_COMM_LEN] = [
        bytes[32], bytes[33], bytes[34], bytes[35], bytes[36], bytes[37], bytes[38], bytes[39],
        bytes[40], bytes[41], bytes[42], bytes[43], bytes[44], bytes[45], bytes[46], bytes[47],
    ];
    assert(pad@ =~= bytes@.subrange(29, 32));
    assert(comm@ =~= bytes@.subrange(32, 48));
    let e = ProcessLifecycleEvent {
        timestamp_ns,
        pid,
        ppid,
        uid,
        gid,
        exit_code,
        event_kind: bytes[28],
        _pad: pad,
        comm,
    };
    assert(decodes_lifecycle_record(bytes@, e, little));
    assert(holds_lifecycle_event(bytes@, e));
    assert forall|e2: ProcessLifecycleEvent|
        bytes@ == #[trigger] lifecycle_record_bytes(e2, native_little_endian()) implies Some(e) == Some(e2) by {
        lemma_decoding_inverts_encoding(e2, little, e);
    }
    Some(e)
}

} // verus!
