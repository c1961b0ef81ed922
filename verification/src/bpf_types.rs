//! Rust mirrors of the records that the kernel-side programs write: the
//! ring-buffer event record and the values of the per-process I/O and
//! per-flow maps. The ring-buffer record is decoded field by field from its
//! raw bytes, following the C layout of the kernel-side struct.

use vstd::prelude::*;
use vstd::slice::slice_subrange;
use vstd::utf8::{decode_utf8, valid_utf8};

verus! {

// Event type ids, as the kernel-side programs number them.
pub const EVENT_TYPE_SYSCALL: u32 = 1;
pub const EVENT_TYPE_FILE_OPEN: u32 = 2;
pub const EVENT_TYPE_NET_CONN: u32 = 3;
pub const EVENT_TYPE_PROCESS: u32 = 4;
pub const EVENT_TYPE_FILE_READ: u32 = 5;
pub const EVENT_TYPE_FILE_WRITE: u32 = 6;
pub const EVENT_TYPE_FILE_CLOSE: u32 = 7;
pub const EVENT_TYPE_CHROOT: u32 = 8;
pub const EVENT_TYPE_PIVOT_ROOT: u32 = 9;
pub const EVENT_TYPE_SETNS: u32 = 10;
pub const EVENT_TYPE_UNSHARE: u32 = 11;
pub const EVENT_TYPE_WAIT4: u32 = 12;
pub const EVENT_TYPE_MMAP: u32 = 13;
pub const EVENT_TYPE_MUNMAP: u32 = 14;
pub const EVENT_TYPE_MPROTECT: u32 = 15;
pub const EVENT_TYPE_BRK: u32 = 16;
pub const EVENT_TYPE_ACCEPT: u32 = 17;
pub const EVENT_TYPE_BIND: u32 = 18;
pub const EVENT_TYPE_SENDTO: u32 = 19;
pub const EVENT_TYPE_RECVFROM: u32 = 20;
pub const EVENT_TYPE_UNLINKAT: u32 = 21;
pub const EVENT_TYPE_RENAME: u32 = 22;
pub const EVENT_TYPE_FUTEX: u32 = 23;
pub const EVENT_TYPE_EPOLL_WAIT: u32 = 24;
pub const EVENT_TYPE_SELECT: u32 = 25;
pub const EVENT_TYPE_POLL: u32 = 26;
pub const EVENT_TYPE_PTRACE: u32 = 27;
pub const EVENT_TYPE_BPF: u32 = 28;
pub const EVENT_TYPE_CAPSET: u32 = 29;
pub const EVENT_TYPE_NET_ACCEPT: u32 = 30;

// Trace flags stored as the values of the `target_pids` map.
pub const TRACE_FLAG_METRICS: u8 = 1;
pub const TRACE_FLAG_EVENTS: u8 = 2;
pub const TRACE_FLAG_ALL: u8 = 3;

#[derive(Copy, Clone, Debug)]
pub struct SyscallPayload {
    pub syscall_id: u32,
}

#[derive(Copy, Clone, Debug)]
pub struct FilePayload {
    pub filename: [u8; 256],
    pub flags: i32,
}

#[derive(Copy, Clone, Debug)]
pub struct NetPayload {
    pub saddr: u32,
    pub daddr: u32,
    pub sport: u16,
    pub dport: u16,
    pub family: u16,
}

#[derive(Copy, Clone, Debug)]
pub struct ProcessPayload {
    pub child_pid: u32,
    pub exit_code: i32,
    pub comm: [u8; 16],
    pub is_exit: u8,
    pub is_exec: u8,
    pub is_fork: u8,
    pub arg_count: u8,
    pub filename: [u8; 256],
    pub args: [[u8; 64]; 6],
}

#[derive(Copy, Clone, Debug)]
pub struct RwPayload {
    pub fd: u32,
    pub count: u64,
    pub data: [u8; 256],
}

#[derive(Copy, Clone, Debug)]
pub struct ClosePayload {
    pub fd: u32,
}

#[derive(Copy, Clone, Debug)]
pub struct IsolatePayload {
    /// chroot path / pivot_root new root.
    pub path1: [u8; 256],
    /// pivot_root old root.
    pub path2: [u8; 256],
    /// setns fd / unshare flags.
    pub val1: u32,
    /// setns namespace type.
    pub val2: i32,
}

#[derive(Copy, Clone, Debug)]
pub struct Wait4Payload {
    pub pid: u32,
    pub options: i32,
}

#[derive(Copy, Clone, Debug)]
pub struct MmapPayload {
    pub addr: u64,
    pub len: u64,
    pub prot: i32,
    pub flags: i32,
    pub fd: i32,
    pub off: u64,
}

#[derive(Copy, Clone, Debug)]
pub struct MunmapPayload {
    pub addr: u64,
    pub len: u64,
}

#[derive(Copy, Clone, Debug)]
pub struct MprotectPayload {
    pub start: u64,
    pub len: u64,
    pub prot: i32,
}

#[derive(Copy, Clone, Debug)]
pub struct BrkPayload {
    pub brk: u64,
}

#[derive(Copy, Clone, Debug)]
pub struct AcceptPayload {
    pub fd: i32,
}

#[derive(Copy, Clone, Debug)]
pub struct BindPayload {
    pub fd: i32,
}

#[derive(Copy, Clone, Debug)]
pub struct NetRwPayload {
    pub fd: i32,
    pub len: u64,
}

#[derive(Copy, Clone, Debug)]
pub struct UnlinkatPayload {
    pub dfd: i32,
    pub pathname: [u8; 256],
}

#[derive(Copy, Clone, Debug)]
pub struct RenamePayload {
    pub oldname: [u8; 256],
    pub newname: [u8; 256],
}

#[derive(Copy, Clone, Debug)]
pub struct FutexPayload {
    pub uaddr: u64,
    pub op: i32,
    pub val: u32,
}

#[derive(Copy, Clone, Debug)]
pub struct EpollWaitPayload {
    pub epfd: i32,
    pub maxevents: i32,
}

#[derive(Copy, Clone, Debug)]
pub struct SelectPollPayload {
    pub nfds: i32,
}

#[derive(Copy, Clone, Debug)]
pub struct PtracePayload {
    pub request: i64,
    pub target_pid: u32,
}

#[derive(Copy, Clone, Debug)]
pub struct BpfPayload {
    pub cmd: i32,
}

#[derive(Copy, Clone, Debug)]
pub struct CapsetPayload {
    pub target_pid: u32,
}

/// The flat ring-buffer record: a header and one payload per event type;
/// `type` says which payload holds the event.
#[derive(Copy, Clone, Debug)]
pub struct EventT {
    pub pid: u32,
    pub tgid: u32,
    pub event_type: u32,
    pub ts: u64,
    pub syscall: SyscallPayload,
    pub file: FilePayload,
    pub net: NetPayload,
    pub process: ProcessPayload,
    pub rw: RwPayload,
    pub close: ClosePayload,
    pub isolate: IsolatePayload,
    pub wait4: Wait4Payload,
    pub mmap: MmapPayload,
    pub munmap: MunmapPayload,
    pub mprotect: MprotectPayload,
    pub brk: BrkPayload,
    pub accept: AcceptPayload,
    pub bind: BindPayload,
    pub net_rw: NetRwPayload,
    pub unlinkat: UnlinkatPayload,
    pub rename: RenamePayload,
    pub futex: FutexPayload,
    pub epoll_wait: EpollWaitPayload,
    pub select_poll: SelectPollPayload,
    pub ptrace: PtracePayload,
    pub bpf: BpfPayload,
    pub capset: CapsetPayload,
}

/// Cumulative per-process byte counters (the `process_io_stats` map value).
#[derive(Copy, Clone, Debug, PartialEq, Eq, Structural)]
pub struct IoStat {
    pub file_read_bytes: u64,
    pub file_write_bytes: u64,
    pub net_rx_bytes: u64,
    pub net_tx_bytes: u64,
}

impl Default for IoStat {
    fn default() -> (r: Self)
        ensures
            r == (IoStat { file_read_bytes: 0, file_write_bytes: 0, net_rx_bytes: 0, net_tx_bytes: 0 }),
    {
        IoStat { file_read_bytes: 0, file_write_bytes: 0, net_rx_bytes: 0, net_tx_bytes: 0 }
    }
}

/// Key of the per-flow map: the owning process and the flow's endpoints.
#[derive(Copy, Clone, Debug, PartialEq, Eq, Structural, Hash)]
pub struct NetFlowKey {
    pub pid: u32,
    pub saddr: u32,
    pub daddr: u32,
    pub sport: u16,
    pub dport: u16,
    pub family: u16,
    pub protocol: u16,
}

/// Cumulative per-flow counters.
#[derive(Copy, Clone, Debug, PartialEq, Eq, Structural)]
pub struct NetFlowStat {
    pub rx_bytes: u64,
    pub tx_bytes: u64,
    pub rx_packets: u64,
    pub tx_packets: u64,
}

} // verus!

verus! {

/// Size in bytes of the ring-buffer record, with the C layout's padding.
pub const EVENT_T_SIZE: usize = 2728;

/// Little-endian `u16` at byte offset `o` of `b`.
pub open spec fn le_u16(b: Seq<u8>, o: int) -> u16 {
    (b[o] as int + b[o + 1] as int * 0x100) as u16
}

/// Little-endian `u32` at byte offset `o` of `b`.
pub open spec fn le_u32(b: Seq<u8>, o: int) -> u32 {
    (b[o] as int + b[o + 1] as int * 0x100 + b[o + 2] as int * 0x1_0000 + b[o + 3] as int
        * 0x100_0000) as u32
}

/// Little-endian `u64` at byte offset `o` of `b`.
pub open spec fn le_u64(b: Seq<u8>, o: int) -> u64 {
    (le_u32(b, o) as int + le_u32(b, o + 4) as int * 0x1_0000_0000) as u64
}

/// The bytes `b[o..o + n]`.
pub open spec fn bytes_at(b: Seq<u8>, o: int, n: int) -> Seq<u8> {
    b.subrange(o, o + n)
}

fn read_u16(b: &[u8], o: usize) -> (r: u16)
    requires
        o + 2 <= b.len(),
    ensures
        r == le_u16(b@, o as int),
{
    (b[o] as u16) + (b[o + 1] as u16) * 0x100
}

fn read_u32(b: &[u8], o: usize) -> (r: u32)
    requires
        o + 4 <= b.len(),
    ensures
        r == le_u32(b@, o as int),
{
    (b[o] as u32) + (b[o + 1] as u32) * 0x100 + (b[o + 2] as u32) * 0x1_0000 + (b[o + 3] as u32)
        * 0x100_0000
}

fn read_u64(b: &[u8], o: usize) -> (r: u64)
    requires
        o + 8 <= b.len(),
    ensures
        r == le_u64(b@, o as int),
{
    (read_u32(b, o) as u64) + (read_u32(b, o + 4) as u64) * 0x1_0000_0000
}

fn read_i32(b: &[u8], o: usize) -> (r: i32)
    requires
        o + 4 <= b.len(),
    ensures
        r == le_u32(b@, o as int) as i32,
{
    read_u32(b, o) as i32
}

fn read_i64(b: &[u8], o: usize) -> (r: i64)
    requires
        o + 8 <= b.len(),
    ensures
        r == le_u64(b@, o as int) as i64,
{
    read_u64(b, o) as i64
}

fn copy_16(b: &[u8], o: usize) -> (a: [u8; 16])
    requires
        o + 16 <= b.len(),
    ensures
        a@ == bytes_at(b@, o as int, 16),
{
    let mut a = [0u8; 16];
    let mut i: usize = 0;
    while i < 16
        invariant
            i <= 16,
            o + 16 <= b.len(),
            forall|k: int| 0 <= k < i ==> a@[k] == b@[o + k],
        decreases 16 - i,
    {
        a[i] = b[o + i];
        i = i + 1;
    }
    assert(a@ =~= bytes_at(b@, o as int, 16));
    a
}

fn copy_64(b: &[u8], o: usize) -> (a: [u8; 64])
    requires
        o + 64 <= b.len(),
    ensures
        a@ == bytes_at(b@, o as int, 64),
{
    let mut a = [0u8; 64];
    let mut i: usize = 0;
    while i < 64
        invariant
            i <= 64,
            o + 64 <= b.len(),
            forall|k: int| 0 <= k < i ==> a@[k] == b@[o + k],
        decreases 64 - i,
    {
        a[i] = b[o + i];
        i = i + 1;
    }
    assert(a@ =~= bytes_at(b@, o as int, 64));
    a
}

fn copy_256(b: &[u8], o: usize) -> (a: [u8; 256])
    requires
        o + 256 <= b.len(),
    ensures
        a@ == bytes_at(b@, o as int, 256),
{
    let mut a = [0u8; 256];
    let mut i: usize = 0;
    while i < 256
        invariant
            i <= 256,
            o + 256 <= b.len(),
            forall|k: int| 0 <= k < i ==> a@[k] == b@[o + k],
        decreases 256 - i,
    {
        a[i] = b[o + i];
        i = i + 1;
    }
    assert(a@ =~= bytes_at(b@, o as int, 256));
    a
}

/// The six argument slots of a process record, starting at byte `o`.
pub open spec fn args_decoded(b: Seq<u8>, o: int, args: [[u8; 64]; 6]) -> bool {
    forall|k: int| 0 <= k < 6 ==> (#[trigger] args@[k])@ == bytes_at(b, o + 64 * k, 64)
}

fn copy_args(b: &[u8], o: usize) -> (a: [[u8; 64]; 6])
    requires
        o + 384 <= b.len(),
    ensures
        args_decoded(b@, o as int, a),
{
    let mut a = [[0u8; 64]; 6];
    let mut i: usize = 0;
    while i < 6
        invariant
            i <= 6,
            o + 384 <= b.len(),
            forall|k: int| 0 <= k < i ==> (#[trigger] a@[k])@ == bytes_at(b@, o + 64 * k, 64),
        decreases 6 - i,
    {
        a[i] = copy_64(b, o + 64 * i);
        i = i + 1;
    }
    a
}

/// `e` is the record whose C layout the bytes `b` hold: each field is read
/// little-endian at its offset (both supported targets, x86_64 and aarch64,
/// are little-endian).
pub open spec fn event_decoded(b: Seq<u8>, e: EventT) -> bool {
    &&& e.pid == le_u32(b, 0)
    &&& e.tgid == le_u32(b, 4)
    &&& e.event_type == le_u32(b, 8)
    &&& e.ts == le_u64(b, 16)
    &&& e.syscall.syscall_id == le_u32(b, 24)
    &&& e.file.filename@ == bytes_at(b, 28, 256)
    &&& e.file.flags == le_u32(b, 284) as i32
    &&& e.net.saddr == le_u32(b, 288)
    &&& e.net.daddr == le_u32(b, 292)
    &&& e.net.sport == le_u16(b, 296)
    &&& e.net.dport == le_u16(b, 298)
    &&& e.net.family == le_u16(b, 300)
    &&& e.process.child_pid == le_u32(b, 304)
    &&& e.process.exit_code == le_u32(b, 308) as i32
    &&& e.process.comm@ == bytes_at(b, 312, 16)
    &&& e.process.is_exit == b[328]
    &&& e.process.is_exec == b[329]
    &&& e.process.is_fork == b[330]
    &&& e.process.arg_count == b[331]
    &&& e.process.filename@ == bytes_at(b, 332, 256)
    &&& args_decoded(b, 588, e.process.args)
    &&& e.rw.fd == le_u32(b, 976)
    &&& e.rw.count == le_u64(b, 984)
    &&& e.rw.data@ == bytes_at(b, 992, 256)
    &&& e.close.fd == le_u32(b, 1248)
    &&& e.isolate.path1@ == bytes_at(b, 1252, 256)
    &&& e.isolate.path2@ == bytes_at(b, 1508, 256)
    &&& e.isolate.val1 == le_u32(b, 1764)
    &&& e.isolate.val2 == le_u32(b, 1768) as i32
    &&& e.wait4.pid == le_u32(b, 1772)
    &&& e.wait4.options == le_u32(b, 1776) as i32
    &&& e.mmap.addr == le_u64(b, 1784)
    &&& e.mmap.len == le_u64(b, 1792)
    &&& e.mmap.prot == le_u32(b, 1800) as i32
    &&& e.mmap.flags == le_u32(b, 1804) as i32
    &&& e.mmap.fd == le_u32(b, 1808) as i32
    &&& e.mmap.off == le_u64(b, 1816)
    &&& e.munmap.addr == le_u64(b, 1824)
    &&& e.munmap.len == le_u64(b, 1832)
    &&& e.mprotect.start == le_u64(b, 1840)
    &&& e.mprotect.len == le_u64(b, 1848)
    &&& e.mprotect.prot == le_u32(b, 1856) as i32
    &&& e.brk.brk == le_u64(b, 1864)
    &&& e.accept.fd == le_u32(b, 1872) as i32
    &&& e.bind.fd == le_u32(b, 1876) as i32
    &&& e.net_rw.fd == le_u32(b, 1880) as i32
    &&& e.net_rw.len == le_u64(b, 1888)
    &&& e.unlinkat.dfd == le_u32(b, 1896) as i32
    &&& e.unlinkat.pathname@ == bytes_at(b, 1900, 256)
    &&& e.rename.oldname@ == bytes_at(b, 2156, 256)
    &&& e.rename.newname@ == bytes_at(b, 2412, 256)
    &&& e.futex.uaddr == le_u64(b, 2672)
    &&& e.futex.op == le_u32(b, 2680) as i32
    &&& e.futex.val == le_u32(b, 2684)
    &&& e.epoll_wait.epfd == le_u32(b, 2688) as i32
    &&& e.epoll_wait.maxevents == le_u32(b, 2692) as i32
    &&& e.select_poll.nfds == le_u32(b, 2696) as i32
    &&& e.ptrace.request == le_u64(b, 2704) as i64
    &&& e.ptrace.target_pid == le_u32(b, 2712)
    &&& e.bpf.cmd == le_u32(b, 2720) as i32
    &&& e.capset.target_pid == le_u32(b, 2724)
}

/// Reads a ring-buffer sample as an `EventT`. The sample must hold at least
/// `EVENT_T_SIZE` bytes; padding bytes are never read.
pub fn event_from_bytes(buf: &[u8]) -> (e: EventT)
    requires
        buf@.len() >= EVENT_T_SIZE,
    ensures
        event_decoded(buf@, e),
{
    let b = buf;
    EventT {
        pid: read_u32(b, 0),
        tgid: read_u32(b, 4),
        event_type: read_u32(b, 8),
        ts: read_u64(b, 16),
        syscall: SyscallPayload { syscall_id: read_u32(b, 24) },
        file: FilePayload { filename: copy_256(b, 28), flags: read_i32(b, 284) },
        net: NetPayload {
            saddr: read_u32(b, 288),
            daddr: read_u32(b, 292),
            sport: read_u16(b, 296),
            dport: read_u16(b, 298),
            family: read_u16(b, 300),
        },
        process: ProcessPayload {
            child_pid: read_u32(b, 304),
            exit_code: read_i32(b, 308),
            comm: copy_16(b, 312),
            is_exit: b[328],
            is_exec: b[329],
            is_fork: b[330],
            arg_count: b[331],
            filename: copy_256(b, 332),
            args: copy_args(b, 588),
        },
        rw: RwPayload { fd: read_u32(b, 976), count: read_u64(b, 984), data: copy_256(b, 992) },
        close: ClosePayload { fd: read_u32(b, 1248) },
        isolate: IsolatePayload {
            path1: copy_256(b, 1252),
            path2: copy_256(b, 1508),
            val1: read_u32(b, 1764),
            val2: read_i32(b, 1768),
        },
        wait4: Wait4Payload { pid: read_u32(b, 1772), options: read_i32(b, 1776) },
        mmap: MmapPayload {
            addr: read_u64(b, 1784),
            len: read_u64(b, 1792),
            prot: read_i32(b, 1800),
            flags: read_i32(b, 1804),
            fd: read_i32(b, 1808),
            off: read_u64(b, 1816),
        },
        munmap: MunmapPayload { addr: read_u64(b, 1824), len: read_u64(b, 1832) },
        mprotect: MprotectPayload {
            start: read_u64(b, 1840),
            len: read_u64(b, 1848),
            prot: read_i32(b, 1856),
        },
        brk: BrkPayload { brk: read_u64(b, 1864) },
        accept: AcceptPayload { fd: read_i32(b, 1872) },
        bind: BindPayload { fd: read_i32(b, 1876) },
        net_rw: NetRwPayload { fd: read_i32(b, 1880), len: read_u64(b, 1888) },
        unlinkat: UnlinkatPayload { dfd: read_i32(b, 1896), pathname: copy_256(b, 1900) },
        rename: RenamePayload { oldname: copy_256(b, 2156), newname: copy_256(b, 2412) },
        futex: FutexPayload { uaddr: read_u64(b, 2672), op: read_i32(b, 2680), val: read_u32(b, 2684) },
        epoll_wait: EpollWaitPayload { epfd: read_i32(b, 2688), maxevents: read_i32(b, 2692) },
        select_poll: SelectPollPayload { nfds: read_i32(b, 2696) },
        ptrace: PtracePayload { request: read_i64(b, 2704), target_pid: read_u32(b, 2712) },
        bpf: BpfPayload { cmd: read_i32(b, 2720) },
        capset: CapsetPayload { target_pid: read_u32(b, 2724) },
    }
}

/// Length of the C string held in `b`: the index of its first NUL byte, or
/// the whole buffer when it holds none.
pub open spec fn c_len(b: Seq<u8>) -> int {
    if exists|i: int| 0 <= i < b.len() && b[i] == 0 {
        choose|i: int| 0 <= i < b.len() && b[i] == 0 && forall|k: int| 0 <= k < i ==> b[k] != 0
    } else {
        b.len() as int
    }
}

/// The text of the C string in `b`: its bytes up to the first NUL, decoded as
/// UTF-8; empty when those bytes are not valid UTF-8.
pub open spec fn cstr_text(b: Seq<u8>) -> Seq<char> {
    let head = b.subrange(0, c_len(b));
    if valid_utf8(head) {
        decode_utf8(head)
    } else {
        Seq::empty()
    }
}

/// `core::str::from_utf8`: succeeds exactly when the bytes are valid UTF-8,
/// and then the string it returns holds the characters they encode.
#[verifier::external_body]
fn str_from_utf8<'a>(b: &'a [u8]) -> (r: Option<&'a str>)
    ensures
        r is Some <==> valid_utf8(b@),
        r matches Some(s) ==> s@ == decode_utf8(b@),
{
    core::str::from_utf8(b).ok()
}

/// Trims a NUL-terminated C char array to its text; a buffer whose bytes up
/// to the NUL are not valid UTF-8 gives the empty string.
pub fn cstr(data: &[u8]) -> (s: &str)
    ensures
        s@ == cstr_text(data@),
{
    let mut end: usize = 0;
    while end < data.len() && data[end] != 0
        invariant
            end <= data@.len(),
            forall|k: int| 0 <= k < end ==> data@[k] != 0,
        decreases data@.len() - end,
    {
        end = end + 1;
    }
    proof {
        if end < data@.len() {
            assert(data@[end as int] == 0);
            let j = choose|i: int|
                0 <= i < data@.len() && data@[i] == 0 && forall|k: int| 0 <= k < i ==> data@[k] != 0;
            assert(0 <= j < data@.len() && data@[j] == 0 && forall|k: int| 0 <= k < j ==> data@[k] != 0);
            if j < end {
                assert(data@[j] != 0);
            }
            if end < j {
                assert(data@[end as int] != 0);
            }
            assert(c_len(data@) == end);
        } else {
            assert(c_len(data@) == end);
        }
    }
    let head = slice_subrange(data, 0, end);
    match str_from_utf8(head) {
        Some(s) => s,
        None => {
            proof {
                reveal_strlit("");
            }
            ""
        },
    }
}

} // verus!
