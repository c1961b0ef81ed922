//! Conversion of a decoded ring-buffer record into a streamed event: the
//! record's `event_type` selects the payload, whose fields are copied over
//! and whose C strings are trimmed at their NUL.

use vstd::prelude::*;

use crate::bpf_types::{
    cstr, cstr_text, event_decoded, event_from_bytes, EventT, EVENT_T_SIZE, NetPayload, ProcessPayload, RwPayload, EVENT_TYPE_SYSCALL, EVENT_TYPE_FILE_OPEN, EVENT_TYPE_NET_CONN, EVENT_TYPE_PROCESS, EVENT_TYPE_FILE_READ, EVENT_TYPE_FILE_WRITE, EVENT_TYPE_FILE_CLOSE, EVENT_TYPE_CHROOT, EVENT_TYPE_PIVOT_ROOT, EVENT_TYPE_SETNS, EVENT_TYPE_UNSHARE, EVENT_TYPE_WAIT4, EVENT_TYPE_MMAP, EVENT_TYPE_MUNMAP, EVENT_TYPE_MPROTECT, EVENT_TYPE_BRK, EVENT_TYPE_ACCEPT, EVENT_TYPE_BIND, EVENT_TYPE_SENDTO, EVENT_TYPE_RECVFROM, EVENT_TYPE_UNLINKAT, EVENT_TYPE_RENAME, EVENT_TYPE_FUTEX, EVENT_TYPE_EPOLL_WAIT, EVENT_TYPE_SELECT, EVENT_TYPE_POLL, EVENT_TYPE_PTRACE, EVENT_TYPE_BPF, EVENT_TYPE_CAPSET, EVENT_TYPE_NET_ACCEPT,
};
use crate::pb::event::Event as Payload;
use crate::pb::{
    AcceptEvent, BindEvent, BpfEvent, BrkEvent, CapsetEvent, ChrootEvent, EpollWaitEvent, Event,
    FileCloseEvent, FileOpenEvent, FileReadEvent, FileWriteEvent, FutexEvent, MmapEvent,
    MprotectEvent, MunmapEvent, NetworkAcceptEvent, NetworkConnectEvent, PivotRootEvent, PollEvent,
    ProcessEvent, PtraceEvent, RecvfromEvent, RenameEvent, SelectEvent, SendtoEvent, SetnsEvent,
    SyscallEvent, UnlinkatEvent, UnshareEvent, Wait4Event,
};

verus! {

/// Maximum number of argument slots of a process record.
pub const MAX_ARGS: usize = 6;

/// The text of the C string in `b`, as an owned `String`.
fn c_string(b: &[u8]) -> (s: String)
    ensures
        s@ == cstr_text(b@),
{
    cstr(b).to_string()
}

/// Number of bytes of a write payload that are copied: the byte count the
/// kernel reported, capped at the size of the capture buffer.
pub open spec fn write_len(count: u64) -> int {
    if count < 256 {
        count as int
    } else {
        256
    }
}

/// Number of process arguments that are copied: the reported count, capped
/// at the number of slots.
pub open spec fn args_len(arg_count: u8) -> int {
    if arg_count < 6 {
        arg_count as int
    } else {
        6
    }
}

/// `args` holds the texts of the first `args_len(p.arg_count)` argument slots.
pub open spec fn args_match(p: ProcessPayload, args: Seq<String>) -> bool {
    &&& args.len() == args_len(p.arg_count)
    &&& forall|i: int| 0 <= i < args.len() ==> (#[trigger] args[i])@ == cstr_text(p.args@[i]@)
}

/// `net` is the connection record's addresses and ports, widened.
pub open spec fn net_fields_match(n: NetPayload, saddr: u32, daddr: u32, sport: u32, dport: u32, family: u32) -> bool {
    saddr == n.saddr && daddr == n.daddr && sport == n.sport && dport == n.dport && family == n.family
}

/// `p` is the payload that the record `e` stands for. An `event_type` that no
/// kernel program emits gives a syscall payload with id 0.
pub open spec fn payload_of(e: EventT, p: Payload) -> bool {
    let t = e.event_type;
    if t == EVENT_TYPE_SYSCALL {
        p == Payload::Syscall(SyscallEvent { syscall_id: e.syscall.syscall_id })
    } else if t == EVENT_TYPE_FILE_OPEN {
        p matches Payload::FileOpen(f) && f.filename@ == cstr_text(e.file.filename@)
            && f.flags == e.file.flags && f.fd == 0
    } else if t == EVENT_TYPE_FILE_READ {
        p == Payload::FileRead(FileReadEvent { fd: e.rw.fd, count: e.rw.count })
    } else if t == EVENT_TYPE_FILE_WRITE {
        p matches Payload::FileWrite(w) && w.fd == e.rw.fd && w.count == e.rw.count
            && w.data@ == e.rw.data@.subrange(0, write_len(e.rw.count))
    } else if t == EVENT_TYPE_FILE_CLOSE {
        p == Payload::FileClose(FileCloseEvent { fd: e.close.fd })
    } else if t == EVENT_TYPE_NET_CONN {
        p matches Payload::NetworkConnect(c) && net_fields_match(
            e.net,
            c.saddr,
            c.daddr,
            c.sport,
            c.dport,
            c.family,
        )
    } else if t == EVENT_TYPE_NET_ACCEPT {
        p matches Payload::NetworkAccept(c) && net_fields_match(
            e.net,
            c.saddr,
            c.daddr,
            c.sport,
            c.dport,
            c.family,
        )
    } else if t == EVENT_TYPE_PROCESS {
        p matches Payload::Process(q) && q.is_exec == (e.process.is_exec != 0) && q.is_fork == (
        e.process.is_fork != 0) && q.is_exit == (e.process.is_exit != 0) && q.comm@ == cstr_text(
            e.process.comm@,
        ) && q.child_pid == e.process.child_pid && q.exit_code == e.process.exit_code
            && q.filename@ == cstr_text(e.process.filename@) && args_match(e.process, q.args@)
    } else if t == EVENT_TYPE_CHROOT {
        p matches Payload::Chroot(c) && c.path@ == cstr_text(e.isolate.path1@)
    } else if t == EVENT_TYPE_PIVOT_ROOT {
        p matches Payload::PivotRoot(c) && c.new_root@ == cstr_text(e.isolate.path1@)
            && c.put_old@ == cstr_text(e.isolate.path2@)
    } else if t == EVENT_TYPE_SETNS {
        p == Payload::Setns(SetnsEvent { fd: e.isolate.val1, nstype: e.isolate.val2 })
    } else if t == EVENT_TYPE_UNSHARE {
        p == Payload::Unshare(UnshareEvent { flags: e.isolate.val1 })
    } else if t == EVENT_TYPE_WAIT4 {
        p == Payload::Wait4(Wait4Event { pid: e.wait4.pid, options: e.wait4.options })
    } else if t == EVENT_TYPE_MMAP {
        p == Payload::Mmap(
            MmapEvent {
                addr: e.mmap.addr,
                len: e.mmap.len,
                prot: e.mmap.prot,
                flags: e.mmap.flags,
                fd: e.mmap.fd,
                offset: e.mmap.off,
            },
        )
    } else if t == EVENT_TYPE_MUNMAP {
        p == Payload::Munmap(MunmapEvent { addr: e.munmap.addr, len: e.munmap.len })
    } else if t == EVENT_TYPE_MPROTECT {
        p == Payload::Mprotect(
            MprotectEvent { start: e.mprotect.start, len: e.mprotect.len, prot: e.mprotect.prot },
        )
    } else if t == EVENT_TYPE_BRK {
        p == Payload::Brk(BrkEvent { brk: e.brk.brk })
    } else if t == EVENT_TYPE_ACCEPT {
        p == Payload::Accept(AcceptEvent { fd: e.accept.fd })
    } else if t == EVENT_TYPE_BIND {
        p == Payload::Bind(BindEvent { fd: e.bind.fd })
    } else if t == EVENT_TYPE_SENDTO {
        p == Payload::Sendto(SendtoEvent { fd: e.net_rw.fd, len: e.net_rw.len })
    } else if t == EVENT_TYPE_RECVFROM {
        p == Payload::Recvfrom(RecvfromEvent { fd: e.net_rw.fd, len: e.net_rw.len })
    } else if t == EVENT_TYPE_UNLINKAT {
        p matches Payload::Unlinkat(u) && u.dfd == e.unlinkat.dfd && u.pathname@ == cstr_text(
            e.unlinkat.pathname@,
        )
    } else if t == EVENT_TYPE_RENAME {
        p matches Payload::Rename(r) && r.oldname@ == cstr_text(e.rename.oldname@)
            && r.newname@ == cstr_text(e.rename.newname@)
    } else if t == EVENT_TYPE_FUTEX {
        p == Payload::Futex(FutexEvent { uaddr: e.futex.uaddr, op: e.futex.op, val: e.futex.val })
    } else if t == EVENT_TYPE_EPOLL_WAIT {
        p == Payload::EpollWait(
            EpollWaitEvent { epfd: e.epoll_wait.epfd, maxevents: e.epoll_wait.maxevents },
        )
    } else if t == EVENT_TYPE_SELECT {
        p == Payload::Select(SelectEvent { nfds: e.select_poll.nfds })
    } else if t == EVENT_TYPE_POLL {
        p == Payload::Poll(PollEvent { nfds: e.select_poll.nfds })
    } else if t == EVENT_TYPE_PTRACE {
        p == Payload::Ptrace(
            PtraceEvent { request: e.ptrace.request, target_pid: e.ptrace.target_pid },
        )
    } else if t == EVENT_TYPE_BPF {
        p == Payload::Bpf(BpfEvent { cmd: e.bpf.cmd })
    } else if t == EVENT_TYPE_CAPSET {
        p == Payload::Capset(CapsetEvent { target_pid: e.capset.target_pid })
    } else {
        p == Payload::Syscall(SyscallEvent { syscall_id: 0 })
    }
}

/// `out` is the streamed event for the record `e`: same time and pid, and the
/// payload that `e` stands for.
pub open spec fn converted(e: EventT, out: Event) -> bool {
    &&& out.timestamp_ns == e.ts
    &&& out.pid == e.pid
    &&& out.event matches Some(p) && payload_of(e, p)
}

fn process_args(p: &ProcessPayload) -> (args: Vec<String>)
    ensures
        args_match(*p, args@),
{
    let n: usize = if (p.arg_count as usize) < MAX_ARGS {
        p.arg_count as usize
    } else {
        MAX_ARGS
    };
    let mut args: Vec<String> = Vec::new();
    let mut i: usize = 0;
    while i < n
        invariant
            n == args_len(p.arg_count),
            n <= 6,
            i <= n,
            args.len() == i,
            forall|k: int| 0 <= k < i ==> (#[trigger] args@[k])@ == cstr_text(p.args@[k]@),
        decreases n - i,
    {
        args.push(c_string(&p.args[i]));
        i = i + 1;
    }
    args
}

fn write_data(rw: &RwPayload) -> (data: Vec<u8>)
    ensures
        data@ == rw.data@.subrange(0, write_len(rw.count)),
{
    let n: usize = if rw.count < 256 {
        rw.count as usize
    } else {
        256
    };
    let mut data: Vec<u8> = Vec::new();
    let mut i: usize = 0;
    while i < n
        invariant
            n == write_len(rw.count),
            n <= 256,
            i <= n,
            data@ == rw.data@.subrange(0, i as int),
        decreases n - i,
    {
        data.push(rw.data[i]);
        i = i + 1;
    }
    data
}

/// Builds the streamed event for a decoded ring-buffer record.
pub fn convert(e: &EventT) -> (out: Event)
    ensures
        converted(*e, out),
{
    let t = e.event_type;
    let payload = if t == EVENT_TYPE_SYSCALL {
        Payload::Syscall(SyscallEvent { syscall_id: e.syscall.syscall_id })
    } else if t == EVENT_TYPE_FILE_OPEN {
        Payload::FileOpen(
            FileOpenEvent { filename: c_string(&e.file.filename), flags: e.file.flags, fd: 0 },
        )
    } else if t == EVENT_TYPE_FILE_READ {
        Payload::FileRead(FileReadEvent { fd: e.rw.fd, count: e.rw.count })
    } else if t == EVENT_TYPE_FILE_WRITE {
        Payload::FileWrite(FileWriteEvent { fd: e.rw.fd, count: e.rw.count, data: write_data(&e.rw) })
    } else if t == EVENT_TYPE_FILE_CLOSE {
        Payload::FileClose(FileCloseEvent { fd: e.close.fd })
    } else if t == EVENT_TYPE_NET_CONN {
        Payload::NetworkConnect(
            NetworkConnectEvent {
                saddr: e.net.saddr,
                daddr: e.net.daddr,
                sport: e.net.sport as u32,
                dport: e.net.dport as u32,
                family: e.net.family as u32,
            },
        )
    } else if t == EVENT_TYPE_NET_ACCEPT {
        Payload::NetworkAccept(
            NetworkAcceptEvent {
                saddr: e.net.saddr,
                daddr: e.net.daddr,
                sport: e.net.sport as u32,
                dport: e.net.dport as u32,
                family: e.net.family as u32,
            },
        )
    } else if t == EVENT_TYPE_PROCESS {
        Payload::Process(
            ProcessEvent {
                is_exec: e.process.is_exec != 0,
                is_fork: e.process.is_fork != 0,
                is_exit: e.process.is_exit != 0,
                comm: c_string(&e.process.comm),
                child_pid: e.process.child_pid,
                exit_code: e.process.exit_code,
                filename: c_string(&e.process.filename),
                args: process_args(&e.process),
            },
        )
    } else if t == EVENT_TYPE_CHROOT {
        Payload::Chroot(ChrootEvent { path: c_string(&e.isolate.path1) })
    } else if t == EVENT_TYPE_PIVOT_ROOT {
        Payload::PivotRoot(
            PivotRootEvent {
                new_root: c_string(&e.isolate.path1),
                put_old: c_string(&e.isolate.path2),
            },
        )
    } else if t == EVENT_TYPE_SETNS {
        Payload::Setns(SetnsEvent { fd: e.isolate.val1, nstype: e.isolate.val2 })
    } else if t == EVENT_TYPE_UNSHARE {
        Payload::Unshare(UnshareEvent { flags: e.isolate.val1 })
    } else if t == EVENT_TYPE_WAIT4 {
        Payload::Wait4(Wait4Event { pid: e.wait4.pid, options: e.wait4.options })
    } else if t == EVENT_TYPE_MMAP {
        Payload::Mmap(
            MmapEvent {
                addr: e.mmap.addr,
                len: e.mmap.len,
                prot: e.mmap.prot,
                flags: e.mmap.flags,
                fd: e.mmap.fd,
                offset: e.mmap.off,
            },
        )
    } else if t == EVENT_TYPE_MUNMAP {
        Payload::Munmap(MunmapEvent { addr: e.munmap.addr, len: e.munmap.len })
    } else if t == EVENT_TYPE_MPROTECT {
        Payload::Mprotect(
            MprotectEvent { start: e.mprotect.start, len: e.mprotect.len, prot: e.mprotect.prot },
        )
    } else if t == EVENT_TYPE_BRK {
        Payload::Brk(BrkEvent { brk: e.brk.brk })
    } else if t == EVENT_TYPE_ACCEPT {
        Payload::Accept(AcceptEvent { fd: e.accept.fd })
    } else if t == EVENT_TYPE_BIND {
        Payload::Bind(BindEvent { fd: e.bind.fd })
    } else if t == EVENT_TYPE_SENDTO {
        Payload::Sendto(SendtoEvent { fd: e.net_rw.fd, len: e.net_rw.len })
    } else if t == EVENT_TYPE_RECVFROM {
        Payload::Recvfrom(RecvfromEvent { fd: e.net_rw.fd, len: e.net_rw.len })
    } else if t == EVENT_TYPE_UNLINKAT {
        Payload::Unlinkat(
            UnlinkatEvent { dfd: e.unlinkat.dfd, pathname: c_string(&e.unlinkat.pathname) },
        )
    } else if t == EVENT_TYPE_RENAME {
        Payload::Rename(
            RenameEvent {
                oldname: c_string(&e.rename.oldname),
                newname: c_string(&e.rename.newname),
            },
        )
    } else if t == EVENT_TYPE_FUTEX {
        Payload::Futex(FutexEvent { uaddr: e.futex.uaddr, op: e.futex.op, val: e.futex.val })
    } else if t == EVENT_TYPE_EPOLL_WAIT {
        Payload::EpollWait(
            EpollWaitEvent { epfd: e.epoll_wait.epfd, maxevents: e.epoll_wait.maxevents },
        )
    } else if t == EVENT_TYPE_SELECT {
        Payload::Select(SelectEvent { nfds: e.select_poll.nfds })
    } else if t == EVENT_TYPE_POLL {
        Payload::Poll(PollEvent { nfds: e.select_poll.nfds })
    } else if t == EVENT_TYPE_PTRACE {
        Payload::Ptrace(PtraceEvent { request: e.ptrace.request, target_pid: e.ptrace.target_pid })
    } else if t == EVENT_TYPE_BPF {
        Payload::Bpf(BpfEvent { cmd: e.bpf.cmd })
    } else if t == EVENT_TYPE_CAPSET {
        Payload::Capset(CapsetEvent { target_pid: e.capset.target_pid })
    } else {
        Payload::Syscall(SyscallEvent { syscall_id: 0 })
    };
    Event { timestamp_ns: e.ts, pid: e.pid, event: Some(payload) }
}

/// Decodes and converts one ring-buffer sample; `None` for a sample too
/// short to hold a record.
pub fn decode_sample(bytes: &[u8]) -> (r: Option<Event>)
    ensures
        r is Some <==> bytes@.len() >= EVENT_T_SIZE,
        r matches Some(ev) ==> exists|e: EventT| event_decoded(bytes@, e) && converted(e, ev),
{
    if bytes.len() < EVENT_T_SIZE {
        return None;
    }
    let e = event_from_bytes(bytes);
    let ev = convert(&e);
    assert(event_decoded(bytes@, e) && converted(e, ev));
    Some(ev)
}

/// A connection keeps its direction: the event of a connect record carries
/// the record's source address and port as its `saddr`/`sport` and the
/// destination as its `daddr`/`dport`, and likewise for an accept record.
pub proof fn lemma_connection_direction_kept(e: EventT, out: Event)
    requires
        converted(e, out),
    ensures
        e.event_type == EVENT_TYPE_NET_CONN ==> (out.event matches Some(Payload::NetworkConnect(c)) && c.saddr
            == e.net.saddr && c.daddr == e.net.daddr && c.sport == e.net.sport && c.dport == e.net.dport
            && c.family == e.net.family),
        e.event_type == EVENT_TYPE_NET_ACCEPT ==> (out.event matches Some(Payload::NetworkAccept(c)) && c.saddr
            == e.net.saddr && c.daddr == e.net.daddr && c.sport == e.net.sport && c.dport == e.net.dport
            && c.family == e.net.family),
{
}

} // verus!
