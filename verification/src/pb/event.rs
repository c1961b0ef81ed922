//! The payload of a streamed event: one variant per kind of event.

use vstd::prelude::*;

use super::{AcceptEvent, BindEvent, BpfEvent, BrkEvent, CapsetEvent, ChrootEvent, EpollWaitEvent, FcntlEvent, FileCloseEvent, FileMetaEvent, FileOpenEvent, FileReadEvent, FileWriteEvent, FutexEvent, GetpidEvent, GetuidEvent, IoctlEvent, LseekEvent, MmapEvent, MprotectEvent, MunmapEvent, NetworkAcceptEvent, NetworkConnectEvent, Pipe2Event, PipeEvent, PivotRootEvent, PollEvent, ProcessEvent, PtraceEvent, RecvfromEvent, RenameEvent, SelectEvent, SendtoEvent, SetnsEvent, SignalEvent, SocketEvent, SocketOptEvent, SyscallEvent, UnameEvent, UnlinkatEvent, UnshareEvent, Wait4Event};

verus! {

/// Which kind of event a streamed event is, with its fields.
#[derive(Clone, Debug, PartialEq)]
pub enum Event {
    Syscall(SyscallEvent),
    FileOpen(FileOpenEvent),
    NetworkConnect(NetworkConnectEvent),
    Process(ProcessEvent),
    FileRead(FileReadEvent),
    FileWrite(FileWriteEvent),
    FileClose(FileCloseEvent),
    Chroot(ChrootEvent),
    PivotRoot(PivotRootEvent),
    Setns(SetnsEvent),
    Unshare(UnshareEvent),
    Wait4(Wait4Event),
    Mmap(MmapEvent),
    Munmap(MunmapEvent),
    Mprotect(MprotectEvent),
    Brk(BrkEvent),
    Accept(AcceptEvent),
    Bind(BindEvent),
    Sendto(SendtoEvent),
    Recvfrom(RecvfromEvent),
    Unlinkat(UnlinkatEvent),
    Rename(RenameEvent),
    Futex(FutexEvent),
    EpollWait(EpollWaitEvent),
    Select(SelectEvent),
    Poll(PollEvent),
    Ptrace(PtraceEvent),
    Bpf(BpfEvent),
    Capset(CapsetEvent),
    NetworkAccept(NetworkAcceptEvent),
    Signal(SignalEvent),
    Stat(FileMetaEvent),
    Ioctl(IoctlEvent),
    Fcntl(FcntlEvent),
    Lseek(LseekEvent),
    Socket(SocketEvent),
    SocketOpt(SocketOptEvent),
    Pipe(PipeEvent),
    Pipe2(Pipe2Event),
    Getpid(GetpidEvent),
    Getuid(GetuidEvent),
    Uname(UnameEvent),
    Fstat(FileMetaEvent),
    Lstat(FileMetaEvent),
    Access(FileMetaEvent),
}

} // verus!
