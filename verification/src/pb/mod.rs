//! Wire-format messages of the monitoring API: the responses that carry no
//! floating-point field, and the event stream with its payloads.

pub mod event;

use vstd::prelude::*;

verus! {

/// Response of the namespace-details request: the requested namespace and the
/// text read from a member process.
#[derive(Clone, Debug, PartialEq, Default)]
pub struct GetNamespaceDetailsResponse {
    pub ns_type: String,
    pub ns_inode: String,
    pub mount_info: String,
    pub net_links: String,
    pub net_routes: String,
    pub uts_info: String,
    pub user_maps: String,
}

/// Response of the network-flows request.
#[derive(Clone, Debug, PartialEq, Default)]
pub struct GetNetworkFlowsResponse {
    pub flows: Vec<NetworkFlow>,
}

/// One open file descriptor of a process.
#[derive(Clone, Debug, PartialEq, Default)]
pub struct OpenFile {
    pub fd: u32,
    pub path: String,
    pub file_type: String,
}

/// One socket of a process found in the kernel's socket tables.
#[derive(Clone, Debug, PartialEq, Default)]
pub struct NetworkConnection {
    pub local_address: String,
    pub remote_address: String,
    pub state: String,
    pub direction: String,
}

/// Cumulative traffic of one flow of a process.
#[derive(Clone, Debug, PartialEq, Default)]
pub struct NetworkFlow {
    pub local_address: String,
    pub remote_address: String,
    pub local_port: u32,
    pub remote_port: u32,
    pub protocol: String,
    pub rx_bytes: u64,
    pub tx_bytes: u64,
    pub rx_packets: u64,
    pub tx_packets: u64,
}

/// A batch of streamed events.
#[derive(Clone, Debug, PartialEq, Default)]
pub struct EventBatch {
    pub events: Vec<Event>,
}

/// One streamed event: its time, its process and its payload.
#[derive(Clone, Debug, PartialEq, Default)]
pub struct Event {
    pub timestamp_ns: u64,
    pub pid: u32,
    pub event: Option<event::Event>,
}

#[derive(Clone, Debug, PartialEq, Default)]
pub struct SyscallEvent {
    pub syscall_id: u32,
}

#[derive(Clone, Debug, PartialEq, Default)]
pub struct FileOpenEvent {
    pub filename: String,
    pub flags: i32,
    pub fd: u32,
}

#[derive(Clone, Debug, PartialEq, Default)]
pub struct NetworkConnectEvent {
    pub saddr: u32,
    pub daddr: u32,
    pub sport: u32,
    pub dport: u32,
    pub family: u32,
}

#[derive(Clone, Debug, PartialEq, Default)]
pub struct NetworkAcceptEvent {
    pub saddr: u32,
    pub daddr: u32,
    pub sport: u32,
    pub dport: u32,
    pub family: u32,
}

#[derive(Clone, Debug, PartialEq, Default)]
pub struct ProcessEvent {
    pub is_exec: bool,
    pub is_fork: bool,
    pub is_exit: bool,
    pub comm: String,
    pub child_pid: u32,
    pub exit_code: i32,
    pub filename: String,
    pub args: Vec<String>,
}

#[derive(Clone, Debug, PartialEq, Default)]
pub struct FileReadEvent {
    pub fd: u32,
    pub count: u64,
}

#[derive(Clone, Debug, PartialEq, Default)]
pub struct FileWriteEvent {
    pub fd: u32,
    pub count: u64,
    pub data: Vec<u8>,
}

#[derive(Clone, Debug, PartialEq, Default)]
pub struct FileCloseEvent {
    pub fd: u32,
}

#[derive(Clone, Debug, PartialEq, Default)]
pub struct ChrootEvent {
    pub path: String,
}

#[derive(Clone, Debug, PartialEq, Default)]
pub struct PivotRootEvent {
    pub new_root: String,
    pub put_old: String,
}

#[derive(Clone, Debug, PartialEq, Default)]
pub struct SetnsEvent {
    pub fd: u32,
    pub nstype: i32,
}

#[derive(Clone, Debug, PartialEq, Default)]
pub struct UnshareEvent {
    pub flags: u32,
}

#[derive(Clone, Debug, PartialEq, Default)]
pub struct Wait4Event {
    pub pid: u32,
    pub options: i32,
}

#[derive(Clone, Debug, PartialEq, Default)]
pub struct MmapEvent {
    pub addr: u64,
    pub len: u64,
    pub prot: i32,
    pub flags: i32,
    pub fd: i32,
    pub offset: u64,
}

#[derive(Clone, Debug, PartialEq, Default)]
pub struct MunmapEvent {
    pub addr: u64,
    pub len: u64,
}

#[derive(Clone, Debug, PartialEq, Default)]
pub struct MprotectEvent {
    pub start: u64,
    pub len: u64,
    pub prot: i32,
}

#[derive(Clone, Debug, PartialEq, Default)]
pub struct BrkEvent {
    pub brk: u64,
}

#[derive(Clone, Debug, PartialEq, Default)]
pub struct AcceptEvent {
    pub fd: i32,
}

#[derive(Clone, Debug, PartialEq, Default)]
pub struct BindEvent {
    pub fd: i32,
}

#[derive(Clone, Debug, PartialEq, Default)]
pub struct SendtoEvent {
    pub fd: i32,
    pub len: u64,
}

#[derive(Clone, Debug, PartialEq, Default)]
pub struct RecvfromEvent {
    pub fd: i32,
    pub len: u64,
}

#[derive(Clone, Debug, PartialEq, Default)]
pub struct UnlinkatEvent {
    pub dfd: i32,
    pub pathname: String,
}

#[derive(Clone, Debug, PartialEq, Default)]
pub struct RenameEvent {
    pub oldname: String,
    pub newname: String,
}

#[derive(Clone, Debug, PartialEq, Default)]
pub struct FutexEvent {
    pub uaddr: u64,
    pub op: i32,
    pub val: u32,
}

#[derive(Clone, Debug, PartialEq, Default)]
pub struct EpollWaitEvent {
    pub epfd: i32,
    pub maxevents: i32,
}

#[derive(Clone, Debug, PartialEq, Default)]
pub struct SelectEvent {
    pub nfds: i32,
}

#[derive(Clone, Debug, PartialEq, Default)]
pub struct PollEvent {
    pub nfds: i32,
}

#[derive(Clone, Debug, PartialEq, Default)]
pub struct PtraceEvent {
    pub request: i64,
    pub target_pid: u32,
}

#[derive(Clone, Debug, PartialEq, Default)]
pub struct BpfEvent {
    pub cmd: i32,
}

#[derive(Clone, Debug, PartialEq, Default)]
pub struct CapsetEvent {
    pub target_pid: u32,
}

#[derive(Clone, Debug, PartialEq, Default)]
pub struct SignalEvent {
    pub target_pid: u32,
    pub target_tid: u32,
    pub sig: i32,
    pub source_pid: u32,
}

#[derive(Clone, Debug, PartialEq, Default)]
pub struct FileMetaEvent {
    pub pathname: String,
    pub fd: i32,
    pub mode: i32,
}

#[derive(Clone, Debug, PartialEq, Default)]
pub struct IoctlEvent {
    pub fd: i32,
    pub cmd: u64,
}

#[derive(Clone, Debug, PartialEq, Default)]
pub struct FcntlEvent {
    pub fd: i32,
    pub cmd: i32,
}

#[derive(Clone, Debug, PartialEq, Default)]
pub struct LseekEvent {
    pub fd: i32,
    pub offset: u64,
    pub whence: i32,
}

#[derive(Clone, Debug, PartialEq, Default)]
pub struct SocketEvent {
    pub family: i32,
    pub sock_type: i32,
    pub protocol: i32,
}

#[derive(Clone, Debug, PartialEq, Default)]
pub struct SocketOptEvent {
    pub fd: i32,
    pub level: i32,
    pub optname: i32,
}

#[derive(Clone, Debug, PartialEq, Default)]
pub struct PipeEvent {}

#[derive(Clone, Debug, PartialEq, Default)]
pub struct Pipe2Event {}

#[derive(Clone, Debug, PartialEq, Default)]
pub struct GetpidEvent {}

#[derive(Clone, Debug, PartialEq, Default)]
pub struct GetuidEvent {}

#[derive(Clone, Debug, PartialEq, Default)]
pub struct UnameEvent {}

} // verus!
