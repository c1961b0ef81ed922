use beemon::pb::NetworkConnection;
use beemon::snapshot::details::{
    child_pids, classify_fd, connections_of, format_net_links, read_active_connections_pub,
    read_namespace_details, read_open_files_pub, socket_inode, FileKind, IfAddr, NetNsError, TcpRow, UdpRow,
};
use beemon::snapshot::namespace_tree_cache::NamespaceTreeCache;
use beemon::snapshot::proc_cache::ProcCacheEntry;
use std::collections::HashMap;
use std::time::{Duration, Instant};

fn no_links(_d: &str) -> Option<Vec<(String, String)>> {
    None
}

fn no_tables() -> (Vec<TcpRow>, Vec<UdpRow>) {
    (Vec::new(), Vec::new())
}

fn fd_links(d: &str) -> Option<Vec<(String, String)>> {
    if d == "/proc/42/fd" {
        Some(vec![
            ("0".to_string(), "/dev/pts/0".to_string()),
            ("3".to_string(), "socket:[1001]".to_string()),
            ("4".to_string(), "pipe:[77]".to_string()),
            ("5".to_string(), "/var/log/app.log".to_string()),
            ("6".to_string(), "socket:[2002]".to_string()),
            ("x".to_string(), "/ignored".to_string()),
            ("7".to_string(), "anon_inode:[eventfd]".to_string()),
            ("8".to_string(), "/proc/42/status".to_string()),
        ])
    } else {
        None
    }
}

fn kinds(p: &str) -> Option<FileKind> {
    if p == "/var/log/app.log" {
        Some(FileKind::Regular)
    } else {
        None
    }
}

#[test]
fn test_read_active_connections_pub_nonexistent_pid() {
    let connections = read_active_connections_pub(999999999, &no_links, &no_tables);
    assert!(connections.is_empty());
}

#[test]
fn test_read_open_files_pub_nonexistent_pid() {
    let files = read_open_files_pub(999999999, &no_links, &kinds);
    assert!(files.is_empty());
}

#[test]
fn open_files_are_classified() {
    let files = read_open_files_pub(42, &fd_links, &kinds);
    let got: Vec<(u32, &str)> = files.iter().map(|f| (f.fd, f.file_type.as_str())).collect();
    assert_eq!(
        got,
        vec![(0, "char"), (3, "socket"), (4, "pipe"), (5, "regular"), (6, "socket"), (7, "other"), (8, "directory")]
    );
    assert_eq!(files[3].path, "/var/log/app.log");
}

#[test]
fn classify_fd_uses_metadata_for_paths() {
    let dir = |_p: &str| Some(FileKind::Directory);
    let fifo = |_p: &str| Some(FileKind::Fifo);
    assert_eq!(classify_fd("/home", &dir), "directory");
    assert_eq!(classify_fd("/tmp/f", &fifo), "fifo");
    assert_eq!(classify_fd("/gone (deleted)", &kinds), "regular");
    assert_eq!(classify_fd("[socket:5]", &kinds), "socket");
    assert_eq!(classify_fd("relative", &dir), "other");
}

#[test]
fn socket_inodes_parse() {
    assert_eq!(socket_inode("socket:[1001]"), Some(1001));
    assert_eq!(socket_inode("socket:[]"), None);
    assert_eq!(socket_inode("pipe:[3]"), None);
    assert_eq!(socket_inode("socket:[12"), None);
}

fn tables() -> (Vec<TcpRow>, Vec<UdpRow>) {
    (
        vec![
            TcpRow { local_address: "0.0.0.0:80".into(), remote_address: "0.0.0.0:0".into(), state: "Listen".into(), listening: true, inode: 1001 },
            TcpRow { local_address: "10.0.0.1:5000".into(), remote_address: "10.0.0.2:443".into(), state: "Established".into(), listening: false, inode: 9 },
        ],
        vec![UdpRow { local_address: "0.0.0.0:53".into(), remote_address: "0.0.0.0:0".into(), inode: 2002 }],
    )
}

#[test]
fn connections_match_socket_inodes() {
    let conns = read_active_connections_pub(42, &fd_links, &tables);
    assert_eq!(
        conns,
        vec![
            NetworkConnection {
                local_address: "0.0.0.0:80".into(),
                remote_address: "0.0.0.0:0".into(),
                state: "Listen".into(),
                direction: "inbound".into(),
            },
            NetworkConnection {
                local_address: "0.0.0.0:53".into(),
                remote_address: "0.0.0.0:0".into(),
                state: "UNCONNECTED".into(),
                direction: "outbound".into(),
            },
        ]
    );
    let (t, u) = tables();
    assert_eq!(connections_of(&vec![9], &t, &u)[0].direction, "outbound");
}

fn parents(pairs: &[(u32, u32)]) -> HashMap<u32, u32> {
    pairs.iter().cloned().collect()
}

#[test]
fn test_resolve_children_empty() {
    assert!(child_pids(1, &HashMap::new()).is_empty());
}

#[test]
fn test_resolve_children_no_children() {
    assert!(child_pids(1, &parents(&[(1, 0), (2, 0), (3, 0)])).is_empty());
}

#[test]
fn test_resolve_children_with_children() {
    assert_eq!(child_pids(1, &parents(&[(1, 0), (2, 1), (3, 1), (4, 2)])), vec![2, 3]);
}

#[test]
fn test_resolve_children_sorted() {
    assert_eq!(child_pids(1, &parents(&[(1, 0), (100, 1), (50, 1), (200, 1)])), vec![50, 100, 200]);
}

#[test]
fn test_resolve_children_multiple_parents() {
    let p = parents(&[(1, 0), (2, 1), (3, 2), (4, 2), (5, 3)]);
    assert_eq!(child_pids(1, &p), vec![2]);
    assert_eq!(child_pids(2, &p), vec![3, 4]);
    assert_eq!(child_pids(3, &p), vec![5]);
}

fn sys(p: &str) -> Option<String> {
    match p {
        "/proc/1/mountinfo" => Some("22 1 0:21 / / rw - ext4 /dev/sda1 rw\n".to_string()),
        "/proc/1/uid_map" => Some("0 0 4294967295".to_string()),
        "/proc/1/net/route" => Some("Iface\tDestination\n".to_string()),
        _ => None,
    }
}

fn host_uts(_pid: u32) -> Option<String> {
    Some("box".to_string())
}

fn host_net(_pid: u32) -> Result<Vec<IfAddr>, NetNsError> {
    Ok(vec![
        IfAddr { name: "lo".into(), flags: "LOOPBACK,UP".into(), addr: Some("inet 127.0.0.1".into()) },
        IfAddr { name: "eth0".into(), flags: "UP,BROADCAST".into(), addr: None },
        IfAddr { name: "eth0".into(), flags: "ignored".into(), addr: Some("inet 10.0.0.5".into()) },
        IfAddr { name: "lo".into(), flags: "LOOPBACK,UP".into(), addr: Some("inet6 ::1".into()) },
    ])
}

#[test]
fn test_read_namespace_details_with_reference_pid() {
    let ns_tree = NamespaceTreeCache::new(Duration::from_secs(10));
    let result = read_namespace_details("mnt", "4026531840", 1, &ns_tree, &sys, &host_uts, &host_net);
    assert_eq!(result.ns_type, "mnt");
    assert_eq!(result.ns_inode, "4026531840");
    assert_eq!(result.mount_info, "22 1 0:21 / / rw - ext4 /dev/sda1 rw\n");
}

#[test]
fn test_read_namespace_details_zero_pid_not_found() {
    let ns_tree = NamespaceTreeCache::new(Duration::from_secs(10));
    let result = read_namespace_details("mnt", "9999999", 0, &ns_tree, &sys, &host_uts, &host_net);
    assert_eq!(result.ns_type, "mnt");
    assert_eq!(result.ns_inode, "9999999");
    assert!(result.mount_info.is_empty());
    assert!(result.net_links.is_empty());
    assert!(result.net_routes.is_empty());
    assert!(result.uts_info.is_empty());
    assert!(result.user_maps.is_empty());
}

#[test]
fn test_read_namespace_details_invalid_inode() {
    let ns_tree = NamespaceTreeCache::new(Duration::from_secs(10));
    let result = read_namespace_details("mnt", "not_a_number", 0, &ns_tree, &sys, &host_uts, &host_net);
    assert_eq!(result.ns_type, "mnt");
    assert_eq!(result.ns_inode, "not_a_number");
    assert!(result.mount_info.is_empty());
}

#[test]
fn test_read_namespace_details_native_reads_self() {
    let ns_tree = NamespaceTreeCache::new(Duration::from_secs(10));
    let mnt_res = read_namespace_details("mnt", "123", 1, &ns_tree, &sys, &host_uts, &host_net);
    assert_eq!(mnt_res.ns_type, "mnt");
    assert!(!mnt_res.mount_info.is_empty());
    assert!(mnt_res.net_links.is_empty());
    let net_res = read_namespace_details("net", "123", 1, &ns_tree, &sys, &host_uts, &host_net);
    assert_eq!(net_res.ns_type, "net");
    assert!(!net_res.net_links.is_empty());
    assert!(net_res.mount_info.is_empty());
    let uts_res = read_namespace_details("uts", "123", 1, &ns_tree, &sys, &host_uts, &host_net);
    assert!(uts_res.uts_info.contains("hostname="));
    let user_res = read_namespace_details("user", "123", 1, &ns_tree, &sys, &host_uts, &host_net);
    assert!(user_res.user_maps.contains("UID Map:"));
    assert_eq!(user_res.user_maps, "UID Map:\n0 0 4294967295\nGID Map:\n");
}

#[test]
fn test_net_links_formatting() {
    let ns_tree = NamespaceTreeCache::new(Duration::from_secs(10));
    let net_res = read_namespace_details("net", "123", 1, &ns_tree, &sys, &host_uts, &host_net);
    assert_eq!(
        net_res.net_links,
        "1: eth0: <UP,BROADCAST>\n    inet 10.0.0.5\n2: lo: <LOOPBACK,UP>\n    inet 127.0.0.1\n    inet6 ::1\n"
    );
    assert_eq!(net_res.net_routes, "Iface\tDestination\n");
}

#[test]
fn namespace_details_use_index_and_report_errors() {
    let mut ns_tree = NamespaceTreeCache::new(Duration::from_secs(10));
    let mut pc = HashMap::new();
    pc.insert(
        1,
        ProcCacheEntry {
            pid: 1,
            ppid: 0,
            comm: "init".into(),
            namespaces: vec![("mnt".to_string(), 4026531840)],
            cgroup_path: None,
            managed_by: None,
            loaded_at: Instant::now(),
        },
    );
    ns_tree.rebuild_from(&pc);
    let r = read_namespace_details("mnt", "4026531840", 0, &ns_tree, &sys, &host_uts, &host_net);
    assert!(!r.mount_info.is_empty());
    let closed = |_p: u32| -> Result<Vec<IfAddr>, NetNsError> { Err(NetNsError::Setns) };
    let r = read_namespace_details("net", "1", 1, &ns_tree, &sys, &host_uts, &closed);
    assert_eq!(r.net_links, "Error: Failed to setns to network namespace");
    let r = read_namespace_details("ipc", "1", 1, &ns_tree, &sys, &host_uts, &host_net);
    assert!(r.mount_info.is_empty() && r.net_links.is_empty() && r.user_maps.is_empty());
    assert_eq!(format_net_links(&vec![]), "");
}
