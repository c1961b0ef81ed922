use beemon::bpf_types::{NetFlowKey, NetFlowStat};
use beemon::routes::{flow_to_pb, flows_for_pid, network_flows_response, process_matches, select_processes};
use beemon::stream::{channel_capacity, SubscriberTable};

fn procs(list: &[(u32, &str)]) -> Vec<(u32, String)> {
    list.iter().map(|(p, n)| (*p, n.to_string())).collect()
}

#[test]
fn filter_empty_returns_all() {
    let p = procs(&[(1, "systemd"), (42, "nginx")]);
    assert_eq!(select_processes(&p, "").len(), 2);
}

#[test]
fn filter_by_name_substring() {
    let p = procs(&[(1, "systemd"), (42, "nginx"), (100, "nginx-worker")]);
    let r = select_processes(&p, "nginx");
    assert_eq!(r.len(), 2);
    assert!(r.iter().all(|&i| p[i].1.contains("nginx")));
}

#[test]
fn filter_by_pid_exact() {
    let p = procs(&[(1, "systemd"), (42, "nginx"), (100, "worker")]);
    let r = select_processes(&p, "42");
    assert_eq!(r.len(), 1);
    assert_eq!(p[r[0]].0, 42);
}

#[test]
fn filter_by_pid_no_name_match() {
    let p = procs(&[(1234, "bash"), (5678, "top")]);
    let r = select_processes(&p, "1234");
    assert_eq!(r.len(), 1);
    assert_eq!(p[r[0]].0, 1234);
    assert_eq!(p[r[0]].1, "bash");
}

#[test]
fn filter_pid_and_name_both_match() {
    let p = procs(&[(42, "nginx"), (100, "nginx-worker")]);
    assert_eq!(select_processes(&p, "nginx").len(), 2);
    let r = select_processes(&p, "42");
    assert_eq!(r.len(), 1);
    assert_eq!(p[r[0]].0, 42);
}

#[test]
fn filter_no_match_returns_empty() {
    let p = procs(&[(1, "systemd"), (42, "nginx")]);
    assert!(select_processes(&p, "postgres").is_empty());
}

#[test]
fn filter_numeric_string_not_a_pid() {
    let p = procs(&[(1, "systemd"), (42, "nginx")]);
    assert!(select_processes(&p, "999").is_empty());
    assert!(process_matches("1", 1, "x"));
    assert!(process_matches("ngi", 7, "nginx"));
    assert!(!process_matches("-1", 1, "x"));
}

fn key(pid: u32, protocol: u16) -> NetFlowKey {
    NetFlowKey { pid, saddr: u32::from_ne_bytes([127, 0, 0, 1]), daddr: u32::from_ne_bytes([8, 8, 8, 8]), sport: 12345, dport: 80, family: 2, protocol }
}

fn stat(n: u64) -> NetFlowStat {
    NetFlowStat { rx_bytes: n, tx_bytes: n + 1, rx_packets: n + 2, tx_packets: n + 3 }
}

#[test]
fn flows_are_reported() {
    let f = flow_to_pb(&key(1, 6), &stat(10));
    assert_eq!(f.local_address, "127.0.0.1");
    assert_eq!(f.remote_address, "8.8.8.8");
    assert_eq!(f.local_port, 12345);
    assert_eq!(f.remote_port, 80);
    assert_eq!(f.protocol, "TCP");
    assert_eq!((f.rx_bytes, f.tx_bytes, f.rx_packets, f.tx_packets), (10, 11, 12, 13));
    assert_eq!(flow_to_pb(&key(1, 17), &stat(0)).protocol, "UDP");
    assert_eq!(flow_to_pb(&key(1, 1), &stat(0)).protocol, "proto1");
}

#[test]
fn flows_are_kept_per_pid() {
    let all = vec![(key(1, 6), stat(1)), (key(2, 6), stat(2)), (key(1, 17), stat(3))];
    let mine = flows_for_pid(&all, 1);
    assert_eq!(mine, vec![(key(1, 6), stat(1)), (key(1, 17), stat(3))]);
    let resp = network_flows_response(&mine);
    assert_eq!(resp.flows.len(), 2);
    assert_eq!(resp.flows[1].protocol, "UDP");
}

#[test]
fn first_and_last_subscribers_toggle_capture() {
    let mut t = SubscriberTable::new();
    assert!(t.subscribe(7));
    assert!(!t.subscribe(7));
    assert!(t.is_subscribed(7));
    assert_eq!(t.subscriber_count(7), 2);
    assert_eq!(t.subscriber_count(8), 0);
    assert!(!t.unsubscribe(7));
    assert!(t.unsubscribe(7));
    assert!(!t.is_subscribed(7));
    assert!(!t.unsubscribe(7));
    assert_eq!(channel_capacity(0), 1);
    assert_eq!(channel_capacity(150), 150);
}
