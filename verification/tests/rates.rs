use beemon::bpf_types::IoStat;
use beemon::rates::{io_growth_since, HostIoRates, RateSnapshot};
use std::collections::HashMap;

#[test]
fn test_host_io_rates_default() {
    let rates = HostIoRates::default();
    assert_eq!(rates.io_read_bytes_per_sec, 0);
    assert_eq!(rates.io_write_bytes_per_sec, 0);
    assert_eq!(rates.net_rx_bytes_per_sec, 0);
    assert_eq!(rates.net_tx_bytes_per_sec, 0);
}

#[test]
fn test_rate_snapshot_default() {
    let snap = RateSnapshot::default();
    assert!(snap.cumulative_io.is_empty());
    assert!(snap.flows.is_empty());
    assert_eq!(snap.host_rates.io_read_bytes_per_sec, 0);
}

fn io(r: u64, w: u64, rx: u64, tx: u64) -> IoStat {
    IoStat { file_read_bytes: r, file_write_bytes: w, net_rx_bytes: rx, net_tx_bytes: tx }
}

#[test]
fn growth_of_known_and_new_pids() {
    let mut prev = HashMap::new();
    prev.insert(1234, io(1000, 500, 2000, 1000));
    prev.insert(9, io(5, 5, 5, 5));
    let new_io = vec![(1234, io(2000, 1500, 4000, 3000)), (77, io(10, 20, 30, 40))];
    let (per_pid, total) = io_growth_since(&prev, &new_io);
    assert_eq!(per_pid, vec![(1234, io(1000, 1000, 2000, 2000)), (77, io(10, 20, 30, 40))]);
    assert_eq!(total, io(1010, 1020, 2030, 2040));
}

#[test]
fn growth_saturates_on_counter_reset() {
    let mut prev = HashMap::new();
    prev.insert(1, io(5000, 10, 10, 10));
    let (per_pid, total) = io_growth_since(&prev, &vec![(1, io(100, 20, 10, 0))]);
    assert_eq!(per_pid[0].1, io(0, 10, 0, 0));
    assert_eq!(total, io(0, 10, 0, 0));
    let (per_pid, total) = io_growth_since(&prev, &vec![]);
    assert!(per_pid.is_empty());
    assert_eq!(total, IoStat::default());
}

#[test]
fn growth_totals_wrap_past_u64() {
    let prev = HashMap::new();
    let new_io = vec![(1u32, io(u64::MAX, 1, 0, 0)), (2, io(3, 2, 0, 0))];
    let (per_pid, total) = io_growth_since(&prev, &new_io);
    assert_eq!(per_pid.len(), 2);
    assert_eq!(total.file_read_bytes, 2);
    assert_eq!(total.file_write_bytes, 3);
}
