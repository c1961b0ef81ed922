use beemon::bpf_types::{IoStat, NetFlowKey, NetFlowStat};
use beemon::rates::sum_io;
use std::collections::HashSet;

#[test]
fn test_io_stat_default() {
    let stat = IoStat::default();
    assert_eq!(stat.file_read_bytes, 0);
    assert_eq!(stat.file_write_bytes, 0);
    assert_eq!(stat.net_rx_bytes, 0);
    assert_eq!(stat.net_tx_bytes, 0);
}

fn key(pid: u32, dport: u16, protocol: u16) -> NetFlowKey {
    NetFlowKey { pid, saddr: 0x0100007f, daddr: 0x08080808, sport: 12345, dport, family: 2, protocol }
}

#[test]
fn test_net_flow_key_equality() {
    let key1 = NetFlowKey {
        pid: 1234,
        saddr: 0x0100007f,
        daddr: 0x08080808,
        sport: 12345,
        dport: 80,
        family: 2,
        protocol: 6,
    };
    let key2 = NetFlowKey {
        pid: 1234,
        saddr: 0x0100007f,
        daddr: 0x08080808,
        sport: 12345,
        dport: 80,
        family: 2,
        protocol: 6,
    };
    assert_eq!(key1, key2);
}

#[test]
fn test_net_flow_key_inequality() {
    let key1 = key(1234, 80, 6);
    let key2 = key(5678, 80, 6);
    assert_ne!(key1, key2);
}

#[test]
fn test_net_flow_stat_default() {
    let stat = NetFlowStat { rx_bytes: 0, tx_bytes: 0, rx_packets: 0, tx_packets: 0 };
    assert_eq!(stat.rx_bytes, 0);
    assert_eq!(stat.tx_bytes, 0);
    assert_eq!(stat.rx_packets, 0);
    assert_eq!(stat.tx_packets, 0);
}

#[test]
fn test_net_flow_stat_accumulation() {
    let stat1 = NetFlowStat { rx_bytes: 1000, tx_bytes: 500, rx_packets: 10, tx_packets: 5 };
    let stat2 = NetFlowStat { rx_bytes: 2000, tx_bytes: 1500, rx_packets: 20, tx_packets: 15 };
    let total = NetFlowStat {
        rx_bytes: stat1.rx_bytes + stat2.rx_bytes,
        tx_bytes: stat1.tx_bytes + stat2.tx_bytes,
        rx_packets: stat1.rx_packets + stat2.rx_packets,
        tx_packets: stat1.tx_packets + stat2.tx_packets,
    };
    assert_eq!(total.rx_bytes, 3000);
    assert_eq!(total.tx_bytes, 2000);
    assert_eq!(total.rx_packets, 30);
    assert_eq!(total.tx_packets, 20);
}

#[test]
fn test_io_stat_accumulation() {
    let stat1 = IoStat { file_read_bytes: 1024, file_write_bytes: 512, net_rx_bytes: 2048, net_tx_bytes: 1024 };
    let stat2 = IoStat { file_read_bytes: 2048, file_write_bytes: 1024, net_rx_bytes: 4096, net_tx_bytes: 2048 };
    let total = IoStat {
        file_read_bytes: stat1.file_read_bytes + stat2.file_read_bytes,
        file_write_bytes: stat1.file_write_bytes + stat2.file_write_bytes,
        net_rx_bytes: stat1.net_rx_bytes + stat2.net_rx_bytes,
        net_tx_bytes: stat1.net_tx_bytes + stat2.net_tx_bytes,
    };
    assert_eq!(total.file_read_bytes, 3072);
    assert_eq!(total.file_write_bytes, 1536);
    assert_eq!(total.net_rx_bytes, 6144);
    assert_eq!(total.net_tx_bytes, 3072);
}

#[test]
fn test_net_flow_key_hash() {
    let key1 = key(1234, 80, 6);
    let key2 = key(1234, 80, 6);
    let mut set = HashSet::new();
    set.insert(key1);
    set.insert(key2);
    assert_eq!(set.len(), 1);
}

#[test]
fn test_net_flow_key_different_protocols() {
    let tcp_key = key(1234, 80, 6);
    let udp_key = key(1234, 53, 17);
    assert_ne!(tcp_key, udp_key);
}

#[test]
fn sum_io_adds_per_cpu_values() {
    let a = IoStat { file_read_bytes: 1, file_write_bytes: 2, net_rx_bytes: 3, net_tx_bytes: 4 };
    let b = IoStat { file_read_bytes: 10, file_write_bytes: 20, net_rx_bytes: 30, net_tx_bytes: 40 };
    let s = sum_io(&[a, b, a]);
    assert_eq!(s, IoStat { file_read_bytes: 12, file_write_bytes: 24, net_rx_bytes: 36, net_tx_bytes: 48 });
    assert_eq!(sum_io(&[]), IoStat::default());
    let big = IoStat { file_read_bytes: u64::MAX, file_write_bytes: 0, net_rx_bytes: 0, net_tx_bytes: 1 };
    let w = sum_io(&[big, a]);
    assert_eq!((w.file_read_bytes, w.net_tx_bytes), (0, 5));
}
