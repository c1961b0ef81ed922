use beemon::snapshot::host::{boot_time_of, read_boot_time, cpu_samples_of, host_namespaces_of, memtotal_of, read_cpu_samples, read_host_namespaces, read_memtotal_bytes};
use beemon::text_order::sort_texts;
use beemon::snapshot::manager::{detect_manager, manager_at, parse_proc_info, Manager};
use std::collections::HashMap;

#[test]
fn cpu_lines_are_summed() {
    let raw = "cpu  9 9 9 9 9 9 9 9 0 0\ncpu0 1 2 3 4 5 6 7 8 0 0\ncpu1 10 20 30 40\nintr 5\ncpu2 1 2 3\n";
    let s = cpu_samples_of(raw);
    assert_eq!(s.len(), 2);
    assert_eq!((s[0].busy, s[0].total), (1 + 2 + 3 + 6 + 7 + 8, 1 + 2 + 3 + 6 + 7 + 8 + 4 + 5));
    assert_eq!((s[1].busy, s[1].total), (60, 100));
    assert!(read_cpu_samples(&|_p: &str| -> Option<String> { None }).is_empty());
}

#[test]
fn memtotal_is_read_in_bytes() {
    assert_eq!(memtotal_of("MemFree: 5 kB\nMemTotal:  16384 kB\n"), 16384 * 1024);
    assert_eq!(memtotal_of("MemFree: 5 kB\n"), 0);
    let r = |p: &str| -> Option<String> { if p == "/proc/meminfo" { Some("MemTotal: 2 kB".into()) } else { None } };
    assert_eq!(read_memtotal_bytes(&r), 2048);
}

#[test]
fn manager_names_and_depths() {
    assert_eq!(Manager::Docker.as_str(), "dockerd");
    assert_eq!(Manager::Systemd.as_str(), "systemd");
    assert_eq!(manager_at("systemd", 1), Some(Manager::Systemd));
    assert_eq!(manager_at("systemd", 2), None);
    assert_eq!(manager_at("containerd", 5), Some(Manager::Containerd));
    assert_eq!(manager_at("crio", 0), None);
    let info = parse_proc_info("12 (my app) S 4 12 12 0").unwrap();
    assert_eq!((info.comm.as_str(), info.ppid), ("my app", 4));
    assert!(parse_proc_info("12 (x)").is_none());
}

#[test]
fn manager_walk_uses_cache_and_stat_files() {
    let mut cache = HashMap::new();
    cache.insert(300, ("app".to_string(), 200));
    let read = |p: &str| -> Option<String> {
        match p {
            "/proc/200/stat" => Some("200 (containerd-shim) S 150 0".to_string()),
            "/proc/150/stat" => Some("150 (containerd) S 1 0".to_string()),
            "/proc/1/stat" => Some("1 (systemd) S 0 0".to_string()),
            _ => None,
        }
    };
    assert_eq!(detect_manager(300, &cache, &read), Some(Manager::Containerd));
    assert_eq!(detect_manager(150, &cache, &read), Some(Manager::Systemd));
    assert_eq!(detect_manager(1, &cache, &read), None);
    assert_eq!(detect_manager(0, &cache, &read), None);
    let mut looped = HashMap::new();
    looped.insert(5, ("a".to_string(), 6));
    looped.insert(6, ("b".to_string(), 5));
    assert_eq!(detect_manager(5, &looped, &read), None);
}

#[test]
fn host_namespaces_are_sorted_and_keep_repeats() {
    let listing = vec![
        ("uts".to_string(), "uts:[4026531838]".to_string()),
        ("pid_for_children".to_string(), "pid:[4026531836]".to_string()),
        ("ipc".to_string(), "ipc:[4026531839]".to_string()),
        ("pid".to_string(), "pid:[4026531836]".to_string()),
    ];
    assert_eq!(
        host_namespaces_of(&listing),
        vec!["ipc:[4026531839]", "pid:[4026531836]", "pid:[4026531836]", "uts:[4026531838]"]
    );
    let l = |d: &str| -> Option<Vec<(String, String)>> {
        if d == "/proc/self/ns" { Some(vec![("net".to_string(), "net:[7]".to_string()), ("cgroup".to_string(), "cgroup:[9]".to_string())]) } else { None }
    };
    assert_eq!(read_host_namespaces(&l), vec!["cgroup:[9]", "net:[7]"]);
    assert!(read_host_namespaces(&|_d: &str| -> Option<Vec<(String, String)>> { None }).is_empty());
}

#[test]
fn texts_sort_like_str_order() {
    let v: Vec<String> = vec!["b".into(), "ab".into(), "a".into(), "b".into(), "".into()];
    assert_eq!(sort_texts(&v), vec!["", "a", "ab", "b", "b"]);
}

#[test]
fn boot_time_is_read_in_milliseconds() {
    assert_eq!(boot_time_of("cpu  1 2 3 4\nbtime 1700000000\nprocesses 5\n"), Some(1_700_000_000_000));
    assert_eq!(boot_time_of("btime  42 \n"), Some(42_000));
    assert_eq!(boot_time_of("cpu  1 2 3 4\n"), None);
    assert_eq!(boot_time_of("btime x\n"), None);
    assert_eq!(boot_time_of("btime 9223372036854775807\n"), None);
    let r = |p: &str| -> Option<String> { if p == "/proc/stat" { Some("btime 7\n".into()) } else { None } };
    assert_eq!(read_boot_time(&r), Some(7000));
    assert_eq!(read_boot_time(&|_p: &str| -> Option<String> { None }), None);
}
