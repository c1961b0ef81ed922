use beemon::snapshot::namespace_tree_cache::NamespaceTreeCache;
use beemon::snapshot::proc_cache::ProcCacheEntry;
use std::collections::HashMap;
use std::time::{Duration, Instant};

fn make_entry(pid: u32, namespaces: Vec<(String, u64)>) -> ProcCacheEntry {
    ProcCacheEntry {
        pid,
        ppid: 1,
        comm: format!("test_{}", pid),
        namespaces,
        cgroup_path: None,
        managed_by: None,
        loaded_at: Instant::now(),
    }
}

#[test]
fn test_namespace_tree_cache_new() {
    let cache = NamespaceTreeCache::new(Duration::from_secs(10));
    assert!(cache.is_stale());
    assert_eq!(cache.num_entries(), 0);
}

#[test]
fn test_namespace_tree_cache_rebuild_empty() {
    let mut cache = NamespaceTreeCache::new(Duration::from_secs(10));
    let proc_cache = HashMap::new();
    cache.rebuild_from(&proc_cache);
    assert!(!cache.is_stale());
    assert_eq!(cache.num_entries(), 0);
}

#[test]
fn test_namespace_tree_cache_rebuild_with_data() {
    let mut cache = NamespaceTreeCache::new(Duration::from_secs(10));
    let mut proc_cache = HashMap::new();
    let ns1 = vec![("mnt".to_string(), 4026531840), ("net".to_string(), 4026531992)];
    let ns2 = vec![("mnt".to_string(), 4026531840), ("net".to_string(), 4026531993)];
    proc_cache.insert(1, make_entry(1, ns1));
    proc_cache.insert(2, make_entry(2, ns2));
    cache.rebuild_from(&proc_cache);
    assert!(!cache.is_stale());
    assert_eq!(cache.num_entries(), 3);
}

#[test]
fn test_namespace_tree_cache_find_any_pid() {
    let mut cache = NamespaceTreeCache::new(Duration::from_secs(10));
    let mut proc_cache = HashMap::new();
    let ns = vec![("mnt".to_string(), 4026531840)];
    proc_cache.insert(100, make_entry(100, ns.clone()));
    proc_cache.insert(200, make_entry(200, ns));
    cache.rebuild_from(&proc_cache);
    let pid = cache.find_any_pid("mnt", 4026531840);
    assert!(pid.is_some());
    assert!(pid == Some(100) || pid == Some(200));
}

#[test]
fn test_namespace_tree_cache_find_any_pid_not_found() {
    let mut cache = NamespaceTreeCache::new(Duration::from_secs(10));
    let proc_cache = HashMap::new();
    cache.rebuild_from(&proc_cache);
    let pid = cache.find_any_pid("mnt", 9999999);
    assert!(pid.is_none());
}

#[test]
fn test_namespace_tree_cache_pids_in() {
    let mut cache = NamespaceTreeCache::new(Duration::from_secs(10));
    let mut proc_cache = HashMap::new();
    let ns = vec![("mnt".to_string(), 4026531840)];
    proc_cache.insert(300, make_entry(300, ns.clone()));
    proc_cache.insert(100, make_entry(100, ns.clone()));
    proc_cache.insert(200, make_entry(200, ns));
    cache.rebuild_from(&proc_cache);
    let pids = cache.pids_in("mnt", 4026531840);
    assert_eq!(pids, vec![100, 200, 300]);
}

#[test]
fn test_namespace_tree_cache_pids_in_empty() {
    let mut cache = NamespaceTreeCache::new(Duration::from_secs(10));
    let proc_cache = HashMap::new();
    cache.rebuild_from(&proc_cache);
    let pids = cache.pids_in("mnt", 9999999);
    assert!(pids.is_empty());
}

#[test]
fn test_namespace_tree_cache_invalidate() {
    let mut cache = NamespaceTreeCache::new(Duration::from_secs(10));
    let proc_cache = HashMap::new();
    cache.rebuild_from(&proc_cache);
    assert!(!cache.is_stale());
    cache.invalidate();
    assert!(cache.is_stale());
}

#[test]
fn test_namespace_tree_cache_multiple_namespaces_per_pid() {
    let mut cache = NamespaceTreeCache::new(Duration::from_secs(10));
    let mut proc_cache = HashMap::new();
    let ns = vec![
        ("mnt".to_string(), 4026531840),
        ("net".to_string(), 4026531992),
        ("uts".to_string(), 4026531838),
        ("ipc".to_string(), 4026531839),
    ];
    proc_cache.insert(1, make_entry(1, ns));
    cache.rebuild_from(&proc_cache);
    assert_eq!(cache.num_entries(), 4);
    assert_eq!(cache.pids_in("mnt", 4026531840), vec![1]);
    assert_eq!(cache.pids_in("net", 4026531992), vec![1]);
    assert_eq!(cache.pids_in("uts", 4026531838), vec![1]);
    assert_eq!(cache.pids_in("ipc", 4026531839), vec![1]);
}

#[test]
fn namespace_tree_invalidate_keeps_index() {
    let mut cache = NamespaceTreeCache::new(Duration::from_secs(10));
    let mut proc_cache = HashMap::new();
    proc_cache.insert(5, make_entry(5, vec![("pid".to_string(), 7)]));
    cache.rebuild_from(&proc_cache);
    cache.invalidate();
    assert_eq!(cache.pids_in("pid", 7), vec![5]);
    assert_eq!(cache.find_any_pid("pid", 7), Some(5));
    assert_eq!(cache.find_any_pid("net", 7), None);
}
