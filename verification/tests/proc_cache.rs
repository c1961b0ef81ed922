use beemon::pb::event::Event as Payload;
use beemon::pb::{Event, SetnsEvent, SyscallEvent};
use beemon::snapshot::manager::Manager;
use beemon::snapshot::namespace_tree_cache::NamespaceTreeCache;
use beemon::snapshot::on_event;
use beemon::snapshot::proc_cache::{ns_inode, ns_labels, resolve_cgroup_v2_path, cgroup_path_in, ProcCache};
use std::collections::HashSet;
use std::time::Duration;

/// A stand-in for `/proc` holding the init process only.
fn sys_read(p: &str) -> Option<String> {
    match p {
        "/proc/1/stat" => Some("1 (systemd) S 0 1 1 0 -1 4194560 123 0 0 0 5 4 0 0 20 0 1 0 100 0".to_string()),
        "/proc/1/cgroup" => Some("0::/init.scope\n".to_string()),
        _ => None,
    }
}

fn sys_links(dir: &str) -> Option<Vec<(String, String)>> {
    if dir == "/proc/1/ns" {
        Some(vec![("pid".to_string(), "pid:[4026531836]".to_string())])
    } else {
        None
    }
}

fn no_links(_dir: &str) -> Option<Vec<(String, String)>> {
    None
}

#[test]
fn test_proc_cache_new() {
    let cache = ProcCache::new(Duration::from_secs(10));
    assert_eq!(cache.entries().len(), 0);
}

#[test]
fn test_proc_cache_get_or_load_nonexistent_pid() {
    let mut cache = ProcCache::new(Duration::from_secs(10));
    let result = cache.get_or_load(999999999, &sys_read, &sys_links);
    assert!(result.is_none());
    assert_eq!(cache.entries().len(), 0);
}

#[test]
fn test_proc_cache_get_or_load_init_pid() {
    let mut cache = ProcCache::new(Duration::from_secs(10));
    let result = cache.get_or_load(1, &sys_read, &sys_links).cloned();
    if let Some(entry) = result {
        assert_eq!(entry.pid, 1);
        assert!(!entry.comm.is_empty());
        assert_eq!(cache.entries().len(), 1);
    }
}

#[test]
fn test_proc_cache_caching() {
    let mut cache = ProcCache::new(Duration::from_secs(10));
    let result1 = cache.get_or_load(1, &sys_read, &sys_links).is_some();
    if result1 {
        assert_eq!(cache.entries().len(), 1);
        let result2 = cache.get_or_load(1, &sys_read, &sys_links).is_some();
        assert!(result2);
        assert_eq!(cache.entries().len(), 1);
    }
}

#[test]
fn test_proc_cache_invalidate() {
    let mut cache = ProcCache::new(Duration::from_secs(10));
    cache.get_or_load(1, &sys_read, &sys_links);
    if cache.entries().len() > 0 {
        cache.invalidate(1);
        assert_eq!(cache.entries().len(), 0);
    }
}

#[test]
fn test_proc_cache_sweep() {
    let mut cache = ProcCache::new(Duration::from_secs(10));
    cache.get_or_load(1, &sys_read, &sys_links);
    let mut alive = HashSet::new();
    alive.insert(1);
    cache.sweep(&alive);
    if cache.entries().contains_key(&1) {
        assert_eq!(cache.entries().len(), 1);
    }
    let empty = HashSet::new();
    cache.sweep(&empty);
    assert_eq!(cache.entries().len(), 0);
}

#[test]
fn test_proc_cache_generation_of() {
    let mut cache = ProcCache::new(Duration::from_secs(10));
    let gen1 = cache.generation_of(1);
    assert!(gen1.is_none());
    cache.get_or_load(1, &sys_read, &sys_links);
    let gen2 = cache.generation_of(1);
    if gen2.is_some() {
        assert!(gen2.unwrap().elapsed().as_millis() < 100);
    }
}

#[test]
fn test_proc_cache_multiple_pids() {
    let mut cache = ProcCache::new(Duration::from_secs(10));
    for pid in [1, 2, 3] {
        cache.get_or_load(pid, &sys_read, &sys_links);
    }
}

#[test]
fn test_resolve_cgroup_v2_path_nonexistent() {
    let result = resolve_cgroup_v2_path(999999999, &sys_read);
    assert!(result.is_none());
}

#[test]
fn test_resolve_cgroup_v2_path_init_pid() {
    let result = resolve_cgroup_v2_path(1, &sys_read);
    if let Some(path) = result {
        assert!(!path.is_empty());
        assert!(!path.starts_with('/'));
    }
}

#[test]
fn test_proc_cache_entry_fields() {
    let mut cache = ProcCache::new(Duration::from_secs(10));
    if let Some(entry) = cache.get_or_load(1, &sys_read, &sys_links) {
        assert_eq!(entry.pid, 1);
        assert!(!entry.comm.is_empty());
        assert!(entry.loaded_at.elapsed().as_millis() < 100);
    }
}

#[test]
fn test_proc_cache_invalidate_nonexistent() {
    let mut cache = ProcCache::new(Duration::from_secs(10));
    cache.invalidate(999999999);
    assert_eq!(cache.entries().len(), 0);
}

fn fake_proc(p: &str) -> Option<String> {
    match p {
        "/proc/100/stat" => Some("100 (test1) S 1 0 0 0 -1 0 0 0 0 0 0 0".to_string()),
        "/proc/200/stat" => Some("200 (test2) S 1 0 0 0 -1 0 0 0 0 0 0 0".to_string()),
        "/proc/300/stat" => Some("300 (app) S 200 0 0 0 -1 0 0 0 0 0 0 0".to_string()),
        "/proc/1/stat" => Some("1 (systemd) S 0 0 0 0 -1 0 0 0 0 0 0 0".to_string()),
        "/proc/100/cgroup" => Some("0::/system.slice/test1.service\n".to_string()),
        _ => None,
    }
}

fn fake_links(dir: &str) -> Option<Vec<(String, String)>> {
    if dir == "/proc/100/ns" {
        Some(vec![
            ("mnt".to_string(), "mnt:[4026531840]".to_string()),
            ("net".to_string(), "net:[4026531992]".to_string()),
            ("odd".to_string(), "odd".to_string()),
        ])
    } else {
        None
    }
}

#[test]
fn test_proc_cache_sweep_partial() {
    let mut cache = ProcCache::new(Duration::from_secs(10));
    cache.get_or_load(100, &fake_proc, &fake_links);
    cache.get_or_load(200, &fake_proc, &fake_links);
    assert_eq!(cache.entries().len(), 2);
    let mut alive = HashSet::new();
    alive.insert(100);
    cache.sweep(&alive);
    assert_eq!(cache.entries().len(), 1);
    assert!(cache.entries().contains_key(&100));
    assert!(!cache.entries().contains_key(&200));
}

#[test]
fn proc_cache_loads_every_field() {
    let mut cache = ProcCache::new(Duration::from_secs(10));
    let e = cache.get_or_load(100, &fake_proc, &fake_links).unwrap().clone();
    assert_eq!(e.pid, 100);
    assert_eq!(e.ppid, 1);
    assert_eq!(e.comm, "test1");
    assert_eq!(
        e.namespaces,
        vec![("mnt".to_string(), 4026531840u64), ("net".to_string(), 4026531992u64)]
    );
    assert_eq!(e.cgroup_path, Some("system.slice/test1.service".to_string()));
    assert_eq!(e.managed_by, Some(Manager::Systemd));
}

#[test]
fn proc_cache_walks_cached_parents_for_manager() {
    let mut cache = ProcCache::new(Duration::from_secs(10));
    assert!(cache.get_or_load(200, &fake_proc, &no_links).is_some());
    let e = cache.get_or_load(300, &fake_proc, &no_links).unwrap();
    assert_eq!(e.managed_by, None);
    assert_eq!(e.namespaces, vec![]);
}

#[test]
fn proc_cache_drops_exited_process() {
    let mut cache = ProcCache::new(Duration::from_secs(10));
    cache.get_or_load(100, &fake_proc, &fake_links);
    let stale = cache.refresh(100, true, &|_p: &str| -> Option<String> { None }, &fake_links);
    assert!(stale.is_none());
    assert_eq!(cache.entries().len(), 0);
}

#[test]
fn proc_cache_keeps_fresh_entry_and_manager() {
    let mut cache = ProcCache::new(Duration::from_secs(10));
    cache.get_or_load(100, &fake_proc, &fake_links);
    let kept = cache.refresh(100, false, &|_p: &str| -> Option<String> { None }, &no_links);
    assert_eq!(kept.unwrap().comm, "test1");
    let renamed = |p: &str| -> Option<String> {
        if p == "/proc/100/stat" {
            Some("100 (renamed) S 0 0 0 0 -1 0 0 0 0 0 0 0".to_string())
        } else {
            None
        }
    };
    let reloaded = cache.refresh(100, true, &renamed, &no_links).unwrap();
    assert_eq!(reloaded.comm, "renamed");
    assert_eq!(reloaded.ppid, 0);
    assert_eq!(reloaded.managed_by, Some(Manager::Systemd));
}

#[test]
fn ns_inode_parses_link_targets() {
    assert_eq!(ns_inode("pid:[4026531836]"), Some(4026531836));
    assert_eq!(ns_inode("pid_for_children:[12]"), Some(12));
    assert_eq!(ns_inode("pid:[]"), None);
    assert_eq!(ns_inode("pid:4026531836"), None);
    assert_eq!(ns_inode("]pid:["), None);
}

#[test]
fn cgroup_path_prefers_unified_then_memory_then_first() {
    assert_eq!(cgroup_path_in("0::/user.slice/a.scope\n"), Some("user.slice/a.scope".to_string()));
    let v1 = "12:cpu,cpuacct:/cpu/x\n4:memory:/mem/y\n3:pids:/p\n";
    assert_eq!(cgroup_path_in(v1), Some("mem/y".to_string()));
    assert_eq!(cgroup_path_in("3:pids:/p\n2:blkio:/b\n"), Some("p".to_string()));
    assert_eq!(cgroup_path_in("4:memory:/m\n0::/u\n"), Some("u".to_string()));
    assert_eq!(cgroup_path_in("0::\n"), None);
    assert_eq!(cgroup_path_in("0::/ok\nbroken\n"), None);
    assert_eq!(cgroup_path_in(""), None);
}

#[test]
fn setns_event_drops_cached_entry_and_index() {
    let mut cache = ProcCache::new(Duration::from_secs(10));
    let mut tree = NamespaceTreeCache::new(Duration::from_secs(10));
    cache.get_or_load(100, &fake_proc, &fake_links);
    cache.get_or_load(200, &fake_proc, &fake_links);
    tree.rebuild_from(cache.entries());
    assert!(!tree.is_stale());
    let other = Event { timestamp_ns: 1, pid: 100, event: Some(Payload::Syscall(SyscallEvent { syscall_id: 0 })) };
    on_event(&mut cache, &mut tree, &other);
    assert_eq!(cache.entries().len(), 2);
    assert!(!tree.is_stale());
    let setns = Event { timestamp_ns: 2, pid: 100, event: Some(Payload::Setns(SetnsEvent { fd: 3, nstype: 0 })) };
    on_event(&mut cache, &mut tree, &setns);
    assert!(!cache.entries().contains_key(&100));
    assert!(cache.entries().contains_key(&200));
    assert!(tree.is_stale());
}

#[test]
fn namespace_labels_match_link_targets() {
    let ns = vec![("mnt".to_string(), 4026531840u64), ("net".to_string(), 0u64)];
    assert_eq!(ns_labels(&ns), vec!["mnt:[4026531840]", "net:[0]"]);
    assert!(ns_labels(&vec![]).is_empty());
}

#[test]
fn root_cgroup_gives_no_path() {
    assert_eq!(cgroup_path_in("0::/\n"), None);
    assert_eq!(cgroup_path_in("0::/\n4:memory:/box\n"), Some("box".to_string()));
    assert_eq!(cgroup_path_in("0::///\n"), None);
    assert_eq!(cgroup_path_in("0::/a/b\n"), Some("a/b".to_string()));
}
