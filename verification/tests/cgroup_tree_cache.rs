use beemon::snapshot::cgroup::{cpu_max_of, read_limits, u64_max_of, unified_path_of};
use beemon::snapshot::cgroup_tree_cache::{find_cgroup_dir, no_limits, normalize, CgroupLimits, CgroupTreeCache};
use std::time::Duration;

/// A stand-in for a host whose cgroup tree holds no limit files.
fn sys_read(_p: &str) -> Option<String> {
    None
}

/// Nothing exists on that host's cgroup tree.
fn sys_present(_p: &str) -> bool {
    false
}

#[test]
fn test_cgroup_limits_default() {
    let limits = CgroupLimits::default();
    assert_eq!(limits.memory_limit_bytes, 0);
    assert_eq!(limits.cpu_quota_us, 0);
    assert_eq!(limits.cpu_period_us, 0);
    assert_eq!(limits.pids_limit, 0);
}

#[test]
fn test_cgroup_tree_cache_new() {
    let cache = CgroupTreeCache::new(Duration::from_secs(10));
    assert_eq!(cache.len(), 0);
    assert_eq!(cache.total_paths_seen, 0);
}

#[test]
fn test_cgroup_tree_cache_get_or_load_none_path() {
    let mut cache = CgroupTreeCache::new(Duration::from_secs(10));
    let result = cache.get_or_load(&None, 0, &sys_read, &sys_present);
    assert!(result.is_none());
    assert_eq!(cache.len(), 0);
}

#[test]
fn test_cgroup_tree_cache_get_or_load_nonexistent_path() {
    let mut cache = CgroupTreeCache::new(Duration::from_secs(10));
    let path = Some("nonexistent/cgroup/path".to_string());
    let result = cache.get_or_load(&path, 0, &sys_read, &sys_present);
    assert!(result.is_some());
    let limits = result.unwrap();
    assert_eq!(limits.memory_limit_bytes, 0);
    assert_eq!(limits.cpu_quota_us, 0);
    assert_eq!(limits.cpu_period_us, 0);
    assert_eq!(limits.pids_limit, 0);
    assert_eq!(cache.len(), 1);
    assert_eq!(cache.total_paths_seen, 1);
}

#[test]
fn test_cgroup_tree_cache_caching() {
    let mut cache = CgroupTreeCache::new(Duration::from_secs(10));
    let path = Some("test/path".to_string());
    let result1 = cache.get_or_load(&path, 0, &sys_read, &sys_present);
    assert!(result1.is_some());
    assert_eq!(cache.len(), 1);
    assert_eq!(cache.total_paths_seen, 1);
    let result2 = cache.get_or_load(&path, 0, &sys_read, &sys_present);
    assert!(result2.is_some());
    assert_eq!(cache.len(), 1);
    assert_eq!(cache.total_paths_seen, 1);
}

#[test]
fn test_cgroup_tree_cache_invalidate() {
    let mut cache = CgroupTreeCache::new(Duration::from_secs(10));
    let path = Some("test/path".to_string());
    cache.get_or_load(&path, 0, &sys_read, &sys_present);
    assert_eq!(cache.len(), 1);
    cache.invalidate("test/path");
    assert_eq!(cache.len(), 0);
    cache.get_or_load(&path, 0, &sys_read, &sys_present);
    assert_eq!(cache.len(), 1);
    assert_eq!(cache.total_paths_seen, 2);
}

#[test]
fn test_cgroup_tree_cache_multiple_paths() {
    let mut cache = CgroupTreeCache::new(Duration::from_secs(10));
    let path1 = Some("path1".to_string());
    let path2 = Some("path2".to_string());
    let path3 = Some("path3".to_string());
    cache.get_or_load(&path1, 0, &sys_read, &sys_present);
    cache.get_or_load(&path2, 0, &sys_read, &sys_present);
    cache.get_or_load(&path3, 0, &sys_read, &sys_present);
    assert_eq!(cache.len(), 3);
    assert_eq!(cache.total_paths_seen, 3);
}

#[test]
fn test_no_limits() {
    let limits = no_limits();
    assert_eq!(limits.memory_limit_bytes, 0);
    assert_eq!(limits.cpu_quota_us, 0);
    assert_eq!(limits.cpu_period_us, 0);
    assert_eq!(limits.pids_limit, 0);
}

/// What exists in the fake tree: the limit files and their directories.
fn fake_present(p: &str) -> bool {
    fake_sys(p).is_some() || fake_sys(&format!("{p}/memory.max")).is_some() || fake_sys(&format!("{p}/cpu.max")).is_some()
}

fn fake_sys(p: &str) -> Option<String> {
    match p {
        "/sys/fs/cgroup/system.slice/web.service/memory.max" => Some("536870912\n".to_string()),
        "/sys/fs/cgroup/system.slice/web.service/cpu.max" => Some("50000 100000\n".to_string()),
        "/sys/fs/cgroup/system.slice/web.service/pids.max" => Some("max\n".to_string()),
        "/sys/fs/cgroup/machine.slice/vm.scope/cpu.max" => Some("max 100000\n".to_string()),
        "/proc/7/cgroup" => Some("0::/system.slice/web.service\n".to_string()),
        _ => None,
    }
}

#[test]
fn cgroup_tree_cache_reads_limit_files() {
    let mut cache = CgroupTreeCache::new(Duration::from_secs(10));
    let l = cache.get_or_load(&Some("/system.slice/web.service".to_string()), 7, &fake_sys, &fake_present).unwrap();
    assert_eq!(l.memory_limit_bytes, 536870912);
    assert_eq!(l.cpu_quota_us, 50000);
    assert_eq!(l.cpu_period_us, 100000);
    assert_eq!(l.pids_limit, 0);
}

#[test]
fn find_cgroup_dir_falls_back_to_slices() {
    assert_eq!(find_cgroup_dir("/sys/fs/cgroup", "/a/../system.slice/./web.service", &fake_present), "/sys/fs/cgroup/system.slice/web.service");
    assert_eq!(find_cgroup_dir("/sys/fs/cgroup", "/kubepods/vm.scope", &fake_present), "/sys/fs/cgroup/machine.slice/vm.scope");
    assert_eq!(find_cgroup_dir("/sys/fs/cgroup", "/nowhere/x", &fake_present), "/sys/fs/cgroup/nowhere/x");
}

#[test]
fn normalize_drops_dot_components() {
    assert_eq!(normalize("/a/./b/../c"), "a/b/c");
    assert_eq!(normalize("//x"), "x");
    assert_eq!(normalize(""), "");
}

#[test]
fn limit_files_parse() {
    assert_eq!(u64_max_of("max\n"), 0);
    assert_eq!(u64_max_of(" 1024 \n"), 1024);
    assert_eq!(u64_max_of("junk"), 0);
    assert_eq!(cpu_max_of("max 100000\n"), (0, 100000));
    assert_eq!(cpu_max_of("25000 50000"), (25000, 50000));
    assert_eq!(cpu_max_of(""), (0, 0));
    assert_eq!(cpu_max_of("7"), (7, 0));
}

#[test]
fn read_limits_uses_unified_path() {
    assert_eq!(read_limits(7, &fake_sys), (536870912, 50000, 100000, 0));
    assert_eq!(read_limits(8, &fake_sys), (0, 0, 0, 0));
    assert_eq!(unified_path_of("1:name=systemd:/x\n0::/y\n"), Some("y".to_string()));
    assert_eq!(unified_path_of("bad\n0::/y\n"), None);
}

#[test]
fn invalidated_cgroup_is_read_again() {
    let reads = std::cell::Cell::new(0u32);
    let counting = |p: &str| -> Option<String> {
        if p == "/sys/fs/cgroup/app.slice/memory.max" {
            reads.set(reads.get() + 1);
            Some("4096\n".to_string())
        } else {
            None
        }
    };
    let app_present = |p: &str| p == "/sys/fs/cgroup/app.slice" || p == "/sys/fs/cgroup/app.slice/memory.max";
    let mut cache = CgroupTreeCache::new(Duration::from_secs(60));
    let path = Some("/app.slice".to_string());
    let first = cache.get_or_load(&path, 1, &counting, &app_present).unwrap();
    assert_eq!(first.memory_limit_bytes, 4096);
    let n = reads.get();
    assert!(n >= 1);
    cache.get_or_load(&path, 1, &counting, &app_present);
    assert_eq!(reads.get(), n);
    cache.invalidate("/app.slice");
    assert_eq!(cache.len(), 0);
    let again = cache.get_or_load(&path, 1, &counting, &app_present).unwrap();
    assert_eq!(again.memory_limit_bytes, 4096);
    assert!(reads.get() > n);
    assert_eq!(cache.len(), 1);
    assert_eq!(cache.total_paths_seen, 2);
}

#[test]
fn refresh_serves_fresh_entries_and_rereads_stale_ones() {
    let reads = std::cell::Cell::new(0u32);
    let counting = |p: &str| -> Option<String> {
        if p == "/sys/fs/cgroup/db.slice/memory.max" {
            reads.set(reads.get() + 1);
            Some("1024\n".to_string())
        } else {
            None
        }
    };
    let db_present = |p: &str| p == "/sys/fs/cgroup/db.slice" || p == "/sys/fs/cgroup/db.slice/memory.max";
    let mut cache = CgroupTreeCache::new(Duration::from_secs(60));
    let path = Some("db.slice".to_string());
    assert_eq!(cache.refresh(&path, false, &counting, &db_present).unwrap().memory_limit_bytes, 1024);
    let n = reads.get();
    assert_eq!(cache.refresh(&path, false, &counting, &db_present).unwrap().memory_limit_bytes, 1024);
    assert_eq!(reads.get(), n);
    assert_eq!(cache.refresh(&path, true, &counting, &db_present).unwrap().memory_limit_bytes, 1024);
    assert!(reads.get() > n);
    assert_eq!(cache.paths_seen(), 1);
    assert!(cache.refresh(&None, true, &counting, &db_present).is_none());
    assert_eq!(cache.len(), 1);
}

#[test]
fn limit_files_must_exist_not_be_readable() {
    // The direct directory has a `memory.max` that exists but cannot be
    // read: it is still the directory chosen.
    let present = |p: &str| p == "/sys/fs/cgroup/a/web.service" || p == "/sys/fs/cgroup/a/web.service/memory.max"
        || p == "/sys/fs/cgroup/system.slice/web.service" || p == "/sys/fs/cgroup/system.slice/web.service/cpu.max";
    assert_eq!(find_cgroup_dir("/sys/fs/cgroup", "/a/web.service", &present), "/sys/fs/cgroup/a/web.service");
    // A limit file under a directory that is not there does not count.
    let orphan = |p: &str| p == "/sys/fs/cgroup/b/x/memory.max" || p == "/sys/fs/cgroup/user.slice/x" || p == "/sys/fs/cgroup/user.slice/x/cpu.max";
    assert_eq!(find_cgroup_dir("/sys/fs/cgroup", "b/x", &orphan), "/sys/fs/cgroup/user.slice/x");
}
