//! Per-process state read from `/proc` and `/sys/fs/cgroup`, and the caches
//! that keep it between scans.

pub mod cgroup;
pub mod cgroup_tree_cache;
pub mod details;
pub mod host;
pub mod manager;
pub mod namespace_tree_cache;
pub mod proc_cache;
pub mod procfields;

use vstd::prelude::*;

use crate::pb::event::Event as Payload;
use crate::pb::Event;
use crate::snapshot::namespace_tree_cache::NamespaceTreeCache;
use crate::snapshot::proc_cache::ProcCache;

verus! {

/// Which caches an event makes stale: a process exit drops the process's
/// cached fields; joining (setns) or creating (unshare) a namespace also
/// changes namespace membership. Other events change neither.
pub open spec fn invalidation_of(ev: Event) -> (bool, bool) {
    match ev.event {
        Some(Payload::Process(p)) => (p.is_exit, false),
        Some(Payload::Setns(_)) => (true, true),
        Some(Payload::Unshare(_)) => (true, true),
        _ => (false, false),
    }
}

/// Whether the event invalidates (the process cache entry of its pid, the
/// namespace index).
pub fn invalidations(ev: &Event) -> (r: (bool, bool))
    ensures
        r == invalidation_of(*ev),
{
    match &ev.event {
        Some(Payload::Process(p)) => (p.is_exit, false),
        Some(Payload::Setns(_)) => (true, true),
        Some(Payload::Unshare(_)) => (true, true),
        _ => (false, false),
    }
}

/// Applies the invalidations an event calls for.
pub fn on_event(proc_cache: &mut ProcCache, namespace_tree: &mut NamespaceTreeCache, ev: &Event)
    requires
        old(proc_cache).wf(),
    ensures
        final(proc_cache).wf(),
        final(proc_cache).ttl() == old(proc_cache).ttl(),
        final(proc_cache)@ == if invalidation_of(*ev).0 {
            old(proc_cache)@.remove(ev.pid)
        } else {
            old(proc_cache)@
        },
        final(namespace_tree).tree() == old(namespace_tree).tree(),
        final(namespace_tree).wf() == old(namespace_tree).wf(),
        final(namespace_tree).ttl() == old(namespace_tree).ttl(),
        final(namespace_tree).built() == (old(namespace_tree).built() && !invalidation_of(*ev).1),
        !invalidation_of(*ev).1 ==> *final(namespace_tree) == *old(namespace_tree),
{
    let (invalidate_proc, invalidate_tree) = invalidations(ev);
    if invalidate_proc {
        proc_cache.invalidate(ev.pid);
    }
    if invalidate_tree {
        namespace_tree.invalidate();
    }
}

/// Only namespace changes make the namespace index stale: setns and unshare
/// do, and no other event. The cached entry of the event's process is
/// dropped by those two and by the process's exit, and by nothing else.
pub proof fn lemma_invalidation_law(ev: Event)
    ensures
        invalidation_of(ev).1 <==> ((ev.event matches Some(Payload::Setns(_))) || (ev.event matches Some(
            Payload::Unshare(_),
        ))),
        invalidation_of(ev).0 <==> ((ev.event matches Some(Payload::Setns(_))) || (ev.event matches Some(
            Payload::Unshare(_),
        )) || (ev.event matches Some(Payload::Process(p)) && p.is_exit)),
{
}

} // verus!
