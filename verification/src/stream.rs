//! Who listens to which process's event stream. The first subscriber of a
//! pid turns on event capture for it in the kernel map of target pids; the
//! last one to leave turns it off again. The table decides; the caller
//! updates the kernel map and the channels.

use std::collections::HashMap;

use vstd::prelude::*;

verus! {

broadcast use vstd::std_specs::hash::group_hash_axioms;

/// Number of live subscribers per pid (only pids that have some).
pub struct SubscriberTable {
    counts: HashMap<u32, u64>,
}

impl View for SubscriberTable {
    type V = Map<u32, u64>;

    closed spec fn view(&self) -> Map<u32, u64> {
        self.counts@
    }
}

/// Capacity of a pid's event channel: the configured event limit, at least 1.
pub open spec fn capacity_for(event_limit: usize) -> usize {
    if event_limit < 1 {
        1
    } else {
        event_limit
    }
}

/// The capacity of a pid's event channel.
pub fn channel_capacity(event_limit: usize) -> (c: usize)
    ensures
        c == capacity_for(event_limit),
{
    if event_limit < 1 {
        1
    } else {
        event_limit
    }
}

impl SubscriberTable {
    /// Every listed pid has at least one subscriber.
    pub open spec fn wf(&self) -> bool {
        forall|p: u32| #[trigger] self@.contains_key(p) ==> self@[p] > 0
    }

    /// The subscribers of `pid`.
    pub open spec fn count(&self, pid: u32) -> nat {
        if self@.contains_key(pid) {
            self@[pid] as nat
        } else {
            0
        }
    }

    /// A table with no subscriber.
    pub fn new() -> (t: Self)
        ensures
            t@ == Map::<u32, u64>::empty(),
            t.wf(),
    {
        SubscriberTable { counts: HashMap::new() }
    }

    /// Records one more subscriber of `pid`; returns whether it is the first,
    /// in which case capture must be turned on for `pid`.
    pub fn subscribe(&mut self, pid: u32) -> (arm: bool)
        requires
            old(self).wf(),
            old(self).count(pid) < u64::MAX,
        ensures
            final(self).wf(),
            arm == (old(self).count(pid) == 0),
            final(self)@ == old(self)@.insert(pid, (old(self).count(pid) + 1) as u64),
    {
        let n: u64 = match self.counts.get(&pid) {
            Some(c) => *c,
            None => 0,
        };
        let ghost before = self.counts@;
        self.counts.insert(pid, n + 1);
        assert forall|p: u32| #[trigger] self.counts@.contains_key(p) implies self.counts@[p] > 0 by {
            if p != pid {
                assert(before.contains_key(p) && before[p] == self.counts@[p]);
            }
        }
        n == 0
    }

    /// Records that a subscriber of `pid` left; returns whether it was the
    /// last, in which case capture must be turned off for `pid`. A pid with
    /// no subscriber is left as it is.
    pub fn unsubscribe(&mut self, pid: u32) -> (unmap: bool)
        requires
            old(self).wf(),
        ensures
            final(self).wf(),
            unmap == (old(self).count(pid) == 1),
            final(self)@ == if old(self).count(pid) == 0 {
                old(self)@
            } else if old(self).count(pid) == 1 {
                old(self)@.remove(pid)
            } else {
                old(self)@.insert(pid, (old(self).count(pid) - 1) as u64)
            },
    {
        let n: u64 = match self.counts.get(&pid) {
            Some(c) => *c,
            None => 0,
        };
        if n == 0 {
            return false;
        }
        let ghost before = self.counts@;
        if n == 1 {
            self.counts.remove(&pid);
            assert forall|p: u32| #[trigger] self.counts@.contains_key(p) implies self.counts@[p] > 0 by {
                assert(before.contains_key(p) && before[p] == self.counts@[p]);
                assert(old(self)@.contains_key(p));
            }
            return true;
        }
        self.counts.insert(pid, n - 1);
        assert forall|p: u32| #[trigger] self.counts@.contains_key(p) implies self.counts@[p] > 0 by {
            if p != pid {
                assert(before.contains_key(p) && before[p] == self.counts@[p]);
                assert(old(self)@.contains_key(p));
            }
        }
        false
    }

    /// The number of subscribers of `pid`.
    pub fn subscriber_count(&self, pid: u32) -> (n: u64)
        requires
            self.wf(),
        ensures
            n == self.count(pid),
    {
        match self.counts.get(&pid) {
            Some(c) => *c,
            None => 0,
        }
    }

    /// Whether `pid` has a subscriber, so that its events are forwarded.
    pub fn is_subscribed(&self, pid: u32) -> (b: bool)
        ensures
            b == (self.count(pid) > 0),
    {
        match self.counts.get(&pid) {
            Some(c) => *c > 0,
            None => false,
        }
    }
}

/// Subscribing to a pid and then leaving it restores the table, and the pair
/// turns capture on and off exactly when there was no other subscriber.
pub proof fn lemma_subscribe_unsubscribe(t0: Map<u32, u64>, pid: u32)
    requires
        forall|p: u32| #[trigger] t0.contains_key(p) ==> t0[p] > 0,
        !t0.contains_key(pid) || t0[pid] < u64::MAX,
    ensures
        ({
            let n: nat = if t0.contains_key(pid) { t0[pid] as nat } else { 0 };
            let t1 = t0.insert(pid, (n + 1) as u64);
            let back = if n + 1 == 1 {
                t1.remove(pid)
            } else {
                t1.insert(pid, n as u64)
            };
            back == t0
        }),
{
    let n: nat = if t0.contains_key(pid) { t0[pid] as nat } else { 0 };
    let t1 = t0.insert(pid, (n + 1) as u64);
    if n == 0 {
        assert(t1.remove(pid) =~= t0);
    } else {
        assert(t1.insert(pid, n as u64) =~= t0);
    }
}

} // verus!
