//! A bounded history of host snapshots: a ring buffer with FIFO eviction.
//! Snapshots are handed out as shared handles, which stay valid whatever is
//! stored or evicted later.
use vstd::prelude::*;

use std::collections::VecDeque;
use std::sync::Arc;

use crate::host::{now_millis, Host};

verus! {

/// Snapshots kept by default: one hour at one snapshot every ten seconds.
pub const DEFAULT_HISTORY_SIZE: usize = 360;

/// The retained sequence after storing `h` into `s` with room for `cap`: the
/// oldest snapshot goes first when the store is full.
pub open spec fn stored(s: Seq<Host>, cap: nat, h: Host) -> Seq<Host> {
    if s.len() >= cap && s.len() > 0 {
        s.drop_first().push(h)
    } else {
        s.push(h)
    }
}

/// The snapshots of `s` taken at or after `cutoff`, in order.
pub open spec fn recent(s: Seq<Host>, cutoff: int) -> Seq<Host>
    decreases s.len(),
{
    if s.len() == 0 {
        seq![]
    } else if s.last().timestamp >= cutoff {
        recent(s.drop_last(), cutoff).push(s.last())
    } else {
        recent(s.drop_last(), cutoff)
    }
}

pub open spec fn unshared(v: Seq<Arc<Host>>) -> Seq<Host> {
    v.map_values(|a: Arc<Host>| *a)
}

/// In-memory ring buffer of snapshots.
pub struct ArcMemoryStore {
    snapshots: VecDeque<Arc<Host>>,
    max_size: usize,
}

impl ArcMemoryStore {
    /// The retained snapshots, oldest first.
    pub closed spec fn retained(&self) -> Seq<Host> {
        unshared(self.snapshots@)
    }

    /// How many snapshots the store keeps.
    pub closed spec fn capacity(&self) -> nat {
        self.max_size as nat
    }

    pub fn new(max_size: usize) -> (r: ArcMemoryStore)
        ensures
            r.retained().len() == 0,
            r.capacity() == max_size,
    {
        let r = ArcMemoryStore { snapshots: VecDeque::new(), max_size };
        assert(r.retained() =~= seq![]);
        r
    }

    pub fn with_default_size() -> (r: ArcMemoryStore)
        ensures
            r.retained().len() == 0,
            r.capacity() == DEFAULT_HISTORY_SIZE,
    {
        ArcMemoryStore::new(DEFAULT_HISTORY_SIZE)
    }

    /// Appends `snapshot`, evicting the oldest one first when the store is full.
    pub fn store(&mut self, snapshot: Host)
        ensures
            final(self).retained() == stored(old(self).retained(), old(self).capacity(), snapshot),
            final(self).capacity() == old(self).capacity(),
    {
        let ghost before = self.snapshots@;
        if self.snapshots.len() >= self.max_size {
            let _evicted = self.snapshots.pop_front();
        }
        self.snapshots.push_back(Arc::new(snapshot));
        proof {
            if before.len() >= self.max_size && before.len() > 0 {
                assert(unshared(self.snapshots@) =~= unshared(before).drop_first().push(snapshot));
            } else {
                assert(unshared(self.snapshots@) =~= unshared(before).push(snapshot));
            }
        }
    }

    /// The most recently stored snapshot.
    pub fn get_latest(&self) -> (r: Option<Arc<Host>>)
        ensures
            self.retained().len() == 0 <==> r is None,
            r matches Some(h) ==> *h == self.retained().last(),
    {
        let n = self.snapshots.len();
        if n == 0 {
            None
        } else {
            Some(self.snapshots[n - 1].clone())
        }
    }

    /// The retained snapshots taken at or after `now - window_ms`, in order.
    pub fn history_since(&self, now: i64, window_ms: u64) -> (r: Vec<Arc<Host>>)
        ensures
            unshared(r@) == recent(self.retained(), now - window_ms),
    {
        let cutoff = now as i128 - window_ms as i128;
        let ghost s = self.retained();
        let mut out: Vec<Arc<Host>> = Vec::new();
        let mut i: usize = 0;
        while i < self.snapshots.len()
            invariant
                i <= self.snapshots@.len(),
                s == unshared(self.snapshots@),
                cutoff == now - window_ms,
                unshared(out@) == recent(s.take(i as int), cutoff as int),
            decreases self.snapshots@.len() - i,
        {
            assert(s.take(i + 1).drop_last() =~= s.take(i as int));
            assert(s.take(i + 1).last() == *self.snapshots@[i as int]);
            if self.snapshots[i].timestamp as i128 >= cutoff {
                let ghost before = unshared(out@);
                out.push(self.snapshots[i].clone());
                assert(unshared(out@) =~= before.push(*self.snapshots@[i as int]));
            }
            i += 1;
        }
        assert(s.take(i as int) =~= s);
        out
    }

    /// The retained snapshots taken within `window_ms` of the current time,
    /// in order.
    pub fn get_history(&self, window_ms: u64) -> (r: Vec<Arc<Host>>)
        ensures
            exists|now: i64| unshared(r@) == #[trigger] recent(self.retained(), now - window_ms),
    {
        let now = now_millis();
        let r = self.history_since(now, window_ms);
        assert(unshared(r@) == recent(self.retained(), now - window_ms));
        r
    }

    pub fn len(&self) -> (r: usize)
        ensures
            r == self.retained().len(),
    {
        self.snapshots.len()
    }

    pub fn is_empty(&self) -> (r: bool)
        ensures
            r == (self.retained().len() == 0),
    {
        self.len() == 0
    }
}

} // verus!

verus! {

/// A history query keeps exactly the snapshots taken at or after the cutoff,
/// in their order of insertion: `idx` gives the position in `s` of each kept
/// snapshot; positions increase, every kept snapshot is recent enough, and
/// every recent enough snapshot is kept.
pub proof fn lemma_history_window(s: Seq<Host>, cutoff: int) -> (idx: Seq<int>)
    ensures
        idx.len() == recent(s, cutoff).len(),
        forall|k: int|
            0 <= k < idx.len() ==> 0 <= #[trigger] idx[k] < s.len() && recent(s, cutoff)[k]
                == s[idx[k]] && s[idx[k]].timestamp >= cutoff,
        forall|a: int, b: int| 0 <= a < b < idx.len() ==> idx[a] < idx[b],
        forall|i: int| 0 <= i < s.len() && #[trigger] s[i].timestamp >= cutoff ==> idx.contains(i),
    decreases s.len(),
{
    if s.len() == 0 {
        seq![]
    } else {
        let prev = lemma_history_window(s.drop_last(), cutoff);
        let n = s.len() - 1;
        assert(forall|i: int| 0 <= i < n ==> s.drop_last()[i] == s[i]);
        if s.last().timestamp >= cutoff {
            let idx = prev.push(n);
            assert forall|i: int| 0 <= i < s.len() && #[trigger] s[i].timestamp >= cutoff implies idx.contains(
                i,
            ) by {
                if i == n {
                    assert(idx[idx.len() - 1] == n);
                } else {
                    assert(s.drop_last()[i].timestamp >= cutoff);
                    let w = choose|w: int| 0 <= w < prev.len() && prev[w] == i;
                    assert(idx[w] == i);
                }
            }
            idx
        } else {
            assert forall|i: int| 0 <= i < s.len() && #[trigger] s[i].timestamp >= cutoff implies prev.contains(
                i,
            ) by {
                assert(i != n);
                assert(s.drop_last()[i].timestamp >= cutoff);
            }
            prev
        }
    }
}

} // verus!

verus! {

/// Storing and querying host snapshots.
pub trait MetricStore {
    /// The retained snapshots, oldest first.
    spec fn history(&self) -> Seq<Host>;

    /// How many snapshots are kept.
    spec fn room(&self) -> nat;

    /// Appends `snapshot`, evicting the oldest one first when the store is full.
    fn store(&mut self, snapshot: Host)
        ensures
            final(self).history() == stored(old(self).history(), old(self).room(), snapshot),
            final(self).room() == old(self).room(),
    ;

    /// The most recently stored snapshot.
    fn get_latest(&self) -> (r: Option<&Host>)
        ensures
            self.history().len() == 0 <==> r is None,
            r matches Some(h) ==> *h == self.history().last(),
    ;

    /// The retained snapshots taken within `window_ms` of the current time, in order.
    fn get_history(&self, window_ms: u64) -> (r: Vec<&Host>)
        ensures
            exists|now: i64|
                r@.map_values(|h: &Host| *h) == #[trigger] recent(self.history(), now - window_ms),
    ;

    fn len(&self) -> (r: usize)
        ensures
            r == self.history().len(),
    ;

    fn is_empty(&self) -> (r: bool)
        ensures
            r == (self.history().len() == 0),
    ;
}

/// In-memory ring buffer of snapshots that lends them out by reference.
pub struct MemoryStore {
    snapshots: VecDeque<Host>,
    max_size: usize,
}

impl MemoryStore {
    pub fn new(max_size: usize) -> (r: MemoryStore)
        ensures
            r.history().len() == 0,
            r.room() == max_size,
    {
        MemoryStore { snapshots: VecDeque::new(), max_size }
    }

    pub fn with_default_size() -> (r: MemoryStore)
        ensures
            r.history().len() == 0,
            r.room() == DEFAULT_HISTORY_SIZE,
    {
        MemoryStore::new(DEFAULT_HISTORY_SIZE)
    }
}

impl MetricStore for MemoryStore {
    closed spec fn history(&self) -> Seq<Host> {
        self.snapshots@
    }

    closed spec fn room(&self) -> nat {
        self.max_size as nat
    }

    fn store(&mut self, snapshot: Host) {
        let ghost before = self.snapshots@;
        if self.snapshots.len() >= self.max_size {
            let _evicted = self.snapshots.pop_front();
        }
        self.snapshots.push_back(snapshot);
        proof {
            if before.len() >= self.max_size && before.len() > 0 {
                assert(self.snapshots@ =~= before.drop_first().push(snapshot));
            }
        }
    }

    fn get_latest(&self) -> (r: Option<&Host>) {
        let n = self.snapshots.len();
        if n == 0 {
            None
        } else {
            Some(&self.snapshots[n - 1])
        }
    }

    fn get_history(&self, window_ms: u64) -> (r: Vec<&Host>) {
        let now = now_millis();
        let cutoff = now as i128 - window_ms as i128;
        let ghost s = self.snapshots@;
        let mut out: Vec<&Host> = Vec::new();
        let mut i: usize = 0;
        while i < self.snapshots.len()
            invariant
                i <= s.len(),
                s == self.snapshots@,
                cutoff == now - window_ms,
                out@.map_values(|h: &Host| *h) == recent(s.take(i as int), cutoff as int),
            decreases s.len() - i,
        {
            assert(s.take(i + 1).drop_last() =~= s.take(i as int));
            assert(s.take(i + 1).last() == s[i as int]);
            let h = &self.snapshots[i];
            if h.timestamp as i128 >= cutoff {
                let ghost before = out@.map_values(|h: &Host| *h);
                out.push(h);
                assert(out@.map_values(|h: &Host| *h) =~= before.push(s[i as int]));
            }
            i += 1;
        }
        assert(s.take(i as int) =~= s);
        assert(out@.map_values(|h: &Host| *h) == recent(self.history(), now - window_ms));
        out
    }

    fn len(&self) -> (r: usize) {
        self.snapshots.len()
    }

    fn is_empty(&self) -> (r: bool) {
        self.snapshots.len() == 0
    }
}

} // verus!

verus! {

/// What storing `hs` in order into an empty store with room for `cap` retains.
pub open spec fn store_all(cap: nat, hs: Seq<Host>) -> Seq<Host>
    decreases hs.len(),
{
    if hs.len() == 0 {
        seq![]
    } else {
        stored(store_all(cap, hs.drop_last()), cap, hs.last())
    }
}

/// Storing snapshots in order into an empty store with room for `cap` (at
/// least one) retains exactly the last `cap` of them, in order.
pub proof fn lemma_store_keeps_newest(cap: nat, hs: Seq<Host>)
    requires
        cap >= 1,
    ensures
        store_all(cap, hs) == hs.skip(
            if hs.len() > cap {
                hs.len() - cap
            } else {
                0
            },
        ),
    decreases hs.len(),
{
    if hs.len() > 0 {
        let n = hs.len();
        let prefix = hs.drop_last();
        lemma_store_keeps_newest(cap, prefix);
        if n - 1 < cap {
            assert(prefix.skip(0) =~= prefix);
            assert(hs.skip(0) =~= prefix.push(hs.last()));
        } else {
            let prev = prefix.skip(n - 1 - cap);
            assert(prev.len() == cap);
            assert(prev.drop_first().push(hs.last()) =~= hs.skip(n - cap));
        }
    } else {
        assert(hs.skip(0) =~= hs);
    }
}

} // verus!
