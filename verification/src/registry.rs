//! Session/cancellation registry: one cancellable task per stream identity.
//!
//! The registry maps each stream identity to the handle of its in-flight
//! task. Registering an identity already present hands back the previous
//! handle so the caller can abort it; cancelling removes the entry and hands
//! back the handle; cancelling an absent identity is a no-op. The handles
//! are opaque numbers the application associates with its own task objects.
use vstd::prelude::*;
use crate::text::str_eq;

verus! {

/// Tracks one task handle per stream identity.
pub struct StreamTaskRegistry {
    entries: Vec<(String, u64)>,
}

impl View for StreamTaskRegistry {
    type V = Map<Seq<char>, u64>;

    closed spec fn view(&self) -> Map<Seq<char>, u64> {
        Map::new(
            |id: Seq<char>| exists|k: int| 0 <= k < self.entries@.len() && self.entries@[k].0@ == id,
            |id: Seq<char>| self.entries@[choose|k: int|
                0 <= k < self.entries@.len() && self.entries@[k].0@ == id].1,
        )
    }
}

impl StreamTaskRegistry {
    /// Each identity appears at most once.
    pub closed spec fn wf(&self) -> bool {
        forall|i: int, j: int| 0 <= i < j < self.entries@.len() ==> self.entries@[i].0@
            != self.entries@[j].0@
    }

    /// The position of `id` among the entries, if present.
    fn find(&self, id: &str) -> (r: Option<usize>)
        ensures
            match r {
                Some(k) => k < self.entries@.len() && self.entries@[k as int].0@ == id@,
                None => forall|k: int| 0 <= k < self.entries@.len() ==> self.entries@[k].0@ != id@,
            },
    {
        let mut k: usize = 0;
        while k < self.entries.len()
            invariant
                k <= self.entries@.len(),
                forall|j: int| 0 <= j < k ==> self.entries@[j].0@ != id@,
            decreases self.entries@.len() - k,
        {
            if str_eq(self.entries[k].0.as_str(), id) {
                return Some(k);
            }
            k = k + 1;
        }
        None
    }

    /// The value at a present position is the mapped value.
    proof fn lemma_entry_is_view(&self, k: int)
        requires
            self.wf(),
            0 <= k < self.entries@.len(),
        ensures
            self@.contains_key(self.entries@[k].0@),
            self@[self.entries@[k].0@] == self.entries@[k].1,
    {
        let id = self.entries@[k].0@;
        assert(exists|j: int| 0 <= j < self.entries@.len() && self.entries@[j].0@ == id);
        let j = choose|j: int| 0 <= j < self.entries@.len() && self.entries@[j].0@ == id;
        assert(j == k);
    }

    /// Every entry is reflected in the view.
    proof fn lemma_view_entries(&self)
        requires
            self.wf(),
        ensures
            forall|k: int| 0 <= k < self.entries@.len() ==> self@.contains_key(
                #[trigger] self.entries@[k].0@,
            ) && self@[self.entries@[k].0@] == self.entries@[k].1,
    {
        assert forall|k: int| 0 <= k < self.entries@.len() implies self@.contains_key(
            #[trigger] self.entries@[k].0@,
        ) && self@[self.entries@[k].0@] == self.entries@[k].1 by {
            self.lemma_entry_is_view(k);
        }
    }

    /// An empty registry.
    pub fn new() -> (r: Self)
        ensures
            r@ == Map::<Seq<char>, u64>::empty(),
            r.wf(),
    {
        let r = StreamTaskRegistry { entries: Vec::new() };
        proof {
            assert(r@ =~= Map::<Seq<char>, u64>::empty());
        }
        r
    }

    /// Registers `handle` for `id`. When a task is already in flight for
    /// this identity its handle comes back, and the caller must abort it:
    /// at most one task per identity is ever live.
    pub fn register(&mut self, id: &str, handle: u64) -> (prev: Option<u64>)
        requires
            old(self).wf(),
        ensures
            final(self).wf(),
            final(self)@ == old(self)@.insert(id@, handle),
            prev == (if old(self)@.contains_key(id@) {
                Option::Some(old(self)@[id@])
            } else {
                Option::<u64>::None
            }),
    {
        match self.find(id) {
            Some(k) => {
                proof {
                    self.lemma_entry_is_view(k as int);
                }
                let previous = self.entries[k].1;
                self.entries.remove(k);
                self.entries.insert(k, (String::from_str(id), handle));
                proof {
                    assert(forall|i: int| 0 <= i < self.entries@.len() && i != k
                        ==> self.entries@[i] == old(self).entries@[i]);
                    assert(self.entries@[k as int].0@ == id@);
                    assert(self.wf());
                    self.lemma_view_entries();
                    old(self).lemma_view_entries();
                    assert(final(self)@ =~= old(self)@.insert(id@, handle));
                }
                Some(previous)
            },
            None => {
                self.entries.push((String::from_str(id), handle));
                proof {
                    let n = self.entries@.len() as int;
                    assert(forall|i: int| 0 <= i < n - 1 ==> self.entries@[i] == old(
                        self,
                    ).entries@[i]);
                    assert(self.wf());
                    let target = old(self)@.insert(id@, handle);
                    assert forall|x: Seq<char>| #[trigger] self@.contains_key(x) implies
                        target.contains_key(x) && self@[x] == target[x] by {
                        let k2 = choose|j: int|
                            0 <= j < self.entries@.len() && self.entries@[j].0@ == x;
                        self.lemma_entry_is_view(k2);
                        if k2 < n - 1 {
                            old(self).lemma_entry_is_view(k2);
                        }
                    }
                    assert forall|x: Seq<char>| #[trigger] target.contains_key(x) implies
                        self@.contains_key(x) by {
                        if x == id@ {
                            self.lemma_entry_is_view(n - 1);
                        } else {
                            let j = choose|j: int|
                                0 <= j < old(self).entries@.len() && old(self).entries@[j].0@ == x;
                            self.lemma_entry_is_view(j);
                        }
                    }
                    assert(final(self)@ =~= target);
                }
                None
            },
        }
    }

    /// Cancels the task for `id`: removes its entry and hands back the
    /// handle to abort. With no task registered for `id`, nothing happens.
    pub fn cancel(&mut self, id: &str) -> (r: Option<u64>)
        requires
            old(self).wf(),
        ensures
            final(self).wf(),
            final(self)@ == old(self)@.remove(id@),
            r == (if old(self)@.contains_key(id@) {
                Option::Some(old(self)@[id@])
            } else {
                Option::<u64>::None
            }),
    {
        match self.find(id) {
            Some(k) => {
                proof {
                    self.lemma_entry_is_view(k as int);
                }
                let entry = self.entries.remove(k);
                proof {
                    assert(forall|i: int| 0 <= i < k ==> self.entries@[i] == old(
                        self,
                    ).entries@[i]);
                    assert(forall|i: int| k <= i < self.entries@.len() ==> self.entries@[i] == old(
                        self,
                    ).entries@[i + 1]);
                    assert(self.wf());
                    let target = old(self)@.remove(id@);
                    assert forall|x: Seq<char>| #[trigger] self@.contains_key(x) implies
                        target.contains_key(x) && self@[x] == target[x] by {
                        let k2 = choose|j: int|
                            0 <= j < self.entries@.len() && self.entries@[j].0@ == x;
                        self.lemma_entry_is_view(k2);
                        if k2 < k {
                            old(self).lemma_entry_is_view(k2);
                        } else {
                            old(self).lemma_entry_is_view(k2 + 1);
                        }
                    }
                    assert forall|x: Seq<char>| #[trigger] target.contains_key(x) implies
                        self@.contains_key(x) by {
                        let j = choose|j: int|
                            0 <= j < old(self).entries@.len() && old(self).entries@[j].0@ == x;
                        if j < k {
                            self.lemma_entry_is_view(j);
                        } else {
                            self.lemma_entry_is_view(j - 1);
                        }
                    }
                    assert(final(self)@ =~= target);
                }
                Some(entry.1)
            },
            None => {
                proof {
                    assert(final(self)@ =~= old(self)@.remove(id@));
                }
                None
            },
        }
    }

    /// A task removing its own entry as it completes behaves exactly like a
    /// cancellation without the abort: the entry goes away.
    pub fn complete(&mut self, id: &str) -> (r: Option<u64>)
        requires
            old(self).wf(),
        ensures
            final(self).wf(),
            final(self)@ == old(self)@.remove(id@),
            r == (if old(self)@.contains_key(id@) {
                Option::Some(old(self)@[id@])
            } else {
                Option::<u64>::None
            }),
    {
        self.cancel(id)
    }

    /// How many tasks are in flight.
    pub fn len(&self) -> (r: usize)
        requires
            self.wf(),
        ensures
            r == self@.dom().len(),
    {
        proof {
            self.lemma_len(self.entries@.len() as int);
        }
        self.entries.len()
    }

    /// The domain of the view over the first `n` entries has size `n`.
    proof fn lemma_len(&self, n: int)
        requires
            self.wf(),
            0 <= n <= self.entries@.len(),
        ensures
            Set::new(
                |id: Seq<char>| exists|k: int| 0 <= k < n && self.entries@[k].0@ == id,
            ).len() == n,
            Set::new(
                |id: Seq<char>| exists|k: int| 0 <= k < n && self.entries@[k].0@ == id,
            ).finite(),
        decreases n,
    {
        let dom = |m: int| Set::new(
            |id: Seq<char>| exists|k: int| 0 <= k < m && self.entries@[k].0@ == id,
        );
        if n == 0 {
            assert(dom(0) =~= Set::<Seq<char>>::empty());
        } else {
            self.lemma_len(n - 1);
            assert(!dom(n - 1).contains(self.entries@[n - 1].0@));
            assert(dom(n) =~= dom(n - 1).insert(self.entries@[n - 1].0@));
        }
    }
}

/// Registering a second task for an identity already in flight hands back
/// exactly the first task's handle for aborting, and the identity then maps
/// to the second handle: never two live tasks for one identity. Cancelling
/// an identity with nothing registered hands back no handle and leaves the
/// registry exactly as it was.
pub proof fn lemma_registry_single_flight(
    m: Map<Seq<char>, u64>,
    id: Seq<char>,
    h1: u64,
    h2: u64,
)
    ensures
        m.insert(id, h1).contains_key(id) && m.insert(id, h1)[id] == h1,
        m.insert(id, h1).insert(id, h2)[id] == h2,
        !m.contains_key(id) ==> m.remove(id) == m,
{
    if !m.contains_key(id) {
        assert(m.remove(id) =~= m);
    }
}

}
