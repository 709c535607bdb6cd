//! Which load of the calendars may replace the schedule. Loads run one
//! after the other or side by side; a load that began before another one
//! leaves the schedule alone.

use vstd::prelude::*;

verus! {

/// Counter of the loads begun so far.
#[derive(Clone, Copy, Debug, PartialEq, Eq, Structural)]
pub struct LoadGeneration {
    pub latest: u32,
}

impl LoadGeneration {
    /// The counter after one more load begins.
    pub open spec fn after_begin(self) -> LoadGeneration {
        LoadGeneration { latest: (self.latest + 1) as u32 }
    }

    /// The load `id` may replace the schedule.
    pub open spec fn committable(self, id: u32) -> bool {
        id == self.latest
    }

    /// No load begun yet.
    pub fn new() -> (g: LoadGeneration)
        ensures
            g.latest == 0,
    {
        LoadGeneration { latest: 0 }
    }

    /// Begins a load and returns its number.
    pub fn begin(&mut self) -> (id: u32)
        requires
            old(self).latest < u32::MAX,
        ensures
            final(self).latest == old(self).latest + 1,
            *final(self) == old(self).after_begin(),
            id == final(self).latest,
    {
        self.latest = self.latest + 1;
        self.latest
    }

    /// Hands the schedule `fresh` of the load `id` to `store` when that load
    /// may replace the schedule, and leaves `store` as it was otherwise;
    /// says which it did.
    pub fn commit<T>(&self, id: u32, store: &mut T, fresh: T) -> (done: bool)
        ensures
            done == self.committable(id),
            done ==> *final(store) == fresh,
            !done ==> *final(store) == *old(store),
    {
        if id == self.latest {
            *store = fresh;
            true
        } else {
            false
        }
    }

    /// The load `id` may replace the schedule: no load began after it.
    pub fn may_commit(&self, id: u32) -> (b: bool)
        ensures
            b == self.committable(id),
    {
        id == self.latest
    }
}

/// A load that another load began after never replaces the schedule: the
/// load `id` began at `at_start`; whatever loads began since (`later`), once
/// one more begins, `id` is no longer committable, while it stays
/// committable as long as none begins after it.
pub proof fn superseded_load_never_commits(at_start: LoadGeneration, later: LoadGeneration, id: u32)
    requires
        at_start.latest < u32::MAX,
        id == at_start.after_begin().latest,
        id <= later.latest < u32::MAX,
    ensures
        !later.after_begin().committable(id),
        at_start.after_begin().committable(id),
{
}

/// What happens to the loads: one begins, or the load with a number
/// finishes with its schedule and commits it if it may.
pub enum LoadEvent<T> {
    Begin,
    Finish(u32, T),
}

/// The counter after the events.
pub open spec fn generation_after<T>(g: LoadGeneration, events: Seq<LoadEvent<T>>) -> LoadGeneration
    decreases events.len(),
{
    if events.len() == 0 {
        g
    } else {
        let before = generation_after(g, events.drop_last());
        match events.last() {
            LoadEvent::Begin => before.after_begin(),
            LoadEvent::Finish(_, _) => before,
        }
    }
}

/// What the store holds after the events, each finished load committing
/// through `commit` with the counter as it then stands.
pub open spec fn store_after<T>(g: LoadGeneration, store: T, events: Seq<LoadEvent<T>>) -> T
    decreases events.len(),
{
    if events.len() == 0 {
        store
    } else {
        let before = store_after(g, store, events.drop_last());
        let counter = generation_after(g, events.drop_last());
        match events.last() {
            LoadEvent::Begin => before,
            LoadEvent::Finish(id, fresh) => if counter.committable(id) {
                fresh
            } else {
                before
            },
        }
    }
}

/// Overlapping loads: when the load that began last finishes with its
/// schedule `fresh` (at event `f`, no load beginning after it and no other
/// load carrying its number), the store ends with `fresh`, whatever the
/// other loads did and in whatever order they finished.
pub proof fn last_load_wins<T>(g: LoadGeneration, store: T, events: Seq<LoadEvent<T>>, f: int, fresh: T)
    requires
        0 <= f < events.len(),
        events[f] == LoadEvent::Finish(generation_after(g, events).latest, fresh),
        forall|j: int| f < j < events.len() ==> (#[trigger] events[j] matches LoadEvent::Finish(id, _) && id
            != generation_after(g, events).latest),
    ensures
        store_after(g, store, events) == fresh,
    decreases events.len(),
{
    let front = events.drop_last();
    let n = events.len() - 1;
    assert(events.last() == events[n]);
    if f < n {
        assert(events[n] matches LoadEvent::Finish(_, _));
        assert(generation_after(g, events) == generation_after(g, front));
        assert forall|j: int| f < j < front.len() implies (#[trigger] front[j] matches LoadEvent::Finish(id, _)
            && id != generation_after(g, front).latest) by {
            assert(front[j] == events[j]);
        }
        assert(front[f] == events[f]);
        last_load_wins(g, store, front, f, fresh);
    }
}

} // verus!
