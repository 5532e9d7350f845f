//! Groups of pending tasks, keyed by ids that a context hands out once.

use std::collections::HashMap;
use vstd::prelude::*;

verus! {

broadcast use vstd::std_specs::hash::group_hash_axioms;

/// An opaque token naming one group of pending tasks within a context.
#[derive(Clone, Copy, PartialEq, Eq, Structural, Hash, Debug)]
pub struct PendingFutureId(u64);

impl View for PendingFutureId {
    type V = u64;

    closed spec fn view(&self) -> u64 {
        self.0
    }
}

/// The groups of a context: each tracked id maps to the tasks added under it
/// and not yet handed out by a release or a drain.
pub struct PendingGroups<T> {
    next_id: u64,
    groups: HashMap<u64, Vec<T>>,
}

impl<T> View for PendingGroups<T> {
    type V = Map<u64, Seq<T>>;

    closed spec fn view(&self) -> Map<u64, Seq<T>> {
        self.groups@.map_values(|v: Vec<T>| v@)
    }
}

impl<T> PendingGroups<T> {
    /// The id that the next acquisition hands out.
    pub closed spec fn next_id(&self) -> u64 {
        self.next_id
    }

    /// Every tracked id was handed out earlier, so it lies below the next one.
    pub open spec fn wf(&self) -> bool {
        forall|k: u64| #[trigger] self@.contains_key(k) ==> k < self.next_id()
    }

    pub fn new() -> (r: Self)
        ensures
            r.wf(),
            r@ == Map::<u64, Seq<T>>::empty(),
            r.next_id() == 0,
    {
        let r = PendingGroups { next_id: 0, groups: HashMap::new() };
        assert(r@ =~= Map::<u64, Seq<T>>::empty());
        r
    }

    /// Whether another id can still be handed out.
    pub fn has_free_id(&self) -> (r: bool)
        ensures
            r == (self.next_id() < u64::MAX),
    {
        self.next_id < u64::MAX
    }

    /// Whether `id` names a group that is still tracked.
    pub fn is_tracked(&self, id: PendingFutureId) -> (r: bool)
        ensures
            r == self@.contains_key(id@),
    {
        self.groups.contains_key(&id.0)
    }

    /// Starts a new, empty group under an id never handed out before.
    pub fn acquire_pending_future_id(&mut self) -> (id: PendingFutureId)
        requires
            old(self).wf(),
            old(self).next_id() < u64::MAX,
        ensures
            final(self).wf(),
            id@ == old(self).next_id(),
            !old(self)@.contains_key(id@),
            final(self).next_id() == old(self).next_id() + 1,
            final(self)@ == old(self)@.insert(id@, Seq::<T>::empty()),
    {
        let id = self.next_id;
        self.next_id = self.next_id + 1;
        self.groups.insert(id, Vec::new());
        assert(self@ =~= old(self)@.insert(id, Seq::<T>::empty()));
        PendingFutureId(id)
    }
    /// Adds `task` to the group named by `id`, which must still be tracked.
    pub fn add_pending_future(&mut self, id: PendingFutureId, task: T)
        requires
            old(self).wf(),
            old(self)@.contains_key(id@),
        ensures
            final(self).wf(),
            final(self).next_id() == old(self).next_id(),
            final(self)@ == old(self)@.insert(id@, old(self)@[id@].push(task)),
    {
        let mut group = self.groups.remove(&id.0).unwrap();
        group.push(task);
        self.groups.insert(id.0, group);
        assert(self@ =~= old(self)@.insert(id@, old(self)@[id@].push(task)));
    }

    /// Stops tracking the group named by `id`, which must still be tracked,
    /// and hands out its tasks, to be driven to completion without anyone
    /// waiting on them.
    pub fn release_pending_future_id(&mut self, id: PendingFutureId) -> (r: Vec<T>)
        requires
            old(self).wf(),
            old(self)@.contains_key(id@),
        ensures
            final(self).wf(),
            final(self).next_id() == old(self).next_id(),
            final(self)@ == old(self)@.remove(id@),
            r@ == old(self)@[id@],
    {
        let tasks = self.groups.remove(&id.0).unwrap();
        assert(self@ =~= old(self)@.remove(id@));
        tasks
    }

    /// Stops tracking the group named by `id`, which must still be tracked,
    /// and hands out its tasks for a wait that can be cancelled. An empty
    /// group gives `None`: there is nothing to wait for and nothing to cancel.
    pub fn drain_pending_futures(&mut self, id: PendingFutureId) -> (r: Option<Vec<T>>)
        requires
            old(self).wf(),
            old(self)@.contains_key(id@),
        ensures
            final(self).wf(),
            final(self).next_id() == old(self).next_id(),
            final(self)@ == old(self)@.remove(id@),
            r is None <==> old(self)@[id@].len() == 0,
            r matches Some(tasks) ==> tasks@ == old(self)@[id@],
    {
        let tasks = self.groups.remove(&id.0).unwrap();
        assert(self@ =~= old(self)@.remove(id@));
        if tasks.len() == 0 {
            None
        } else {
            Some(tasks)
        }
    }
}

/// The id that the next acquisition hands out is not tracked for any group, so
/// a fresh id never names a live group.
pub proof fn lemma_next_id_is_untracked<T>(groups: PendingGroups<T>)
    requires
        groups.wf(),
    ensures
        !groups@.contains_key(groups.next_id()),
{
}

/// An id whose group was released or drained stays untracked across a later
/// acquisition, so adding to it again is never allowed.
pub proof fn lemma_retired_id_stays_untracked<T>(
    before: PendingGroups<T>,
    after: PendingGroups<T>,
    id: u64,
)
    requires
        before.wf(),
        id < before.next_id(),
        !before@.contains_key(id),
        after.next_id() == before.next_id() + 1,
        after@ == before@.insert(before.next_id(), Seq::<T>::empty()),
    ensures
        !after@.contains_key(id),
        id < after.next_id(),
{
}

} // verus!
