//! Events and the per-tasklet event sets that multiplex them.
use vstd::prelude::*;
use crate::error::{InitError, RuntimeError};
use crate::run_queue::TASKLET_COUNT;

verus! {

/// Identifier of an event.
pub type EventId = u32;

/// A named edge signal, with the event sets that it is registered in.
pub struct Event {
    id: EventId,
    sets: Vec<usize>,
}

impl Event {
    /// Identifier.
    pub closed spec fn id_view(&self) -> EventId {
        self.id
    }

    /// Indices of the event sets that hold this event.
    pub closed spec fn sets_view(&self) -> Seq<usize> {
        self.sets@
    }

    /// Registered in at most as many sets as there are tasklets.
    pub closed spec fn wf(&self) -> bool {
        self.sets@.len() <= TASKLET_COUNT
    }

    /// A new event registered in no set.
    pub fn new(id: EventId) -> (r: Event)
        ensures
            r.wf(),
            r.id_view() == id,
            r.sets_view() == Seq::<usize>::empty(),
    {
        Event { id, sets: Vec::new() }
    }

    /// Identifier.
    pub fn id(&self) -> (r: EventId)
        ensures
            r == self.id_view(),
    {
        self.id
    }

    /// Whether one more set can be registered.
    pub fn has_room(&self) -> (r: bool)
        ensures
            r == (self.sets_view().len() < TASKLET_COUNT),
    {
        self.sets.len() < TASKLET_COUNT
    }

    /// Registers the event in a set.
    pub fn add_set(&mut self, set: usize) -> (r: Result<(), InitError>)
        requires
            old(self).wf(),
        ensures
            final(self).wf(),
            final(self).id_view() == old(self).id_view(),
            old(self).sets_view().len() < TASKLET_COUNT ==> r is Ok && final(self).sets_view()
                == old(self).sets_view().push(set),
            old(self).sets_view().len() >= TASKLET_COUNT ==> r == Err::<(), InitError>(
                InitError::EventSetListFull,
            ) && final(self).sets_view() == old(self).sets_view(),
    {
        if self.sets.len() >= TASKLET_COUNT {
            return Err(InitError::EventSetListFull);
        }
        self.sets.push(set);
        Ok(())
    }

    /// Number of sets that hold the event.
    pub fn set_count(&self) -> (r: usize)
        ensures
            r == self.sets_view().len(),
    {
        self.sets.len()
    }

    /// The set at position `i` of the list.
    pub fn set_at(&self, i: usize) -> (r: usize)
        requires
            i < self.sets_view().len(),
        ensures
            r == self.sets_view()[i as int],
    {
        self.sets[i]
    }
}

/// The events of one tasklet's subscription and which of them are pending.
pub struct EventSet {
    owner: usize,
    ids: Vec<EventId>,
    pending: Vec<bool>,
}

/// `id` is pending in a set with these ids and flags.
pub open spec fn pending_in(ids: Seq<EventId>, pending: Seq<bool>, id: EventId) -> bool {
    exists|k: int| 0 <= k < ids.len() && k < pending.len() && ids[k] == id && #[trigger] pending[k]
}

impl EventSet {
    /// Index of the owning tasklet.
    pub closed spec fn owner_view(&self) -> usize {
        self.owner
    }

    /// The events of the set.
    pub closed spec fn ids_view(&self) -> Seq<EventId> {
        self.ids@
    }

    /// The pending events.
    pub closed spec fn pending_view(&self) -> Set<EventId> {
        Set::new(|id: EventId| pending_in(self.ids@, self.pending@, id))
    }

    /// One flag per event, and no event twice.
    pub closed spec fn wf(&self) -> bool {
        &&& self.pending@.len() == self.ids@.len()
        &&& self.ids@.no_duplicates()
    }

    /// A set over `ids`, owned by `owner`, with nothing pending.
    pub fn new(owner: usize, ids: Vec<EventId>) -> (r: EventSet)
        requires
            ids@.no_duplicates(),
        ensures
            r.wf(),
            r.owner_view() == owner,
            r.ids_view() == ids@,
            r.pending_view() == Set::<EventId>::empty(),
    {
        let mut pending: Vec<bool> = Vec::new();
        let mut i: usize = 0;
        while i < ids.len()
            invariant
                i <= ids@.len(),
                pending@.len() == i,
                forall|k: int| 0 <= k < i ==> !(#[trigger] pending@[k]),
            decreases ids@.len() - i,
        {
            pending.push(false);
            i += 1;
        }
        let r = EventSet { owner, ids, pending };
        assert(r.pending_view() =~= Set::<EventId>::empty());
        r
    }

    /// Index of the owning tasklet.
    pub fn owner(&self) -> (r: usize)
        ensures
            r == self.owner_view(),
    {
        self.owner
    }

    /// Marks `id` pending; fails, changing nothing, when the set has no slot for it.
    pub fn activate_event(&mut self, id: EventId) -> (r: Result<(), RuntimeError>)
        requires
            old(self).wf(),
        ensures
            final(self).wf(),
            final(self).owner_view() == old(self).owner_view(),
            final(self).ids_view() == old(self).ids_view(),
            old(self).ids_view().contains(id) ==> r is Ok && final(self).pending_view()
                == old(self).pending_view().insert(id),
            !old(self).ids_view().contains(id) ==> r == Err::<(), RuntimeError>(
                RuntimeError::EventSetFull,
            ) && final(self).pending_view() == old(self).pending_view(),
    {
        let mut i: usize = 0;
        while i < self.ids.len()
            invariant
                self.wf(),
                self.ids@ == old(self).ids@,
                self.pending@ == old(self).pending@,
                self.owner == old(self).owner,
                i <= self.ids@.len(),
                forall|k: int| 0 <= k < i ==> self.ids@[k] != id,
            decreases self.ids@.len() - i,
        {
            if self.ids[i] == id {
                let ghost before = self.pending@;
                self.pending.set(i, true);
                proof {
                    let ids = self.ids@;
                    assert forall|x: EventId| #[trigger]
                        pending_in(ids, self.pending@, x) == (pending_in(ids, before, x) || x
                            == id) by {
                        if pending_in(ids, self.pending@, x) {
                            let k = choose|k: int|
                                0 <= k < ids.len() && k < self.pending@.len() && ids[k] == x
                                    && #[trigger] self.pending@[k];
                            if k != i {
                                assert(before[k]);
                            }
                        }
                        if pending_in(ids, before, x) {
                            let k = choose|k: int|
                                0 <= k < ids.len() && k < before.len() && ids[k] == x
                                    && #[trigger] before[k];
                            assert(self.pending@[k] || k == i);
                            assert(self.pending@[k]);
                        }
                        if x == id {
                            assert(self.pending@[i as int]);
                        }
                    }
                    assert(self.pending_view() =~= old(self).pending_view().insert(id));
                }
                return Ok(());
            }
            i += 1;
        }
        Err(RuntimeError::EventSetFull)
    }

    /// Whether any event is pending.
    pub fn data_ready(&self) -> (r: bool)
        requires
            self.wf(),
        ensures
            r == !self.pending_view().is_empty(),
    {
        let mut i: usize = 0;
        while i < self.pending.len()
            invariant
                self.wf(),
                i <= self.pending@.len(),
                forall|k: int| 0 <= k < i ==> !(#[trigger] self.pending@[k]),
            decreases self.pending@.len() - i,
        {
            if self.pending[i] {
                assert(self.pending_view().contains(self.ids@[i as int]));
                return true;
            }
            i += 1;
        }
        assert(self.pending_view() =~= Set::<EventId>::empty());
        false
    }

    /// Takes the lowest pending event, clearing its flag; `None` when nothing is pending.
    pub fn get_data(&mut self) -> (r: Option<EventId>)
        requires
            old(self).wf(),
        ensures
            final(self).wf(),
            final(self).owner_view() == old(self).owner_view(),
            final(self).ids_view() == old(self).ids_view(),
            old(self).pending_view().is_empty() ==> r is None && final(self).pending_view()
                == old(self).pending_view(),
            !old(self).pending_view().is_empty() ==> (r matches Some(id)
                && old(self).pending_view().contains(id)
                && (forall|x: EventId| #[trigger] old(self).pending_view().contains(x) ==> id <= x)
                && final(self).pending_view() == old(self).pending_view().remove(id)),
    {
        let mut best: Option<usize> = None;
        let mut i: usize = 0;
        while i < self.ids.len()
            invariant
                self.wf(),
                i <= self.ids@.len(),
                best matches Some(b) ==> b < i && self.pending@[b as int],
                best matches Some(b) ==> forall|k: int|
                    0 <= k < i && #[trigger] self.pending@[k] ==> self.ids@[b as int]
                        <= self.ids@[k],
                best is None ==> forall|k: int| 0 <= k < i ==> !(#[trigger] self.pending@[k]),
            decreases self.ids@.len() - i,
        {
            if self.pending[i] {
                match best {
                    Some(b) => {
                        if self.ids[i] < self.ids[b] {
                            best = Some(i);
                        }
                    },
                    None => {
                        best = Some(i);
                    },
                }
            }
            i += 1;
        }
        match best {
            None => {
                assert(self.pending_view() =~= Set::<EventId>::empty());
                None
            },
            Some(b) => {
                let id = self.ids[b];
                let ghost before = self.pending@;
                self.pending.set(b, false);
                proof {
                    let ids = self.ids@;
                    assert(old(self).pending_view().contains(id));
                    assert forall|x: EventId| #[trigger]
                        old(self).pending_view().contains(x) implies id <= x by {
                        let k = choose|k: int|
                            0 <= k < ids.len() && k < before.len() && ids[k] == x
                                && #[trigger] before[k];
                    }
                    assert forall|x: EventId| #[trigger]
                        pending_in(ids, self.pending@, x) == (pending_in(ids, before, x) && x
                            != id) by {
                        if pending_in(ids, self.pending@, x) {
                            let k = choose|k: int|
                                0 <= k < ids.len() && k < self.pending@.len() && ids[k] == x
                                    && #[trigger] self.pending@[k];
                            assert(k != b);
                            assert(before[k]);
                        }
                        if pending_in(ids, before, x) && x != id {
                            let k = choose|k: int|
                                0 <= k < ids.len() && k < before.len() && ids[k] == x
                                    && #[trigger] before[k];
                            assert(k != b);
                            assert(self.pending@[k]);
                        }
                    }
                    assert(self.pending_view() =~= old(self).pending_view().remove(id));
                }
                Some(id)
            },
        }
    }
}

} // verus!
