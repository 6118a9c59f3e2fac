//! Caller-owned storages for system objects, and the handles they give out.
//!
//! A storage is filled once, when the system creates its object, and hands
//! out at most one handle to it.
use vstd::prelude::*;

verus! {

/// Handle to a tasklet.
#[derive(Clone, Copy, Debug, PartialEq, Eq, Structural)]
pub struct TaskletHandle {
    index: usize,
}

/// Handle to a message queue.
#[derive(Clone, Copy, Debug, PartialEq, Eq, Structural)]
pub struct MessageQueueHandle {
    index: usize,
}

/// Handle to an event.
#[derive(Clone, Copy, Debug, PartialEq, Eq, Structural)]
pub struct EventHandle {
    index: usize,
}

/// Handle to a boolean condition.
#[derive(Clone, Copy, Debug, PartialEq, Eq, Structural)]
pub struct BooleanConditionHandle {
    index: usize,
}

impl TaskletHandle {
    /// Index of the tasklet in the system.
    pub closed spec fn index_view(&self) -> usize {
        self.index
    }

    /// The handle of the tasklet at `index`.
    pub(crate) fn from_index(index: usize) -> (r: TaskletHandle)
        ensures
            r.index_view() == index,
    {
        TaskletHandle { index }
    }

    /// Index of the tasklet in the system.
    pub fn index(&self) -> (r: usize)
        ensures
            r == self.index_view(),
    {
        self.index
    }
}

impl MessageQueueHandle {
    /// Index of the queue in the system.
    pub closed spec fn index_view(&self) -> usize {
        self.index
    }

    /// Index of the queue in the system.
    pub fn index(&self) -> (r: usize)
        ensures
            r == self.index_view(),
    {
        self.index
    }
}

impl EventHandle {
    /// Index of the event in the system.
    pub closed spec fn index_view(&self) -> usize {
        self.index
    }

    /// Index of the event in the system.
    pub fn index(&self) -> (r: usize)
        ensures
            r == self.index_view(),
    {
        self.index
    }
}

impl BooleanConditionHandle {
    /// Index of the condition in the system.
    pub closed spec fn index_view(&self) -> usize {
        self.index
    }

    /// Index of the condition in the system.
    pub fn index(&self) -> (r: usize)
        ensures
            r == self.index_view(),
    {
        self.index
    }
}

/// Storage for one object: empty, or holding the index the system gave it,
/// with whether its handle has been handed out.
pub struct Storage {
    index: Option<usize>,
    handle_taken: bool,
}

/// Storage for a tasklet.
pub type TaskletStorage = Storage;

/// Storage for a message queue.
pub type MessageQueueStorage = Storage;

/// Storage for an event.
pub type EventStorage = Storage;

/// Storage for a boolean condition.
pub type BooleanConditionStorage = Storage;

impl Storage {
    /// The index of the object stored here, if one was created.
    pub closed spec fn index_view(&self) -> Option<usize> {
        self.index
    }

    /// Whether the handle has been handed out.
    pub closed spec fn handle_taken_view(&self) -> bool {
        self.handle_taken
    }

    /// An empty storage.
    pub fn new() -> (r: Storage)
        ensures
            r.index_view() is None,
            !r.handle_taken_view(),
    {
        Storage { index: None, handle_taken: false }
    }

    /// Whether an object was created in this storage.
    pub fn is_initialized(&self) -> (r: bool)
        ensures
            r == self.index_view() is Some,
    {
        self.index.is_some()
    }

    /// Records the index of the object created here.
    pub(crate) fn fill(&mut self, index: usize)
        requires
            old(self).index_view() is None,
        ensures
            final(self).index_view() == Some(index),
            final(self).handle_taken_view() == old(self).handle_taken_view(),
    {
        self.index = Some(index);
    }

    /// Takes the index for a handle: `Some` once, after the object was created.
    fn take_index(&mut self) -> (r: Option<usize>)
        ensures
            old(self).index_view() is Some && !old(self).handle_taken_view() ==> r
                == old(self).index_view() && final(self).handle_taken_view(),
            old(self).index_view() is None || old(self).handle_taken_view() ==> r is None
                && final(self).handle_taken_view() == old(self).handle_taken_view(),
            final(self).index_view() == old(self).index_view(),
    {
        if self.handle_taken {
            return None;
        }
        match self.index {
            Some(i) => {
                self.handle_taken = true;
                Some(i)
            },
            None => None,
        }
    }

    /// The handle to the tasklet stored here: `Some` once, after creation.
    pub fn create_tasklet_handle(&mut self) -> (r: Option<TaskletHandle>)
        ensures
            old(self).index_view() is Some && !old(self).handle_taken_view() ==> (r matches Some(
                h,
            ) && Some(h.index_view()) == old(self).index_view()),
            old(self).index_view() is None || old(self).handle_taken_view() ==> r is None,
            final(self).index_view() == old(self).index_view(),
            final(self).handle_taken_view() == (old(self).handle_taken_view()
                || old(self).index_view() is Some),
    {
        match self.take_index() {
            Some(index) => Some(TaskletHandle { index }),
            None => None,
        }
    }

    /// The handle to the queue stored here: `Some` once, after creation.
    pub fn create_queue_handle(&mut self) -> (r: Option<MessageQueueHandle>)
        ensures
            old(self).index_view() is Some && !old(self).handle_taken_view() ==> (r matches Some(
                h,
            ) && Some(h.index_view()) == old(self).index_view()),
            old(self).index_view() is None || old(self).handle_taken_view() ==> r is None,
            final(self).index_view() == old(self).index_view(),
            final(self).handle_taken_view() == (old(self).handle_taken_view()
                || old(self).index_view() is Some),
    {
        match self.take_index() {
            Some(index) => Some(MessageQueueHandle { index }),
            None => None,
        }
    }

    /// The handle to the event stored here: `Some` once, after creation.
    pub fn create_event_handle(&mut self) -> (r: Option<EventHandle>)
        ensures
            old(self).index_view() is Some && !old(self).handle_taken_view() ==> (r matches Some(
                h,
            ) && Some(h.index_view()) == old(self).index_view()),
            old(self).index_view() is None || old(self).handle_taken_view() ==> r is None,
            final(self).index_view() == old(self).index_view(),
            final(self).handle_taken_view() == (old(self).handle_taken_view()
                || old(self).index_view() is Some),
    {
        match self.take_index() {
            Some(index) => Some(EventHandle { index }),
            None => None,
        }
    }

    /// The handle to the condition stored here: `Some` once, after creation.
    pub fn create_condition_handle(&mut self) -> (r: Option<BooleanConditionHandle>)
        ensures
            old(self).index_view() is Some && !old(self).handle_taken_view() ==> (r matches Some(
                h,
            ) && Some(h.index_view()) == old(self).index_view()),
            old(self).index_view() is None || old(self).handle_taken_view() ==> r is None,
            final(self).index_view() == old(self).index_view(),
            final(self).handle_taken_view() == (old(self).handle_taken_view()
                || old(self).index_view() is Some),
    {
        match self.take_index() {
            Some(index) => Some(BooleanConditionHandle { index }),
            None => None,
        }
    }
}

} // verus!
