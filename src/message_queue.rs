//! Bounded FIFO message queues that feed tasklets.
use vstd::prelude::*;
use crate::error::{InitError, RuntimeError};
use crate::run_queue::TASKLET_COUNT;

verus! {

/// An operation on a queue: a send, or a receive.
pub enum QueueOp<T> {
    /// Sends a value.
    Send(T),
    /// Receives the head, if any.
    Receive,
}

/// Runs `ops` on a queue holding `items` with room for `capacity`, as
/// `enqueue` and `get_data` state: a send onto a full queue is refused, a
/// receive from an empty one yields nothing. Gives what was received, the
/// sends that were accepted, and what remains.
pub open spec fn run_ops<T>(items: Seq<T>, capacity: nat, ops: Seq<QueueOp<T>>) -> (Seq<T>, Seq<T>, Seq<T>)
    decreases ops.len(),
{
    if ops.len() == 0 {
        (Seq::empty(), Seq::empty(), items)
    } else {
        match ops[0] {
            QueueOp::Send(v) => if items.len() < capacity {
                let (r, a, f) = run_ops(items.push(v), capacity, ops.drop_first());
                (r, seq![v] + a, f)
            } else {
                run_ops(items, capacity, ops.drop_first())
            },
            QueueOp::Receive => if items.len() > 0 {
                let (r, a, f) = run_ops(items.drop_first(), capacity, ops.drop_first());
                (seq![items[0]] + r, a, f)
            } else {
                run_ops(items, capacity, ops.drop_first())
            },
        }
    }
}

/// A queue is FIFO: under any interleaving of sends and receives, what is
/// received, followed by what remains, is what the queue held at first
/// followed by the accepted sends, in the order they were sent.
pub proof fn lemma_fifo<T>(items: Seq<T>, capacity: nat, ops: Seq<QueueOp<T>>)
    ensures
        run_ops(items, capacity, ops).0 + run_ops(items, capacity, ops).2 == items + run_ops(
            items,
            capacity,
            ops,
        ).1,
    decreases ops.len(),
{
    if ops.len() > 0 {
        match ops[0] {
            QueueOp::Send(v) => if items.len() < capacity {
                lemma_fifo(items.push(v), capacity, ops.drop_first());
                let (r, a, f) = run_ops(items.push(v), capacity, ops.drop_first());
                assert(r + f == items.push(v) + a);
                assert(items.push(v) + a =~= items + (seq![v] + a));
            } else {
                lemma_fifo(items, capacity, ops.drop_first());
            },
            QueueOp::Receive => if items.len() > 0 {
                lemma_fifo(items.drop_first(), capacity, ops.drop_first());
                let (r, a, f) = run_ops(items.drop_first(), capacity, ops.drop_first());
                assert(r + f == items.drop_first() + a);
                assert((seq![items[0]] + r) + f =~= seq![items[0]] + (r + f));
                assert(seq![items[0]] + (items.drop_first() + a) =~= items + a);
            } else {
                lemma_fifo(items, capacity, ops.drop_first());
            },
        }
    } else {
        assert(Seq::<T>::empty() + items =~= items + Seq::<T>::empty());
    }
}

/// A bounded FIFO of `T` with the list of tasklets that it wakes.
pub struct MessageQueue<T> {
    items: Vec<T>,
    capacity: usize,
    subscribers: Vec<usize>,
}

impl<T> MessageQueue<T> {
    /// Elements, the head first.
    pub closed spec fn items_view(&self) -> Seq<T> {
        self.items@
    }

    /// Most elements that the queue holds.
    pub closed spec fn capacity_view(&self) -> nat {
        self.capacity as nat
    }

    /// Indices of the subscribed tasklets, in order of registration.
    pub closed spec fn subscribers_view(&self) -> Seq<usize> {
        self.subscribers@
    }

    /// Holds at most its capacity of elements and of subscribers.
    pub closed spec fn wf(&self) -> bool {
        self.items@.len() <= self.capacity && self.subscribers@.len() <= TASKLET_COUNT
    }

    /// An empty queue of the given capacity, with no subscriber.
    pub fn new(capacity: usize) -> (r: MessageQueue<T>)
        ensures
            r.wf(),
            r.items_view() == Seq::<T>::empty(),
            r.capacity_view() == capacity,
            r.subscribers_view() == Seq::<usize>::empty(),
    {
        MessageQueue { items: Vec::new(), capacity, subscribers: Vec::new() }
    }

    /// Registers a tasklet to be woken on every successful send.
    pub fn register_tasklet(&mut self, tasklet: usize) -> (r: Result<(), InitError>)
        requires
            old(self).wf(),
        ensures
            final(self).wf(),
            final(self).items_view() == old(self).items_view(),
            final(self).capacity_view() == old(self).capacity_view(),
            old(self).subscribers_view().len() < TASKLET_COUNT ==> r is Ok
                && final(self).subscribers_view() == old(self).subscribers_view().push(tasklet),
            old(self).subscribers_view().len() >= TASKLET_COUNT ==> r == Err::<(), InitError>(
                InitError::SubscriptionListFull,
            ) && final(self).subscribers_view() == old(self).subscribers_view(),
    {
        if self.subscribers.len() >= TASKLET_COUNT {
            return Err(InitError::SubscriptionListFull);
        }
        self.subscribers.push(tasklet);
        Ok(())
    }

    /// Appends `data` at the tail; fails, and changes nothing, when the queue is full.
    pub fn enqueue(&mut self, data: T) -> (r: Result<(), RuntimeError>)
        requires
            old(self).wf(),
        ensures
            final(self).wf(),
            final(self).capacity_view() == old(self).capacity_view(),
            final(self).subscribers_view() == old(self).subscribers_view(),
            old(self).items_view().len() < old(self).capacity_view() ==> r is Ok
                && final(self).items_view() == old(self).items_view().push(data),
            old(self).items_view().len() >= old(self).capacity_view() ==> r == Err::<
                (),
                RuntimeError,
            >(RuntimeError::DataQueueFull) && final(self).items_view() == old(self).items_view(),
    {
        if self.items.len() >= self.capacity {
            return Err(RuntimeError::DataQueueFull);
        }
        self.items.push(data);
        Ok(())
    }

    /// Removes and returns the head element, or `None` when the queue is empty.
    pub fn get_data(&mut self) -> (r: Option<T>)
        requires
            old(self).wf(),
        ensures
            final(self).wf(),
            final(self).capacity_view() == old(self).capacity_view(),
            final(self).subscribers_view() == old(self).subscribers_view(),
            old(self).items_view().len() == 0 ==> r is None && final(self).items_view()
                == old(self).items_view(),
            old(self).items_view().len() > 0 ==> r == Some(old(self).items_view()[0])
                && final(self).items_view() == old(self).items_view().drop_first(),
    {
        if self.items.len() == 0 {
            return None;
        }
        let head = self.items.remove(0);
        proof {
            assert(self.items@ =~= old(self).items@.drop_first());
        }
        Some(head)
    }

    /// Whether an element is waiting.
    pub fn data_waiting(&self) -> (r: bool)
        ensures
            r == (self.items_view().len() > 0),
    {
        self.items.len() > 0
    }

    /// Number of elements held.
    pub fn len(&self) -> (r: usize)
        ensures
            r == self.items_view().len(),
    {
        self.items.len()
    }

    /// Most elements that the queue holds.
    pub fn capacity(&self) -> (r: usize)
        ensures
            r == self.capacity_view(),
    {
        self.capacity
    }

    /// Subscriber at position `i` of the list.
    pub fn subscriber(&self, i: usize) -> (r: usize)
        requires
            i < self.subscribers_view().len(),
        ensures
            r == self.subscribers_view()[i as int],
    {
        self.subscribers[i]
    }

    /// Whether one more subscriber can be registered.
    pub fn has_room(&self) -> (r: bool)
        ensures
            r == (self.subscribers_view().len() < TASKLET_COUNT),
    {
        self.subscribers.len() < TASKLET_COUNT
    }

    /// Number of subscribers.
    pub fn subscriber_count(&self) -> (r: usize)
        ensures
            r == self.subscribers_view().len(),
    {
        self.subscribers.len()
    }

    /// Drops every element; wakes nobody.
    pub fn clear(&mut self)
        requires
            old(self).wf(),
        ensures
            final(self).wf(),
            final(self).items_view() == Seq::<T>::empty(),
            final(self).capacity_view() == old(self).capacity_view(),
            final(self).subscribers_view() == old(self).subscribers_view(),
    {
        self.items.clear();
    }
}

} // verus!
