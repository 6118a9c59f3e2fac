//! Error kinds of the initialization phase and of the run phase.
use vstd::prelude::*;

verus! {

/// Errors raised while the system topology is being built.
#[derive(Clone, Copy, Debug, PartialEq, Eq, Structural)]
pub enum InitError {
    /// The tasklet storage already holds a tasklet.
    TaskletAlreadyCreated,
    /// The queue storage already holds a queue.
    MessageQueueAlreadyCreated,
    /// The event storage already holds an event.
    EventAlreadyCreated,
    /// The condition storage already holds a condition.
    BooleanConditionAlreadyCreated,
    /// A subscriber list is at its capacity.
    SubscriptionListFull,
    /// The time manager holds as many cyclic records as it can.
    CyclicExecutionListFull,
    /// An event is already registered in as many event sets as it can be.
    EventSetListFull,
    /// The tasklet is already bound to a data provider.
    DataReceiverAlreadySubscribed,
}

/// Errors raised while the system runs.
#[derive(Clone, Copy, Debug, PartialEq, Eq, Structural)]
pub enum RuntimeError {
    /// The message queue is full.
    DataQueueFull,
    /// The executor's run queue is full.
    ExecutorTaskletQueueFull,
    /// The event set cannot take the event.
    EventSetFull,
    /// The system time cannot be read.
    SystemTimeNotAvailable,
}

} // verus!
