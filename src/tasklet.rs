//! Tasklets: the units of computation that the executor schedules.
use vstd::prelude::*;
use crate::time::Instant;

verus! {

/// Scheduling status of a tasklet.
#[derive(Clone, Copy, Debug, PartialEq, Eq, Structural)]
pub enum TaskStatus {
    /// Not queued, nothing to do.
    Sleeping,
    /// Queued in the executor.
    Waiting,
    /// Its step is running.
    Working,
}

/// Name given to a tasklet whose configuration names none.
pub const MISSING_TASKLET_NAME: &'static str = "MISSING_TASKLET_NAME";

/// Configuration used to create a tasklet.
#[derive(Clone, Copy, Debug)]
pub struct TaskletConfig {
    /// Tasklet name.
    pub name: &'static str,
    /// Priority; higher is more urgent.
    pub priority: u8,
}

impl Default for TaskletConfig {
    fn default() -> (r: TaskletConfig)
        ensures
            r.name@ == MISSING_TASKLET_NAME@,
            r.priority == 0,
    {
        TaskletConfig { name: MISSING_TASKLET_NAME, priority: 0 }
    }
}

/// The source that feeds a tasklet its input, by index into the system's
/// tables of providers.
#[derive(Clone, Copy, Debug, PartialEq, Eq, Structural)]
pub enum DataSource {
    /// A message queue.
    Queue(usize),
    /// An event set.
    Events(usize),
    /// A boolean-condition set.
    Conditions(usize),
    /// A cyclic execution record.
    Cyclic(usize),
}

/// The scheduler's record of one tasklet.
#[derive(Clone, Copy, Debug)]
pub struct Tasklet {
    name: &'static str,
    priority: u8,
    status: TaskStatus,
    last_execution_time: Instant,
    source: Option<DataSource>,
}

impl Tasklet {
    /// Tasklet name.
    pub closed spec fn name_view(self) -> Seq<char> {
        self.name@
    }

    /// Priority.
    pub closed spec fn priority_view(self) -> u8 {
        self.priority
    }

    /// Scheduling status.
    pub closed spec fn status_view(self) -> TaskStatus {
        self.status
    }

    /// Instant at which its last step ended.
    pub closed spec fn last_time_view(self) -> Instant {
        self.last_execution_time
    }

    /// The data provider it is bound to.
    pub closed spec fn source_view(self) -> Option<DataSource> {
        self.source
    }

    /// A new tasklet: sleeping, never executed, bound to no provider.
    pub fn new(config: TaskletConfig) -> (r: Tasklet)
        ensures
            r.name_view() == config.name@,
            r.priority_view() == config.priority,
            r.status_view() == TaskStatus::Sleeping,
            r.last_time_view().ticks == 0,
            r.source_view() is None,
    {
        Tasklet {
            name: config.name,
            priority: config.priority,
            status: TaskStatus::Sleeping,
            last_execution_time: Instant::from_ticks(0),
            source: None,
        }
    }

    /// Tasklet name.
    pub fn get_name(&self) -> (r: &'static str)
        ensures
            r@ == self.name_view(),
    {
        self.name
    }

    /// Priority.
    pub fn get_priority(&self) -> (r: u8)
        ensures
            r == self.priority_view(),
    {
        self.priority
    }

    /// Scheduling status.
    pub fn get_status(&self) -> (r: TaskStatus)
        ensures
            r == self.status_view(),
    {
        self.status
    }

    /// Sets the scheduling status.
    pub fn set_status(&mut self, status: TaskStatus)
        ensures
            final(self).status_view() == status,
            final(self).name_view() == old(self).name_view(),
            final(self).priority_view() == old(self).priority_view(),
            final(self).last_time_view() == old(self).last_time_view(),
            final(self).source_view() == old(self).source_view(),
    {
        self.status = status;
    }

    /// Instant at which its last step ended.
    pub fn get_last_execution_time(&self) -> (r: Instant)
        ensures
            r == self.last_time_view(),
    {
        self.last_execution_time
    }

    /// Records the instant at which a step ended.
    pub fn set_last_execution_time(&mut self, time: Instant)
        ensures
            final(self).last_time_view() == time,
            final(self).name_view() == old(self).name_view(),
            final(self).priority_view() == old(self).priority_view(),
            final(self).status_view() == old(self).status_view(),
            final(self).source_view() == old(self).source_view(),
    {
        self.last_execution_time = time;
    }

    /// The data provider it is bound to, if any.
    pub fn get_source(&self) -> (r: Option<DataSource>)
        ensures
            r == self.source_view(),
    {
        self.source
    }

    /// Binds the tasklet to its data provider; a tasklet is bound at most once.
    pub fn subscribe(&mut self, source: DataSource) -> (r: Result<(), crate::error::InitError>)
        ensures
            old(self).source_view() is Some ==> r == Err::<(), crate::error::InitError>(
                crate::error::InitError::DataReceiverAlreadySubscribed,
            ) && *final(self) == *old(self),
            old(self).source_view() is None ==> r is Ok && final(self).source_view() == Some(
                source,
            ),
            final(self).name_view() == old(self).name_view(),
            final(self).priority_view() == old(self).priority_view(),
            final(self).status_view() == old(self).status_view(),
            final(self).last_time_view() == old(self).last_time_view(),
    {
        if self.source.is_some() {
            return Err(crate::error::InitError::DataReceiverAlreadySubscribed);
        }
        self.source = Some(source);
        Ok(())
    }
}

} // verus!
