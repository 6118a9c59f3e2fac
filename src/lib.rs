//! A static, single-core, cooperative real-time scheduling core.
//!
//! Tasklets are woken by message queues, events, boolean-condition sets and
//! cyclic timers, and run one step at a time in priority order. The system
//! hands each step its input and takes it back when the step is done; the
//! step functions themselves run in the caller.
pub mod aerugo;
pub mod boolean_condition;
pub mod cyclic_execution;
pub mod error;
pub mod event;
pub mod execution_monitor;
pub mod message_queue;
pub mod pac;
pub mod pin;
pub mod run_queue;
pub mod storage;
pub mod tasklet;
pub mod time;
pub mod watchdog;

pub use aerugo::{Aerugo, StepInput};
pub use boolean_condition::BooleanConditionSetType;
pub use error::{InitError, RuntimeError};
pub use event::EventId;
pub use execution_monitor::ExecutionStats;
pub use storage::{
    BooleanConditionHandle, BooleanConditionStorage, EventHandle, EventStorage,
    MessageQueueHandle, MessageQueueStorage, TaskletHandle, TaskletStorage,
};
pub use tasklet::{TaskStatus, TaskletConfig};
pub use time::{Duration, Instant};
