use aerugo::tasklet::{TaskStatus, Tasklet, TaskletConfig};
use aerugo::error::InitError;
use aerugo::tasklet::DataSource;
use aerugo::time::{Duration, Instant};

#[test]
fn create_default() {
    let tasklet = Tasklet::new(TaskletConfig::default());

    assert_eq!(tasklet.get_name(), "MISSING_TASKLET_NAME");
    assert_eq!(tasklet.get_status(), TaskStatus::Sleeping);
    assert_eq!(tasklet.get_last_execution_time().ticks(), 0);
}

#[test]
fn create_from_config() {
    let name = "TaskName";

    let config = TaskletConfig { name, priority: 0 };
    let tasklet = Tasklet::new(config);

    assert_eq!(tasklet.get_name(), name);
    assert_eq!(tasklet.get_status(), TaskStatus::Sleeping);
    assert_eq!(tasklet.get_last_execution_time().ticks(), 0);
}

#[test]
fn get_set_status() {
    let mut tasklet = Tasklet::new(TaskletConfig::default());

    assert_eq!(tasklet.get_status(), TaskStatus::Sleeping);
    tasklet.set_status(TaskStatus::Waiting);
    assert_eq!(tasklet.get_status(), TaskStatus::Waiting);
}

#[test]
fn get_set_last_execution_time() {
    let mut tasklet = Tasklet::new(TaskletConfig::default());

    assert_eq!(tasklet.get_last_execution_time().ticks(), 0);
    tasklet.set_last_execution_time(Instant::from_ticks(42));
    assert_eq!(tasklet.get_last_execution_time().ticks(), 42);
}

#[test]
fn tasklet_binds_once() {
    let mut tasklet = Tasklet::new(TaskletConfig { name: "T", priority: 3 });
    assert_eq!(tasklet.get_priority(), 3);
    assert_eq!(tasklet.subscribe(DataSource::Queue(0)), Ok(()));
    assert_eq!(tasklet.get_source(), Some(DataSource::Queue(0)));
    assert_eq!(
        tasklet.subscribe(DataSource::Events(1)),
        Err(InitError::DataReceiverAlreadySubscribed)
    );
    assert_eq!(tasklet.get_source(), Some(DataSource::Queue(0)));
}

#[test]
fn millis_convert_to_micros() {
    assert_eq!(Duration::from_millis(100).ticks(), 100_000);
    assert_eq!(Instant::from_ticks(u64::MAX - 1).saturating_add(Duration::from_ticks(5)).ticks(), u64::MAX);
    assert_eq!(Instant::from_ticks(10).saturating_add(Duration::from_ticks(5)).ticks(), 15);
    assert_eq!(Instant::from_ticks(10).saturating_duration_since(Instant::from_ticks(4)).ticks(), 6);
    assert_eq!(Instant::from_ticks(4).saturating_duration_since(Instant::from_ticks(10)).ticks(), 0);
}
