use aerugo::aerugo::{Aerugo, StepInput};
use aerugo::boolean_condition::BooleanConditionSetType;
use aerugo::error::RuntimeError;
use aerugo::storage::{
    BooleanConditionHandle, EventHandle, MessageQueueHandle, Storage, TaskletHandle,
};
use aerugo::tasklet::{TaskStatus, TaskletConfig};
use aerugo::time::{Duration, Instant};

/// Runs steps until no tasklet waits; returns how many steps ran.
fn run<T>(
    sys: &mut Aerugo<T>,
    now: u64,
    step: &mut dyn FnMut(&mut Aerugo<T>, TaskletHandle, StepInput<T>),
) -> usize {
    let mut steps = 0;
    while let Some((h, input)) = sys.next_step(Instant::from_ticks(now)) {
        assert_eq!(sys.get_tasklet_status(&h), TaskStatus::Working);
        if let Some(v) = input {
            step(sys, h, v);
        }
        sys.complete_step(Instant::from_ticks(now)).unwrap();
        steps += 1;
    }
    steps
}

fn tasklet<T>(sys: &mut Aerugo<T>, name: &'static str, priority: u8) -> TaskletHandle {
    let mut storage = Storage::new();
    sys.create_tasklet(TaskletConfig { name, priority }, &mut storage).unwrap();
    storage.create_tasklet_handle().unwrap()
}

fn queue<T>(sys: &mut Aerugo<T>, capacity: usize) -> MessageQueueHandle {
    let mut storage = Storage::new();
    sys.create_message_queue(capacity, &mut storage).unwrap();
    storage.create_queue_handle().unwrap()
}

fn event<T>(sys: &mut Aerugo<T>, id: u32) -> EventHandle {
    let mut storage = Storage::new();
    sys.create_event(id, &mut storage).unwrap();
    storage.create_event_handle().unwrap()
}

fn condition<T>(sys: &mut Aerugo<T>, value: bool) -> BooleanConditionHandle {
    let mut storage = Storage::new();
    sys.create_boolean_condition(value, &mut storage).unwrap();
    storage.create_condition_handle().unwrap()
}

#[test]
fn single_tasklet_single_queue() {
    let mut sys = Aerugo::<u32>::new();
    let t = tasklet(&mut sys, "T", 1);
    let q = queue(&mut sys, 4);
    sys.subscribe_tasklet_to_queue(&t, &q).unwrap();
    for v in [1, 2, 3] {
        sys.send_data(&q, v).unwrap();
    }
    let mut log = Vec::new();
    run(&mut sys, 0, &mut |_, _, input| {
        if let StepInput::Message(v) = input {
            log.push(v);
        }
    });
    assert_eq!(log, vec![1, 2, 3]);
    assert_eq!(sys.get_tasklet_status(&t), TaskStatus::Sleeping);
}

#[test]
fn priority_ordering() {
    let mut sys = Aerugo::<u32>::new();
    let a = tasklet(&mut sys, "A", 5);
    let b = tasklet(&mut sys, "B", 1);
    let qa = queue(&mut sys, 4);
    let qb = queue(&mut sys, 4);
    sys.subscribe_tasklet_to_queue(&a, &qa).unwrap();
    sys.subscribe_tasklet_to_queue(&b, &qb).unwrap();
    sys.send_data(&qb, 0).unwrap();
    sys.send_data(&qa, 0).unwrap();
    let mut log = String::new();
    run(&mut sys, 0, &mut |s, h, _| {
        log.push_str(s.get_tasklet_name(&h));
    });
    assert_eq!(log, "AB");
}

#[test]
fn equal_priorities_run_in_a_stable_order() {
    let mut orders = Vec::new();
    for _ in 0..2 {
        let mut sys = Aerugo::<u32>::new();
        let x = tasklet(&mut sys, "X", 2);
        let y = tasklet(&mut sys, "Y", 2);
        let qx = queue(&mut sys, 4);
        let qy = queue(&mut sys, 4);
        sys.subscribe_tasklet_to_queue(&x, &qx).unwrap();
        sys.subscribe_tasklet_to_queue(&y, &qy).unwrap();
        sys.send_data(&qx, 0).unwrap();
        sys.send_data(&qy, 0).unwrap();
        let mut log = String::new();
        run(&mut sys, 0, &mut |s, h, _| log.push_str(s.get_tasklet_name(&h)));
        orders.push(log);
    }
    assert_eq!(orders[0], orders[1]);
    assert_eq!(orders[0], "YX");
}

#[test]
fn event_multiplexing() {
    let mut sys = Aerugo::<u32>::new();
    let t = tasklet(&mut sys, "T", 1);
    let e10 = event(&mut sys, 10);
    let e11 = event(&mut sys, 11);
    sys.subscribe_tasklet_to_events(&t, &vec![e10, e11]).unwrap();
    let mut log = Vec::new();
    for e in [e11, e10, e11] {
        sys.emit_event(&e).unwrap();
        let steps = run(&mut sys, 0, &mut |_, _, input| {
            if let StepInput::Event(id) = input {
                log.push(id);
            }
        });
        assert_eq!(steps, 1);
    }
    assert_eq!(log, vec![11, 10, 11]);
}

#[test]
fn pending_events_come_lowest_first_one_per_step() {
    let mut sys = Aerugo::<u32>::new();
    let t = tasklet(&mut sys, "T", 1);
    let e10 = event(&mut sys, 10);
    let e11 = event(&mut sys, 11);
    sys.subscribe_tasklet_to_events(&t, &vec![e11, e10]).unwrap();
    sys.emit_event(&e11).unwrap();
    sys.emit_event(&e10).unwrap();
    sys.emit_event(&e11).unwrap();
    let mut log = Vec::new();
    let steps = run(&mut sys, 0, &mut |_, _, input| {
        if let StepInput::Event(id) = input {
            log.push(id);
        }
    });
    assert_eq!(steps, 2);
    assert_eq!(log, vec![10, 11]);
}

#[test]
fn emit_reaches_every_subscriber() {
    let mut sys = Aerugo::<u32>::new();
    let a = tasklet(&mut sys, "A", 1);
    let b = tasklet(&mut sys, "B", 2);
    let e = event(&mut sys, 7);
    sys.subscribe_tasklet_to_events(&a, &vec![e]).unwrap();
    sys.subscribe_tasklet_to_events(&b, &vec![e]).unwrap();
    sys.emit_event(&e).unwrap();
    assert_eq!(sys.get_tasklet_status(&a), TaskStatus::Waiting);
    assert_eq!(sys.get_tasklet_status(&b), TaskStatus::Waiting);
    assert!(sys.has_work(&a));
    assert!(sys.has_work(&b));
    let mut log = String::new();
    run(&mut sys, 0, &mut |s, h, _| log.push_str(s.get_tasklet_name(&h)));
    assert_eq!(log, "BA");
}

#[test]
fn boolean_condition_all_true() {
    let mut sys = Aerugo::<u32>::new();
    let t = tasklet(&mut sys, "T", 1);
    let c1 = condition(&mut sys, false);
    let c2 = condition(&mut sys, false);
    sys.subscribe_tasklet_to_conditions(&t, &vec![c1, c2], BooleanConditionSetType::AllTrue)
        .unwrap();
    let mut executions = 0;
    sys.set_boolean_condition(&c1, true);
    run(&mut sys, 0, &mut |_, _, _| executions += 1);
    assert_eq!(executions, 0);
    sys.set_boolean_condition(&c2, true);
    run(&mut sys, 0, &mut |_, _, input| {
        assert_eq!(input, StepInput::Condition(true));
        executions += 1
    });
    assert_eq!(executions, 1);
    sys.set_boolean_condition(&c1, false);
    run(&mut sys, 0, &mut |_, _, _| executions += 1);
    assert_eq!(executions, 1);
    assert!(!sys.get_boolean_condition(&c1));
    assert!(sys.get_boolean_condition(&c2));
}

#[test]
fn boolean_condition_any_true_wakes_on_each_change() {
    let mut sys = Aerugo::<u32>::new();
    let t = tasklet(&mut sys, "T", 1);
    let c1 = condition(&mut sys, false);
    let c2 = condition(&mut sys, false);
    sys.subscribe_tasklet_to_conditions(&t, &vec![c1, c2], BooleanConditionSetType::AnyTrue)
        .unwrap();
    let mut executions = 0;
    sys.set_boolean_condition(&c1, true);
    assert_eq!(sys.get_tasklet_status(&t), TaskStatus::Waiting);
    run(&mut sys, 0, &mut |_, _, _| executions += 1);
    assert_eq!(executions, 1);
    sys.set_boolean_condition(&c1, true);
    run(&mut sys, 0, &mut |_, _, _| executions += 1);
    assert_eq!(executions, 1);
    sys.set_boolean_condition(&c2, true);
    run(&mut sys, 0, &mut |_, _, _| executions += 1);
    assert_eq!(executions, 2);
    sys.set_boolean_condition(&c1, false);
    sys.set_boolean_condition(&c2, false);
    run(&mut sys, 0, &mut |_, _, _| executions += 1);
    assert_eq!(executions, 2);
}

#[test]
fn condition_dropped_before_the_step_runs_nothing() {
    let mut sys = Aerugo::<u32>::new();
    let t = tasklet(&mut sys, "T", 1);
    let c = condition(&mut sys, false);
    sys.subscribe_tasklet_to_conditions(&t, &vec![c], BooleanConditionSetType::AllTrue).unwrap();
    sys.set_boolean_condition(&c, true);
    sys.set_boolean_condition(&c, false);
    let mut executions = 0;
    let steps = run(&mut sys, 0, &mut |_, _, _| executions += 1);
    assert_eq!(steps, 1);
    assert_eq!(executions, 0);
}

#[test]
fn cyclic_coalescing() {
    let mut sys = Aerugo::<u32>::new();
    let t = tasklet(&mut sys, "T", 1);
    sys.subscribe_tasklet_to_cyclic(&t, Some(Duration::from_millis(100)), Some(Duration::from_millis(0)))
        .unwrap();
    let now = Duration::from_millis(450).ticks();
    sys.tick(Instant::from_ticks(now));
    let mut executions = 0;
    run(&mut sys, now, &mut |_, _, input| {
        assert_eq!(input, StepInput::Tick);
        executions += 1
    });
    assert_eq!(executions, 1);
    assert_eq!(sys.get_last_execution_time(&t).ticks(), now);
    sys.tick(Instant::from_ticks(now));
    assert_eq!(run(&mut sys, now, &mut |_, _, _| ()), 0);
    sys.tick(Instant::from_ticks(Duration::from_millis(500).ticks()));
    assert_eq!(run(&mut sys, now, &mut |_, _, _| ()), 1);
}

#[test]
fn cyclic_without_period_wakes_on_every_tick() {
    let mut sys = Aerugo::<u32>::new();
    let t = tasklet(&mut sys, "T", 1);
    sys.subscribe_tasklet_to_cyclic(&t, None, Some(Duration::from_millis(1000))).unwrap();
    for now in [0u64, 1, 2] {
        sys.tick(Instant::from_ticks(now));
        assert_eq!(run(&mut sys, now, &mut |_, _, _| ()), 1);
    }
}

#[test]
fn cyclic_offset_delays_the_first_wake() {
    let mut sys = Aerugo::<u32>::new();
    let t = tasklet(&mut sys, "T", 1);
    sys.subscribe_tasklet_to_cyclic(&t, Some(Duration::from_ticks(10)), Some(Duration::from_ticks(25)))
        .unwrap();
    sys.tick(Instant::from_ticks(24));
    assert_eq!(run(&mut sys, 24, &mut |_, _, _| ()), 0);
    sys.tick(Instant::from_ticks(25));
    assert_eq!(run(&mut sys, 25, &mut |_, _, _| ()), 1);
    sys.tick(Instant::from_ticks(34));
    assert_eq!(run(&mut sys, 34, &mut |_, _, _| ()), 0);
    sys.tick(Instant::from_ticks(35));
    assert_eq!(run(&mut sys, 35, &mut |_, _, _| ()), 1);
}

#[test]
fn full_queue() {
    let mut sys = Aerugo::<u32>::new();
    let t = tasklet(&mut sys, "T", 1);
    let q = queue(&mut sys, 2);
    sys.subscribe_tasklet_to_queue(&t, &q).unwrap();
    assert_eq!(sys.send_data(&q, 1), Ok(()));
    assert_eq!(sys.send_data(&q, 2), Ok(()));
    assert_eq!(sys.send_data(&q, 3), Err(RuntimeError::DataQueueFull));
    let mut log = Vec::new();
    run(&mut sys, 0, &mut |_, _, input| {
        if let StepInput::Message(v) = input {
            log.push(v);
        }
    });
    assert_eq!(log, vec![1, 2]);
}

#[test]
fn wake_twice_queues_once() {
    let mut sys = Aerugo::<u32>::new();
    let t = tasklet(&mut sys, "T", 1);
    let q = queue(&mut sys, 2);
    sys.subscribe_tasklet_to_queue(&t, &q).unwrap();
    assert_eq!(sys.wake_tasklet(&t), Ok(true));
    assert_eq!(sys.wake_tasklet(&t), Ok(false));
    assert_eq!(sys.get_tasklet_status(&t), TaskStatus::Waiting);
    assert_eq!(run(&mut sys, 0, &mut |_, _, _| ()), 1);
}

#[test]
fn one_step_in_flight_and_self_wake_waits_for_next_turn() {
    let mut sys = Aerugo::<u32>::new();
    let t = tasklet(&mut sys, "T", 1);
    let other = tasklet(&mut sys, "O", 9);
    let q = queue(&mut sys, 4);
    let qo = queue(&mut sys, 4);
    sys.subscribe_tasklet_to_queue(&t, &q).unwrap();
    sys.subscribe_tasklet_to_queue(&other, &qo).unwrap();
    sys.send_data(&q, 3).unwrap();
    let mut log = Vec::new();
    run(&mut sys, 0, &mut |s, h, input| {
        for x in [&t, &other] {
            if *x != h {
                assert_ne!(s.get_tasklet_status(x), TaskStatus::Working);
            }
        }
        if let StepInput::Message(v) = input {
            log.push(v);
            if v > 0 {
                s.send_data(&q, v - 1).unwrap();
                assert_eq!(s.get_tasklet_status(&h), TaskStatus::Working);
            }
        }
    });
    assert_eq!(log, vec![3, 2, 1, 0]);
}

#[test]
fn echo_round_trip() {
    let mut sys = Aerugo::<u32>::new();
    let echo = tasklet(&mut sys, "Echo", 1);
    let sink = tasklet(&mut sys, "Sink", 1);
    let q1 = queue(&mut sys, 4);
    let q2 = queue(&mut sys, 4);
    sys.subscribe_tasklet_to_queue(&echo, &q1).unwrap();
    sys.subscribe_tasklet_to_queue(&sink, &q2).unwrap();
    sys.send_data(&q1, 77).unwrap();
    let mut received = Vec::new();
    run(&mut sys, 0, &mut |s, h, input| {
        if let StepInput::Message(v) = input {
            if h == echo {
                s.send_data(&q2, v).unwrap();
            } else {
                received.push(v);
            }
        }
    });
    assert_eq!(received, vec![77]);
}

#[test]
fn clear_queue_wakes_nobody() {
    let mut sys = Aerugo::<u32>::new();
    let t = tasklet(&mut sys, "T", 1);
    let q = queue(&mut sys, 4);
    sys.subscribe_tasklet_to_queue(&t, &q).unwrap();
    sys.send_data(&q, 1).unwrap();
    sys.send_data(&q, 1).unwrap();
    sys.clear_queue(&q);
    assert_eq!(sys.queue_len(&q), 0);
    let mut executions = 0;
    let steps = run(&mut sys, 0, &mut |_, _, _| executions += 1);
    assert_eq!(steps, 1);
    assert_eq!(executions, 0);
}

#[test]
fn execution_stats_track_step_durations() {
    let mut sys = Aerugo::<u32>::new();
    let t = tasklet(&mut sys, "T", 1);
    let q = queue(&mut sys, 4);
    sys.subscribe_tasklet_to_queue(&t, &q).unwrap();
    let stats = sys.get_execution_stats(&t);
    assert_eq!((stats.min, stats.max, stats.mean), (0, 0, 0));
    sys.send_data(&q, 1).unwrap();
    sys.send_data(&q, 2).unwrap();
    assert!(sys.next_step(Instant::from_ticks(10)).is_some());
    assert_eq!(sys.complete_step(Instant::from_ticks(15)), Ok(true));
    assert!(sys.next_step(Instant::from_ticks(20)).is_some());
    assert_eq!(sys.complete_step(Instant::from_ticks(30)), Ok(false));
    assert!(sys.next_step(Instant::from_ticks(40)).is_none());
    let stats = sys.get_execution_stats(&t);
    assert_eq!((stats.min, stats.max, stats.mean), (5, 10, 7));
    assert_eq!(sys.get_last_execution_time(&t).ticks(), 30);
}
