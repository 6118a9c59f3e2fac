use aerugo::aerugo::Aerugo;
use aerugo::boolean_condition::{BooleanCondition, BooleanConditionSetType};
use aerugo::error::{InitError, RuntimeError};
use aerugo::event::{Event, EventSet};
use aerugo::storage::Storage;
use aerugo::tasklet::TaskletConfig;
use aerugo::time::Duration;

#[test]
fn storages_are_filled_once() {
    let mut sys = Aerugo::<u32>::new();
    let mut ts = Storage::new();
    assert_eq!(sys.create_tasklet(TaskletConfig::default(), &mut ts), Ok(()));
    assert_eq!(
        sys.create_tasklet(TaskletConfig::default(), &mut ts),
        Err(InitError::TaskletAlreadyCreated)
    );
    assert_eq!(sys.tasklet_count(), 1);
    let mut qs = Storage::new();
    assert_eq!(sys.create_message_queue(2, &mut qs), Ok(()));
    assert_eq!(sys.create_message_queue(2, &mut qs), Err(InitError::MessageQueueAlreadyCreated));
    let mut es = Storage::new();
    assert_eq!(sys.create_event(1, &mut es), Ok(()));
    assert_eq!(sys.create_event(1, &mut es), Err(InitError::EventAlreadyCreated));
    let mut cs = Storage::new();
    assert_eq!(sys.create_boolean_condition(false, &mut cs), Ok(()));
    assert_eq!(
        sys.create_boolean_condition(false, &mut cs),
        Err(InitError::BooleanConditionAlreadyCreated)
    );
}

#[test]
fn handles_are_given_once() {
    let mut sys = Aerugo::<u32>::new();
    let mut ts = Storage::new();
    assert!(ts.create_tasklet_handle().is_none());
    sys.create_tasklet(TaskletConfig::default(), &mut ts).unwrap();
    let h = ts.create_tasklet_handle();
    assert!(h.is_some());
    assert_eq!(h.unwrap().index(), 0);
    assert!(ts.create_tasklet_handle().is_none());
}

#[test]
fn second_subscription_is_refused() {
    let mut sys = Aerugo::<u32>::new();
    let mut ts = Storage::new();
    sys.create_tasklet(TaskletConfig::default(), &mut ts).unwrap();
    let t = ts.create_tasklet_handle().unwrap();
    let mut qs = Storage::new();
    sys.create_message_queue(2, &mut qs).unwrap();
    let q = qs.create_queue_handle().unwrap();
    let mut es = Storage::new();
    sys.create_event(3, &mut es).unwrap();
    let e = es.create_event_handle().unwrap();
    let mut cs = Storage::new();
    sys.create_boolean_condition(true, &mut cs).unwrap();
    let c = cs.create_condition_handle().unwrap();
    assert_eq!(sys.subscribe_tasklet_to_queue(&t, &q), Ok(()));
    assert_eq!(
        sys.subscribe_tasklet_to_queue(&t, &q),
        Err(InitError::DataReceiverAlreadySubscribed)
    );
    assert_eq!(
        sys.subscribe_tasklet_to_events(&t, &vec![e]),
        Err(InitError::DataReceiverAlreadySubscribed)
    );
    assert_eq!(
        sys.subscribe_tasklet_to_conditions(&t, &vec![c], BooleanConditionSetType::AnyTrue),
        Err(InitError::DataReceiverAlreadySubscribed)
    );
    assert_eq!(
        sys.subscribe_tasklet_to_cyclic(&t, Some(Duration::from_millis(1)), None),
        Err(InitError::DataReceiverAlreadySubscribed)
    );
}

#[test]
fn event_set_list_is_bounded() {
    let mut e = Event::new(4);
    assert_eq!(e.id(), 4);
    for s in 0..32 {
        assert_eq!(e.add_set(s), Ok(()));
    }
    assert_eq!(e.add_set(32), Err(InitError::EventSetListFull));
    assert_eq!(e.set_count(), 32);
}

#[test]
fn condition_set_list_is_bounded() {
    let mut c = BooleanCondition::new(false);
    for s in 0..32 {
        assert_eq!(c.add_set(s), Ok(()));
    }
    assert_eq!(c.add_set(32), Err(InitError::SubscriptionListFull));
}

#[test]
fn event_set_refuses_an_event_it_does_not_hold() {
    let mut set = EventSet::new(0, vec![1, 2]);
    assert_eq!(set.activate_event(3), Err(RuntimeError::EventSetFull));
    assert!(!set.data_ready());
    assert_eq!(set.activate_event(2), Ok(()));
    assert!(set.data_ready());
    assert_eq!(set.get_data(), Some(2));
    assert_eq!(set.get_data(), None);
}
