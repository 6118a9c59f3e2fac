use aerugo::error::{InitError, RuntimeError};
use aerugo::message_queue::MessageQueue;

#[test]
fn const_size() {
    let stub = MessageQueue::<()>::new(0);
    let stub_size = core::mem::size_of_val(&stub);

    let queue2u8 = MessageQueue::<u8>::new(2);
    let queue2u8_size = core::mem::size_of_val(&queue2u8);

    let queue100u64 = MessageQueue::<u64>::new(100);
    let queue100u64_size = core::mem::size_of_val(&queue100u64);

    assert_eq!(queue2u8_size, stub_size);
    assert_eq!(queue100u64_size, stub_size);
}

#[test]
fn queue_is_fifo_and_bounded() {
    let mut q = MessageQueue::<u32>::new(2);
    assert!(!q.data_waiting());
    assert_eq!(q.get_data(), None);
    assert_eq!(q.enqueue(7), Ok(()));
    assert_eq!(q.enqueue(8), Ok(()));
    assert_eq!(q.enqueue(9), Err(RuntimeError::DataQueueFull));
    assert_eq!(q.len(), 2);
    assert_eq!(q.get_data(), Some(7));
    assert_eq!(q.enqueue(9), Ok(()));
    assert_eq!(q.get_data(), Some(8));
    assert_eq!(q.get_data(), Some(9));
    assert_eq!(q.get_data(), None);
}

#[test]
fn queue_clear_drops_everything() {
    let mut q = MessageQueue::<u32>::new(3);
    q.enqueue(1).unwrap();
    q.enqueue(2).unwrap();
    q.clear();
    assert_eq!(q.len(), 0);
    assert_eq!(q.capacity(), 3);
}

#[test]
fn queue_subscriber_list_is_bounded() {
    let mut q = MessageQueue::<u32>::new(1);
    for t in 0..32 {
        assert_eq!(q.register_tasklet(t), Ok(()));
    }
    assert_eq!(q.register_tasklet(32), Err(InitError::SubscriptionListFull));
    assert_eq!(q.subscriber_count(), 32);
    assert_eq!(q.subscriber(5), 5);
}
