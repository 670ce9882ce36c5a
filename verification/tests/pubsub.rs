use fixed_queue::sync::pubsub::Publisher;

#[derive(Clone, PartialEq, Debug)]
struct TestUsize {
    data: usize,
}

impl TestUsize {
    fn new(data: usize) -> Self {
        TestUsize { data }
    }
}

impl std::ops::Deref for TestUsize {
    type Target = usize;

    fn deref(&self) -> &usize {
        &self.data
    }
}

#[test]
fn pubsub_test_base() {
    let mut publisher: Publisher<TestUsize, 3, 2> = Publisher::new();
    let sub1 = publisher.subscribe().unwrap();
    let sub2 = publisher.subscribe().unwrap();
    assert!(publisher.subscribe().is_none());

    publisher.send(TestUsize::new(1));
    publisher.send(TestUsize::new(2));
    publisher.send(TestUsize::new(3));
    publisher.send(TestUsize::new(4)); // full
    assert_eq!(*publisher.try_recv(&sub1).unwrap(), 1);
    assert_eq!(*publisher.try_recv(&sub2).unwrap(), 1);
    publisher.send(TestUsize::new(5));
    assert_eq!(*publisher.try_recv(&sub1).unwrap(), 2);
    assert_eq!(*publisher.try_recv(&sub2).unwrap(), 2);
    publisher.unsubscribe(sub2);
    assert_eq!(*publisher.try_recv(&sub1).unwrap(), 3);
    assert_eq!(*publisher.try_recv(&sub1).unwrap(), 5);
}

#[test]
fn pubsub_test_drop() {
    let mut publisher: Publisher<TestUsize, 3, 2> = Publisher::new();
    let _sub1 = publisher.subscribe().unwrap();
    let _sub2 = publisher.subscribe().unwrap();
    assert!(publisher.subscribe().is_none());

    publisher.send(TestUsize::new(1));
}

#[test]
fn pubsub_fan_out_and_drop_on_full() {
    let mut publisher: Publisher<usize, 3, 2> = Publisher::new();
    let sub1 = publisher.subscribe().unwrap();
    let sub2 = publisher.subscribe().unwrap();

    publisher.send(1);
    publisher.send(2);
    publisher.send(3);
    publisher.send(4); // both rings full: 4 is dropped for both
    assert_eq!(publisher.try_recv(&sub1), Some(1));
    publisher.unsubscribe(sub2);
    publisher.send(5); // delivered only to the remaining subscriber
    assert_eq!(publisher.try_recv(&sub1), Some(2));
    assert_eq!(publisher.try_recv(&sub1), Some(3));
    assert_eq!(publisher.try_recv(&sub1), Some(5));
    assert_eq!(publisher.try_recv(&sub1), None);
}

#[test]
fn pubsub_slot_freed_for_later_subscriber() {
    let mut publisher: Publisher<usize, 2, 1> = Publisher::new();
    let sub1 = publisher.subscribe().unwrap();
    assert!(publisher.subscribe().is_none());
    publisher.send(1);
    publisher.unsubscribe(sub1);
    let sub3 = publisher.subscribe().unwrap();
    // a fresh subscription starts with an empty ring
    assert_eq!(publisher.try_recv(&sub3), None);
    publisher.send(2);
    assert_eq!(publisher.try_recv(&sub3), Some(2));
}
