use fixed_queue::sync::Spsc;
use fixed_queue::Spsc as ReservedSpsc;

#[derive(Clone, PartialEq, Debug)]
struct TestUsize {
    data: usize,
}

impl TestUsize {
    fn new(data: usize) -> Self {
        TestUsize { data }
    }
}

impl std::ops::Deref for TestUsize {
    type Target = usize;

    fn deref(&self) -> &usize {
        &self.data
    }
}

#[test]
fn spsc_test_base() {
    let mut spsc: Spsc<TestUsize, 3> = Spsc::new();
    assert_eq!(spsc.capacity(), 3);
    let sender = spsc.take_sender().unwrap();
    let recver = spsc.take_recver().unwrap();
    assert!(spsc.take_sender().is_none());

    assert!(sender.send(&mut spsc, TestUsize::new(1)).is_ok());
    assert!(sender.send(&mut spsc, TestUsize::new(2)).is_ok());
    assert!(sender.send(&mut spsc, TestUsize::new(3)).is_ok());
    assert!(sender.send(&mut spsc, TestUsize::new(4)).is_err());
    assert_eq!(*recver.try_recv(&mut spsc).unwrap(), 1);
    assert!(sender.send(&mut spsc, TestUsize::new(5)).is_ok());

    spsc.free_recver(recver);
    let recver = spsc.take_recver().unwrap();
    assert_eq!(*recver.try_recv(&mut spsc).unwrap(), 2);
    assert_eq!(*recver.try_recv(&mut spsc).unwrap(), 3);
    assert_eq!(*recver.try_recv(&mut spsc).unwrap(), 5);
    assert!(recver.try_recv(&mut spsc).is_none());
    assert!(sender.send(&mut spsc, TestUsize::new(6)).is_ok());
}

#[test]
fn spsc_test_drop() {
    let mut spsc: Spsc<TestUsize, 3> = Spsc::new();
    let sender = spsc.take_sender().unwrap();
    assert!(sender.send(&mut spsc, TestUsize::new(1)).is_ok());
}

#[test]
fn spsc_fifo_order() {
    let mut spsc: Spsc<usize, 100> = Spsc::new();
    let sender = spsc.take_sender().unwrap();
    let recver = spsc.take_recver().unwrap();
    for i in 0..100 {
        assert!(sender.send(&mut spsc, i).is_ok());
    }
    assert!(spsc.is_full());
    for i in 0..100 {
        assert_eq!(recver.try_recv(&mut spsc).unwrap(), i);
    }
    assert!(spsc.is_empty());
    assert!(recver.try_recv(&mut spsc).is_none());
}

#[test]
fn spsc_rejects_with_value() {
    let mut spsc: Spsc<usize, 2> = Spsc::new();
    let sender = spsc.take_sender().unwrap();
    assert_eq!(sender.send(&mut spsc, 1), Ok(()));
    assert_eq!(sender.send(&mut spsc, 2), Ok(()));
    assert_eq!(sender.send(&mut spsc, 3), Err(3));
    assert_eq!(spsc.len(), 2);
}

#[test]
fn spsc_handles_are_exclusive() {
    let mut spsc: Spsc<usize, 2> = Spsc::new();
    let sender = spsc.take_sender().unwrap();
    assert!(spsc.take_sender().is_none());
    let recver = spsc.take_recver().unwrap();
    assert!(spsc.take_recver().is_none());
    spsc.free_sender(sender);
    spsc.free_recver(recver);
    assert!(spsc.take_sender().is_some());
    assert!(spsc.take_recver().is_some());
}

#[test]
fn spsc_reserved_slot_variant() {
    let mut spsc: ReservedSpsc<usize, 3> = ReservedSpsc::new();
    assert_eq!(spsc.capacity(), 2);
    let sender = spsc.take_sender().unwrap();
    let recver = spsc.take_recver().unwrap();
    assert!(spsc.take_sender().is_none());
    assert_eq!(sender.send(&mut spsc, 1), Ok(()));
    assert_eq!(sender.send(&mut spsc, 2), Ok(()));
    assert_eq!(sender.send(&mut spsc, 3), Err(3));
    assert_eq!(recver.try_recv(&mut spsc), Ok(1));
    assert_eq!(sender.send(&mut spsc, 4), Ok(()));
    assert_eq!(recver.try_recv(&mut spsc), Ok(2));
    assert_eq!(recver.try_recv(&mut spsc), Ok(4));
    assert_eq!(recver.try_recv(&mut spsc), Err(()));
    spsc.free_sender(sender);
    assert!(spsc.take_sender().is_some());
}
