use fixed_queue::sync::mpmc::Mpmc;

#[derive(Clone, PartialEq, Debug)]
struct TestUsize {
    data: usize,
}

impl TestUsize {
    fn new(data: usize) -> Self {
        TestUsize { data }
    }
}

impl std::ops::Deref for TestUsize {
    type Target = usize;

    fn deref(&self) -> &usize {
        &self.data
    }
}

#[test]
fn mpmc_test_base() {
    let mut mpmc: Mpmc<TestUsize, 3> = Mpmc::new();
    assert_eq!(mpmc.capacity(), 3);

    assert!(mpmc.push(TestUsize::new(1)).is_ok());
    assert!(mpmc.push(TestUsize::new(2)).is_ok());
    assert!(mpmc.push(TestUsize::new(3)).is_ok());
    assert!(mpmc.push(TestUsize::new(4)).is_err());
    assert_eq!(*mpmc.pop().unwrap(), 1);
    assert!(mpmc.push(TestUsize::new(5)).is_ok());
    assert_eq!(*mpmc.pop().unwrap(), 2);
    assert_eq!(*mpmc.pop().unwrap(), 3);
    assert_eq!(*mpmc.pop().unwrap(), 5);
    assert!(mpmc.pop().is_none());
    assert!(mpmc.push(TestUsize::new(6)).is_ok());
}

#[test]
fn mpmc_test_drop() {
    let mut mpmc: Mpmc<TestUsize, 4> = Mpmc::new();
    assert!(mpmc.push(TestUsize::new(1)).is_ok());
    assert!(mpmc.push(TestUsize::new(2)).is_ok());
}

#[test]
fn mpmc_rejects_with_value() {
    let mut mpmc: Mpmc<usize, 2> = Mpmc::new();
    assert_eq!(mpmc.push(1), Ok(()));
    assert_eq!(mpmc.push(2), Ok(()));
    assert_eq!(mpmc.push(9), Err(9));
    assert_eq!(mpmc.len(), 2);
    assert!(mpmc.is_full());
}

#[test]
fn mpmc_no_loss_no_duplication() {
    let mut mpmc: Mpmc<usize, 100> = Mpmc::new();
    let sender = mpmc.sender();
    let recver = mpmc.recver();
    for i in 0..100 {
        assert!(sender.send(&mut mpmc, i).is_ok());
    }
    let mut popped: Vec<usize> = Vec::new();
    while let Some(v) = recver.try_recv(&mut mpmc) {
        popped.push(v);
    }
    popped.sort();
    let expected: Vec<usize> = (0..100).collect();
    assert_eq!(popped, expected);
    assert!(mpmc.is_empty());
}

#[test]
fn mpmc_wraps_generations() {
    let mut mpmc: Mpmc<usize, 3> = Mpmc::new();
    for lap in 0..10 {
        for i in 0..3 {
            assert!(mpmc.push(lap * 3 + i).is_ok());
        }
        assert!(mpmc.is_full());
        for i in 0..3 {
            assert_eq!(mpmc.pop().unwrap(), lap * 3 + i);
        }
        assert!(mpmc.is_empty());
    }
}

#[test]
fn mpmc_clear_resets() {
    let mut mpmc: Mpmc<usize, 3> = Mpmc::new();
    assert!(mpmc.push(1).is_ok());
    assert!(mpmc.push(2).is_ok());
    assert_eq!(mpmc.pop().unwrap(), 1);
    assert_eq!(mpmc.len(), 1);
    mpmc.clear();
    assert!(mpmc.is_empty());
    assert!(mpmc.push(7).is_ok());
    assert_eq!(mpmc.pop().unwrap(), 7);
}
