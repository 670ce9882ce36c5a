use fixed_queue::sync::AtomicOption;
use std::cell::Cell;
use std::rc::Rc;

#[derive(Clone, PartialEq, Debug)]
struct TestUsize {
    data: usize,
}

impl TestUsize {
    fn new(data: usize) -> Self {
        TestUsize { data }
    }
}

impl std::ops::Deref for TestUsize {
    type Target = usize;

    fn deref(&self) -> &usize {
        &self.data
    }
}

struct OnDrop {
    _value: usize,
    flag: Rc<Cell<usize>>,
}

impl Drop for OnDrop {
    fn drop(&mut self) {
        self.flag.set(self.flag.get() + 1);
    }
}

struct DropToken {
    flag: Rc<Cell<usize>>,
}

impl DropToken {
    fn is_droped(&self) -> bool {
        self.flag.get() >= 1
    }

    fn drops(&self) -> usize {
        self.flag.get()
    }
}

impl OnDrop {
    fn token(value: usize) -> (OnDrop, DropToken) {
        let flag = Rc::new(Cell::new(0));
        (OnDrop { _value: value, flag: flag.clone() }, DropToken { flag })
    }
}

#[test]
fn option_test_base() {
    let mut option: AtomicOption<TestUsize> = AtomicOption::new();

    assert!(option.push(TestUsize::new(1)).is_ok());
    assert!(option.push(TestUsize::new(4)).is_err());
    assert_eq!(*option.take().unwrap(), 1);
    assert!(option.push(TestUsize::new(5)).is_ok());
    assert_eq!(*option.take().unwrap(), 5);
    assert!(option.take().is_none());
    assert!(option.push(TestUsize::new(6)).is_ok());
}

#[test]
fn option_test_drop() {
    let mut option: AtomicOption<TestUsize> = AtomicOption::new();
    assert!(option.push(TestUsize::new(1)).is_ok());
}

#[test]
fn option_take_observes_empty() {
    let mut option: AtomicOption<usize> = AtomicOption::new();
    assert!(option.is_none());
    assert!(option.push(7).is_ok());
    assert!(option.is_some());
    assert_eq!(option.take(), Some(7));
    assert!(option.is_none());
    assert_eq!(option.take(), None);
}

#[test]
fn option_borrow_blocks_take() {
    let mut option: AtomicOption<usize> = AtomicOption::new();
    assert!(option.push(3).is_ok());
    let seek = option.seek().unwrap();
    assert_eq!(*option.peek(&seek), 3);
    assert!(option.take().is_none());
    assert!(option.is_some());
    option.release(seek);
    assert_eq!(option.take(), Some(3));
}

#[test]
fn option_seek_reports_observed_state() {
    let mut option: AtomicOption<usize> = AtomicOption::new();
    let err = option.seek().unwrap_err();
    assert!(err.is_uninitialized());
    assert!(option.push(1).is_ok());
    assert!(option.seek().is_ok());
}

#[test]
fn option_deferred_destruction() {
    let mut option: AtomicOption<OnDrop> = AtomicOption::new();
    let (item, token) = OnDrop::token(1);
    assert!(option.push(item).is_ok());
    let first = option.seek().unwrap();
    let second = option.seek().unwrap();
    option.remove_after_drop(&first);
    assert!(!token.is_droped());
    option.release(first);
    assert!(!token.is_droped());
    option.release(second);
    assert!(token.is_droped());
    assert_eq!(token.drops(), 1);
    assert!(option.is_none());
}
