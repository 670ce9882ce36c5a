use fixed_queue::sync::AtomicVec;

#[derive(Clone, PartialEq, Debug)]
struct TestUsize {
    data: usize,
}

impl TestUsize {
    fn new(data: usize) -> Self {
        TestUsize { data }
    }
}

impl std::ops::Deref for TestUsize {
    type Target = usize;

    fn deref(&self) -> &usize {
        &self.data
    }
}

#[test]
fn atomic_vec_test_base() {
    let mut vec: AtomicVec<TestUsize, 3> = AtomicVec::new();
    assert_eq!(vec.capacity(), 3);

    assert!(vec.push(TestUsize::new(1)).is_ok());
    assert!(vec.push(TestUsize::new(2)).is_ok());
    assert!(vec.push(TestUsize::new(3)).is_ok());
    assert!(vec.push(TestUsize::new(4)).is_err());
    assert_eq!(*vec.pop().unwrap(), 1);
    assert!(vec.push(TestUsize::new(5)).is_ok());
    assert_eq!(*vec.pop().unwrap(), 5);
    assert_eq!(*vec.pop().unwrap(), 2);
    assert_eq!(*vec.pop().unwrap(), 3);
    assert!(vec.pop().is_none());
    assert!(vec.push(TestUsize::new(6)).is_ok());
}

#[test]
fn atomic_vec_test_drop() {
    let mut vec: AtomicVec<TestUsize, 4> = AtomicVec::new();
    assert!(vec.push(TestUsize::new(1)).is_ok());
    assert!(vec.push(TestUsize::new(2)).is_ok());
}

#[test]
fn atomic_vec_push_reports_slot() {
    let mut vec: AtomicVec<usize, 3> = AtomicVec::new();
    assert!(vec.is_empty());
    assert_eq!(vec.push(10), Ok(0));
    assert_eq!(vec.push(11), Ok(1));
    assert_eq!(vec.push(12), Ok(2));
    assert!(vec.is_full());
    assert_eq!(vec.push(13), Err(13));
    assert_eq!(vec.pop(), Some(10));
    assert_eq!(vec.push(14), Ok(0));
}

#[test]
fn atomic_vec_borrowed_slot_not_popped() {
    let mut vec: AtomicVec<usize, 2> = AtomicVec::new();
    assert_eq!(vec.push(10), Ok(0));
    assert_eq!(vec.push(11), Ok(1));
    let seek = vec.get(0).unwrap();
    assert_eq!(*vec.peek(&seek), 10);
    // the borrowed slot is skipped; the scan takes the next one
    assert_eq!(vec.pop(), Some(11));
    assert_eq!(vec.pop(), None);
    vec.release(seek);
    assert_eq!(vec.pop(), Some(10));
    assert!(vec.is_empty());
}

#[test]
fn atomic_vec_get_out_of_state() {
    let mut vec: AtomicVec<usize, 2> = AtomicVec::new();
    let err = vec.get(1).unwrap_err();
    assert!(err.is_uninitialized());
    assert_eq!(vec.push(5), Ok(0));
    assert!(vec.get(0).is_ok());
}

#[test]
fn atomic_vec_self_freeing_slot() {
    let mut vec: AtomicVec<usize, 2> = AtomicVec::new();
    assert_eq!(vec.push(10), Ok(0));
    let seek = vec.get(0).unwrap();
    vec.remove_after_drop(&seek);
    // still readable while the borrow is live
    assert_eq!(*vec.peek(&seek), 10);
    vec.release(seek);
    // the slot freed itself on the last release
    assert_eq!(vec.push(20), Ok(0));
    assert_eq!(vec.pop(), Some(20));
}

#[test]
fn atomic_vec_clear() {
    let mut vec: AtomicVec<usize, 3> = AtomicVec::new();
    assert_eq!(vec.push(1), Ok(0));
    assert_eq!(vec.push(2), Ok(1));
    vec.clear();
    assert!(vec.is_empty());
    assert_eq!(vec.push(3), Ok(0));
}
