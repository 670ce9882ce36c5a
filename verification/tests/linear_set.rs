use fixed_queue::LinearSet;
use std::cell::Cell;
use std::rc::Rc;

struct OnDrop {
    _value: usize,
    flag: Rc<Cell<usize>>,
}

impl Drop for OnDrop {
    fn drop(&mut self) {
        self.flag.set(self.flag.get() + 1);
    }
}

impl PartialEq for OnDrop {
    fn eq(&self, other: &OnDrop) -> bool {
        self._value == other._value
    }
}

struct DropToken {
    flag: Rc<Cell<usize>>,
}

impl DropToken {
    fn is_droped(&self) -> bool {
        self.flag.get() >= 1
    }
}

impl OnDrop {
    fn token(value: usize) -> (OnDrop, DropToken) {
        let flag = Rc::new(Cell::new(0));
        (OnDrop { _value: value, flag: flag.clone() }, DropToken { flag })
    }
}

#[test]
fn linear_set_test_base() {
    let mut set: LinearSet<usize, 3> = LinearSet::new();
    assert_eq!(set.capacity(), 3);
    assert!(set.is_empty());

    assert_eq!(set.insert(1), Ok(true));
    assert_eq!(set.insert(1), Ok(false));
    assert!(set.contains(&1));
    assert!(set.insert(2).is_ok());
    assert!(set.contains(&2));
    assert!(set.insert(3).is_ok());
    assert!(set.contains(&3));
    assert!(set.insert(4).is_err());
    assert!(!set.contains(&4));
    assert!(set.remove(&1));
    assert!(!set.remove(&1));
    assert!(!set.contains(&1));
    assert!(set.insert(5).is_ok());
    assert!(set.contains(&5));
}

#[test]
fn linear_set_test_drop() {
    let mut set: LinearSet<_, 3> = LinearSet::new();
    let (item, token) = OnDrop::token(1);
    assert!(set.insert(item).is_ok());
    drop(set);
    assert!(token.is_droped());
}

#[test]
fn linear_set_rejects_when_full() {
    let mut set: LinearSet<usize, 2> = LinearSet::new();
    assert_eq!(set.insert(1), Ok(true));
    assert_eq!(set.insert(2), Ok(true));
    assert_eq!(set.insert(3), Err(3));
    assert_eq!(set.insert(2), Ok(false));
    assert_eq!(*set.get(&2).unwrap(), 2);
    assert!(set.get(&9).is_none());
    assert_eq!(set.len(), 2);
}
