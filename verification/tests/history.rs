use fixed_queue::History;
use std::cell::Cell;
use std::rc::Rc;

struct OnDrop {
    _value: usize,
    flag: Rc<Cell<usize>>,
}

impl Drop for OnDrop {
    fn drop(&mut self) {
        self.flag.set(self.flag.get() + 1);
    }
}

impl PartialEq for OnDrop {
    fn eq(&self, other: &OnDrop) -> bool {
        self._value == other._value
    }
}

struct DropToken {
    flag: Rc<Cell<usize>>,
}

impl DropToken {
    fn is_droped(&self) -> bool {
        self.flag.get() >= 1
    }
}

impl OnDrop {
    fn token(value: usize) -> (OnDrop, DropToken) {
        let flag = Rc::new(Cell::new(0));
        (OnDrop { _value: value, flag: flag.clone() }, DropToken { flag })
    }
}

#[test]
fn history_test_base() {
    let mut history: History<usize, 3> = History::new();
    history.insert(1);
    history.insert(2);
    history.insert(3);
    assert!(history.contains(&1));
    history.insert(4);
    assert!(!history.contains(&1));
}

#[test]
fn history_test_drop() {
    let mut history: History<_, 3> = History::new();
    let (item, token) = OnDrop::token(1);
    history.insert(item);
    drop(history);
    assert!(token.is_droped());
}

#[test]
fn history_overwrites_oldest_in_place() {
    let mut history: History<usize, 3> = History::new();
    for v in [1, 2, 3] {
        history.insert(v);
    }
    assert_eq!(history.as_slice(), &[1, 2, 3]);
    history.insert(4);
    assert_eq!(history.as_slice(), &[4, 2, 3]);
    history.insert(5);
    assert_eq!(history.as_slice(), &[4, 5, 3]);
    assert_eq!(history.len(), 3);
    assert!(history.contains(&3));
    assert!(!history.contains(&2));
}
