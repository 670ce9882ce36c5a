use fixed_queue::VecDeque;
use std::cell::Cell;
use std::rc::Rc;

struct OnDrop {
    _value: usize,
    flag: Rc<Cell<usize>>,
}

impl Drop for OnDrop {
    fn drop(&mut self) {
        self.flag.set(self.flag.get() + 1);
    }
}

struct DropToken {
    flag: Rc<Cell<usize>>,
}

impl DropToken {
    fn is_droped(&self) -> bool {
        self.flag.get() >= 1
    }
}

impl OnDrop {
    fn token(value: usize) -> (OnDrop, DropToken) {
        let flag = Rc::new(Cell::new(0));
        (OnDrop { _value: value, flag: flag.clone() }, DropToken { flag })
    }
}

#[test]
fn vec_deque_test_base() {
    let mut vec: VecDeque<usize, 3> = VecDeque::new();
    assert_eq!(vec.capacity(), 3);
    assert!(vec.is_empty());

    assert!(vec.push_back(2).is_ok());
    assert_eq!(*vec.get(0).unwrap(), 2);
    assert!(vec.push_front(1).is_ok());
    assert_eq!(*vec.get(0).unwrap(), 1);
    assert_eq!(*vec.get(1).unwrap(), 2);
    assert!(vec.push_back(3).is_ok());
    assert_eq!(*vec.get(2).unwrap(), 3);
    assert!(vec.push_back(4).is_err());
    assert_eq!(vec.pop_back().unwrap(), 3);
    assert!(vec.push_back(5).is_ok());
    assert_eq!(vec.pop_back().unwrap(), 5);
    assert_eq!(vec.pop_back().unwrap(), 2);
    assert_eq!(vec.pop_back().unwrap(), 1);
    assert!(vec.pop_back().is_none());
    assert!(vec.push_front(6).is_ok());
    assert_eq!(*vec.get(0).unwrap(), 6);
}

#[test]
fn vec_deque_test_drop() {
    let mut vec: VecDeque<_, 3> = VecDeque::new();
    let (item, token) = OnDrop::token(1);
    assert!(vec.push_front(item).is_ok());
    drop(vec);
    assert!(token.is_droped());
}

#[test]
fn vec_deque_wraps_around() {
    let mut vec: VecDeque<usize, 3> = VecDeque::new();
    assert!(vec.push_back(1).is_ok());
    assert!(vec.push_back(2).is_ok());
    assert_eq!(vec.pop_front().unwrap(), 1);
    assert!(vec.push_back(3).is_ok());
    assert!(vec.push_back(4).is_ok());
    assert!(vec.is_full());
    assert_eq!(vec.len(), 3);
    assert_eq!(vec.push_back(5), Err(5));
    assert_eq!(vec.pop_front().unwrap(), 2);
    assert_eq!(vec.pop_front().unwrap(), 3);
    assert_eq!(vec.pop_front().unwrap(), 4);
    assert!(vec.pop_front().is_none());
    assert!(vec.is_empty());
}

#[test]
fn vec_deque_get_mut_and_clear() {
    let mut vec: VecDeque<usize, 3> = VecDeque::new();
    assert!(vec.push_back(1).is_ok());
    assert!(vec.push_back(2).is_ok());
    *vec.get_mut(0).unwrap() = 10;
    assert_eq!(*vec.get(0).unwrap(), 10);
    assert!(vec.get(2).is_none());
    assert!(vec.get_mut(2).is_none());
    vec.clear();
    assert!(vec.is_empty());
    assert!(vec.get(0).is_none());
}
