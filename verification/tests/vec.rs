use fixed_queue::Vec;
use std::cell::Cell;
use std::rc::Rc;

struct OnDrop {
    _value: usize,
    flag: Rc<Cell<usize>>,
}

impl Drop for OnDrop {
    fn drop(&mut self) {
        self.flag.set(self.flag.get() + 1);
    }
}

struct DropToken {
    flag: Rc<Cell<usize>>,
}

impl DropToken {
    fn is_droped(&self) -> bool {
        self.flag.get() >= 1
    }
}

impl OnDrop {
    fn token(value: usize) -> (OnDrop, DropToken) {
        let flag = Rc::new(Cell::new(0));
        (OnDrop { _value: value, flag: flag.clone() }, DropToken { flag })
    }
}

#[test]
fn vec_test_base() {
    let mut vec: Vec<usize, 3> = Vec::new();
    assert_eq!(vec.capacity(), 3);
    assert!(vec.is_empty());

    assert!(vec.push(1).is_ok());
    assert_eq!(*vec.get(0).unwrap(), 1);
    assert!(vec.push(2).is_ok());
    assert_eq!(*vec.get(1).unwrap(), 2);
    assert!(vec.push(3).is_ok());
    assert_eq!(*vec.get(2).unwrap(), 3);
    assert!(vec.push(4).is_err());
    assert_eq!(vec.pop().unwrap(), 3);
    assert!(vec.push(5).is_ok());
    assert_eq!(vec.pop().unwrap(), 5);
    assert_eq!(vec.pop().unwrap(), 2);
    assert_eq!(vec.pop().unwrap(), 1);
    assert!(vec.pop().is_none());
    assert!(vec.push(6).is_ok());
    assert_eq!(*vec.get(0).unwrap(), 6);
}

#[test]
fn vec_test_drop() {
    let mut vec: Vec<_, 3> = Vec::new();
    let (item, token) = OnDrop::token(1);
    assert!(vec.push(item).is_ok());
    drop(vec);
    assert!(token.is_droped());
}

#[test]
fn vec_rejects_with_value() {
    let mut vec: Vec<usize, 2> = Vec::new();
    assert_eq!(vec.push(10), Ok(()));
    assert_eq!(vec.push(20), Ok(()));
    assert_eq!(vec.push(30), Err(30));
    assert_eq!(vec.len(), 2);
}

#[test]
fn vec_round_trip() {
    let mut vec: Vec<String, 4> = Vec::new();
    assert!(vec.push(String::from("alpha")).is_ok());
    assert!(vec.push(String::from("beta")).is_ok());
    assert_eq!(vec.pop().unwrap(), "beta");
    assert_eq!(vec.pop().unwrap(), "alpha");
    assert!(vec.pop().is_none());
    assert!(vec.is_empty());
    assert!(!vec.is_full());
}

#[test]
fn vec_swap_remove_and_truncate() {
    let mut vec: Vec<usize, 5> = Vec::new();
    for v in [1, 2, 3, 4, 5] {
        assert!(vec.push(v).is_ok());
    }
    assert!(vec.is_full());
    assert_eq!(vec.swap_remove(1), 2);
    assert_eq!(vec.as_slice(), &[1, 5, 3, 4]);
    vec.truncate(2);
    assert_eq!(vec.as_slice(), &[1, 5]);
    vec.truncate(9);
    assert_eq!(vec.as_slice(), &[1, 5]);
    vec.clear();
    assert!(vec.is_empty());
}

#[test]
fn vec_extend_from_slice() {
    let mut vec: Vec<usize, 4> = Vec::new();
    assert!(vec.push(7).is_ok());
    vec.extend_from_slice(&[8, 9]);
    assert_eq!(vec.as_slice(), &[7, 8, 9]);
    assert_eq!(vec.len(), 3);
}

#[test]
fn vec_get_mut_updates() {
    let mut vec: Vec<usize, 3> = Vec::new();
    assert!(vec.push(1).is_ok());
    assert!(vec.push(2).is_ok());
    *vec.get_mut(1).unwrap() = 20;
    assert_eq!(*vec.get(1).unwrap(), 20);
    assert!(vec.get_mut(5).is_none());
}
