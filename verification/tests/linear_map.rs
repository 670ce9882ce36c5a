use fixed_queue::LinearMap;
use std::cell::Cell;
use std::rc::Rc;

struct OnDrop {
    _value: usize,
    flag: Rc<Cell<usize>>,
}

impl Drop for OnDrop {
    fn drop(&mut self) {
        self.flag.set(self.flag.get() + 1);
    }
}

struct DropToken {
    flag: Rc<Cell<usize>>,
}

impl DropToken {
    fn is_droped(&self) -> bool {
        self.flag.get() >= 1
    }
}

impl OnDrop {
    fn token(value: usize) -> (OnDrop, DropToken) {
        let flag = Rc::new(Cell::new(0));
        (OnDrop { _value: value, flag: flag.clone() }, DropToken { flag })
    }
}

#[test]
fn linear_map_test_base() {
    let mut map: LinearMap<usize, usize, 3> = LinearMap::new();
    assert_eq!(map.capacity(), 3);
    assert!(map.is_empty());

    assert!(map.insert(1, 1).is_ok());
    assert!(map.contains_key(&1));
    assert!(map.insert(2, 2).is_ok());
    assert!(map.contains_key(&2));
    assert!(map.insert(3, 3).is_ok());
    assert!(map.contains_key(&3));
    assert!(map.insert(4, 4).is_err());
    assert!(!map.contains_key(&4));
    assert!(map.remove(&1).is_some());
    assert!(!map.contains_key(&1));
    assert!(map.insert(5, 5).is_ok());
    assert!(map.contains_key(&5));
}

#[test]
fn linear_map_test_drop() {
    let mut map: LinearMap<usize, _, 3> = LinearMap::new();
    let (item, token) = OnDrop::token(1);
    assert!(map.insert(1, item).is_ok());
    drop(map);
    assert!(token.is_droped());
}

#[test]
fn linear_map_replaces_existing_key() {
    let mut map: LinearMap<usize, usize, 2> = LinearMap::new();
    assert_eq!(map.insert(1, 10), Ok(None));
    assert_eq!(map.insert(1, 20), Ok(Some(10)));
    assert_eq!(map.len(), 1);
    assert_eq!(*map.get(&1).unwrap(), 20);
    assert_eq!(map.insert(2, 2), Ok(None));
    assert_eq!(map.insert(3, 3), Err((3, 3)));
    *map.get_mut(&2).unwrap() = 22;
    assert_eq!(*map.get(&2).unwrap(), 22);
    assert_eq!(map.remove(&9), None);
    assert_eq!(map.remove(&1), Some(20));
    assert!(map.get(&1).is_none());
}
