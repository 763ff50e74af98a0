use gridworld::cell::CellId;
use gridworld::vecmap::{CellMap, VecMap};

#[test]
fn vecmap_insert_get_remove() {
    let mut m: VecMap<u64> = VecMap::new();
    assert_eq!(m.len(), 0);
    m.insert(3, 30);
    m.insert(4, 40);
    m.insert(3, 31);
    assert_eq!(m.len(), 2);
    assert!(m.contains_key(3));
    assert_eq!(m.get(3), Some(&31));
    assert_eq!(m.get(5), None);
    assert_eq!(m.remove(3), Some(31));
    assert_eq!(m.remove(3), None);
    assert_eq!(m.len(), 1);
    assert_eq!(m.pair_at(0), &(4, 40));
}

#[test]
fn cellmap_insert_get_remove() {
    let a = CellId { x: -1, y: 2 };
    let b = CellId { x: 0, y: 0 };
    let mut m: CellMap<&str> = CellMap::new();
    m.insert(a, "a");
    m.insert(b, "b");
    assert_eq!(m.len(), 2);
    assert_eq!(m.get(a), Some(&"a"));
    assert!(m.contains_key(b));
    assert_eq!(m.remove(b), Some("b"));
    assert_eq!(m.get(b), None);
    assert_eq!(m.len(), 1);
}
