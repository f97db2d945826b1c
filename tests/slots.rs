use graph_walker::neighbour_data::{Neighbours, SLOTS};
use graph_walker::node::count_slots;
use graph_walker::species::Species;

#[test]
fn test_into_iter() {
    let neighbours_idx = Neighbours::new(1, 2, 3, 4);
    let mut iter = neighbours_idx.into_iter();
    assert_eq!(iter.next(), Some(1));
    assert_eq!(iter.next(), Some(2));
    assert_eq!(iter.next(), Some(3));
    assert_eq!(iter.next(), Some(4));
    assert_eq!(iter.next(), None);
    assert_eq!(iter.next(), None);
}

#[test]
fn neighbours_new_has_four_slots() {
    let n = Neighbours::new(7, 8, 9, 10);
    assert_eq!(n.size, SLOTS);
    assert_eq!(n.get(0), 7);
    assert_eq!(n.get(1), 8);
    assert_eq!(n.get(2), 9);
    assert_eq!(n.get(3), 10);
}

#[test]
fn add_agent_to_slot_counts_one_slot() {
    let mut n = Neighbours::new(0, 0, 0, 0);
    n.add_agent_to_slot(2);
    n.add_agent_to_slot(2);
    n.add_agent_to_slot(3);
    assert_eq!((n.top, n.right, n.bottom, n.left), (0, 0, 2, 1));
}

#[test]
fn count_slots_tallies_each_slot() {
    let n = count_slots(&vec![0, 1, 1, 3, 3, 3]);
    assert_eq!((n.top, n.right, n.bottom, n.left), (1, 2, 0, 3));
    assert_eq!(n.size, 4);
}

#[test]
fn count_slots_of_nothing() {
    let n = count_slots(&vec![]);
    assert_eq!((n.top, n.right, n.bottom, n.left), (0, 0, 0, 0));
}

#[test]
fn species_setters_and_adders() {
    let mut s = Species::new(3u32, 5u32);
    s.add_red(2);
    s.add_blue(10);
    assert_eq!((s.red, s.blue), (5, 15));
    s.set_red(1);
    s.set_blue(2);
    assert_eq!((s.red, s.blue), (1, 2));
    s.mult_all(7);
    assert_eq!((s.red, s.blue), (7, 14));
}

#[test]
fn species_of_any_type() {
    let mut s = Species::new("a", "b");
    s.set_blue("c");
    assert_eq!((s.red, s.blue), ("a", "c"));
}
