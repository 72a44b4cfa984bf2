use sonic::graph::StoreFSTId;
use sonic::pool::due_items;

#[test]
fn it_selects_items_idle_long_enough() {
    let items = vec![(1u32, 10u64), (2, 300), (3, 299), (4, 301)];
    assert_eq!(due_items(&items, 300, false), vec![2, 4]);
    assert_eq!(due_items(&items, 0, false), vec![1, 2, 3, 4]);
}

#[test]
fn it_selects_every_item_when_forced() {
    let a = StoreFSTId::from_atoms(1, 2);
    let b = StoreFSTId::from_atoms(3, 4);
    assert_eq!(due_items(&vec![(a, 0), (b, 5)], 180, true), vec![a, b]);
    assert_eq!(due_items(&Vec::<(StoreFSTId, u64)>::new(), 180, true), vec![]);
}
