use binary_heap::BinaryHeap;
use std::cmp::Ordering;
use std::cmp::Reverse;

/// An element that is ordered by its key alone, so that equal-comparing
/// elements can be told apart by their tag.
#[derive(Debug, Clone, Copy)]
struct Keyed {
    key: i32,
    tag: char,
}

impl PartialEq for Keyed {
    fn eq(&self, other: &Self) -> bool {
        self.key == other.key
    }
}

impl Eq for Keyed {}

impl PartialOrd for Keyed {
    fn partial_cmp(&self, other: &Self) -> Option<Ordering> {
        Some(self.cmp(other))
    }
}

impl Ord for Keyed {
    fn cmp(&self, other: &Self) -> Ordering {
        self.key.cmp(&other.key)
    }
}

/// An element whose clone is ordered the other way round.
#[derive(Debug, PartialEq, Eq, PartialOrd, Ord)]
struct Mirrored(i32);

impl Clone for Mirrored {
    fn clone(&self) -> Self {
        Mirrored(-self.0)
    }
}

fn keyed(key: i32, tag: char) -> Keyed {
    Keyed { key, tag }
}

fn tags(heap: &BinaryHeap<Keyed>) -> Vec<(i32, char)> {
    heap.as_slice().iter().map(|k| (k.key, k.tag)).collect()
}

fn drain(heap: &mut BinaryHeap<i32>) -> Vec<i32> {
    let mut out = Vec::new();
    while let Some(x) = heap.pop() {
        out.push(x);
    }
    out
}

#[test]
fn new_heap_is_empty_and_valid() {
    let heap: BinaryHeap<i32> = BinaryHeap::new();
    assert_eq!(heap.len(), 0);
    assert!(heap.as_slice().is_empty());
    assert!(heap.is_valid());
}

#[test]
fn default_heap_is_empty() {
    let heap: BinaryHeap<i32> = BinaryHeap::default();
    assert_eq!(heap.len(), 0);
    assert!(heap.is_valid());
}

#[test]
fn pop_on_empty_is_none_and_leaves_it_empty() {
    let mut heap: BinaryHeap<i32> = BinaryHeap::new();
    assert_eq!(heap.pop(), None);
    assert_eq!(heap.len(), 0);
    assert_eq!(heap.pop(), None);
    assert_eq!(heap.len(), 0);
}

#[test]
fn pop_takes_the_last_element() {
    let mut heap = BinaryHeap::from(vec![3]);
    assert_eq!(heap.pop(), Some(3));
    assert_eq!(heap.len(), 0);
    assert_eq!(heap.pop(), None);
}

#[test]
fn push_counts_up_from_empty() {
    let mut heap = BinaryHeap::new();
    for (k, x) in [9, 4, 7, 1, 8, 2, 2, 6].into_iter().enumerate() {
        assert_eq!(heap.len(), k);
        heap.push(x);
        assert!(heap.is_valid());
    }
    assert_eq!(heap.len(), 8);
}

#[test]
fn pop_counts_down_by_one() {
    let mut heap = BinaryHeap::from(vec![4, 1, 3, 2]);
    assert_eq!(heap.len(), 4);
    assert_eq!(heap.pop(), Some(1));
    assert_eq!(heap.len(), 3);
    assert_eq!(heap.pop(), Some(2));
    assert_eq!(heap.len(), 2);
}

#[test]
fn from_keeps_the_length_and_the_elements() {
    let items = vec![9, 3, 7, 3, 1, 8, 1, 0, 5];
    let mut heap = BinaryHeap::from(items.clone());
    assert_eq!(heap.len(), items.len());
    assert!(heap.is_valid());
    let mut sorted = items;
    sorted.sort();
    assert_eq!(drain(&mut heap), sorted);
}

#[test]
fn from_of_nothing_is_empty() {
    let heap: BinaryHeap<i32> = BinaryHeap::from(Vec::new());
    assert_eq!(heap.len(), 0);
    assert!(heap.is_valid());
}

#[test]
fn from_lays_the_elements_out_bottom_up() {
    let heap = BinaryHeap::from(vec![12, 17, 15, 10, 7, 6, 5]);
    assert_eq!(heap.as_slice(), vec![5, 7, 6, 10, 17, 12, 15]);
}

#[test]
fn from_leaves_a_strict_heap_as_it_is() {
    let heap = BinaryHeap::from(vec![5, 7, 6, 10, 15, 17, 12]);
    assert_eq!(heap.as_slice(), vec![5, 7, 6, 10, 15, 17, 12]);
}

#[test]
fn from_puts_the_least_at_the_root() {
    let sorted = vec![1, 2, 3, 4, 5, 6, 7, 8];
    let reversed = vec![8, 7, 6, 5, 4, 3, 2, 1];
    let heap_like = vec![1, 3, 2, 7, 4, 8, 5, 6];
    let mixed = vec![5, 8, 1, 6, 3, 7, 2, 4];
    for items in [sorted, reversed, heap_like, mixed] {
        let heap = BinaryHeap::from(items);
        assert_eq!(heap.as_slice()[0], 1);
        assert!(heap.is_valid());
    }
}

#[test]
fn from_with_reversed_order_puts_the_greatest_at_the_root() {
    let heap = BinaryHeap::from(vec![Reverse(3), Reverse(9), Reverse(4), Reverse(1)]);
    assert_eq!(heap.as_slice()[0], Reverse(9));
    assert!(heap.is_valid());
}

#[test]
fn pops_come_out_in_ascending_order() {
    let mut heap = BinaryHeap::from(vec![5, 1, 4, 1, 5, 9, 2, 6, 5, 3, 5]);
    assert_eq!(drain(&mut heap), vec![1, 1, 2, 3, 4, 5, 5, 5, 5, 6, 9]);
    assert_eq!(heap.len(), 0);
}

#[test]
fn pops_after_pushes_come_out_in_ascending_order() {
    let mut heap = BinaryHeap::new();
    for x in [7, -3, 0, 12, -3, 5] {
        heap.push(x);
    }
    assert_eq!(drain(&mut heap), vec![-3, -3, 0, 5, 7, 12]);
}

#[test]
fn heap_stays_valid_through_mixed_changes() {
    let mut heap = BinaryHeap::from(vec![8, 3, 5]);
    assert!(heap.is_valid());
    heap.push(1);
    assert!(heap.is_valid());
    assert_eq!(heap.push_pop(4), 1);
    assert!(heap.is_valid());
    assert_eq!(heap.pop(), Some(3));
    assert!(heap.is_valid());
    heap.push(2);
    assert!(heap.is_valid());
    assert_eq!(heap.push_pop(0), 0);
    assert!(heap.is_valid());
    assert_eq!(heap.len(), 4);
    assert_eq!(drain(&mut heap), vec![2, 4, 5, 8]);
}

#[test]
fn push_of_an_equal_element_moves_it_above_its_parent() {
    let mut heap = BinaryHeap::from_heap_order(vec![keyed(5, 'a')]).unwrap();
    heap.push(keyed(5, 'b'));
    assert_eq!(tags(&heap), vec![(5, 'b'), (5, 'a')]);
    heap.push(keyed(5, 'c'));
    assert_eq!(tags(&heap), vec![(5, 'c'), (5, 'a'), (5, 'b')]);
    assert!(heap.is_valid());
}

#[test]
fn pop_prefers_the_left_of_two_equal_children() {
    let mut heap = BinaryHeap::from_heap_order(vec![
        keyed(1, 'a'),
        keyed(5, 'l'),
        keyed(5, 'r'),
        keyed(9, 'x'),
    ])
    .unwrap();
    let popped = heap.pop().unwrap();
    assert_eq!((popped.key, popped.tag), (1, 'a'));
    assert_eq!(tags(&heap), vec![(5, 'l'), (9, 'x'), (5, 'r')]);
}

#[test]
fn pop_takes_the_right_child_when_it_is_less() {
    let mut heap = BinaryHeap::from_heap_order(vec![1, 6, 4, 9]).unwrap();
    assert_eq!(heap.pop(), Some(1));
    assert_eq!(heap.as_slice(), vec![4, 6, 9]);
}

#[test]
fn push_pop_replaces_the_root_and_sifts_down() {
    let mut heap = BinaryHeap::from_heap_order(vec![5, 7, 6, 10, 15, 17, 12]).unwrap();
    assert_eq!(heap.push_pop(50), 5);
    assert_eq!(heap.as_slice(), vec![6, 7, 12, 10, 15, 17, 50]);
    assert_eq!(heap.len(), 7);
    assert_eq!(heap.push_pop(1), 1);
    assert_eq!(heap.as_slice(), vec![6, 7, 12, 10, 15, 17, 50]);
    assert!(heap.is_valid());
}

#[test]
fn push_pop_hands_a_lesser_item_back_and_keeps_the_heap() {
    let mut heap = BinaryHeap::from_heap_order(vec![6, 7, 12, 10, 15, 17]).unwrap();
    assert_eq!(heap.push_pop(1), 1);
    assert_eq!(heap.as_slice(), vec![6, 7, 12, 10, 15, 17]);
}

#[test]
fn push_pop_of_an_item_below_the_rest_leaves_it_at_the_root() {
    let mut heap = BinaryHeap::from_heap_order(vec![3, 8, 9]).unwrap();
    assert_eq!(heap.push_pop(5), 3);
    assert_eq!(heap.as_slice(), vec![5, 8, 9]);
}

#[test]
fn push_pop_of_an_equal_item_takes_the_root_out() {
    let mut heap = BinaryHeap::from_heap_order(vec![keyed(5, 'a'), keyed(5, 'b')]).unwrap();
    let out = heap.push_pop(keyed(5, 'c'));
    assert_eq!((out.key, out.tag), (5, 'a'));
    assert_eq!(tags(&heap), vec![(5, 'b'), (5, 'c')]);
}

#[test]
fn push_pop_on_empty_hands_the_item_back() {
    let mut heap: BinaryHeap<i32> = BinaryHeap::new();
    assert_eq!(heap.push_pop(4), 4);
    assert_eq!(heap.len(), 0);
}

#[test]
fn push_pop_is_push_then_pop() {
    let start = vec![4, 9, 6, 11, 10];
    for item in [1, 4, 5, 9, 10, 20] {
        let mut one = BinaryHeap::from_heap_order(start.clone()).unwrap();
        let mut two = BinaryHeap::from_heap_order(start.clone()).unwrap();
        let out = one.push_pop(item);
        two.push(item);
        assert_eq!(Some(out), two.pop());
        assert_eq!(drain(&mut one), drain(&mut two));
    }
}

#[test]
fn from_heap_order_hands_back_what_is_no_heap() {
    let back = BinaryHeap::from_heap_order(vec![2, 1, 3]).unwrap_err();
    assert_eq!(back, vec![2, 1, 3]);
    let back = BinaryHeap::from_heap_order(vec![1, 2, 3, 1]).unwrap_err();
    assert_eq!(back, vec![1, 2, 3, 1]);
}

#[test]
fn from_heap_order_takes_equal_elements() {
    let heap = BinaryHeap::from_heap_order(vec![2, 2, 2]).unwrap();
    assert_eq!(heap.as_slice(), vec![2, 2, 2]);
    assert!(heap.is_valid());
}

#[test]
fn clone_holds_the_same_elements() {
    let heap = BinaryHeap::from(vec![3, 1, 2]);
    let mut copy = heap.clone();
    assert_eq!(copy.as_slice(), heap.as_slice());
    assert_eq!(copy.pop(), Some(1));
    assert_eq!(heap.len(), 3);
}

#[test]
fn clone_keeps_the_positions() {
    let heap = BinaryHeap::from_heap_order(vec![keyed(2, 'a'), keyed(2, 'b'), keyed(2, 'c')])
        .unwrap();
    let copy = heap.clone();
    assert_eq!(tags(&copy), vec![(2, 'a'), (2, 'b'), (2, 'c')]);
}

#[test]
fn clone_puts_disordered_clones_in_heap_order() {
    let heap = BinaryHeap::from(vec![Mirrored(1), Mirrored(2), Mirrored(3)]);
    assert_eq!(heap.as_slice()[0], Mirrored(1));
    let mut copy = heap.clone();
    assert_eq!(copy.len(), 3);
    assert!(copy.is_valid());
    assert_eq!(copy.pop(), Some(Mirrored(-3)));
    assert_eq!(copy.pop(), Some(Mirrored(-2)));
    assert_eq!(copy.pop(), Some(Mirrored(-1)));
    assert_eq!(copy.pop(), None);
}
