use std::cmp::Ordering;

use react_wasm::heap::{is_empty, peek, peek_mut, pop, push};

#[derive(Debug, Clone)]
struct Task {
    id: u32,
    sort_index: f64,
}

impl Task {
    fn new(id: u32, sort_index: f64) -> Self {
        Task { id, sort_index }
    }
}

impl PartialEq for Task {
    fn eq(&self, other: &Self) -> bool {
        self.id.cmp(&other.id) == Ordering::Equal
    }
}

impl Eq for Task {}

impl PartialOrd for Task {
    fn partial_cmp(&self, other: &Self) -> Option<Ordering> {
        let sort_index_ordering;
        if self.sort_index.is_nan() {
            if other.sort_index.is_nan() {
                sort_index_ordering = Ordering::Equal
            } else {
                sort_index_ordering = Ordering::Less
            }
        } else if other.sort_index.is_nan() {
            sort_index_ordering = Ordering::Greater
        } else {
            sort_index_ordering = self.sort_index.partial_cmp(&other.sort_index).unwrap()
        }
        if sort_index_ordering != Ordering::Equal {
            return Some(sort_index_ordering);
        }
        self.id.partial_cmp(&other.id)
    }
}

impl Ord for Task {
    fn cmp(&self, other: &Self) -> Ordering {
        self.partial_cmp(other).unwrap_or(Ordering::Equal)
    }
}

#[test]
fn test_min_heap() {
    let mut heap = vec![];

    let task3 = Task::new(3, 3.0);
    let task2 = Task::new(2, 2.0);
    let task1 = Task::new(1, 1.0);
    let task4 = Task::new(4, 4.0);

    push(&mut heap, task3);
    push(&mut heap, task2);
    push(&mut heap, task1);
    push(&mut heap, task4);

    assert_eq!(pop(&mut heap).unwrap().id == 1, true);
    assert_eq!(pop(&mut heap).unwrap().id == 2, true);
    assert_eq!(pop(&mut heap).unwrap().id == 3, true);
    assert_eq!(pop(&mut heap).unwrap().id == 4, true);

    assert!(heap.pop().is_none());
}

#[test]
fn heap_pops_keys_in_order() {
    let mut heap: Vec<(i64, u32)> = Vec::new();
    for (key, id) in [(5i64, 1u32), (3, 2), (9, 3), (3, 1), (-2, 7), (5, 0)] {
        push(&mut heap, (key, id));
    }
    let mut out = Vec::new();
    while let Some(x) = pop(&mut heap) {
        out.push(x);
    }
    assert_eq!(out, vec![(-2, 7), (3, 1), (3, 2), (5, 0), (5, 1), (9, 3)]);
}

#[test]
fn heap_pop_of_empty_is_none() {
    let mut heap: Vec<u64> = Vec::new();
    assert!(is_empty(&heap));
    assert_eq!(pop(&mut heap), None);
    assert_eq!(peek(&heap), None);
    assert!(heap.is_empty());
}

#[test]
fn heap_single_element() {
    let mut heap: Vec<u64> = Vec::new();
    push(&mut heap, 42);
    assert!(!is_empty(&heap));
    assert_eq!(peek(&heap), Some(&42));
    assert_eq!(pop(&mut heap), Some(42));
    assert!(is_empty(&heap));
}

#[test]
fn heap_peek_is_minimum_and_swaps_happen() {
    let mut heap: Vec<u64> = Vec::new();
    for x in [10u64, 9, 8, 7, 6, 5] {
        push(&mut heap, x);
        assert_eq!(*peek(&heap).unwrap(), x);
    }
    assert_eq!(heap[0], 5);
    assert_eq!(heap.len(), 6);
}

#[test]
fn heap_peek_mut_changes_root() {
    let mut heap: Vec<u64> = Vec::new();
    push(&mut heap, 3);
    push(&mut heap, 1);
    push(&mut heap, 2);
    if let Some(root) = peek_mut(&mut heap) {
        assert_eq!(*root, 1);
        *root = 0;
    }
    assert_eq!(pop(&mut heap), Some(0));
    assert_eq!(pop(&mut heap), Some(2));
    assert_eq!(pop(&mut heap), Some(3));
    let mut empty: Vec<u64> = Vec::new();
    assert!(peek_mut(&mut empty).is_none());
}
