use binheap::Heap;
use binheap::MaxHeap;
use binheap::MaxOrder;
use binheap::MinHeap;
use binheap::MinOrder;

#[test]
fn test_empty_heap() {
    let mut heap = MaxHeap::new::<i32>();
    assert_eq!(heap.next(), None);
}

#[test]
fn test_min_heap() {
    let mut heap = MinHeap::new();
    heap.add(4);
    heap.add(2);
    heap.add(9);
    heap.add(11);
    assert_eq!(heap.len(), 4);
    assert_eq!(heap.next(), Some(2));
    assert_eq!(heap.next(), Some(4));
    assert_eq!(heap.next(), Some(9));
    heap.add(1);
    assert_eq!(heap.next(), Some(1));
}

#[test]
fn test_max_heap() {
    let mut heap = MaxHeap::new();
    heap.add(4);
    heap.add(2);
    heap.add(9);
    heap.add(11);
    assert_eq!(heap.len(), 4);
    assert_eq!(heap.next(), Some(11));
    assert_eq!(heap.next(), Some(9));
    assert_eq!(heap.next(), Some(4));
    heap.add(1);
    assert_eq!(heap.next(), Some(2));
}

#[test]
fn fresh_heap_is_empty() {
    let mut heap: Heap<u64, MinOrder> = Heap::new(MinOrder);
    assert_eq!(heap.len(), 0);
    assert!(heap.is_empty());
    assert_eq!(heap.next(), None);
}

#[test]
fn len_tracks_adds_and_removals() {
    let mut heap = MinHeap::new::<i32>();
    for v in [5, 3, 8, 1, 9, 2] {
        heap.add(v);
    }
    assert_eq!(heap.len(), 6);
    assert!(!heap.is_empty());
    heap.next();
    heap.next();
    assert_eq!(heap.len(), 4);
    heap.add(7);
    assert_eq!(heap.len(), 5);
    while heap.next().is_some() {}
    assert_eq!(heap.len(), 0);
    assert!(heap.is_empty());
}

#[test]
fn drained_heap_keeps_reporting_absence() {
    let mut heap = MaxHeap::new::<i32>();
    heap.add(3);
    heap.add(7);
    assert_eq!(heap.next(), Some(7));
    assert_eq!(heap.next(), Some(3));
    assert_eq!(heap.next(), None);
    assert_eq!(heap.next(), None);
    assert_eq!(heap.next(), None);
    assert_eq!(heap.len(), 0);
    assert!(heap.is_empty());
}

#[test]
fn min_drain_is_sorted_ascending() {
    let mut heap = MinHeap::new::<i64>();
    let values: [i64; 12] = [20, -3, 14, 0, 7, -11, 20, 5, 2, 9, -3, 31];
    for v in values {
        heap.add(v);
    }
    let mut drained: Vec<i64> = Vec::new();
    while let Some(v) = heap.next() {
        drained.push(v);
    }
    let mut expected = values.to_vec();
    expected.sort();
    assert_eq!(drained, expected);
}

#[test]
fn max_drain_is_sorted_descending() {
    let mut heap = MaxHeap::new::<u32>();
    let values: [u32; 10] = [6, 6, 1, 40, 0, 13, 40, 2, 25, 3];
    for v in values {
        heap.add(v);
    }
    let mut drained: Vec<u32> = Vec::new();
    while let Some(v) = heap.next() {
        drained.push(v);
    }
    let mut expected = values.to_vec();
    expected.sort();
    expected.reverse();
    assert_eq!(drained, expected);
}

#[test]
fn duplicates_all_come_out() {
    let mut heap = MinHeap::new::<u8>();
    for _ in 0..4 {
        heap.add(5);
    }
    heap.add(1);
    assert_eq!(heap.len(), 5);
    assert_eq!(heap.next(), Some(1));
    for _ in 0..4 {
        assert_eq!(heap.next(), Some(5));
    }
    assert_eq!(heap.next(), None);
}

#[test]
fn interleaved_adds_and_extractions() {
    let mut heap = MinHeap::new::<i32>();
    heap.add(10);
    heap.add(30);
    assert_eq!(heap.next(), Some(10));
    heap.add(20);
    heap.add(5);
    assert_eq!(heap.next(), Some(5));
    assert_eq!(heap.next(), Some(20));
    heap.add(1);
    heap.add(40);
    assert_eq!(heap.next(), Some(1));
    assert_eq!(heap.next(), Some(30));
    assert_eq!(heap.next(), Some(40));
    assert_eq!(heap.next(), None);
}

#[test]
fn generic_constructor_with_max_order() {
    let mut heap: Heap<u16, MaxOrder> = Heap::new(MaxOrder);
    heap.add(8);
    heap.add(12);
    heap.add(4);
    assert_eq!(heap.next(), Some(12));
    assert_eq!(heap.next(), Some(8));
    assert_eq!(heap.next(), Some(4));
}

#[test]
fn string_elements_order_lexicographically() {
    let mut heap = MinHeap::new::<String>();
    heap.add(String::from("pear"));
    heap.add(String::from("apple"));
    heap.add(String::from("quince"));
    heap.add(String::from("fig"));
    assert_eq!(heap.next(), Some(String::from("apple")));
    assert_eq!(heap.next(), Some(String::from("fig")));
    assert_eq!(heap.next(), Some(String::from("pear")));
    assert_eq!(heap.next(), Some(String::from("quince")));
    assert_eq!(heap.next(), None);
}

#[test]
fn drain_hands_out_priority_order() {
    let mut heap = MinHeap::new::<i32>();
    for v in [9, -2, 4, 4, 0, 17, -2] {
        heap.add(v);
    }
    let drained = heap.drain();
    assert_eq!(drained, vec![-2, -2, 0, 4, 4, 9, 17]);
    assert!(heap.is_empty());
    assert_eq!(heap.next(), None);
}

#[test]
fn drain_of_empty_heap_is_empty() {
    let mut heap = MaxHeap::new::<u64>();
    let drained = heap.drain();
    assert!(drained.is_empty());
    assert_eq!(heap.len(), 0);
}

#[test]
fn typed_new_min_and_new_max() {
    let mut lo = Heap::<i32, MinOrder>::new_min();
    let mut hi = Heap::<i32, MaxOrder>::new_max();
    for v in [3, 1, 2] {
        lo.add(v);
        hi.add(v);
    }
    assert_eq!(lo.next(), Some(1));
    assert_eq!(hi.next(), Some(3));
    assert_eq!(lo.next(), Some(2));
    assert_eq!(hi.next(), Some(2));
    assert_eq!(lo.next(), Some(3));
    assert_eq!(hi.next(), Some(1));
}
