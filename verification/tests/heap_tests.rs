use dijkstra::heap::Heap;

#[test]
fn insert() {
    let mut heap: Heap<i64> = Heap::new();
    heap.insert(3);
    heap.insert(2);
    heap.insert(1);

    assert_eq!(heap.pop().unwrap(), 1);
    assert_eq!(heap.pop().unwrap(), 2);
    assert_eq!(heap.pop().unwrap(), 3);
}

#[test]
fn parent() {
    let heap = Heap::<i64>::new();
    assert_eq!(heap.right(1), 4);
    assert_eq!(heap.parent(4), 1);
}

fn is_heap_ordered(data: &Vec<i64>) -> bool {
    (1..data.len()).all(|i| data[(i - 1) / 2] <= data[i])
}

#[test]
fn heap_property_after_each_mutation() {
    let mut heap: Heap<i64> = Heap::new();
    for value in [9, 4, 7, 1, 8, 2, 2, 6] {
        heap.insert(value);
        assert!(is_heap_ordered(&heap.data));
    }
    heap.decrease_key(7, 0);
    assert!(is_heap_ordered(&heap.data));
    let mut last = i64::MIN;
    while let Some(value) = heap.pop() {
        assert!(is_heap_ordered(&heap.data));
        assert!(last <= value);
        last = value;
    }
    assert!(heap.data.is_empty());
}

#[test]
fn pop_on_empty_heap() {
    let mut heap: Heap<i64> = Heap::new();
    assert_eq!(heap.pop(), None);
}
