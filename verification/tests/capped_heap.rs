use job_matching::capped_heap::CappedHeap;

fn expect_heap<T>(size: usize, heap: Vec<(i64, T)>) -> String
where
    T: std::fmt::Debug,
{
    let mut result = String::from("CappedHeap { size: ");
    result.push_str(&format!("{:?}", size));
    result.push_str(", push_head: ");
    result.push_str(&format!("{:?}", heap.len()));
    result.push_str(", data: [");

    let mut first_el = true;
    for node in &heap {
        if !first_el {
            result.push_str(", ");
        }
        first_el = false;
        result.push_str("Some(HeapNode { value: ");
        result.push_str(&format!("{:?}", node.0));
        result.push_str(", item: ");
        result.push_str(&format!("{:?}", node.1));
        result.push_str(" })");
    }
    for _ in heap.len()..size + 1 {
        if !first_el {
            result.push_str(", ");
        }

        result.push_str("None");
    }
    result.push_str("] }");

    result
}

#[test]
fn test_push_1() {
    let mut heap: CappedHeap<i32> = CappedHeap::new(5);
    heap.push(1, 1);
    heap.push(2, 2);
    heap.push(3, 3);
    heap.push(4, 4);

    assert_eq!(
        format!("{:?}", heap),
        expect_heap(5, vec![(1, 1), (2, 2), (3, 3), (4, 4)])
    );
}

#[test]
fn test_push_2() {
    let mut heap: CappedHeap<i32> = CappedHeap::new(5);
    heap.push(4, 4);
    heap.push(3, 3);
    heap.push(2, 2);
    heap.push(1, 1);

    assert_eq!(
        format!("{:?}", heap),
        expect_heap(5, vec![(1, 1), (2, 2), (3, 3), (4, 4)])
    );
}

#[test]
fn test_push_3() {
    let mut heap: CappedHeap<i32> = CappedHeap::new(5);
    heap.push(2, 2);
    heap.push(3, 3);
    heap.push(1, 1);
    heap.push(4, 4);

    assert_eq!(
        format!("{:?}", heap),
        expect_heap(5, vec![(1, 1), (3, 3), (2, 2), (4, 4)])
    );
}

#[test]
fn test_push_capped1() {
    let mut heap: CappedHeap<i32> = CappedHeap::new(5);
    heap.push(1, 1);
    heap.push(2, 2);
    heap.push(3, 3);
    heap.push(4, 4);
    heap.push(5, 5);
    heap.push(6, 6);
    heap.push(7, 7);
    heap.push(8, 8);

    assert_eq!(
        format!("{:?}", heap),
        expect_heap(5, vec![(4, 4), (5, 5), (7, 7), (6, 6), (8, 8)])
    );
}

#[test]
fn test_push_capped2() {
    let mut heap: CappedHeap<i32> = CappedHeap::new(5);
    heap.push(8, 8);
    heap.push(7, 7);
    heap.push(6, 6);
    heap.push(5, 5);
    heap.push(4, 4);
    heap.push(3, 3);
    heap.push(2, 2);
    heap.push(1, 1);

    assert_eq!(
        format!("{:?}", heap),
        expect_heap(5, vec![(4, 4), (5, 5), (7, 7), (8, 8), (6, 6)])
    );
}

#[test]
fn test_push_capped3() {
    let mut heap: CappedHeap<i32> = CappedHeap::new(5);
    heap.push(3, 3);
    heap.push(2, 2);
    heap.push(6, 6);
    heap.push(1, 1);
    heap.push(8, 8);
    heap.push(7, 7);
    heap.push(4, 4);
    heap.push(5, 5);

    assert_eq!(
        format!("{:?}", heap),
        expect_heap(5, vec![(4, 4), (6, 6), (5, 5), (7, 7), (8, 8)])
    );
}

#[test]
fn test_pop_1() {
    let mut heap: CappedHeap<i32> = CappedHeap::new(5);
    heap.push(1, 1);
    heap.push(2, 2);
    heap.push(3, 3);
    heap.push(4, 4);

    assert_eq!(heap.pop(), Some(1));
    assert_eq!(heap.pop(), Some(2));
    assert_eq!(heap.pop(), Some(3));
    assert_eq!(heap.pop(), Some(4));
    assert_eq!(heap.pop(), None);
}

#[test]
fn test_pop_2() {
    let mut heap: CappedHeap<i32> = CappedHeap::new(5);
    heap.push(4, 4);
    heap.push(3, 3);
    heap.push(2, 2);
    heap.push(1, 1);

    assert_eq!(heap.pop(), Some(1));
    assert_eq!(heap.pop(), Some(2));
    assert_eq!(heap.pop(), Some(3));
    assert_eq!(heap.pop(), Some(4));
    assert_eq!(heap.pop(), None);
}

#[test]
fn test_pop_3() {
    let mut heap: CappedHeap<i32> = CappedHeap::new(5);
    heap.push(2, 2);
    heap.push(3, 3);
    heap.push(1, 1);
    heap.push(4, 4);

    assert_eq!(heap.pop(), Some(1));
    assert_eq!(heap.pop(), Some(2));
    assert_eq!(heap.pop(), Some(3));
    assert_eq!(heap.pop(), Some(4));
    assert_eq!(heap.pop(), None);
}

#[test]
fn test_pop_capped1() {
    let mut heap: CappedHeap<i32> = CappedHeap::new(5);
    heap.push(1, 1);
    heap.push(2, 2);
    heap.push(3, 3);
    heap.push(4, 4);
    heap.push(5, 5);
    heap.push(6, 6);
    heap.push(7, 7);
    heap.push(8, 8);

    assert_eq!(heap.pop(), Some(4));
    assert_eq!(heap.pop(), Some(5));
    assert_eq!(heap.pop(), Some(6));
    assert_eq!(heap.pop(), Some(7));
    assert_eq!(heap.pop(), Some(8));
    assert_eq!(heap.pop(), None);
}

#[test]
fn test_pop_capped2() {
    let mut heap: CappedHeap<i32> = CappedHeap::new(5);
    heap.push(8, 8);
    heap.push(7, 7);
    heap.push(6, 6);
    heap.push(5, 5);
    heap.push(4, 4);
    heap.push(3, 3);
    heap.push(2, 2);
    heap.push(1, 1);

    assert_eq!(heap.pop(), Some(4));
    assert_eq!(heap.pop(), Some(5));
    assert_eq!(heap.pop(), Some(6));
    assert_eq!(heap.pop(), Some(7));
    assert_eq!(heap.pop(), Some(8));
    assert_eq!(heap.pop(), None);
}

#[test]
fn test_pop_capped3() {
    let mut heap: CappedHeap<i32> = CappedHeap::new(5);
    heap.push(3, 3);
    heap.push(2, 2);
    heap.push(6, 6);
    heap.push(1, 1);
    heap.push(8, 8);
    heap.push(7, 7);
    heap.push(4, 4);
    heap.push(5, 5);

    assert_eq!(heap.pop(), Some(4));
    assert_eq!(heap.pop(), Some(5));
    assert_eq!(heap.pop(), Some(6));
    assert_eq!(heap.pop(), Some(7));
    assert_eq!(heap.pop(), Some(8));
    assert_eq!(heap.pop(), None);
}

#[test]
fn test_capacity_zero_noop() {
    let mut heap: CappedHeap<i32> = CappedHeap::new(0);
    heap.push(1, 1);
    heap.push(100, 100);
    assert_eq!(heap.pop(), None);
    assert_eq!(heap.pop(), None);
    assert_eq!(format!("{:?}", heap), expect_heap(0, Vec::<(i64, i32)>::new()));
}

#[test]
fn test_tie_at_full_capacity_keeps_stored() {
    let mut heap: CappedHeap<i32> = CappedHeap::new(2);
    heap.push(5, 50);
    heap.push(7, 70);
    let before = format!("{:?}", heap);
    // equal to the minimum: rejected outright, nothing moves
    heap.push(5, 99);
    assert_eq!(format!("{:?}", heap), before);
    // below the minimum: rejected too
    heap.push(4, 98);
    assert_eq!(format!("{:?}", heap), before);
    assert_eq!(heap.pop(), Some(50));
    assert_eq!(heap.pop(), Some(70));
    assert_eq!(heap.pop(), None);
}

#[test]
fn test_capacity_one_keeps_largest() {
    let mut heap: CappedHeap<i32> = CappedHeap::new(1);
    heap.push(3, 3);
    heap.push(9, 9);
    heap.push(6, 6);
    assert_eq!(heap.pop(), Some(9));
    assert_eq!(heap.pop(), None);
}

#[test]
fn test_drain_ascending_ordered() {
    let mut heap: CappedHeap<u32> = CappedHeap::new(6);
    for (k, v) in [(30i64, 300u32), (10, 100), (50, 500), (20, 200), (40, 400)] {
        heap.push(k, v);
    }
    let mut drained: Vec<u32> = Vec::new();
    while let Some(x) = heap.pop() {
        drained.push(x);
    }
    assert_eq!(drained, vec![100, 200, 300, 400, 500]);
}

#[test]
fn test_retained_set_is_top_k() {
    // pushing 1..=8 into a heap of capacity 5 retains exactly {4,...,8}
    let mut heap: CappedHeap<i32> = CappedHeap::new(5);
    for v in 1..=8i64 {
        heap.push(v, v as i32);
    }
    let mut drained: Vec<i32> = Vec::new();
    while let Some(x) = heap.pop() {
        drained.push(x);
    }
    assert_eq!(drained, vec![4, 5, 6, 7, 8]);
}
