use space_sync::circular_buffer::{CircularBuffer, CircularBufferIter};

#[test]
fn range_push_pop() {
    let mut q: CircularBuffer<u8> = CircularBuffer::new(4);
    assert_eq!(q.pop(), None);
    q.push(10);
    q.push(11);
    assert_eq!(q.pop_clone(), Some(10));
    assert_eq!(q.pop_clone(), Some(11));
    assert_eq!(q.pop(), None);
}

#[test]
fn range_iter() {
    let mut q: CircularBuffer<u8> = CircularBuffer::new(10);
    let empty: Vec<u8> = vec![];
    assert_eq!(q.iter().into_iter().cloned().collect::<Vec<_>>(), empty);
    q.push(10);
    q.push(11);
    assert_eq!(q.iter().into_iter().cloned().collect::<Vec<_>>(), &[10, 11]);
    q.pop();
    q.pop();
    assert_eq!(q.iter().into_iter().cloned().collect::<Vec<_>>(), empty);
}

#[test]
fn length() {
    let mut q: CircularBuffer<u8> = CircularBuffer::new(10);
    assert_eq!(q.len(), 0);
    for i in 0..5 {
        q.push(i);
    }
    assert_eq!(q.len(), 5);
    for i in 5..10 {
        q.push(i);
    }
    assert_eq!(q.len(), 10);
    for i in 5..10 {
        q.push(i);
    }
    println!("{:?}", q);
    for _ in 0..5 {
        println!("{:?}", q.pop());
    }
    println!("{:?}", q);
    assert_eq!(q.len(), 5);
    for _ in 0..5 {
        q.pop();
    }
    assert_eq!(q.len(), 0);
}

#[test]
fn get() {
    let mut q: CircularBuffer<u8> = CircularBuffer::new(3);
    assert_eq!(q.get(0), None);
    assert_eq!(q.get(5), None);
    q.push(1);
    assert_eq!(q.get(0), Some(&1));
    assert_eq!(q.get(1), None);
    q.pop();
    assert_eq!(q.front, 1);
    assert_eq!(q.back, 1);
    q.push(1);
    q.push(2);
    q.push(3);
    assert_eq!(q.get(0), Some(&1));
    assert_eq!(q.get(1), Some(&2));
    assert_eq!(q.get(2), Some(&3));
}

#[test]
fn iter_rollover() {
    let mut q: CircularBuffer<u8> = CircularBuffer::new(3);
    q.push(1);
    q.push(2);
    q.push(3);
    println!("{:?}", q);
    assert_eq!(q.iter().into_iter().cloned().collect::<Vec<_>>(), vec![1, 2, 3]);
    q.push(4);
    println!("{:?}", q);
    assert_eq!(q.iter().into_iter().cloned().collect::<Vec<_>>(), vec![2, 3, 4]);
}

#[test]
fn overflow_drops_exactly_the_oldest() {
    let mut q: CircularBuffer<u32> = CircularBuffer::new(4);
    for i in 0..4 {
        q.push(i);
    }
    assert_eq!(q.len(), 4);
    q.push(4);
    assert_eq!(q.len(), 4);
    assert_eq!(q.iter().into_iter().cloned().collect::<Vec<_>>(), vec![1, 2, 3, 4]);
    assert_eq!(q.get(0), Some(&1));
}

#[test]
fn pops_in_tick_order_and_len_counts() {
    let mut q: CircularBuffer<u32> = CircularBuffer::new(8);
    let ticks = [3, 3, 4, 7, 9];
    for t in ticks.iter() {
        q.push(*t);
    }
    assert_eq!(q.pop(), Some(3));
    assert_eq!(q.pop(), Some(3));
    q.push(12);
    assert_eq!(q.len(), 6 - 2);
    let mut last = 0;
    while let Some(t) = q.pop() {
        assert!(t >= last);
        last = t;
    }
    assert_eq!(last, 12);
    assert_eq!(q.len(), 0);
}

#[test]
fn capacity_one_ring() {
    let mut q: CircularBuffer<u8> = CircularBuffer::new(1);
    q.push(7);
    assert_eq!(q.len(), 1);
    q.push(8);
    assert_eq!(q.len(), 1);
    assert_eq!(q.get(0), Some(&8));
    assert_eq!(q.pop(), Some(8));
    assert!(q.is_empty());
}

#[test]
fn next_index_wraps() {
    let q: CircularBuffer<u8> = CircularBuffer::new(3);
    assert_eq!(q.next_index(0), 1);
    assert_eq!(q.next_index(1), 2);
    assert_eq!(q.next_index(2), 0);
}

#[test]
fn iterator_walks_a_full_ring() {
    let mut q: CircularBuffer<u8> = CircularBuffer::new(2);
    q.push(1);
    q.push(2);
    q.push(3);
    let mut it = CircularBufferIter::new(&q);
    assert_eq!(it.next(), Some(&2));
    assert_eq!(it.next(), Some(&3));
    assert_eq!(it.next(), None);
    assert_eq!(it.next(), None);
}

#[test]
fn fresh_buffer_cursors_and_empty_pop() {
    let mut q: CircularBuffer<u8> = CircularBuffer::new(3);
    assert_eq!((q.front, q.back, q.full), (0, 0, false));
    assert_eq!(q.pop(), None);
    assert_eq!((q.front, q.back, q.full), (0, 0, false));
    q.push(5);
    assert_eq!((q.front, q.back, q.full), (1, 0, false));
    q.push(6);
    q.push(7);
    assert_eq!((q.front, q.back, q.full), (0, 0, true));
    q.push(8);
    assert_eq!((q.front, q.back, q.full), (1, 1, true));
    assert_eq!(q.pop(), Some(6));
    assert_eq!((q.front, q.back, q.full), (1, 2, false));
}

#[test]
fn next_index_past_the_end_wraps_to_zero() {
    let q: CircularBuffer<u8> = CircularBuffer::new(3);
    assert_eq!(q.next_index(7), 0);
}
