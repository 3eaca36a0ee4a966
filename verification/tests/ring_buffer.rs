use thecurse::networking::udp::ring_buffer::RingBuffer;

#[test]
fn test_ring_buffer() {
    let mut i = 0;
    let mut ring = RingBuffer::<usize>::new();
    while i < 35 {
        let index = ring.push(i);
        assert_eq!(i, index as usize);
        assert_eq!(Some(&i), ring.get(index));
        if i > 30 {
            println!("i: {i}, i - 31: {}", i - 31);
            assert_eq!(Some(&(i - 31)), ring.get(i as u16 - 31));
        }
        i += 1;
    }
}

#[test]
fn unlimited_push() {
    let mut i = 0;
    let mut wrap = true;
    let mut ring = RingBuffer::<u16>::new();
    loop {
        let index = ring.push(i);
        // indices increment sequentially
        assert_eq!(i, index);
        // Values can be accessed by their index
        assert_eq!(Some(&i), ring.get(index));
        {
            let oldest = i.wrapping_sub(31);
            let expected = (i > 30 || !wrap).then_some(&oldest);
            // We can access other values in the buffer if they exist
            assert_eq!(expected, ring.get(oldest));
        }
        // Iterate from i = 0 to i = u16::MAX exactly twice
        if i == u16::MAX {
            if wrap {
                i = 0;
                wrap = false;
            } else {
                break;
            }
        } else {
            i += 1;
        }
    }
}

#[test]
fn insert() {
    let mut ring = RingBuffer::<()>::new();
    ring.insert((), 1);
    assert!(ring.get(0).is_none());
    assert!(ring.get(1).is_some());
    assert!(ring.get(2).is_none());
    assert_eq!(ring.push(()), 2);
    assert_eq!(ring.push(()), 3);
    ring.insert((), 34);
    for i in 0..64 {
        if i == 34 || i == 3 {
            assert!(ring.get(i).is_some());
        } else {
            assert!(ring.get(i).is_none());
        }
    }
}

#[test]
fn iterate() {
    let mut ring = RingBuffer::<u16>::new();
    ring.push(0);
    ring.push(1);
    let mut iter = ring.iter();
    assert_eq!(iter.next(), Some(&0));
    assert_eq!(iter.next(), Some(&1));
    assert_eq!(iter.next(), None);
}

#[test]
fn iterate_many() {
    let mut ring = RingBuffer::<u16>::new();
    let range = 0..33;
    for i in range {
        ring.push(i);
    }
    // 33 elements were inserted, so all 32 slots in the buffer should be filled.
    // The oldest element (0) was replaced by the last element (32), so the first element now is
    // 1.
    let mut i = 1;
    let mut iter = ring.iter();
    while let Some(item) = iter.next() {
        assert_eq!(*item, i);
        i += 1;
    }
}

#[test]
fn iterate_keys() {
    let mut ring = RingBuffer::<()>::new();
    ring.push(());
    ring.push(());
    let mut iter = ring.keys();
    assert_eq!(iter.next(), Some(0));
    assert_eq!(iter.next(), Some(1));
    assert_eq!(iter.next(), None);
    ring.insert((), u16::MAX);
    ring.push(());
    let mut iter = ring.keys();
    assert_eq!(iter.next(), Some(u16::MAX));
    assert_eq!(iter.next(), Some(0));
    assert_eq!(iter.next(), None);
}

#[test]
fn insert_will_override() {
    let mut ring = RingBuffer::<()>::new();
    for _ in 0..32 {
        assert!(!ring.insert_will_override());
        ring.push(());
    }
    assert!(ring.insert_will_override());
}

#[test]
fn ring_take_removes_item() {
    let mut ring = RingBuffer::<u32>::new();
    let a = ring.push(10);
    let b = ring.push(20);
    assert_eq!(ring.take(a), Some(10));
    assert_eq!(ring.take(a), None);
    assert_eq!(ring.get(a), None);
    assert_eq!(ring.get(b), Some(&20));
    // An index outside of the window is never present.
    assert_eq!(ring.take(b.wrapping_add(1)), None);
}

#[test]
fn ring_get_mut_writes_through() {
    let mut ring = RingBuffer::<u32>::new();
    let a = ring.push(1);
    if let Some(x) = ring.get_mut(a) {
        *x = 7;
    }
    assert_eq!(ring.get(a), Some(&7));
    assert!(ring.get_mut(a.wrapping_add(1)).is_none());
}

#[test]
fn ring_iter_mut_visits_oldest_first() {
    let mut ring = RingBuffer::<u32>::new();
    for i in 0..40u32 {
        ring.push(i);
    }
    let mut seen = Vec::new();
    {
        let mut iter = ring.iter_mut();
        while let Some(x) = iter.next() {
            seen.push(*x);
            *x += 100;
        }
    }
    assert_eq!(seen, (8..40).collect::<Vec<u32>>());
    assert_eq!(ring.get(8), Some(&108));
    assert_eq!(ring.get(39), Some(&139));
}

#[test]
fn ring_indices_and_emptiness() {
    let mut ring = RingBuffer::<()>::default();
    assert!(ring.is_empty());
    assert_eq!(ring.get_newest_index(), u16::MAX);
    assert_eq!(ring.get_next_index(), 0);
    ring.push(());
    assert!(!ring.is_empty());
    assert_eq!(ring.get_newest_index(), 0);
    assert_eq!(ring.get_next_index(), 1);
    // Inserting behind the newest index drops every other item.
    ring.push(());
    ring.insert((), 0);
    let mut keys = ring.keys();
    assert_eq!(keys.next(), Some(0));
    assert_eq!(keys.next(), None);
}

#[test]
fn ring_push_drops_index_32_back() {
    let mut ring = RingBuffer::<u16>::new();
    for i in 0..32u16 {
        ring.push(i);
    }
    assert!(ring.insert_will_override());
    assert_eq!(ring.push(32), 32);
    assert_eq!(ring.get(0), None);
    assert_eq!(ring.get(1), Some(&1));
}
