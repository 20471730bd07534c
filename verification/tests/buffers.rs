use alan_core::buffer::{AdaptiveRingBuffer, I16BufferPool, InlineVec};

#[test]
fn test_buffer_memory_optimization() {
    // Compare memory usage of Vec vs InlineVec
    let mut vec_allocations = 0;
    let mut inline_vec_allocations = 0;

    // Track allocations for Vec
    {
        let mut vec = Vec::<i16>::new();
        for i in 0..100 {
            // Every resize is a new allocation
            if vec.capacity() <= i {
                vec_allocations += 1;
            }
            vec.push(i as i16);
        }
    }

    // Track allocations for InlineVec
    {
        let mut inline_vec = InlineVec::<i16, 64>::new();
        for i in 0..100 {
            // Only allocate once we exceed inline capacity
            if inline_vec.capacity() <= i && inline_vec.is_inline() {
                inline_vec_allocations += 1;
            }
            inline_vec.push(i as i16);
        }
    }

    // InlineVec should have fewer allocations
    assert!(inline_vec_allocations < vec_allocations);
}

#[test]
fn inline_vec_moves_to_the_heap_beyond_its_inline_capacity() {
    let mut v = InlineVec::<i16, 4>::new();
    assert!(v.is_empty());
    assert!(v.is_inline());
    assert_eq!(v.capacity(), 4);
    for i in 0..4 {
        v.push(i);
    }
    assert!(v.is_inline());
    assert_eq!(v.len(), 4);
    v.push(4);
    assert!(!v.is_inline());
    assert_eq!(v.capacity(), 8);
    assert_eq!(v.to_vec(), vec![0, 1, 2, 3, 4]);
    assert_eq!(v.get(2), Some(&2));
    assert_eq!(v.get(5), None);
    assert_eq!(v.pop(), Some(4));
    assert_eq!(v.len(), 4);
    v.clear();
    assert!(v.is_empty());
    assert_eq!(v.capacity(), 8);
    assert_eq!(v.pop(), None);
}

#[test]
fn inline_vec_from_slice_and_reserve() {
    let small = InlineVec::<i16, 8>::from_slice(&[1, 2, 3]);
    assert!(small.is_inline());
    assert_eq!(small.to_vec(), vec![1, 2, 3]);
    let large = InlineVec::<i16, 2>::from_slice(&[1, 2, 3]);
    assert!(!large.is_inline());
    assert_eq!(large.capacity(), 3);
    let from_vec = InlineVec::<i16, 2>::from_iter(vec![7, 8]);
    assert!(from_vec.is_inline());
    assert_eq!(from_vec.to_vec(), vec![7, 8]);
    let with = InlineVec::<i16, 4>::with_capacity(10);
    assert_eq!(with.capacity(), 10);
    assert!(!with.is_inline());

    let mut v = InlineVec::<i16, 4>::from_slice(&[1, 2, 3]);
    v.reserve(1);
    assert!(v.is_inline());
    assert_eq!(v.capacity(), 4);
    v.reserve(7);
    assert!(!v.is_inline());
    assert_eq!(v.capacity(), 10);
    assert_eq!(v.to_vec(), vec![1, 2, 3]);
}

#[test]
fn inline_vec_resize_and_get_mut() {
    let mut v = InlineVec::<i16, 4>::from_slice(&[1, 2, 3]);
    v.resize(5, 9);
    assert_eq!(v.to_vec(), vec![1, 2, 3, 9, 9]);
    assert_eq!(v.capacity(), 8);
    v.resize(2, 0);
    assert_eq!(v.to_vec(), vec![1, 2]);
    if let Some(x) = v.get_mut(1) {
        *x = 20;
    }
    assert_eq!(v.to_vec(), vec![1, 20]);
    assert!(v.get_mut(2).is_none());
}

#[test]
fn ring_buffer_overwrites_the_oldest_item_when_full() {
    let mut ring = AdaptiveRingBuffer::<i16>::new(3);
    assert!(ring.is_empty());
    assert_eq!(ring.capacity(), 3);
    ring.push(1);
    ring.push(2);
    ring.push(3);
    assert!(ring.is_full());
    ring.push(4);
    assert_eq!(ring.len(), 3);
    assert_eq!(ring.get(0), Some(&2));
    assert_eq!(ring.get(2), Some(&4));
    assert_eq!(ring.get(3), None);
    assert_eq!(ring.pop(), Some(2));
    assert_eq!(ring.pop(), Some(3));
    assert_eq!(ring.pop(), Some(4));
    assert_eq!(ring.pop(), None);
}

#[test]
fn ring_buffer_push_slice_and_pop_multiple() {
    let mut ring = AdaptiveRingBuffer::<i16>::new(4);
    ring.push_slice(&[1, 2, 3, 4, 5, 6]);
    assert_eq!(ring.len(), 4);
    assert_eq!(ring.pop_multiple(2), vec![3, 4]);
    assert_eq!(ring.pop_multiple(5), vec![5, 6]);
    assert!(ring.is_empty());
    ring.push(7);
    if let Some(x) = ring.get_mut(0) {
        *x = 70;
    }
    assert_eq!(ring.get(0), Some(&70));
    ring.clear();
    assert_eq!(ring.len(), 0);
    ring.reset(2);
    assert_eq!(ring.capacity(), 2);
    ring.push(1);
    ring.push(2);
    ring.push(3);
    assert_eq!(ring.pop_multiple(2), vec![2, 3]);
}

#[test]
fn buffer_pool_counts_hits_and_misses() {
    let mut pool = I16BufferPool::new(2);
    let a = pool.get();
    let b = pool.get();
    let c = pool.get();
    assert_eq!(pool.counts(), (0, 3));
    assert!(a.is_empty());
    let mut used = b;
    used.push(5);
    pool.put(a);
    pool.put(used);
    pool.put(c);
    let again = pool.get();
    assert!(again.is_empty());
    assert_eq!(pool.counts(), (1, 3));
    let _ = pool.get();
    let _ = pool.get();
    assert_eq!(pool.counts(), (2, 4));
    pool.clear();
    let _ = pool.get();
    assert_eq!(pool.counts(), (2, 5));
}
