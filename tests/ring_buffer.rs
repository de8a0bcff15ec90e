use std::collections::VecDeque;

use war_rust::RingBuffer;

#[test]
fn test_basic_operations() {
    let mut rb = RingBuffer::<i32, 5>::new(0);

    assert!(rb.is_empty());
    assert_eq!(rb.len(), 0);
    assert_eq!(rb.capacity(), 5);

    assert!(rb.push_back(1));
    assert!(rb.push_back(2));
    assert!(rb.push_back(3));
    assert_eq!(rb.len(), 3);

    assert_eq!(rb.pop_front(), Some(1));
    assert_eq!(rb.pop_front(), Some(2));
    assert_eq!(rb.len(), 1);

    assert_eq!(rb.pop_front(), Some(3));
    assert!(rb.is_empty());
    assert_eq!(rb.pop_front(), None);
}

#[test]
fn test_front_operations() {
    let mut rb = RingBuffer::<i32, 4>::new(0);

    assert!(rb.push_front(1));
    assert!(rb.push_front(2));
    assert_eq!(rb.len(), 2);

    assert_eq!(rb.pop_front(), Some(2));
    assert_eq!(rb.pop_front(), Some(1));
    assert!(rb.is_empty());
}

#[test]
fn test_wraparound() {
    let mut rb = RingBuffer::<i32, 3>::new(0);

    assert!(rb.push_back(1));
    assert!(rb.push_back(2));
    assert!(rb.push_back(3));
    assert!(rb.is_full());
    assert!(!rb.push_back(4));

    assert_eq!(rb.pop_front(), Some(1));
    assert!(rb.push_back(4));
    assert!(rb.is_full());

    assert_eq!(rb.pop_front(), Some(2));
    assert_eq!(rb.pop_front(), Some(3));
    assert_eq!(rb.pop_front(), Some(4));
    assert!(rb.is_empty());
}

#[test]
fn test_multiple_operations() {
    let mut rb = RingBuffer::<i32, 10>::new(0);

    let items = vec![1, 2, 3, 4, 5];
    assert_eq!(rb.push_back_multiple(&items), 5);
    assert_eq!(rb.len(), 5);

    let front_items = vec![10, 20];
    assert_eq!(rb.push_front_multiple(&front_items), 2);
    assert_eq!(rb.len(), 7);

    assert_eq!(rb.pop_front(), Some(10));
    assert_eq!(rb.pop_front(), Some(20));
    assert_eq!(rb.pop_front(), Some(1));
}

fn contents<const N: usize>(rb: &RingBuffer<i32, N>) -> Vec<i32> {
    let mut it = rb.iter();
    let mut out = Vec::new();
    while let Some(x) = it.next() {
        out.push(x);
    }
    out
}

#[test]
fn full_buffer_rejects_and_keeps_order_after_wrap() {
    let mut rb = RingBuffer::<i32, 3>::new(0);
    assert!(rb.push_back(1));
    assert!(rb.push_back(2));
    assert!(rb.push_back(3));
    assert!(rb.is_full());
    assert!(!rb.push_back(4));
    assert_eq!(rb.len(), 3);
    assert_eq!(rb.pop_front(), Some(1));
    assert!(rb.push_back(4));
    assert_eq!(rb.pop_front(), Some(2));
    assert_eq!(rb.pop_front(), Some(3));
    assert_eq!(rb.pop_front(), Some(4));
}

#[test]
fn push_front_twice_gives_reverse_order() {
    let mut rb = RingBuffer::<i32, 5>::new(0);
    assert!(rb.push_front(1));
    assert!(rb.push_front(2));
    assert_eq!(contents(&rb), vec![2, 1]);
    assert_eq!(rb.pop_front(), Some(2));
    assert_eq!(rb.pop_front(), Some(1));
    assert!(rb.is_empty());
}

#[test]
fn push_back_multiple_stops_at_capacity() {
    let mut rb = RingBuffer::<i32, 4>::new(0);
    assert_eq!(rb.push_back_multiple(&[10, 20, 30, 40, 50]), 4);
    assert_eq!(rb.len(), 4);
    assert_eq!(contents(&rb), vec![10, 20, 30, 40]);
}

#[test]
fn push_back_multiple_then_pop_front_keeps_order() {
    let mut rb = RingBuffer::<i32, 8>::new(0);
    assert_eq!(rb.push_back_multiple(&[1, 2, 3]), 3);
    assert_eq!(rb.pop_front(), Some(1));
    assert_eq!(rb.pop_front(), Some(2));
    assert_eq!(rb.pop_front(), Some(3));
}

#[test]
fn push_front_multiple_then_pop_front_keeps_order() {
    let mut rb = RingBuffer::<i32, 8>::new(0);
    assert_eq!(rb.push_front_multiple(&[1, 2, 3]), 3);
    assert_eq!(rb.pop_front(), Some(1));
    assert_eq!(rb.pop_front(), Some(2));
    assert_eq!(rb.pop_front(), Some(3));
}

#[test]
fn push_front_multiple_partial_inserts_from_the_end() {
    let mut rb = RingBuffer::<i32, 3>::new(0);
    assert!(rb.push_back(9));
    assert_eq!(rb.push_front_multiple(&[1, 2, 3]), 2);
    assert_eq!(contents(&rb), vec![2, 3, 9]);
}

#[test]
fn bulk_push_of_nothing_changes_nothing() {
    let mut rb = RingBuffer::<i32, 3>::new(0);
    assert!(rb.push_back(5));
    assert_eq!(rb.push_back_multiple(&[]), 0);
    assert_eq!(rb.push_front_multiple(&[]), 0);
    assert_eq!(contents(&rb), vec![5]);
}

#[test]
fn fifo_through_push_back_and_pop_front() {
    let mut rb = RingBuffer::<i32, 4>::new(0);
    let mut expected = VecDeque::new();
    let mut seen = Vec::new();
    let mut accepted = Vec::new();
    for i in 0..40 {
        if i % 3 == 2 {
            let got = rb.pop_front();
            assert_eq!(got, expected.pop_front());
            if let Some(x) = got {
                seen.push(x);
            }
        } else if rb.push_back(i) {
            expected.push_back(i);
            accepted.push(i);
        }
    }
    while let Some(x) = rb.pop_front() {
        seen.push(x);
    }
    assert_eq!(seen, accepted);
}

#[test]
fn lifo_through_push_front_and_pop_front() {
    let mut rb = RingBuffer::<i32, 6>::new(0);
    for x in [1, 2, 3, 4] {
        assert!(rb.push_front(x));
    }
    assert_eq!(rb.pop_front(), Some(4));
    assert_eq!(rb.pop_front(), Some(3));
    assert_eq!(rb.pop_front(), Some(2));
    assert_eq!(rb.pop_front(), Some(1));
    assert_eq!(rb.pop_front(), None);
}

#[test]
fn length_and_free_slots_add_up_to_capacity() {
    let mut rb = RingBuffer::<i32, 3>::new(0);
    for i in 0..20 {
        match i % 4 {
            0 => {
                rb.push_back(i);
            }
            1 => {
                rb.push_front(i);
            }
            2 => {
                rb.pop_back();
            }
            _ => {
                rb.push_back(i);
            }
        }
        assert!(rb.len() <= rb.capacity());
        assert_eq!(rb.len() + (rb.capacity() - rb.len()), rb.capacity());
    }
}

#[test]
fn filled_buffer_rejects_at_both_ends() {
    let mut rb = RingBuffer::<i32, 4>::new(0);
    for i in 0..4 {
        assert!(rb.push_back(i));
    }
    assert!(!rb.push_back(99));
    assert_eq!(rb.len(), 4);
    assert!(!rb.push_front(99));
    assert_eq!(rb.len(), 4);
    assert_eq!(contents(&rb), vec![0, 1, 2, 3]);
}

#[test]
fn popping_empty_gives_nothing_and_changes_nothing() {
    let mut rb = RingBuffer::<i32, 2>::new(0);
    assert_eq!(rb.pop_front(), None);
    assert_eq!(rb.pop_back(), None);
    assert_eq!(rb.front(), None);
    assert_eq!(rb.back(), None);
    assert_eq!(rb.len(), 0);
    assert!(rb.push_back(7));
    assert_eq!(rb.pop_back(), Some(7));
    assert_eq!(rb.pop_back(), None);
    assert_eq!(rb.len(), 0);
}

#[test]
fn cleared_buffer_behaves_like_a_fresh_one() {
    let mut rb = RingBuffer::<i32, 3>::new(0);
    assert!(rb.push_back(1));
    assert!(rb.push_back(2));
    assert_eq!(rb.pop_front(), Some(1));
    rb.clear();
    assert!(rb.is_empty());
    assert_eq!(rb.len(), 0);
    assert_eq!(rb.capacity(), 3);

    let mut fresh = RingBuffer::<i32, 3>::new(0);
    for x in [4, 5, 6] {
        assert_eq!(rb.push_back(x), fresh.push_back(x));
    }
    assert_eq!(rb.push_back(7), fresh.push_back(7));
    for _ in 0..4 {
        assert_eq!(rb.pop_front(), fresh.pop_front());
    }
}

#[test]
fn many_operations_keep_order_and_bounds() {
    let mut rb = RingBuffer::<u32, 5>::new(0);
    let mut model: VecDeque<u32> = VecDeque::new();
    let mut state: u32 = 12345;
    for step in 0..5000u32 {
        state = state.wrapping_mul(1103515245).wrapping_add(12345);
        match (state >> 16) % 4 {
            0 => {
                let ok = rb.push_back(step);
                assert_eq!(ok, model.len() < 5);
                if ok {
                    model.push_back(step);
                }
            }
            1 => {
                let ok = rb.push_front(step);
                assert_eq!(ok, model.len() < 5);
                if ok {
                    model.push_front(step);
                }
            }
            2 => assert_eq!(rb.pop_front(), model.pop_front()),
            _ => assert_eq!(rb.pop_back(), model.pop_back()),
        }
        assert!(rb.len() <= rb.capacity());
        assert_eq!(rb.len(), model.len());
        assert_eq!(rb.front(), model.front().copied());
        assert_eq!(rb.back(), model.back().copied());
    }
}

#[test]
fn front_and_back_peek_without_removing() {
    let mut rb = RingBuffer::<i32, 3>::new(0);
    assert!(rb.push_back(1));
    assert!(rb.push_back(2));
    assert!(rb.push_front(0));
    assert_eq!(rb.front(), Some(0));
    assert_eq!(rb.back(), Some(2));
    assert_eq!(rb.len(), 3);
    assert_eq!(rb.pop_back(), Some(2));
    assert_eq!(rb.back(), Some(1));
}

#[test]
fn iterator_walks_front_to_back_with_exact_size() {
    let mut rb = RingBuffer::<i32, 4>::new(0);
    assert!(rb.push_back(1));
    assert!(rb.push_back(2));
    assert_eq!(rb.pop_front(), Some(1));
    assert!(rb.push_back(3));
    assert!(rb.push_back(4));
    assert!(rb.push_back(5));
    let mut it = rb.iter();
    assert_eq!(it.len(), 4);
    assert_eq!(it.size_hint(), (4, Some(4)));
    assert_eq!(it.next(), Some(2));
    assert_eq!(it.len(), 3);
    assert_eq!(it.next(), Some(3));
    assert_eq!(it.next(), Some(4));
    assert_eq!(it.next(), Some(5));
    assert_eq!(it.next(), None);
    assert_eq!(it.size_hint(), (0, Some(0)));
    assert_eq!(contents(&rb), vec![2, 3, 4, 5]);
}
