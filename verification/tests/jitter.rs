use iosmic::jitter::JitterBuffer;

#[test]
fn capacity_evicts_exactly_from_the_oldest_end() {
    let mut buffer = JitterBuffer::new(5, 100);
    buffer.insert(vec![1.0, 2.0, 3.0], 0);
    buffer.insert(vec![4.0, 5.0, 6.0, 7.0], 1);

    let taken = buffer.take(5, 1).unwrap();
    assert_eq!(taken.samples, vec![3.0, 4.0, 5.0, 6.0, 7.0]);
    assert_eq!(buffer.eviction_stats().capacity_frames, 2);
}

#[test]
fn underflow_is_atomic_and_preserves_partial_blocks() {
    let mut buffer = JitterBuffer::new(10, 100);
    buffer.insert(vec![1.0, 2.0, 3.0], 4);

    assert!(buffer.take(4, 4).is_none());
    assert_eq!(buffer.occupancy(), 3);
    assert_eq!(buffer.take(3, 4).unwrap().samples, vec![1.0, 2.0, 3.0]);
}

#[test]
fn insertion_evicts_aged_media_without_renderer_progress() {
    let mut buffer = JitterBuffer::new(100, 2);
    buffer.insert(vec![1.0, 2.0], 1);
    buffer.insert(vec![3.0], 4);

    assert_eq!(buffer.occupancy(), 1);
    assert_eq!(buffer.eviction_stats().age_frames, 2);
}

#[test]
fn take_evicts_age_before_checking_occupancy() {
    let mut buffer = JitterBuffer::new(100, 2);
    buffer.insert(vec![1.0, 2.0], 1);
    buffer.insert(vec![3.0, 4.0], 3);

    assert!(buffer.take(3, 4).is_none());
    assert_eq!(buffer.occupancy(), 2);
    assert_eq!(buffer.take(2, 4).unwrap().samples, vec![3.0, 4.0]);
}

#[test]
fn arbitrary_operations_stay_within_bounds_and_lose_nothing() {
    let mut seed = 12345u64;
    let mut next = |limit: u64| {
        seed = seed.wrapping_mul(6364136223846793005).wrapping_add(1442695040888963407);
        (seed >> 33) % limit
    };
    let mut maximum = 64usize;
    let mut current_index = 0u64;
    let mut buffer = JitterBuffer::new(maximum, 20);
    let mut inserted = 0u64;
    let mut taken = 0u64;
    for _ in 0..2000 {
        let amount = next(128) as usize;
        current_index += next(8);
        match next(3) {
            0 => {
                buffer.insert(vec![0.0; amount], current_index);
                inserted += amount as u64;
            }
            1 => {
                if let Some(audio) = buffer.take(amount, current_index) {
                    assert_eq!(audio.samples.len(), amount);
                    taken += amount as u64;
                }
            }
            _ => {
                maximum = amount.max(1);
                buffer.update_limits(maximum, 20, current_index);
            }
        }
        assert!(buffer.occupancy() <= maximum);
        let evicted = buffer.eviction_stats();
        assert_eq!(
            inserted,
            taken + evicted.capacity_frames + evicted.age_frames + buffer.occupancy() as u64
        );
    }
}

#[test]
fn frames_come_out_in_the_order_in_which_they_went_in() {
    let mut buffer = JitterBuffer::new(100, 100);
    buffer.insert(vec![1, 2, 3], 5);
    buffer.insert(Vec::new(), 6);
    buffer.insert(vec![4, 5], 7);
    let first = buffer.take(2, 8).unwrap();
    assert_eq!((first.samples, first.oldest_insertion_index), (vec![1, 2], 5));
    let second = buffer.take(2, 8).unwrap();
    assert_eq!((second.samples, second.oldest_insertion_index), (vec![3, 4], 5));
    assert!(buffer.take(0, 8).is_none());
    buffer.clear();
    assert_eq!(buffer.occupancy(), 0);
    assert_eq!(buffer.eviction_stats().capacity_frames, 0);
}

#[test]
fn age_is_counted_from_the_index_that_frames_came_in_at() {
    let mut buffer = JitterBuffer::new(100, 2);
    buffer.insert(vec![1], 10);
    assert!(buffer.take(1, 12).is_some());
    buffer.insert(vec![2], 10);
    assert!(buffer.take(1, 13).is_none());
    assert_eq!(buffer.eviction_stats().age_frames, 1);
    assert!(buffer.has_room_for(100));
}

#[test]
fn pieces_come_out_whole_over_any_takes() {
    let mut buffer = JitterBuffer::new(10, 5);
    for piece in [vec![1, 2, 3], vec![], vec![4], vec![5, 6, 7, 8, 9, 10]] {
        buffer.insert(piece, 7);
    }
    let mut out = Vec::new();
    for (frames, index) in [(1, 3), (4, 7), (2, 12), (3, 12)] {
        let taken = buffer.take(frames, index).unwrap();
        assert_eq!(taken.oldest_insertion_index, 7);
        out.extend(taken.samples);
    }
    assert_eq!(out, vec![1, 2, 3, 4, 5, 6, 7, 8, 9, 10]);
    assert_eq!(buffer.occupancy(), 0);
    let stats = buffer.eviction_stats();
    assert_eq!((stats.capacity_frames, stats.age_frames), (0, 0));
}
