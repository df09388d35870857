use duenger::ring_buffer::RingBuffer;

const MS: u64 = 1_000_000;

#[test]
fn fresh_ring_counts_nothing() {
    let rb = RingBuffer::new(8);
    assert_eq!(rb.capacity(), 8);
    assert_eq!(rb.values_inserted(), 0);
    assert_eq!(rb.signals_within_duration(1000 * MS, 20_000 * MS), 0);
}

#[test]
fn zero_sized_ring_counts_nothing() {
    let rb = RingBuffer::new(0);
    assert_eq!(rb.capacity(), 0);
    assert_eq!(rb.signals_within_duration(5, 5), 0);
}

#[test]
fn counts_signals_within_window() {
    let mut rb = RingBuffer::new(8);
    for t in [100u64, 200, 300, 400, 500] {
        rb.push(t * MS);
    }
    assert_eq!(rb.values_inserted(), 5);
    // 500 ms back from 600 ms reaches 100 ms exactly: all five count.
    assert_eq!(rb.signals_within_duration(600 * MS, 500 * MS), 5);
    // 250 ms back from 600 ms: 400 and 500.
    assert_eq!(rb.signals_within_duration(600 * MS, 250 * MS), 2);
    // Nothing within 50 ms of 600 ms.
    assert_eq!(rb.signals_within_duration(600 * MS, 50 * MS), 0);
}

#[test]
fn window_boundary_is_inclusive() {
    let mut rb = RingBuffer::new(4);
    rb.push(10);
    rb.push(20);
    assert_eq!(rb.signals_within_duration(30, 10), 1);
    assert_eq!(rb.signals_within_duration(30, 20), 2);
    assert_eq!(rb.signals_within_duration(30, 19), 1);
}

#[test]
fn overwrites_oldest_when_full() {
    let mut rb = RingBuffer::new(3);
    for t in 1u64..=7 {
        rb.push(t);
    }
    assert_eq!(rb.values_inserted(), 7);
    // Only 5, 6, 7 are held: the count is capped by the capacity.
    assert_eq!(rb.signals_within_duration(7, 1000), 3);
    assert_eq!(rb.signals_within_duration(7, 1), 2);
}

#[test]
fn stops_at_first_stamp_outside_window() {
    let mut rb = RingBuffer::new(5);
    rb.push(95);
    rb.push(10);
    rb.push(98);
    // Counting back from 98: 98 is within, 10 is not; 95 is not reached.
    assert_eq!(rb.signals_within_duration(100, 10), 1);
}

#[test]
fn stamp_after_now_counts_as_elapsed_zero() {
    let mut rb = RingBuffer::new(2);
    rb.push(500);
    assert_eq!(rb.signals_within_duration(100, 0), 1);
}

#[test]
fn push_within_window_adds_one_up_to_capacity() {
    let mut rb = RingBuffer::new(2);
    rb.push(10);
    let before = rb.signals_within_duration(15, 10);
    rb.push(12);
    assert_eq!(rb.signals_within_duration(15, 10), before + 1);
    rb.push(14);
    // Full: the count stays at the capacity.
    assert_eq!(rb.signals_within_duration(15, 10), 2);
}

#[test]
fn push_outside_window_resets_count() {
    let mut rb = RingBuffer::new(4);
    rb.push(100);
    rb.push(110);
    rb.push(0);
    assert_eq!(rb.signals_within_duration(120, 50), 0);
}

#[test]
fn ordered_stamps_count_equals_stamps_in_window() {
    let stamps = [3u64, 7, 7, 12, 20, 21, 40];
    let mut rb = RingBuffer::new(16);
    for t in stamps {
        rb.push(t);
    }
    let now = 41;
    let window = 22;
    let expected = stamps.iter().filter(|t| now - **t <= window).count();
    assert_eq!(rb.signals_within_duration(now, window), expected);
    assert_eq!(expected, 3);
}

#[test]
fn wraps_many_times() {
    let mut rb = RingBuffer::new(2048);
    let mut t: u64 = 0;
    for _ in 0..10_000 {
        t += 50 * MS;
        rb.push(t);
    }
    // One signal every 50 ms: 20 s back from the last stamp covers 401 of them.
    assert_eq!(rb.signals_within_duration(t, 20_000 * MS), 401);
    assert_eq!(rb.signals_within_duration(t, 1_000_000 * MS), 2048);
}
