use tiled_life::profiler::Profiler;

fn feed(p: &mut Profiler, deltas: &[u64]) {
    for d in deltas {
        // One operation: begin tick 100, end tick 100 + delta.
        let data = vec![100u64, 100 + d];
        p.process_results(&data);
    }
}

#[test]
fn ring_retains_most_recent_samples() {
    let mut p = Profiler::new(1, 3);
    feed(&mut p, &[10, 20, 30, 40, 50]);
    // Capacity three: the two oldest samples were evicted, newest first.
    assert_eq!(p.samples_of(0), vec![50, 40, 30]);
}

#[test]
fn ring_fills_before_evicting() {
    let mut p = Profiler::new(1, 3);
    feed(&mut p, &[10]);
    assert_eq!(p.samples_of(0), vec![10]);
    feed(&mut p, &[20]);
    assert_eq!(p.samples_of(0), vec![20, 10]);
    feed(&mut p, &[30]);
    assert_eq!(p.samples_of(0), vec![30, 20, 10]);
    feed(&mut p, &[40]);
    assert_eq!(p.samples_of(0), vec![40, 30, 20]);
}

#[test]
fn average_is_mean_of_retained_samples() {
    let mut p = Profiler::new(1, 3);
    feed(&mut p, &[10, 20, 30]);
    assert_eq!(p.average_time_raw(0), 20);
    feed(&mut p, &[40]);
    // Retained: 40, 30, 20.
    assert_eq!(p.average_time_raw(0), 30);
}

#[test]
fn average_of_partial_window() {
    let mut p = Profiler::new(1, 100);
    feed(&mut p, &[7]);
    assert_eq!(p.average_time_raw(0), 7);
    feed(&mut p, &[9]);
    assert_eq!(p.average_time_raw(0), 8);
}

#[test]
fn average_rounds_down() {
    let mut p = Profiler::new(1, 10);
    feed(&mut p, &[1, 2]);
    assert_eq!(p.average_time_raw(0), 1);
}

#[test]
fn average_of_large_samples_does_not_overflow() {
    let mut p = Profiler::new(1, 4);
    feed(&mut p, &[u64::MAX - 100, u64::MAX - 100]);
    assert_eq!(p.average_time_raw(0), u64::MAX - 100);
}

#[test]
fn multiple_operations_are_independent() {
    let mut p = Profiler::new(2, 5);
    // Operation zero: 5 ticks; operation one: 11 ticks.
    let data = vec![100u64, 105, 200, 211];
    p.process_results(&data);
    assert_eq!(p.samples_of(0), vec![5]);
    assert_eq!(p.samples_of(1), vec![11]);
    assert_eq!(p.average_time_raw(0), 5);
    assert_eq!(p.average_time_raw(1), 11);
}

#[test]
fn timestamp_indices_are_consecutive_slots() {
    let p = Profiler::new(3, 10);
    assert_eq!(p.timestamp_write_indices(0), (0, 1));
    assert_eq!(p.timestamp_write_indices(1), (2, 3));
    assert_eq!(p.timestamp_write_indices(2), (4, 5));
    assert_eq!(p.query_count(), 6);
    assert_eq!(p.operations(), 3);
}
