use navgrid::stats::{Stats, STATS_CAPACITY};

#[test]
fn new_stats_are_empty_and_average_zero() {
    let stats = Stats::new();
    assert!(stats.durations().is_empty());
    assert!(stats.delays().is_empty());
    assert_eq!(stats.average_duration(), 0);
    assert_eq!(stats.average_delay(), 0);
    let other = Stats::default();
    assert!(other.durations().is_empty());
}

#[test]
fn samples_are_kept_newest_first() {
    let mut stats = Stats::new();
    stats.record(10, 1);
    stats.record(20, 2);
    stats.record(30, 3);
    assert_eq!(stats.durations(), vec![30, 20, 10]);
    assert_eq!(stats.delays(), vec![3, 2, 1]);
}

#[test]
fn averages_round_down() {
    let mut stats = Stats::new();
    stats.record(10, 1);
    stats.record(20, 2);
    stats.record(31, 4);
    assert_eq!(stats.average_duration(), 20);
    assert_eq!(stats.average_delay(), 2);
}

#[test]
fn average_of_large_samples_does_not_overflow() {
    let mut stats = Stats::new();
    for _ in 0..100 {
        stats.record(u64::MAX, u64::MAX - 1);
    }
    assert_eq!(stats.average_duration(), u64::MAX);
    assert_eq!(stats.average_delay(), u64::MAX - 1);
}

#[test]
fn stats_keep_the_hundred_most_recent_samples() {
    let mut stats = Stats::new();
    for sample in 0..150u64 {
        stats.record(sample, sample + 1000);
    }
    let durations = stats.durations();
    let delays = stats.delays();
    assert_eq!(durations.len(), STATS_CAPACITY);
    assert_eq!(delays.len(), 100);
    for n in 0..100usize {
        assert_eq!(durations[n], 149 - n as u64);
        assert_eq!(delays[n], 1149 - n as u64);
    }
    // The samples 50 to 149 are left: their average is 99.5.
    assert_eq!(stats.average_duration(), 99);
    assert_eq!(stats.average_delay(), 1099);
}

#[test]
fn full_buffer_drops_its_oldest_sample() {
    let mut stats = Stats::new();
    for sample in 0..100u64 {
        stats.record(sample, sample);
    }
    assert_eq!(stats.durations().len(), 100);
    assert_eq!(*stats.durations().last().unwrap(), 0);
    stats.record(100, 100);
    assert_eq!(stats.durations().len(), 100);
    assert_eq!(stats.durations()[0], 100);
    assert_eq!(*stats.durations().last().unwrap(), 1);
    assert_eq!(*stats.delays().last().unwrap(), 1);
}
