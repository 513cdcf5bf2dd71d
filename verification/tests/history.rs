use std::collections::VecDeque;

use ifmon::types::history::SpeedHistory;

#[test]
fn respects_capacity() {
    let mut h = SpeedHistory::new();
    for i in 0..10 {
        h.push(i as f64, i as f64, 5);
    }
    assert_eq!(h.rx_speeds.len(), 5);
    // Oldest 5 samples evicted.
    assert_eq!(*h.rx_speeds.front().unwrap(), 5.0);
    assert_eq!(*h.rx_speeds.back().unwrap(), 9.0);
}

#[test]
fn timestamps_are_sequential() {
    let mut h = SpeedHistory::new();
    h.push(1.0, 1.0, 10);
    h.push(2.0, 2.0, 10);
    assert_eq!(h.timestamps, VecDeque::from([0, 1]));
}

#[test]
fn window_holds_the_newest_samples() {
    let mut h = SpeedHistory::new();
    h.push(1000.0, 7.0, 3);
    h.push(1.0, 8.0, 3);
    h.push(2.0, 9.0, 3);
    h.push(3.0, 10.0, 3);
    assert_eq!(h.rx_speeds, VecDeque::from([1.0, 2.0, 3.0]));
    assert_eq!(h.tx_speeds, VecDeque::from([8.0, 9.0, 10.0]));
    assert_eq!(h.timestamps, VecDeque::from([1, 2, 3]));
}

#[test]
fn zero_capacity_keeps_nothing() {
    let mut h: SpeedHistory<f64> = SpeedHistory::new();
    h.push(1.0, 2.0, 0);
    assert!(h.rx_speeds.is_empty());
    assert!(h.tx_speeds.is_empty());
    assert!(h.timestamps.is_empty());
}

#[test]
fn shrinking_capacity_evicts_several() {
    let mut h = SpeedHistory::new();
    for i in 0..6u32 {
        h.push(i, i + 100, 10);
    }
    h.push(6, 106, 2);
    assert_eq!(h.rx_speeds, VecDeque::from([5, 6]));
    assert_eq!(h.tx_speeds, VecDeque::from([105, 106]));
    assert_eq!(h.timestamps, VecDeque::from([5, 6]));
}

#[test]
fn clear_resets_and_restarts_timestamps() {
    let mut h = SpeedHistory::new();
    h.push(5.0, 7.0, 10);
    h.push(6.0, 8.0, 10);
    h.clear();
    assert!(h.rx_speeds.is_empty());
    assert!(h.tx_speeds.is_empty());
    assert!(h.timestamps.is_empty());
    h.push(1.0, 1.0, 10);
    assert_eq!(h.timestamps, VecDeque::from([0]));
}

#[test]
fn timestamps_stop_growing_where_floats_do() {
    let bound: u64 = 1 << 53;
    let mut h: SpeedHistory<f64> = SpeedHistory::new();
    h.timestamps.push_back(bound - 1);
    h.rx_speeds.push_back(0.0);
    h.tx_speeds.push_back(0.0);
    h.push(1.0, 1.0, 10);
    h.push(2.0, 2.0, 10);
    assert_eq!(h.timestamps, VecDeque::from([bound - 1, bound, bound]));
    let f = (bound as f64) + 1.0;
    assert_eq!(f, bound as f64);
}

/// Minimum scale of a graph axis.
const MIN_SCALE: f64 = 1.0;

/// Peak of a window of speeds, never below the minimum scale.
fn window_peak(speeds: &VecDeque<f64>) -> f64 {
    speeds.iter().copied().fold(MIN_SCALE, f64::max)
}

#[test]
fn max_reflects_window_not_all_time_history() {
    let mut h = SpeedHistory::new();
    // A single early spike should not pin the max forever.
    h.push(1000.0, 1.0, 3);
    h.push(1.0, 1.0, 3);
    h.push(1.0, 1.0, 3);
    h.push(1.0, 1.0, 3); // evicts the 1000.0 sample
    assert_eq!(window_peak(&h.rx_speeds), 1.0);
}

#[test]
fn max_never_below_min_scale() {
    let mut h = SpeedHistory::new();
    h.push(0.0, 0.0, 10);
    assert_eq!(window_peak(&h.rx_speeds), MIN_SCALE);
    assert_eq!(window_peak(&h.tx_speeds), MIN_SCALE);
}

#[test]
fn empty_history_has_min_scale_max() {
    let h: SpeedHistory<f64> = SpeedHistory::new();
    assert!(h.rx_speeds.is_empty());
    assert_eq!(window_peak(&h.rx_speeds), MIN_SCALE);
    assert_eq!(window_peak(&h.tx_speeds), MIN_SCALE);
}

#[test]
fn clear_resets_everything() {
    let mut h = SpeedHistory::new();
    h.push(5.0, 7.0, 10);
    h.clear();
    assert!(h.rx_speeds.is_empty());
    assert_eq!(window_peak(&h.rx_speeds), MIN_SCALE);
}

#[test]
fn timestamps_round_like_floats_above_two_to_the_53rd() {
    let base: u64 = 1 << 53;
    let mut h: SpeedHistory<f64> = SpeedHistory::new();
    h.timestamps.push_back(base + 2);
    h.rx_speeds.push_back(0.0);
    h.tx_speeds.push_back(0.0);
    assert!(h.can_push());
    h.push(1.0, 1.0, 10);
    assert_eq!(h.timestamps, VecDeque::from([base + 2, base + 4]));
    assert_eq!((base + 2) as f64 + 1.0, (base + 4) as f64);
    // From there a step of one rounds back down.
    h.push(2.0, 2.0, 10);
    assert_eq!(*h.timestamps.back().unwrap(), base + 4);
    assert_eq!((base + 4) as f64 + 1.0, (base + 4) as f64);
}

#[test]
fn timestamps_near_the_top_of_u64() {
    let mut h: SpeedHistory<f64> = SpeedHistory::new();
    assert!(h.can_push());
    h.timestamps.push_back(u64::MAX - 4095);
    h.rx_speeds.push_back(0.0);
    h.tx_speeds.push_back(0.0);
    assert!(h.can_push());
    h.push(1.0, 1.0, 10);
    assert_eq!(*h.timestamps.back().unwrap(), u64::MAX - 4095);
    h.timestamps.push_back(u64::MAX - 2047);
    h.rx_speeds.push_back(0.0);
    h.tx_speeds.push_back(0.0);
    assert!(h.can_push());
    // One more than this rounds up to two to the 64th, past the largest u64.
    h.timestamps.push_back(u64::MAX - 1023);
    h.rx_speeds.push_back(0.0);
    h.tx_speeds.push_back(0.0);
    assert!(!h.can_push());
    assert_eq!(((u64::MAX - 1023) as f64 + 1.0), 18446744073709551616.0);
}
