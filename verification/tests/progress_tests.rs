use nget::progress::{SpeedReport, ESTIMATE_WINDOW_NS, MEASURE_WINDOW_NS, STALL_NS};
use nget::ProgressTracker;

const S: u64 = 1_000_000_000;

#[test]
fn nothing_counted_before_main_bar() {
    let mut t = ProgressTracker::new(0);
    assert!(t.update_allowed(10, 5 * S));
    assert_eq!(t.update_main(10, 5 * S), SpeedReport::NoBar);
    assert_eq!(t.total_downloaded(), 0);
    assert_eq!(t.finish_main(6 * S), None);
}

#[test]
fn speed_windows() {
    let mut t = ProgressTracker::new(0);
    t.init_main(1000, 100, 0);
    assert_eq!(t.total_downloaded(), 100);
    assert_eq!(t.update_main(50, S / 10), SpeedReport::Quiet);
    assert_eq!(t.update_main(50, S), SpeedReport::Estimated { bytes: 100, elapsed_ns: S });
    assert_eq!(t.update_main(0, MEASURE_WINDOW_NS), SpeedReport::Measured { bytes: 100, elapsed_ns: MEASURE_WINDOW_NS });
    assert_eq!(t.total_downloaded(), 200);
    assert_eq!(t.update_main(0, MEASURE_WINDOW_NS + ESTIMATE_WINDOW_NS), SpeedReport::Quiet);
    assert_eq!(
        t.update_main(30, 2 * MEASURE_WINDOW_NS),
        SpeedReport::Measured { bytes: 30, elapsed_ns: MEASURE_WINDOW_NS }
    );
}

#[test]
fn clock_running_backwards_counts_as_no_time() {
    let mut t = ProgressTracker::new(10 * S);
    t.init_main(1000, 0, 10 * S);
    assert_eq!(t.update_main(5, S), SpeedReport::Quiet);
    assert!(!t.check_stalled(S));
}

#[test]
fn stall_detection() {
    let mut t = ProgressTracker::new(0);
    assert!(!t.check_stalled(STALL_NS));
    assert!(t.check_stalled(STALL_NS + 1));
    t.init_main(10, 0, 0);
    t.update_main(1, STALL_NS);
    assert!(!t.check_stalled(STALL_NS + 1));
}

#[test]
fn chunk_slots_and_active_threads() {
    let mut t = ProgressTracker::new(0);
    t.add_chunk(2, 100);
    assert_eq!(t.active_threads(), 1);
    t.add_chunk(0, 50);
    assert_eq!(t.active_threads(), 2);
    t.init_main(150, 0, 0);
    assert_eq!(t.finish_main(4 * S), Some((0, 4 * S)));
    assert_eq!(t.active_threads(), 0);
}

#[test]
fn finish_without_elapsed_time_reports_no_average() {
    let mut t = ProgressTracker::new(0);
    t.init_main(10, 0, 7);
    assert_eq!(t.finish_main(7), None);
}

#[test]
fn simple_speed_and_setters() {
    let mut t = ProgressTracker::new(0);
    assert_eq!(t.simple_speed(10, S), None);
    t.set_start_time(S);
    assert_eq!(t.simple_speed(10, S), None);
    assert_eq!(t.simple_speed(10, 3 * S), Some((10, 2 * S)));
    t.set_downloaded_bytes(77);
    assert_eq!(t.total_downloaded(), 77);
}

#[test]
fn update_refused_on_overflow() {
    let mut t = ProgressTracker::new(0);
    t.init_main(10, u64::MAX - 1, 0);
    assert!(t.update_allowed(1, 0));
    assert!(!t.update_allowed(2, 0));
    t.set_downloaded_bytes(0);
    assert!(t.update_allowed(0, ESTIMATE_WINDOW_NS - 1));
    assert!(!t.update_allowed(0, ESTIMATE_WINDOW_NS));
}

#[test]
fn finishing_one_chunk_lowers_the_count() {
    let mut t = ProgressTracker::new(0);
    t.add_chunk(0, 10);
    t.add_chunk(3, 10);
    assert_eq!(t.active_threads(), 2);
    t.finish_chunk(1);
    assert_eq!(t.active_threads(), 2);
    t.finish_chunk(3);
    assert_eq!(t.active_threads(), 1);
    t.finish_chunk(3);
    assert_eq!(t.active_threads(), 1);
    t.finish_chunk(9);
    assert_eq!(t.active_threads(), 1);
    t.finish_chunk(0);
    assert_eq!(t.active_threads(), 0);
    t.add_chunk(3, 20);
    assert_eq!(t.active_threads(), 1);
}
