use camfast::clock::{media_nanos, Moment, MILLISECOND, SECOND};
use camfast::single::ONE;
use camfast::timing::{Pacer, Ring, RxStats, PLAYOUT_DELAY};

fn t0() -> Moment {
    Moment { nanos: 1000 * SECOND }
}

fn ms(v: u64) -> u64 {
    v * MILLISECOND
}

/// Media timestamp of frame `i` at 30 frames per second.
fn frame_ts(i: u64) -> i64 {
    media_nanos(i as i64 * 3000, 90_000)
}

fn assert_near(a: Moment, b: Moment) {
    let diff = if a.nanos > b.nanos { a.nanos - b.nanos } else { b.nanos - a.nanos };
    assert!(diff < 10_000, "{a:?} vs {b:?}");
}

/// A number of single precision.
fn float(units: u128) -> f32 {
    (units as f64 / ONE as f64) as f32
}

#[test]
fn ring_overwrites_oldest() {
    let mut ring = Ring::<u32, 3>::default();
    for i in 1..=5 {
        ring.push(i);
    }
    assert_eq!(ring.iter().into_iter().collect::<Vec<_>>(), [3, 4, 5]);
    ring.pop_front();
    assert_eq!((ring.front(), ring.back()), (Some(4), Some(5)));
}

#[test]
fn ring_wraps_and_clears() {
    let mut ring = Ring::<u32, 2>::default();
    assert_eq!((ring.front(), ring.back(), ring.len()), (None, None, 0));
    ring.pop_front();
    ring.push(1);
    ring.push(2);
    ring.pop_front();
    ring.push(3);
    assert_eq!(ring.iter(), [2, 3]);
    ring.clear();
    assert_eq!(ring.iter(), [0u32; 0]);
    ring.push(9);
    assert_eq!((ring.front(), ring.back(), ring.len()), (Some(9), Some(9), 1));
}

#[test]
fn media_time_is_rounded_down() {
    assert_eq!(media_nanos(90_000, 90_000), 1_000_000_000);
    assert_eq!(media_nanos(1, 3), 333_333_333);
    assert_eq!(media_nanos(-1, 3), -333_333_334);
    assert_eq!(media_nanos(i64::MAX, 1), i64::MAX);
    assert_eq!(media_nanos(i64::MIN, 1), i64::MIN);
}

#[test]
fn camera_fps_ignores_bursty_arrivals() {
    let t0 = t0();
    let mut stats = RxStats::new();
    for i in 0..120u64 {
        // Frames arrive in bursts of 4 every 133 ms, but are stamped at 30 fps.
        let arrival = t0.plus(ms(i / 4 * 133));
        stats.on_frame(arrival, frame_ts(i), 1000, false);
    }
    let fps = float(stats.camera_fps());
    assert!((fps - 30.0).abs() < 0.01, "{fps}");
    let jitter = float(stats.jitter_ms());
    assert!(jitter > 20.0, "{jitter}");
}

#[test]
fn jitter_is_zero_for_steady_arrivals_and_skips_discontinuities() {
    let t0 = t0();
    let mut stats = RxStats::new();
    for i in 0..60u64 {
        stats.on_frame(t0.plus(i * 33_333_000), frame_ts(i), 1000, false);
    }
    assert!(float(stats.jitter_ms()) < 0.1);
    // A 5 s gap flagged as loss must not register as jitter.
    stats.on_frame(t0.plus(7 * SECOND), 7_000_000_000, 1000, true);
    assert!(float(stats.jitter_ms()) < 0.1);
    // Timestamps restarting (new camera clock) reset the fps window.
    stats.on_frame(t0.plus(ms(7033)), 0, 1000, false);
    assert_eq!(stats.camera_fps(), 0);
}

#[test]
fn jitter_follows_the_estimator() {
    let t0 = t0();
    let mut stats = RxStats::new();
    stats.on_frame(t0, 0, 1, false);
    // 16 ms later than stamped: a sixteenth of 16 ms.
    stats.on_frame(t0.plus(ms(49)), 33_000_000, 1, false);
    assert_eq!(float(stats.jitter_ms()), 1.0);
    // On time again: a sixteenth less.
    stats.on_frame(t0.plus(ms(82)), 66_000_000, 1, false);
    assert_eq!(float(stats.jitter_ms()), 0.9375);
}

#[test]
fn the_same_timestamps_show_the_same_rate() {
    let (mut steady, mut bursty) = (RxStats::new(), RxStats::new());
    for i in 0..200u64 {
        steady.on_frame(t0().plus(i * 40 * MILLISECOND), i as i64 * 40_000_000, 1, false);
        bursty.on_frame(t0().plus(i / 50 * SECOND), i as i64 * 40_000_000, 9_999, i % 7 == 0);
        assert_eq!(steady.camera_fps(), bursty.camera_fps());
    }
    assert_eq!(float(steady.camera_fps()), 25.0);
}

#[test]
fn rates_are_of_single_precision() {
    for step in (1..2_000).map(|i| i * 999_983) {
        let mut stats = RxStats::new();
        for i in 0..3 {
            stats.on_frame(t0(), i * step / 2, 1, false);
        }
        let span = step as f64 / 1e9;
        assert_eq!(float(stats.camera_fps()), (2.0 / span) as f32, "{step}");
        let mut late = RxStats::new();
        late.on_frame(t0(), 0, 1, false);
        late.on_frame(t0().plus(16 * step as u64), 0, 1, false);
        assert_eq!(float(late.jitter_ms()), (span * 1000.0) as f32, "{step}");
    }
}

#[test]
fn kbps_is_averaged_over_the_window() {
    let t0 = t0();
    let mut stats = RxStats::new();
    stats.on_frame(t0, 0, 500_000, false); // keyframe second
    assert_eq!(stats.tick(SECOND), 4000);
    for i in 1..=4u64 {
        stats.on_frame(t0.plus(i * SECOND), (i * SECOND) as i64, 125_000, false);
        stats.tick(SECOND);
    }
    stats.on_frame(t0.plus(5 * SECOND), 5_000_000_000, 125_000, false);
    assert_eq!(stats.tick(SECOND), 1000); // keyframe bucket fell out of the window
}

#[test]
fn kbps_of_no_time_is_zero() {
    let mut stats = RxStats::new();
    stats.on_frame(t0(), 0, 500_000, false);
    assert_eq!(stats.tick(0), 0);
    // Half of a kilobit per second is rounded up.
    let mut slow = RxStats::new();
    slow.on_frame(t0(), 0, 1, false);
    assert_eq!(slow.tick(16 * MILLISECOND), 1);
    let mut slower = RxStats::new();
    slower.on_frame(t0(), 0, 1, false);
    assert_eq!(slower.tick(17 * MILLISECOND), 0);
}

#[test]
fn pacer_delays_least_delayed_frame_and_evens_out_bursts() {
    let t0 = t0();
    let mut pacer = Pacer::new();
    let mut due = Vec::new();
    for i in 0..30u64 {
        let arrival = t0.plus(ms(i / 3 * 100)).plus(ms(if i % 3 == 0 { 0 } else { 1 }));
        due.push(pacer.target(arrival, frame_ts(i)));
    }
    assert_near(due[0], t0.plus(PLAYOUT_DELAY));
    // Once the least-delayed frame (last of the first burst) set the baseline, frames are
    // due exactly one frame interval apart.
    for (i, d) in due.iter().enumerate().skip(3) {
        let step = d.since(due[i - 1]) as f64 / 1e9;
        assert!((step - 1.0 / 30.0).abs() < 0.002, "frame {i}: {step}");
    }
}

#[test]
fn pacer_never_holds_longer_than_playout_delay_and_resyncs_on_jumps() {
    let t0 = t0();
    let mut pacer = Pacer::new();
    pacer.target(t0, 10_000_000_000);
    // Timestamps jump backwards by 10 s: the frame would be 10 s late; resync instead.
    let arrival = t0.plus(ms(33));
    assert_near(pacer.target(arrival, 0), arrival.plus(PLAYOUT_DELAY));
    // A frame arriving early (less delay than the baseline) is due at arrival + delay.
    let arrival = t0.plus(ms(40));
    assert_near(pacer.target(arrival, 500_000_000), arrival.plus(PLAYOUT_DELAY));
}

#[test]
fn pacer_baseline_creeps_up() {
    let t0 = t0();
    let mut pacer = Pacer::new();
    pacer.target(t0, 0);
    // Every later frame arrives 20 ms later than the first one's timing predicts.
    let mut late = 0;
    for i in 1..=100 * 30u64 {
        let arrival = t0.plus(i * SECOND / 30).plus(ms(20));
        late = arrival.plus(PLAYOUT_DELAY).since(pacer.target(arrival, frame_ts(i)));
    }
    // After 100 s the baseline moved ~20 ms (capped by the frames' own delay).
    assert!(late < ms(1), "{late:?}");
}

#[test]
fn pacer_starts_over_after_a_reset() {
    let t0 = t0();
    let mut pacer = Pacer::new();
    pacer.target(t0, 0);
    pacer.reset();
    let arrival = t0.plus(5 * SECOND);
    assert_eq!(pacer.target(arrival, 123), arrival.plus(PLAYOUT_DELAY));
}
