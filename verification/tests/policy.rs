use camfast::clock::{Moment, MILLISECOND, SECOND};
use camfast::policy::{
    classify_rtsp_error, jitter_from, random_jitter, Activity, Backoff, Failure, FailureKind,
    VisibilityTracker, BACKOFF_BASE, BACKOFF_FLOOR, BACKOFF_MAX, DISCONNECT_AFTER, JITTER_ONE,
    PAUSE_DECODE_AFTER,
};

fn t0() -> Moment {
    Moment { nanos: 77 * SECOND }
}

#[test]
fn backoff_doubles_up_to_cap() {
    let mut b = Backoff::default();
    let delays: Vec<u64> = (0..8).map(|_| b.next_delay(JITTER_ONE) / SECOND).collect();
    assert_eq!(delays, [1, 2, 4, 8, 16, 30, 30, 30]);
    assert_eq!(b.attempt(), 8);
}

#[test]
fn backoff_full_jitter_with_floor() {
    let mut b = Backoff::default();
    assert_eq!(b.next_delay(0), BACKOFF_FLOOR);
    assert_eq!(b.next_delay(JITTER_ONE / 2), SECOND);
    assert_eq!(b.next_delay(JITTER_ONE / 4), SECOND);
    for _ in 0..100 {
        let d = b.next_random_delay();
        assert!(d >= BACKOFF_FLOOR && d <= BACKOFF_MAX);
    }
}

#[test]
fn backoff_reset_and_no_overflow() {
    let mut b = Backoff::default();
    for _ in 0..10_000 {
        b.next_delay(JITTER_ONE);
    }
    assert_eq!(b.next_delay(JITTER_ONE), BACKOFF_MAX);
    b.reset();
    assert_eq!(b.attempt(), 0);
    assert_eq!(b.next_delay(JITTER_ONE), BACKOFF_BASE);
}

#[test]
fn backoff_rounds_halves_to_even() {
    let mut b = Backoff::default();
    b.next_delay(0);
    b.next_delay(0);
    b.next_delay(0);
    b.next_delay(0);
    // 16 s times 3/8 of the whole, and the largest jitter below the whole.
    assert_eq!(b.next_delay(JITTER_ONE / 8 * 3), 6 * SECOND);
    let mut c = Backoff::default();
    assert_eq!(c.next_delay(JITTER_ONE - 1), SECOND);
    // A jitter beyond the whole counts as the whole.
    let mut d = Backoff::default();
    assert_eq!(d.next_delay(u64::MAX), SECOND);
}

#[test]
fn random_jitter_is_a_part() {
    let mut seen_different = false;
    let first = random_jitter();
    for _ in 0..50 {
        let jitter = random_jitter();
        assert!(jitter < JITTER_ONE);
        seen_different = seen_different || jitter != first;
    }
    assert!(seen_different);
}

#[test]
fn visibility_debounce() {
    let t0 = t0();
    let mut v = VisibilityTracker::default();
    assert_eq!(v.activity(t0), Activity::Decode);
    assert_eq!(v.next_change(t0), None);

    v.set_visible(false, t0);
    assert_eq!(v.activity(t0.plus(1999 * MILLISECOND)), Activity::Decode);
    assert_eq!(v.next_change(t0), Some(t0.plus(PAUSE_DECODE_AFTER)));
    // Repeated "hidden" notifications don't restart the timer.
    v.set_visible(false, t0.plus(SECOND));
    assert_eq!(v.activity(t0.plus(PAUSE_DECODE_AFTER)), Activity::Discard);
    assert_eq!(v.next_change(t0.plus(PAUSE_DECODE_AFTER)), Some(t0.plus(DISCONNECT_AFTER)));
    assert_eq!(v.activity(t0.plus(DISCONNECT_AFTER)), Activity::Disconnect);
    assert_eq!(v.next_change(t0.plus(DISCONNECT_AFTER)), None);

    // Visible resumes immediately.
    v.set_visible(true, t0.plus(DISCONNECT_AFTER));
    assert_eq!(v.activity(t0.plus(DISCONNECT_AFTER)), Activity::Decode);
}

#[test]
fn visibility_flapping_never_pauses() {
    let t0 = t0();
    let mut v = VisibilityTracker::default();
    for i in 0..20u64 {
        let t = t0.plus(i * 1500 * MILLISECOND);
        v.set_visible(i % 2 == 1, t);
        assert_eq!(v.activity(t.plus(1400 * MILLISECOND)), Activity::Decode);
    }
}

#[test]
fn classify_errors() {
    assert_eq!(classify_rtsp_error(Some(401), "x").kind, FailureKind::Auth);
    assert_eq!(classify_rtsp_error(Some(403), "x").kind, FailureKind::Auth);
    let f = classify_rtsp_error(Some(404), "x");
    assert_eq!((f.kind, f.reason.as_str()), (FailureKind::Retry, "Stream not found (404)"));
    assert_eq!(classify_rtsp_error(Some(503), "x").kind, FailureKind::Retry);
    assert_eq!(
        classify_rtsp_error(None, "Unable to connect to RTSP server: Connection refused (os error 61)").reason,
        "Connection refused"
    );
    assert_eq!(classify_rtsp_error(None, "Error reading from RTSP peer: EOF").reason, "Connection lost");
    assert_eq!(classify_rtsp_error(None, "Timeout").reason, "Timed out");
    assert_eq!(classify_rtsp_error(None, "whatever").kind, FailureKind::Retry);
}

#[test]
fn every_reason_for_a_failed_connection() {
    let reason = |status, message| classify_rtsp_error(status, message).reason;
    assert_eq!(reason(Some(401), ""), "Invalid username or password");
    assert_eq!(reason(Some(453), ""), "Camera connection limit reached");
    assert_eq!(reason(Some(503), ""), "Camera responded with error 503");
    assert_eq!(reason(Some(300), ""), "Camera responded with error 300");
    assert_eq!(reason(Some(200), "whatever"), "RTSP protocol error");
    assert_eq!(reason(None, "UNABLE TO CONNECT: failed to lookup address"), "Address not found");
    assert_eq!(reason(None, "Unable to connect: nodename nor servname"), "Address not found");
    assert_eq!(reason(None, "Unable to connect: cannot resolve"), "Address not found");
    assert_eq!(reason(None, "Unable to connect: network unreachable"), "Camera unreachable");
    assert_eq!(reason(None, "Unable to connect"), "No connection to the camera");
    assert_eq!(reason(None, "Error writing to peer"), "Connection lost");
    assert_eq!(reason(None, "a timeout"), "RTSP protocol error");
}

#[test]
fn failures_carry_their_kind() {
    assert_eq!(Failure::retry("a").kind, FailureKind::Retry);
    assert_eq!(Failure::retry("a").reason, "a");
    assert_eq!(Failure::fatal("b").kind, FailureKind::Fatal);
    assert_eq!(Failure::fatal("b").reason, "b");
    assert_eq!(Failure::auth().kind, FailureKind::Auth);
    assert_eq!(Failure::auth().reason, "Invalid username or password");
}

#[test]
fn random_bits_are_parts_of_the_whole() {
    assert_eq!((jitter_from(0), jitter_from(2047), jitter_from(2048)), (0, 0, 1));
    assert_eq!(jitter_from(1 << 63), JITTER_ONE / 2);
    assert_eq!(jitter_from(u64::MAX), JITTER_ONE - 1);
    for bits in [1u64, 0x0123_4567_89ab_cdef, u64::MAX / 3] {
        assert_eq!(jitter_from(bits), bits >> 11);
    }
}
