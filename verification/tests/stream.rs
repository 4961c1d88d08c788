use std::sync::Arc;

use camfast::camera::{CameraConfig, CameraId, Secret};
use camfast::clock::{Moment, MILLISECOND, SECOND};
use camfast::control::{follow_visibility, Control, Global};
use camfast::decoder::{
    admits, fourcc_str, judge_output, published, released, AccessUnit, DecodeStep, Decoded, Decoder, DecoderEvent,
    Image, Output, Playout, BAD_DATA, MALFUNCTION, PIXEL_FORMAT_420F, QUEUE_CAPACITY,
    REFERENCE_MISSING, WARMUP_QUEUE_CAPACITY,
};
use camfast::manager::{Change, StreamManager};
use camfast::platform::PowerEvent;
use camfast::policy::{Activity, Failure, FailureKind, VisibilityTracker, JITTER_ONE};
use camfast::rtsp::{
    pick_video, request, request_for, Codec, CodecParams, ParamsId, Probe, ProbeItem, StreamInfo,
    VideoCodec, VideoInfo,
};
use camfast::session::{connect_end, ConnectEvent, End, FrameStep, Session, VideoFrame, WARMUP};
use camfast::shared::{StreamShared, StreamStatus};
use camfast::single::ONE;
use camfast::supervisor::{After, Before, Guardian, Next, Supervisor, Wake};
use camfast::timing::PLAYOUT_DELAY;

fn at(ms: u64) -> Moment {
    Moment { nanos: 100 * SECOND + ms * MILLISECOND }
}

fn camera(name: &str) -> CameraConfig {
    CameraConfig::new(name, "10.0.0.1")
}

fn h265() -> VideoInfo {
    VideoInfo {
        codec: VideoCodec::H265 { vps: vec![1], sps: vec![2], pps: vec![3] },
        width: 1920,
        height: 1080,
        frame_rate: None,
    }
}

fn shared() -> StreamShared<u32> {
    StreamShared::new(CameraId(5))
}

// --- requests and probes ------------------------------------------------------------------

#[test]
fn a_request_has_credentials_only_with_a_username() {
    let mut c = camera("A");
    let plain = request(&c).unwrap();
    assert_eq!(plain.url, "rtsp://10.0.0.1:554/cam/realmonitor?channel=1&subtype=0");
    assert!(plain.credentials.is_none());
    c.username = "admin".into();
    c.password = Secret::new("pw");
    let credentials = request(&c).unwrap().credentials.unwrap();
    assert_eq!((credentials.username.as_str(), credentials.password.expose()), ("admin", "pw"));
}

#[test]
fn an_address_that_does_not_parse_is_fatal() {
    let mut c = camera("A");
    for host in ["a b", "[", "host:bad"] {
        c.host = host.into();
        let failure = request(&c).err().unwrap();
        assert_eq!((failure.kind, failure.reason.as_str()), (FailureKind::Fatal, "Invalid address"));
    }
    assert!(request_for(&camera("A"), false).is_err());
    assert!(request_for(&camera("A"), true).is_ok());
}

fn offer(media: &str, encoding_name: &str, framerate: Option<u64>) -> StreamInfo {
    StreamInfo { media: media.into(), encoding_name: encoding_name.into(), framerate }
}

#[test]
fn picks_the_first_video_stream_that_can_be_decoded() {
    let streams = vec![
        offer("audio", "h264", None),
        offer("video", "jpeg", None),
        offer("video", "H265", Some(20_000_000)),
        offer("video", "h264", None),
    ];
    assert_eq!(pick_video(&streams).unwrap(), (2, Codec::H265, Some(20_000_000)));
    assert_eq!(pick_video(&vec![offer("video", "h264", Some(0))]).unwrap(), (0, Codec::H264, None));
    let none = pick_video(&vec![offer("audio", "aac", None)]).unwrap_err();
    assert_eq!((none.kind, none.reason.as_str()), (FailureKind::Fatal, "Camera has no video stream"));
    let other = pick_video(&vec![offer("video", "jpeg", None), offer("video", "vp8", None)]).unwrap_err();
    assert_eq!(other.reason, "Unsupported video codec: JPEG");
    assert_eq!((Codec::H264.label(), Codec::H265.label()), ("H.264", "H.265"));
}

#[test]
fn codec_parameters_come_in_order() {
    let params = CodecParams::from_video(&h265()).unwrap();
    assert_eq!(params.codec, Codec::H265);
    assert_eq!(params.sets, [[1], [2], [3]]);
    assert_eq!((params.width, params.height), (1920, 1080));
    let h264 = VideoInfo { codec: VideoCodec::H264 { sps: vec![7, 7], pps: vec![] }, ..h265() };
    let params264 = CodecParams::from_video(&h264).unwrap();
    assert_eq!(params264.sets, [vec![7, 7], vec![]]);
    assert!(!params264.is_complete() && params.is_complete());
    assert!(!params.has_format_of(&params264) && params.has_format_of(&params));
    assert!(CodecParams::from_video(&VideoInfo { codec: VideoCodec::Other, ..h265() }).is_none());
}

fn spread(count: u64) -> impl Iterator<Item = u64> {
    (1..=count).map(|i| i.wrapping_mul(0x9e37_79b9_7f4a_7c15) >> (i % 60))
}

#[test]
fn a_probe_rounds_in_single_precision() {
    let tenths = |fps: f32| (fps * 10.0).round() as u64;
    let announced = |fps: f32| {
        let mut probe = Probe::new(Codec::H265, 1, Some((f64::from(fps) * 1e6).round() as u64));
        assert!(probe.step(probe_frame(0)).is_none());
        probe.step(ProbeItem::Ended).unwrap().unwrap().fps
    };
    for millionths in (1..3000).map(|i| i * 50_000).chain(spread(20_000).map(|n| 1 + n % 120_000_000)) {
        let text = format!("{}.{:06}", millionths / 1_000_000, millionths % 1_000_000);
        let fps: f32 = text.parse().unwrap();
        assert_eq!(announced(fps), Some(tenths(fps)), "{text}");
    }
    // A little less than halfway, which single precision cannot tell from halfway.
    assert_eq!(announced(12.45), Some(125));
    let described = |n: u32, d: u32| {
        let mut probe = Probe::new(Codec::H265, 1, None);
        probe.step(ProbeItem::Frame { stream: 1, media_ts: 0, video: Some((1, 1, Some((n, d)))) });
        probe.step(ProbeItem::Ended).unwrap().unwrap().fps
    };
    let pairs: Vec<u32> = spread(40_000).map(|n| (n as u32).max(1)).collect();
    for pair in pairs.windows(2) {
        let (n, d) = (pair[0], pair[1]);
        assert_eq!(described(n, d), Some(tenths(d as f32 / n as f32)), "{n} {d}");
    }
    let measured = |span: i64| {
        let mut probe = Probe::new(Codec::H265, 1, None);
        probe.step(probe_frame(0));
        probe.step(probe_frame(span));
        probe.step(ProbeItem::Ended).unwrap().unwrap().fps
    };
    for span in (1..20_000).map(|i| i * 99_991) {
        assert_eq!(measured(span), Some(tenths((1.0 / (span as f64 / 1e9)) as f32)), "{span}");
    }
}

fn probe_frame(media_ts: i64) -> ProbeItem {
    ProbeItem::Frame { stream: 1, media_ts, video: Some((640, 480, Some((1, 25)))) }
}

#[test]
fn a_probe_measures_the_rate() {
    let mut probe = Probe::new(Codec::H264, 1, Some(20_000_000));
    assert!(probe.step(ProbeItem::Other).is_none());
    assert!(probe.step(ProbeItem::Frame { stream: 0, media_ts: 5, video: None }).is_none());
    assert!(probe.step(ProbeItem::Frame { stream: 1, media_ts: 5, video: None }).is_none());
    for i in 0..14 {
        assert!(probe.step(probe_frame(i * 33_333_333)).is_none());
    }
    let info = probe.step(probe_frame(14 * 33_333_333)).unwrap().unwrap();
    assert_eq!((info.codec.as_str(), info.width, info.height, info.fps), ("H.264", 640, 480, Some(300)));
}

#[test]
fn a_probe_falls_back_to_announced_rates() {
    let finish = |sdp| {
        let mut probe = Probe::new(Codec::H265, 1, sdp);
        assert!(probe.step(probe_frame(0)).is_none());
        probe.step(ProbeItem::Ended).unwrap().unwrap().fps
    };
    assert_eq!(finish(Some(12_550_000)), Some(126));
    assert_eq!(finish(Some(12_349_600)), Some(123));
    assert_eq!(finish(Some(0)), Some(250));
    assert_eq!(finish(None), Some(250));
    let mut probe = Probe::new(Codec::H265, 1, None);
    probe.step(ProbeItem::Frame { stream: 1, media_ts: 0, video: Some((1, 1, Some((0, 25)))) });
    assert_eq!(probe.step(ProbeItem::TimedOut).unwrap().unwrap().fps, None);
}

#[test]
fn a_probe_without_frames_fails() {
    let fail = |item| Probe::new(Codec::H264, 0, None).step(item).unwrap().err().unwrap().reason;
    assert_eq!(fail(ProbeItem::Ended), "Camera ended the stream");
    assert_eq!(fail(ProbeItem::TimedOut), "No frames received in 10 s");
    assert_eq!(fail(ProbeItem::Failed(Failure::auth())), "Invalid username or password");
}

// --- shared state -------------------------------------------------------------------------

#[test]
fn changes_are_announced_once() {
    let mut s = shared();
    assert!(!s.changed());
    s.set_status(StreamStatus::Connecting);
    assert!(!s.changed());
    s.set_status(StreamStatus::Live);
    s.publish_frame(1);
    s.publish_frame(2);
    assert_eq!((s.latest_frame(), s.frames_published()), (Some(&2), 2));
    assert!(s.changed());
    assert!(!s.changed());
    s.clear_frame();
    assert!(s.changed());
    s.clear_frame();
    assert!(!s.changed());
    assert_eq!(s.latest_frame(), None);
    assert_eq!(s.id(), CameraId(5));
}

#[test]
fn transitions_depend_on_the_status() {
    let mut s = shared();
    assert!(!s.transition(|s| matches!(s, StreamStatus::Paused), StreamStatus::Live));
    assert_eq!(s.status(), StreamStatus::Connecting);
    assert!(s.transition(|s| matches!(s, StreamStatus::Connecting), StreamStatus::Live));
    assert!(!s.transition(|_| true, StreamStatus::Live));
    s.freeze();
    assert_eq!(s.status(), StreamStatus::WaitingKeyframe);
    s.start();
    assert_eq!(s.status(), StreamStatus::Live);
    for status in [StreamStatus::Paused, StreamStatus::AuthFailed, StreamStatus::Error("x".into())] {
        s.set_status(status.clone());
        s.freeze();
        s.start();
        assert_eq!(s.status(), status);
    }
}

#[test]
fn statuses_differ_by_what_they_say() {
    let wait = |attempt, ms, reason: &str| StreamStatus::Reconnecting {
        attempt,
        retry_at: at(ms),
        reason: reason.into(),
    };
    assert_eq!(wait(1, 2, "x"), wait(1, 2, "x"));
    assert_ne!(wait(1, 2, "x"), wait(2, 2, "x"));
    assert_ne!(wait(1, 2, "x"), wait(1, 3, "x"));
    assert_ne!(wait(1, 2, "x"), wait(1, 2, "y"));
    assert_ne!(StreamStatus::Error("a".into()), StreamStatus::Error("b".into()));
    assert_ne!(StreamStatus::Live, StreamStatus::Paused);
}

#[test]
fn stats_take_the_shown_rate() {
    let mut s = shared();
    s.set_fps(2997);
    s.update_stats().kbps = 12;
    let stats = s.stats();
    assert_eq!((stats.fps, stats.kbps, stats.last_error), (2997, 12, None));
}

// --- sessions -----------------------------------------------------------------------------

fn hevc(kind: u8) -> Vec<u8> {
    vec![0, 0, 0, 3, kind << 1, 1, 0xaa]
}

const CRA: u8 = 21;
const RASL: u8 = 8;
const TRAIL: u8 = 1;

fn frame(kind: u8, ms: i64) -> VideoFrame {
    VideoFrame {
        stream: 0,
        media_ts: ms * 1_000_000,
        lost: false,
        random_access: false,
        new_parameters: false,
        video: None,
        data: hevc(kind),
    }
}

fn session(s: &mut StreamShared<u32>) -> Session {
    let (session, pause) = Session::start(3, Codec::H265, 0, Some(h265()), Global::new(), at(0), s);
    assert!(!pause);
    session
}

fn sent(step: FrameStep) -> Option<(AccessUnit, usize)> {
    match step {
        FrameStep::Drop => None,
        FrameStep::Send { unit, capacity } => Some((unit, capacity)),
    }
}

#[test]
fn a_session_starts_on_a_keyframe() {
    let mut s = shared();
    let mut session = session(&mut s);
    assert_eq!((s.stats().width, s.stats().codec.as_str()), (1920, "H.265"));
    assert!(sent(session.on_frame(frame(TRAIL, 0), at(1), &mut s)).is_none());
    let (unit, capacity) = sent(session.on_frame(frame(CRA, 33), at(34), &mut s)).unwrap();
    assert!(unit.key && !unit.discontinuity);
    assert_eq!((unit.session, unit.arrival, unit.media_ts), (3, at(34), 33_000_000));
    assert_eq!(unit.data, hevc(CRA));
    assert_eq!(capacity, WARMUP_QUEUE_CAPACITY);
    // Leading pictures of the first keyframe are skipped; what follows them is not.
    assert!(sent(session.on_frame(frame(RASL, 40), at(67), &mut s)).is_none());
    assert!(sent(session.on_frame(frame(TRAIL, 66), at(68), &mut s)).is_some());
    assert!(sent(session.on_frame(frame(RASL, 70), at(69), &mut s)).is_some());
    // After the warm-up the queue is shorter.
    let later = Moment { nanos: at(34).nanos + WARMUP };
    assert_eq!(sent(session.on_frame(frame(TRAIL, 99), later, &mut s)).unwrap().1, QUEUE_CAPACITY);
    session.on_tick(at(1000), &mut s);
    assert_eq!(s.stats().dropped_frames, 0);
}

#[test]
fn lost_packets_freeze_until_a_keyframe() {
    let mut s = shared();
    let mut session = session(&mut s);
    session.on_frame(frame(CRA, 0), at(0), &mut s);
    s.set_status(StreamStatus::Live);
    let lost = VideoFrame { lost: true, ..frame(TRAIL, 33) };
    assert!(sent(session.on_frame(lost, at(33), &mut s)).is_none());
    assert_eq!(s.status(), StreamStatus::WaitingKeyframe);
    assert!(sent(session.on_frame(frame(TRAIL, 66), at(66), &mut s)).is_none());
    let (unit, _) = sent(session.on_frame(frame(CRA, 99), at(99), &mut s)).unwrap();
    assert!(unit.key && unit.discontinuity);
    let (unit, _) = sent(session.on_frame(frame(TRAIL, 132), at(132), &mut s)).unwrap();
    assert!(!unit.discontinuity);
    session.on_tick(at(1000), &mut s);
    assert_eq!(s.stats().dropped_frames, 2);
}

#[test]
fn a_refused_unit_freezes_until_a_keyframe() {
    let mut s = shared();
    let mut session = session(&mut s);
    session.on_frame(frame(CRA, 0), at(0), &mut s);
    s.set_status(StreamStatus::Live);
    session.on_sent(true, &mut s);
    assert_eq!(s.status(), StreamStatus::Live);
    session.on_sent(false, &mut s);
    assert_eq!(s.status(), StreamStatus::WaitingKeyframe);
    assert!(sent(session.on_frame(frame(TRAIL, 33), at(33), &mut s)).is_none());
    assert!(sent(session.on_frame(frame(CRA, 66), at(66), &mut s)).unwrap().0.discontinuity);
    session.on_tick(at(1000), &mut s);
    assert_eq!(s.stats().dropped_frames, 2);
    assert!(admits(59, QUEUE_CAPACITY) && !admits(60, QUEUE_CAPACITY));
}

#[test]
fn new_parameters_get_new_ids() {
    let mut s = shared();
    let mut session = session(&mut s);
    let (first, _) = sent(session.on_frame(frame(CRA, 0), at(0), &mut s)).unwrap();
    assert!(!session.wants_parameters(false) && session.wants_parameters(true));
    let announced = VideoFrame {
        new_parameters: true,
        video: Some(VideoInfo { width: 640, height: 360, ..h265() }),
        ..frame(CRA, 33)
    };
    let (second, _) = sent(session.on_frame(announced, at(33), &mut s)).unwrap();
    assert_eq!(first.params_id, ParamsId { session: 3, index: 0 });
    assert_ne!(first.params_id, second.params_id);
    assert_eq!((second.params.width, s.stats().width), (640, 640));
}

#[test]
fn a_session_without_parameters_sends_nothing() {
    let mut s = shared();
    let (mut session, _) = Session::start(1, Codec::H265, 0, None, Global::new(), at(0), &mut s);
    assert!(session.wants_parameters(false));
    assert!(sent(session.on_frame(frame(CRA, 0), at(0), &mut s)).is_none());
    let with = VideoFrame { video: Some(h265()), ..frame(CRA, 33) };
    assert!(sent(session.on_frame(with, at(33), &mut s)).is_some());
    assert!(sent(session.on_frame(VideoFrame { stream: 1, ..frame(CRA, 66) }, at(66), &mut s)).is_none());
}

#[test]
fn a_hidden_window_pauses_decoding() {
    let mut s = shared();
    let mut session = session(&mut s);
    session.on_frame(frame(CRA, 0), at(0), &mut s);
    let hidden = Global { activity: Activity::Discard, ..Global::new() };
    let (end, pause) = session.on_global(Some(hidden), &mut s);
    assert!(end.is_none() && pause);
    assert_eq!(s.status(), StreamStatus::Paused);
    assert!(sent(session.on_frame(frame(CRA, 33), at(33), &mut s)).is_none());
    let (end, pause) = session.on_global(Some(Global::new()), &mut s);
    assert!(end.is_none() && !pause);
    assert_eq!(s.status(), StreamStatus::WaitingKeyframe);
    assert!(sent(session.on_frame(frame(TRAIL, 66), at(66), &mut s)).is_none());
    assert!(sent(session.on_frame(frame(CRA, 99), at(99), &mut s)).is_some());
    session.on_tick(at(1000), &mut s);
    assert_eq!(s.stats().dropped_frames, 0);
    let gone = Global { activity: Activity::Disconnect, ..Global::new() };
    assert!(matches!(session.on_global(Some(gone), &mut s).0, Some(End::Paused)));
    assert!(matches!(session.on_global(None, &mut s).0, Some(End::Stopped)));
    let (_, pause) = Session::start(1, Codec::H264, 0, None, hidden, at(0), &mut s);
    assert!(pause);
    assert_eq!(s.status(), StreamStatus::Paused);
}

fn failure(end: Option<End>) -> (FailureKind, String, Option<Moment>) {
    match end {
        Some(End::Failed { failure, streaming_since }) => (failure.kind, failure.reason, streaming_since),
        _ => panic!("not failed"),
    }
}

#[test]
fn every_end_of_a_session() {
    let mut s = shared();
    let mut session = session(&mut s);
    assert_eq!(session.deadline(), at(10_000));
    session.on_frame(frame(TRAIL, 0), at(7), &mut s);
    assert_eq!(session.deadline(), at(10_007));
    let since = Some(at(7));
    let retry = |reason: &str| (FailureKind::Retry, reason.to_owned(), since);
    assert_eq!(failure(Some(session.on_timeout())), retry("No video for 10 s"));
    assert_eq!(failure(Some(session.on_end())), retry("Camera ended the stream"));
    assert_eq!(failure(Some(session.on_failure(Failure::retry("x")))), retry("x"));
    let failed = |session| DecoderEvent::Failed { session, reason: "Decoder failure".into() };
    let fatal = |session| DecoderEvent::Fatal { session, reason: "bad".into() };
    assert_eq!(failure(session.on_event(failed(3))), retry("Decoder failure"));
    assert_eq!(failure(session.on_event(fatal(3))), (FailureKind::Fatal, "bad".to_owned(), since));
    assert!(session.on_event(failed(2)).is_none() && session.on_event(fatal(4)).is_none());
    assert!(session.on_control(Some(Control::new())).is_none());
    assert!(matches!(session.on_control(Some(Control { stop: true, retry_epoch: 0 })), Some(End::Stopped)));
    assert!(matches!(session.on_control(None), Some(End::Stopped)));
    assert!(connect_end(ConnectEvent::Connected).is_none());
    assert_eq!(
        failure(connect_end(ConnectEvent::TimedOut)),
        (FailureKind::Retry, "Timed out while connecting".to_owned(), None)
    );
    assert_eq!(failure(connect_end(ConnectEvent::Refused(Failure::auth()))).0, FailureKind::Auth);
    assert!(matches!(connect_end(ConnectEvent::Stop), Some(End::Stopped)));
    assert!(matches!(connect_end(ConnectEvent::Abandoned), Some(End::Stopped)));
    assert!(matches!(connect_end(ConnectEvent::Unwanted), Some(End::Paused)));
}

#[test]
fn a_tick_measures() {
    let mut s = shared();
    let mut session = session(&mut s);
    for i in 0..30u64 {
        session.on_frame(VideoFrame { data: vec![0; 1250], ..frame(0, i as i64 * 33) }, at(i * 33), &mut s);
        s.publish_frame(1);
    }
    session.on_tick(at(1000), &mut s);
    let stats = s.stats();
    assert_eq!((stats.fps, stats.kbps), (3000, 300));
    let camera_fps = (stats.camera_fps as f64 / ONE as f64) as f32;
    assert_eq!(camera_fps, (29.0 / 0.957) as f32);
    session.on_tick(at(1000), &mut s);
    assert_eq!((s.stats().fps, s.stats().kbps), (0, 300));
}

// --- supervision --------------------------------------------------------------------------

#[test]
fn a_supervisor_connects_while_wanted() {
    let mut s = shared();
    let mut sup = Supervisor::new(Global::new());
    assert_eq!(sup.next(Control::new(), Global::new(), &mut s), Before::Connect);
    assert_eq!(sup.begin(Control::new(), &mut s), Some(1));
    assert_eq!(sup.begin(Control { stop: true, retry_epoch: 0 }, &mut s), None);
    let asleep = Global { suspended: true, ..Global::new() };
    s.set_fps(5);
    assert_eq!(sup.next(Control::new(), asleep, &mut s), Before::Park);
    assert_eq!((s.status(), s.stats().fps), (StreamStatus::Paused, 0));
    assert_eq!(sup.next(Control { stop: true, retry_epoch: 0 }, asleep, &mut s), Before::Stop);
    assert_eq!(sup.on_parked(Wake::Global(None)), Next::Stop);
    assert_eq!(sup.on_parked(Wake::Control(None)), Next::Stop);
    assert_eq!(sup.on_parked(Wake::Global(Some(asleep))), Next::Again);
    Supervisor::decoder_missing(&mut s);
    assert_eq!(s.status(), StreamStatus::Error("Could not start the decoder".into()));
}

fn failed(failure: Failure, streaming_since: Option<Moment>) -> End {
    End::Failed { failure, streaming_since }
}

#[test]
fn rejected_credentials_are_not_tried_again() {
    let mut s = shared();
    let mut sup = Supervisor::new(Global::new());
    let after = sup.ended_with(failed(Failure::auth(), None), Control::new(), at(0), 0, &mut s);
    assert_eq!((after, s.status()), (After::Hold, StreamStatus::AuthFailed));
    assert_eq!(s.stats().last_error.as_deref(), Some("Invalid username or password"));
    assert_eq!(sup.on_hold(Wake::Elapsed), Next::Stay);
    let woken = Global { wake_epoch: 1, ..Global::new() };
    assert_eq!(sup.on_hold(Wake::Global(Some(woken))), Next::Stay);
    assert_eq!(sup.on_hold(Wake::Control(Some(Control { stop: false, retry_epoch: 1 }))), Next::Again);
    assert_eq!(sup.on_hold(Wake::Control(Some(Control { stop: true, retry_epoch: 1 }))), Next::Stop);
    assert_eq!(sup.on_hold(Wake::Control(None)), Next::Stop);
    assert_eq!(sup.on_hold(Wake::Global(None)), Next::Stop);
    let after = sup.ended_with(failed(Failure::fatal("bad"), None), Control::new(), at(0), 0, &mut s);
    assert_eq!((after, s.status()), (After::Hold, StreamStatus::Error("bad".into())));
}

#[test]
fn failures_are_retried_with_backoff() {
    let mut s = shared();
    let mut sup = Supervisor::new(Global::new());
    let lost = || failed(Failure::retry("lost"), None);
    let after = sup.ended_with(lost(), Control::new(), at(0), JITTER_ONE, &mut s);
    assert_eq!(after, After::Wait { retry_at: at(1000) });
    assert_eq!(
        s.status(),
        StreamStatus::Reconnecting { attempt: 1, retry_at: at(1000), reason: "lost".into() }
    );
    let after = sup.ended_with(lost(), Control::new(), at(0), JITTER_ONE, &mut s);
    assert_eq!(after, After::Wait { retry_at: at(2000) });
    assert_eq!((s.stats().reconnects, s.stats().last_error.as_deref()), (2, Some("lost")));
    // A minute of streaming starts over.
    let long = failed(Failure::retry("lost"), Some(at(0)));
    let after = sup.ended_with(long, Control::new(), at(60_000), JITTER_ONE, &mut s);
    assert_eq!(after, After::Wait { retry_at: at(61_000) });
    // So does a wake, which also ends the wait.
    assert_eq!(sup.on_wait(Wake::Global(Some(Global::new()))), Next::Stay);
    let woken = Global { wake_epoch: 1, ..Global::new() };
    assert_eq!(sup.on_wait(Wake::Global(Some(woken))), Next::Again);
    let after = sup.ended_with(lost(), Control::new(), at(0), JITTER_ONE, &mut s);
    assert_eq!(after, After::Wait { retry_at: at(1000) });
    assert_eq!(sup.on_wait(Wake::Elapsed), Next::Again);
    assert_eq!(sup.on_wait(Wake::Control(Some(Control::new()))), Next::Again);
    assert_eq!(sup.on_wait(Wake::Control(Some(Control { stop: true, retry_epoch: 0 }))), Next::Stop);
    let asleep = Global { suspended: true, ..woken };
    assert_eq!(sup.on_wait(Wake::Global(Some(asleep))), Next::Again);
    assert_eq!(sup.on_wait(Wake::Global(None)), Next::Stop);
    match sup.ended(lost(), Control::new(), at(0), &mut s) {
        After::Wait { retry_at } => {
            assert!(retry_at.nanos >= at(250).nanos && retry_at.nanos <= at(2000).nanos)
        }
        other => panic!("{other:?}"),
    }
}

#[test]
fn a_stopped_session_is_over() {
    let mut s = shared();
    let mut sup = Supervisor::new(Global::new());
    s.update_stats().kbps = 7;
    assert_eq!(sup.ended_with(End::Stopped, Control::new(), at(0), 0, &mut s), After::Stop);
    assert_eq!(s.stats().kbps, 0);
    assert_eq!(sup.ended_with(End::Paused, Control::new(), at(0), 0, &mut s), After::Again);
    let stop = Control { stop: true, retry_epoch: 0 };
    assert_eq!(sup.ended_with(failed(Failure::auth(), None), stop, at(0), 0, &mut s), After::Stop);
    assert_eq!(s.stats().last_error, None);
}

#[test]
fn a_broken_supervisor_is_restarted() {
    let mut s = shared();
    let mut guardian = Guardian::new();
    assert_eq!(guardian.broke_down_with(Control::new(), at(0), JITTER_ONE, &mut s), Some(at(1000)));
    assert_eq!(
        s.status(),
        StreamStatus::Reconnecting { attempt: 1, retry_at: at(1000), reason: "Internal error".into() }
    );
    assert_eq!((s.stats().reconnects, s.stats().last_error.as_deref()), (1, Some("Internal error")));
    let stop = Control { stop: true, retry_epoch: 0 };
    assert_eq!(guardian.broke_down_with(stop, at(0), 0, &mut s), None);
    assert!(guardian.broke_down(Control::new(), at(0), &mut s).is_some());
}

#[test]
fn visibility_reaches_the_supervisors() {
    let mut global = Global::new();
    let mut tracker = VisibilityTracker::new();
    assert_eq!(follow_visibility(&tracker, &mut global, at(0)), (false, None));
    tracker.set_visible(false, at(0));
    assert_eq!(follow_visibility(&tracker, &mut global, at(0)), (false, Some(at(2000))));
    assert_eq!(follow_visibility(&tracker, &mut global, at(2000)), (true, Some(at(300_000))));
    assert_eq!(global.activity, Activity::Discard);
    assert!(global.wants_connection());
    assert_eq!(follow_visibility(&tracker, &mut global, at(300_000)), (true, None));
    assert!(!global.wants_connection());
}

// --- the set of streams -------------------------------------------------------------------

fn kinds(changes: &[Change]) -> Vec<String> {
    changes
        .iter()
        .map(|c| match c {
            Change::Stop(_) => "stop".to_owned(),
            Change::Start { camera, resumes, .. } => format!("start {} {resumes}", camera.name),
            Change::Restart { camera, .. } => format!("restart {}", camera.name),
            Change::Keep { camera, .. } => format!("keep {}", camera.name),
        })
        .collect()
}

#[test]
fn sync_starts_stops_and_restarts() {
    let (a, mut b) = (camera("A"), camera("B"));
    let mut m = StreamManager::new();
    let none = vec![];
    assert_eq!(kinds(&m.sync(&vec![a.clone(), b.clone()], &none)), ["start A false", "start B false"]);
    assert_eq!(kinds(&m.sync(&vec![a.clone(), b.clone()], &none)), ["keep A", "keep B"]);
    b.name = "C".into();
    assert_eq!(kinds(&m.sync(&vec![a.clone(), b.clone()], &none)), ["keep A", "keep C"]);
    b.port = 1;
    assert_eq!(kinds(&m.sync(&vec![a.clone(), b.clone()], &none)), ["keep A", "restart C"]);
    assert_eq!(kinds(&m.sync(&vec![b.clone()], &none)), ["stop", "keep C"]);
    assert!(m.stream(a.id).is_none() && m.stream(b.id).is_some());
    assert!(m.retry_now(b.id) && !m.retry_now(a.id));
    // Back before it has torn down, and after.
    assert_eq!(kinds(&m.sync(&vec![a.clone()], &none)), ["stop", "start A true"]);
    assert_eq!(kinds(&m.sync(&vec![b.clone()], &vec![b.id])), ["stop", "start C false"]);
    assert_eq!(m.shutdown(), Some(vec![b.id, a.id]));
    assert_eq!(m.shutdown(), None);
    assert!(m.sync(&none_cameras(), &none).is_empty());
}

fn none_cameras() -> Vec<CameraConfig> {
    Vec::new()
}

fn handles(changes: &[Change]) -> Vec<Option<u64>> {
    changes
        .iter()
        .map(|c| match c {
            Change::Stop(_) => None,
            Change::Start { handle, .. } => Some(*handle),
            Change::Restart { handle, .. } => Some(*handle),
            Change::Keep { handle, .. } => Some(*handle),
        })
        .collect()
}

#[test]
fn a_restarted_stream_keeps_its_handle() {
    let (a, mut b) = (camera("A"), camera("B"));
    let mut m = StreamManager::new();
    let none = vec![];
    assert_eq!(handles(&m.sync(&vec![a.clone(), b.clone()], &none)), [Some(0), Some(1)]);
    assert_eq!((m.stream(a.id), m.stream(b.id), m.started()), (Some(0), Some(1), 2));
    b.port = 1;
    let changes = m.sync(&vec![a.clone(), b.clone()], &none);
    assert_eq!(kinds(&changes), ["keep A", "restart B"]);
    assert_eq!(handles(&changes), [Some(0), Some(1)]);
    assert_eq!(m.stream(b.id), Some(1));
    // The others' handles stay when a camera leaves, and it gets a new one when it comes back.
    assert_eq!(handles(&m.sync(&vec![b.clone()], &none)), [None, Some(1)]);
    assert_eq!((m.stream(a.id), m.stream(b.id)), (None, Some(1)));
    assert_eq!(handles(&m.sync(&vec![a.clone(), b.clone()], &none)), [Some(2), Some(1)]);
    assert_eq!((m.stream(a.id), m.stream(b.id), m.started()), (Some(2), Some(1), 3));
    m.shutdown();
    assert_eq!((m.stream(b.id), m.started()), (None, 3));
}

#[test]
fn changes_show_in_the_tile() {
    let mut s = shared();
    s.publish_frame(1);
    Change::Keep { camera: camera("A"), handle: 0 }.show(&mut s);
    assert!(s.latest_frame().is_some());
    Change::Stop(CameraId(5)).show(&mut s);
    assert_eq!((s.latest_frame(), s.status()), (None, StreamStatus::Paused));
    s.publish_frame(2);
    Change::Restart { camera: camera("A"), handle: 0 }.show(&mut s);
    assert_eq!((s.latest_frame(), s.status()), (None, StreamStatus::Connecting));
}

#[test]
fn power_and_window_reach_the_streams() {
    let mut m = StreamManager::new();
    assert!(m.on_power(PowerEvent::Sleep).suspended);
    let woken = m.on_power(PowerEvent::Wake);
    assert_eq!((woken.suspended, woken.wake_epoch), (false, 1));
    assert!(!m.set_window_visible(true) && m.set_window_visible(false));
    assert!(m.set_activity(Activity::Discard) && !m.set_activity(Activity::Discard));
    m.set_smooth_playback(true);
}

// --- decoding -----------------------------------------------------------------------------

fn unit(session: u32, key: bool) -> AccessUnit {
    AccessUnit {
        data: vec![1],
        params: Arc::new(CodecParams::from_video(&h265()).unwrap()),
        params_id: ParamsId { session, index: 0 },
        key,
        session,
        discontinuity: false,
        media_ts: 0,
        arrival: at(0),
    }
}

fn good(output: Output) -> Decoded {
    Decoded { status: 0, output_status: 0, output }
}

/// A decoder that has just published the first picture of session 1.
fn live(s: &mut StreamShared<u32>) -> Decoder {
    let mut d = Decoder::new();
    let au = unit(1, true);
    assert_eq!(d.decode(&au, at(0), s).step, DecodeStep::Describe);
    assert_eq!(d.described(&au, Ok(true), at(0), s).step, DecodeStep::Open);
    assert_eq!(d.opened(&au, Ok(()), at(0), s).step, DecodeStep::Decode);
    assert_eq!(d.decoded(good(Output::Published), at(0), s).step, DecodeStep::Done);
    assert!(published(good(Output::Published)) && !published(good(Output::Panicked)));
    assert!(!published(Decoded { status: -1, ..good(Output::Published) }));
    assert!(!published(Decoded { output_status: -1, ..good(Output::Published) }));
    assert_eq!(s.status(), StreamStatus::Live);
    d
}

#[test]
fn decoding_starts_on_a_keyframe() {
    let mut s = shared();
    let mut d = Decoder::new();
    let au = unit(1, false);
    assert_eq!(d.decode(&au, at(0), &mut s).step, DecodeStep::Describe);
    assert_eq!(d.described(&au, Ok(true), at(0), &mut s).step, DecodeStep::Done);
    assert_eq!(s.stats().dropped_frames, 0);
    assert_eq!(d.decode(&unit(1, true), at(0), &mut s).step, DecodeStep::Open);
    let mut d = live(&mut s);
    assert_eq!(d.decode(&unit(1, false), at(0), &mut s).step, DecodeStep::Decode);
    assert!(d.pause(&mut s) && !d.pause(&mut s));
    assert_eq!(d.decode(&unit(1, false), at(0), &mut s).step, DecodeStep::Done);
    assert_eq!(d.decode(&unit(1, true), at(0), &mut s).step, DecodeStep::Open);
}

#[test]
fn errors_wait_for_a_keyframe_and_escalate() {
    let mut s = shared();
    let mut d = live(&mut s);
    let bad = |status| Decoded { status, output_status: 0, output: Output::Nothing };
    let reply = d.decoded(bad(BAD_DATA), at(0), &mut s);
    assert!(!reply.invalidate && reply.event.is_none());
    assert_eq!((s.status(), s.stats().dropped_frames), (StreamStatus::WaitingKeyframe, 1));
    assert_eq!(d.decode(&unit(1, false), at(0), &mut s).step, DecodeStep::Done);
    assert_eq!(s.stats().dropped_frames, 2);
    assert_eq!(d.decode(&unit(1, true), at(0), &mut s).step, DecodeStep::Decode);
    assert!(!d.decoded(bad(REFERENCE_MISSING), at(0), &mut s).invalidate);
    // Errors of the decoder itself recreate the session; the third one within 30 s escalates.
    for i in 0..2 {
        d.decode(&unit(1, true), at(0), &mut s);
        d.opened(&unit(1, true), Ok(()), at(0), &mut s);
        let reply = d.decoded(good(Output::Panicked), at(i), &mut s);
        assert!(reply.invalidate && reply.event.is_none());
    }
    assert_eq!(d.decode(&unit(1, true), at(0), &mut s).step, DecodeStep::Open);
    let reply = d.opened(&unit(1, true), Err(MALFUNCTION), at(30_000), &mut s);
    match reply.event {
        Some(DecoderEvent::Failed { session, reason }) => {
            assert_eq!((session, reason.as_str()), (1, "Decoder failure"))
        }
        other => panic!("{other:?}"),
    }
    assert_eq!(d.decode(&unit(1, true), at(0), &mut s).step, DecodeStep::Done);
    assert_eq!(d.decode(&unit(2, true), at(0), &mut s).step, DecodeStep::Open);
}

#[test]
fn old_recreations_do_not_count() {
    let mut s = shared();
    let mut d = live(&mut s);
    let fail = |d: &mut Decoder, s: &mut StreamShared<u32>, ms| {
        d.decode(&unit(1, true), at(ms), s);
        d.opened(&unit(1, true), Err(-1), at(ms), s).event.is_some()
    };
    d.pause(&mut s);
    assert!(!fail(&mut d, &mut s, 0));
    assert!(!fail(&mut d, &mut s, 1));
    assert!(!fail(&mut d, &mut s, 30_001));
    assert!(fail(&mut d, &mut s, 30_001));
}

#[test]
fn unusable_parameters_halt_the_session() {
    let mut s = shared();
    let mut d = Decoder::new();
    let au = unit(1, true);
    d.decode(&au, at(0), &mut s);
    let reply = d.described(&au, Err(-1), at(0), &mut s);
    assert!(matches!(reply.event, Some(DecoderEvent::Failed { session: 1, reason }) if reason == "Invalid video parameters"));
    let mut empty = unit(2, true);
    let h264 = VideoInfo { codec: VideoCodec::H264 { sps: vec![], pps: vec![1] }, ..h265() };
    empty.params = Arc::new(CodecParams::from_video(&h264).unwrap());
    let reply = d.decode(&empty, at(0), &mut s);
    assert!(reply.step == DecodeStep::Done && reply.event.is_some());
}

#[test]
fn changed_parameters_replace_the_session_if_they_must() {
    let mut s = shared();
    let mut d = live(&mut s);
    // The same sets under another id: nothing to describe.
    let mut same = unit(1, true);
    same.params_id.index = 1;
    assert_eq!(d.decode(&same, at(0), &mut s).step, DecodeStep::Decode);
    let mut other = unit(1, true);
    other.params_id.index = 2;
    let changed = VideoInfo { codec: VideoCodec::H264 { sps: vec![9], pps: vec![9] }, ..h265() };
    other.params = Arc::new(CodecParams::from_video(&changed).unwrap());
    assert_eq!(d.decode(&other, at(0), &mut s).step, DecodeStep::Describe);
    let reply = d.described(&other, Ok(false), at(0), &mut s);
    assert!(reply.step == DecodeStep::Open && reply.invalidate);
}

#[test]
fn pictures_that_cannot_be_drawn_are_fatal() {
    let mut s = shared();
    let mut d = live(&mut s);
    let reply = d.decoded(good(Output::BadFormat(0x3432_3076)), at(0), &mut s);
    assert!(reply.invalidate);
    match reply.event {
        Some(DecoderEvent::Fatal { session, reason }) => {
            assert_eq!((session, reason.as_str()), (1, "Unsupported image format ('420v')"))
        }
        other => panic!("{other:?}"),
    }
    let image = |format, iosurface_backed| Some(Image { format, iosurface_backed });
    assert_eq!(judge_output(-1, None, false), (Output::Nothing, false));
    assert_eq!(judge_output(0, None, true), (Output::NoImage, true));
    assert_eq!(judge_output(0, image(PIXEL_FORMAT_420F, true), false), (Output::Published, true));
    assert_eq!(judge_output(0, image(PIXEL_FORMAT_420F, false), false), (Output::BadFormat(PIXEL_FORMAT_420F), false));
    assert_eq!(judge_output(0, image(1, true), false), (Output::BadFormat(1), false));
    assert_eq!(judge_output(0, image(1, true), true), (Output::Published, true));
    assert!(matches!(d.broke_down(), DecoderEvent::Failed { session: 1, reason } if reason == "Internal decoder error"));
}

#[test]
fn empty_units_are_errors() {
    let mut s = shared();
    let mut d = live(&mut s);
    let reply = d.decode(&AccessUnit { data: vec![], ..unit(1, false) }, at(0), &mut s);
    assert!(reply.step == DecodeStep::Done && reply.invalidate);
}

#[test]
fn nothing_is_decoded_after_a_stop() {
    assert!(released(unit(1, true), true).is_none());
    assert_eq!(released(unit(7, true), false).map(|unit| unit.session), Some(7));
}

#[test]
fn pixel_formats_are_rendered() {
    assert_eq!(fourcc_str(PIXEL_FORMAT_420F), "'420f'");
    assert_eq!(fourcc_str(0x2048_7e21), "' H~!'");
    assert_eq!(fourcc_str(0x3432_307f), "0x3432307f");
    assert_eq!(fourcc_str(32), "0x00000020");
}

fn held(ms: u64, media: i64) -> AccessUnit {
    AccessUnit { arrival: at(ms), media_ts: media * 1_000_000, ..unit(1, true) }
}

#[test]
fn playout_holds_only_while_smoothing() {
    let mut p = Playout::new();
    assert!(p.accept(held(0, 0), false, at(0)).is_some());
    p.set_smoothing(true);
    assert!(p.accept(held(0, 0), false, at(0)).is_none());
    assert_eq!(p.next_due(), Some(Moment { nanos: at(0).nanos + PLAYOUT_DELAY }));
    // A burst is spread over the media time.
    assert!(p.accept(held(1, 33), false, at(1)).is_none());
    assert!(p.take_due(at(149)).is_empty());
    assert_eq!(p.take_due(at(150)).len(), 1);
    assert_eq!(p.take_due(at(1000)).len(), 1);
    assert_eq!(p.next_due(), None);
    // Late units are not held, nor any after a stop.
    assert!(p.accept(held(1000, 1000), false, at(1200)).is_some());
    assert!(p.accept(held(1000, 1000), true, at(1000)).is_some());
}

#[test]
fn playout_lets_go_when_behind_or_switched_off() {
    let mut p = Playout::new();
    p.set_smoothing(true);
    p.accept(held(0, 0), false, at(0));
    p.accept(held(0, 5000), false, at(0));
    assert_eq!(p.take_due(at(1001)).len(), 2);
    p.accept(held(2000, 0), false, at(2000));
    p.set_smoothing(false);
    assert_eq!(p.take_due(at(2000)).len(), 1);
    p.set_smoothing(true);
    p.accept(held(3000, 0), false, at(3000));
    assert_eq!(p.pause(), 1);
    assert_eq!(p.pause(), 0);
}
