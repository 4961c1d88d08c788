//! One RTSP session of a camera: which of the received frames go to the decoder.
use std::sync::Arc;

use vstd::prelude::*;
use vstd::string::*;

use crate::clock::Moment;
use crate::control::{Control, Global};
use crate::decoder::{
    AccessUnit, DecoderEvent, UnitView, QUEUE_CAPACITY, WARMUP_QUEUE_CAPACITY,
};
use crate::nal::{self, hevc_picture, HevcPicture};
use crate::policy::{Activity, Failure, FailureKind};
use crate::round;
use crate::rtsp::{
    self, share, Codec, CodecParams, ParamsId, ParamsView, VideoInfo, FRAME_TIMEOUT,
};
use crate::shared::{SharedView, StatsView, StatusView, StreamShared, StreamStatus};
use crate::timing::{RxStats, RxView};

verus! {

/// A larger decoder queue is allowed for this long after decoding (re)starts on a keyframe.
pub const WARMUP: u64 = 3_000_000_000;

/// A stats period is never taken for shorter than this.
pub const SHORTEST_PERIOD: u64 = 1_000_000;

/// How a session ended.
#[derive(Debug)]
pub enum End {
    Stopped,
    /// Suspended or hidden long enough: disconnected on purpose.
    Paused,
    Failed { failure: Failure, streaming_since: Option<Moment> },
}

/// Whether a session failed in this way.
pub open spec fn failed_with(
    end: End,
    kind: FailureKind,
    reason: Seq<char>,
    since: Option<Moment>,
) -> bool {
    end matches End::Failed { failure, streaming_since } && failure.kind == kind
        && failure.reason@ == reason && streaming_since == since
}

/// What ends the wait for a connection.
pub enum ConnectEvent {
    /// The session plays.
    Connected,
    Refused(Failure),
    TimedOut,
    /// The camera is to be stopped.
    Stop,
    /// No camera is to be connected any more.
    Unwanted,
    /// Nobody is left to say what is wanted.
    Abandoned,
}

/// Whether `end` is how the session ends before it has started, if it does.
pub open spec fn connects(event: ConnectEvent, end: Option<End>) -> bool {
    match event {
        ConnectEvent::Connected => end is None,
        ConnectEvent::Refused(failure) => end == Some(
            End::Failed { failure, streaming_since: None },
        ),
        ConnectEvent::TimedOut => end is Some && failed_with(
            end->0,
            FailureKind::Retry,
            "Timed out while connecting"@,
            None,
        ),
        ConnectEvent::Unwanted => end == Some(End::Paused),
        _ => end == Some(End::Stopped),
    }
}

/// How the session ends before it has started, if it does.
pub fn connect_end(event: ConnectEvent) -> (res: Option<End>)
    ensures
        connects(event, res),
{
    match event {
        ConnectEvent::Connected => None,
        ConnectEvent::Refused(failure) => Some(End::Failed { failure, streaming_since: None }),
        ConnectEvent::TimedOut => Some(
            End::Failed {
                failure: rtsp::connect_timeout(),
                streaming_since: None,
            },
        ),
        ConnectEvent::Unwanted => Some(End::Paused),
        _ => Some(End::Stopped),
    }
}

/// A received video frame.
pub struct VideoFrame {
    /// Position of its stream.
    pub stream: usize,
    /// Media timestamp, in nanoseconds since the start of the session.
    pub media_ts: i64,
    /// Packets were lost right before it.
    pub lost: bool,
    /// The RTSP client found it to be decodable on its own.
    pub random_access: bool,
    /// The camera announced new parameters with it.
    pub new_parameters: bool,
    /// The stream's present parameters, where [`Session::wants_parameters`] asks for them.
    pub video: Option<VideoInfo>,
    pub data: Vec<u8>,
}

/// What to do with a received frame.
pub enum FrameStep {
    /// Nothing.
    Drop,
    /// Offer it to the decoder, unless so many units are queued there already, and tell the
    /// session with [`Session::on_sent`] whether it was taken.
    Send { unit: AccessUnit, capacity: usize },
}

/// A session that plays.
pub struct Session {
    session: u32,
    codec: Codec,
    stream: usize,
    params: Option<(Arc<CodecParams>, ParamsId)>,
    announced: u64,
    decoding: bool,
    /// Skip to the next keyframe.
    skip_until_key: bool,
    /// The skipped frames count as dropped; not for the expected skip at start and resume.
    count_skipped: bool,
    warmup_until: Moment,
    /// Skip the leading pictures of the keyframe that decoding started on.
    skip_rasl: bool,
    /// Frames were lost or dropped since the last unit that was sent.
    discontinuity: bool,
    streaming_since: Option<Moment>,
    last_frame: Moment,
    tick_at: Moment,
    published_at_tick: u64,
    rx: RxStats,
    dropped: u64,
}

/// What a [`Session`] holds.
pub struct SessionView {
    pub session: u32,
    pub codec: Codec,
    pub stream: usize,
    pub params: Option<(ParamsView, ParamsId)>,
    pub announced: u64,
    pub decoding: bool,
    pub skip_until_key: bool,
    pub count_skipped: bool,
    pub warmup_until: Moment,
    pub skip_rasl: bool,
    pub discontinuity: bool,
    pub streaming_since: Option<Moment>,
    pub last_frame: Moment,
    pub tick_at: Moment,
    pub published_at_tick: u64,
    pub rx: RxView,
    pub dropped: u64,
}

impl View for Session {
    type V = SessionView;

    closed spec fn view(&self) -> SessionView {
        SessionView {
            session: self.session,
            codec: self.codec,
            stream: self.stream,
            params: match self.params {
                Some((params, id)) => Some(((*params)@, id)),
                None => None,
            },
            announced: self.announced,
            decoding: self.decoding,
            skip_until_key: self.skip_until_key,
            count_skipped: self.count_skipped,
            warmup_until: self.warmup_until,
            skip_rasl: self.skip_rasl,
            discontinuity: self.discontinuity,
            streaming_since: self.streaming_since,
            last_frame: self.last_frame,
            tick_at: self.tick_at,
            published_at_tick: self.published_at_tick,
            rx: self.rx.state(),
            dropped: self.dropped,
        }
    }
}

/// The kind of picture in a frame. Pictures of H.264 are not told apart here.
pub open spec fn picture_in(codec: Codec, data: Seq<u8>) -> HevcPicture {
    match codec {
        Codec::H264 => HevcPicture::Other,
        Codec::H265 => nal::first_picture(nal::nal_units(data)),
    }
}

/// The parameters in `video`, if it holds some that can be decoded.
pub open spec fn usable(video: Option<VideoInfo>) -> Option<ParamsView> {
    match video {
        Some(video) => rtsp::params_of(video),
        None => None,
    }
}

/// The metrics with the picture size of `params`.
pub open spec fn sized(stats: StatsView, params: Option<ParamsView>) -> StatsView {
    match params {
        Some(params) => StatsView { width: params.width, height: params.height, ..stats },
        None => stats,
    }
}

impl SessionView {
    /// Whether a frame can be decoded without the frames before it.
    pub open spec fn is_key(self, frame: VideoFrame) -> bool {
        let picture = picture_in(self.codec, frame.data@);
        frame.random_access || picture == HevcPicture::ClosedIrap || picture == HevcPicture::Cra
    }

    /// With the parameters `params`, under a new id.
    pub open spec fn with_params(self, params: Option<ParamsView>) -> SessionView {
        match params {
            Some(params) => SessionView {
                params: Some((params, ParamsId { session: self.session, index: self.announced })),
                announced: self.announced.wrapping_add(1),
                ..self
            },
            None => self,
        }
    }

    /// The parameters to take over from a frame: where the camera announced new ones, or none
    /// are known yet.
    pub open spec fn new_params(self, frame: VideoFrame) -> Option<ParamsView> {
        if frame.new_parameters || self.params is None {
            usable(frame.video)
        } else {
            None
        }
    }

    /// After a frame of the stream came in, whatever becomes of it.
    pub open spec fn received(self, frame: VideoFrame, now: Moment) -> SessionView {
        SessionView {
            last_frame: now,
            streaming_since: Some(
                if self.streaming_since is Some {
                    self.streaming_since->0
                } else {
                    now
                },
            ),
            rx: self.rx.received(now, frame.media_ts, frame.data@.len(), frame.lost),
            ..self.with_params(self.new_params(frame))
        }
    }

    /// Whether the packets lost before a frame freeze the picture: a keyframe shows it again at
    /// once, and a frozen one stays frozen.
    pub open spec fn freezes(self, frame: VideoFrame) -> bool {
        frame.lost && !self.is_key(frame) && !self.skip_until_key
    }

    /// After the loss before a frame was noted.
    pub open spec fn noted(self, frame: VideoFrame) -> SessionView {
        SessionView {
            discontinuity: self.discontinuity || frame.lost,
            skip_until_key: self.skip_until_key || self.freezes(frame),
            count_skipped: self.count_skipped || self.freezes(frame),
            ..self
        }
    }

    /// Whether a frame whose loss was noted goes to the decoder: every one from a keyframe on,
    /// but for the leading pictures of the keyframe that decoding started on.
    pub open spec fn sends(self, frame: VideoFrame) -> bool {
        if self.skip_until_key {
            self.is_key(frame)
        } else {
            !(self.skip_rasl && picture_in(self.codec, frame.data@) == HevcPicture::Rasl)
        }
    }

    /// After the decision on a frame.
    pub open spec fn decided(self, frame: VideoFrame, now: Moment) -> SessionView {
        if !self.sends(frame) {
            SessionView {
                dropped: if self.skip_until_key && self.count_skipped {
                    one_more(self.dropped)
                } else {
                    self.dropped
                },
                ..self
            }
        } else {
            SessionView {
                skip_until_key: false,
                skip_rasl: self.skip_until_key && picture_in(self.codec, frame.data@)
                    == HevcPicture::Cra,
                warmup_until: if self.skip_until_key && !self.count_skipped {
                    now.after(WARMUP)
                } else {
                    self.warmup_until
                },
                discontinuity: false,
                ..self
            }
        }
    }

    /// Whether a received frame is looked at at all: only while decoding, with known parameters.
    pub open spec fn considers(self) -> bool {
        self.params is Some && self.decoding
    }

    /// After a frame.
    pub open spec fn after(self, frame: VideoFrame, now: Moment) -> SessionView {
        if frame.stream != self.stream {
            self
        } else {
            let received = self.received(frame, now);
            if !received.considers() {
                received
            } else {
                received.noted(frame).decided(frame, now)
            }
        }
    }

    /// Whether a frame goes to the decoder.
    pub open spec fn forwards(self, frame: VideoFrame, now: Moment) -> bool {
        let received = self.received(frame, now);
        &&& frame.stream == self.stream
        &&& received.considers()
        &&& received.noted(frame).sends(frame)
    }

    /// What goes to the decoder of a frame that does.
    pub open spec fn unit(self, frame: VideoFrame, now: Moment) -> UnitView {
        let received = self.received(frame, now);
        UnitView {
            data: frame.data@,
            params: (received.params->0).0,
            params_id: (received.params->0).1,
            key: self.is_key(frame),
            session: self.session,
            discontinuity: self.discontinuity || frame.lost,
            media_ts: frame.media_ts,
            arrival: now,
        }
    }

    /// What is shared after a frame.
    pub open spec fn shared_after<F>(
        self,
        frame: VideoFrame,
        now: Moment,
        shared: SharedView<F>,
    ) -> SharedView<F> {
        if frame.stream != self.stream {
            shared
        } else {
            let received = self.received(frame, now);
            let measured = shared.with_stats(sized(shared.stats, self.new_params(frame)));
            if received.considers() && received.freezes(frame) {
                measured.frozen()
            } else {
                measured
            }
        }
    }

    /// How many units may be queued for the decoder: more of them during the warm-up.
    pub open spec fn capacity(self, now: Moment) -> usize {
        if now.nanos < self.warmup_until.nanos {
            WARMUP_QUEUE_CAPACITY
        } else {
            QUEUE_CAPACITY
        }
    }

    /// A session that starts at `now`, before any parameters are known.
    pub open spec fn starting(
        session: u32,
        codec: Codec,
        stream: usize,
        decoding: bool,
        now: Moment,
        published: u64,
    ) -> SessionView {
        SessionView {
            session,
            codec,
            stream,
            params: None,
            announced: 0,
            decoding,
            skip_until_key: true,
            count_skipped: false,
            warmup_until: now,
            skip_rasl: false,
            discontinuity: false,
            streaming_since: None,
            last_frame: now,
            tick_at: now,
            published_at_tick: published,
            rx: RxView {
                media: Seq::empty(),
                prev: None,
                jitter: 0,
                buckets: Seq::empty(),
                bytes: 0,
            },
            dropped: 0,
        }
    }

    /// How the session ends because of the state of the application, if it does.
    pub open spec fn ends_for(self, global: Option<Global>) -> Option<End> {
        match global {
            None => Some(End::Stopped),
            Some(global) => if global.connects() {
                None
            } else {
                Some(End::Paused)
            },
        }
    }

    /// Whether the state of the application changes whether the session decodes.
    pub open spec fn switches_for(self, global: Option<Global>) -> bool {
        global is Some && self.ends_for(global) is None && (global->0.activity == Activity::Decode)
            != self.decoding
    }

    /// After the state of the application was looked at.
    pub open spec fn following(self, global: Option<Global>) -> SessionView {
        if !self.switches_for(global) {
            self
        } else if self.decoding {
            SessionView { decoding: false, ..self }
        } else {
            SessionView { decoding: true, skip_until_key: true, count_skipped: false, ..self }
        }
    }

    /// What is shared after the state of the application was looked at.
    pub open spec fn shared_following<F>(
        self,
        global: Option<Global>,
        shared: SharedView<F>,
    ) -> SharedView<F> {
        if !self.switches_for(global) {
            shared
        } else if self.decoding {
            shared.with_status(StatusView::Paused)
        } else {
            shared.with_status(StatusView::WaitingKeyframe)
        }
    }

    /// The length of the stats period that ends at `now`, in nanoseconds.
    pub open spec fn period(self, now: Moment) -> nat {
        let elapsed = now.elapsed_since(self.tick_at);
        if elapsed < SHORTEST_PERIOD {
            SHORTEST_PERIOD as nat
        } else {
            elapsed
        }
    }

    /// After the stats period that ends at `now` was closed, when `published` frames were shown.
    pub open spec fn ticked(self, now: Moment, published: u64) -> SessionView {
        let buckets = crate::timing::pushed(
            self.rx.buckets,
            (self.rx.bytes, self.period(now) as u64),
            crate::timing::KBPS_BUCKETS as nat,
        );
        SessionView {
            tick_at: now,
            published_at_tick: published,
            rx: RxView { buckets, bytes: 0, ..self.rx },
            dropped: 0,
            ..self
        }
    }

    /// What is shared after the stats period that ends at `now` was closed.
    pub open spec fn shared_ticked<F>(self, now: Moment, shared: SharedView<F>) -> SharedView<F> {
        let shown = shared.frames_published.wrapping_sub(self.published_at_tick);
        let next = self.ticked(now, shared.frames_published);
        shared.with_fps(
            round::clamp_u32(round::half_up(shown as nat * 100_000_000_000, self.period(now))),
        ).with_stats(
            StatsView {
                kbps: crate::timing::kbps_of(next.rx.buckets),
                camera_fps: self.rx.rate(),
                jitter_ms: self.rx.jitter_ms(),
                dropped_frames: crate::timing::capped_sum(
                    shared.stats.dropped_frames,
                    self.dropped as int,
                ),
                ..shared.stats
            },
        )
    }

    /// How the session ends for a command, if it does.
    pub open spec fn commanded(self, control: Option<Control>) -> Option<End> {
        if control is None || control->0.stop {
            Some(End::Stopped)
        } else {
            None
        }
    }

    /// Whether `end` is how the session ends for what the decoder says, if it does.
    pub open spec fn heeds(self, event: DecoderEvent, end: Option<End>) -> bool {
        match event {
            DecoderEvent::Failed { session, reason } => if session == self.session {
                end is Some && failed_with(
                    end->0,
                    FailureKind::Retry,
                    reason@,
                    self.streaming_since,
                )
            } else {
                end is None
            },
            DecoderEvent::Fatal { session, reason } => if session == self.session {
                end is Some && failed_with(
                    end->0,
                    FailureKind::Fatal,
                    reason@,
                    self.streaming_since,
                )
            } else {
                end is None
            },
        }
    }

    /// Whether `end` is how the session ends when it breaks off for a reason.
    pub open spec fn breaks_off(self, end: End, reason: Seq<char>) -> bool {
        failed_with(end, FailureKind::Retry, reason, self.streaming_since)
    }

    /// How the session ends when it fails.
    pub open spec fn failing(self, failure: Failure) -> End {
        End::Failed { failure, streaming_since: self.streaming_since }
    }

    /// Whether the parameters of the stream are wanted with a frame.
    pub open spec fn wants(self, new_parameters: bool) -> bool {
        new_parameters || self.params is None
    }

    /// After the decoder refused a unit.
    pub open spec fn refused(self) -> SessionView {
        SessionView {
            dropped: one_more(self.dropped),
            skip_until_key: true,
            count_skipped: true,
            discontinuity: true,
            ..self
        }
    }
}

/// The next number, or the last one of 64 bits.
pub open spec fn one_more(n: u64) -> u64 {
    if n < u64::MAX {
        (n + 1) as u64
    } else {
        n
    }
}

/// The parameters in `video`, if it holds some that can be decoded.
fn read_params(video: &Option<VideoInfo>) -> (res: Option<CodecParams>)
    ensures
        match usable(*video) {
            Some(params) => res is Some && (res->0)@ == params,
            None => res is None,
        },
{
    match video {
        Some(video) => CodecParams::from_video(video),
        None => None,
    }
}

impl Session {
    /// The statistics are in order.
    pub closed spec fn wf(self) -> bool {
        self.rx.wf()
    }

    /// A session that starts to play at `now`, and whether the decoder is to be paused.
    pub fn start<F>(
        session: u32,
        codec: Codec,
        stream: usize,
        video: Option<VideoInfo>,
        global: Global,
        now: Moment,
        shared: &mut StreamShared<F>,
    ) -> (res: (Session, bool))
        ensures
            res.0.wf(),
            res.0@ == SessionView::starting(
                session,
                codec,
                stream,
                global.activity == Activity::Decode,
                now,
                old(shared)@.frames_published,
            ).with_params(usable(video)),
            res.1 == (global.activity != Activity::Decode),
            ({
                let measured = old(shared)@.with_stats(
                    sized(
                        StatsView { codec: codec.name(), ..old(shared)@.stats },
                        usable(video),
                    ),
                );
                final(shared)@ == if res.1 {
                    measured.with_status(StatusView::Paused)
                } else {
                    measured
                }
            }),
    {
        let ghost before = shared@;
        {
            let stats = shared.update_stats();
            stats.codec = codec.label().to_owned();
        }
        assert(shared@ == before.with_stats(StatsView { codec: codec.name(), ..before.stats }));
        let decoding: bool = global.activity == Activity::Decode;
        let mut res = Session {
            session,
            codec,
            stream,
            params: None,
            announced: 0,
            decoding,
            skip_until_key: true,
            count_skipped: false,
            warmup_until: now,
            skip_rasl: false,
            discontinuity: false,
            streaming_since: None,
            last_frame: now,
            tick_at: now,
            published_at_tick: shared.frames_published(),
            rx: RxStats::new(),
            dropped: 0,
        };
        if let Some(params) = read_params(&video) {
            res.take_params(params, shared);
        }
        if !decoding {
            shared.set_status(StreamStatus::Paused);
        }
        (res, !decoding)
    }

    /// Takes over `params`.
    fn take_params<F>(&mut self, params: CodecParams, shared: &mut StreamShared<F>)
        ensures
            final(self)@ == old(self)@.with_params(Some(params@)),
            final(self).wf() == old(self).wf(),
            final(shared)@ == old(shared)@.with_stats(sized(old(shared)@.stats, Some(params@))),
    {
        {
            let stats = shared.update_stats();
            stats.width = params.width;
            stats.height = params.height;
        }
        let id = ParamsId { session: self.session, index: self.announced };
        self.announced = self.announced.wrapping_add(1);
        self.params = Some((Arc::new(params), id));
    }

    /// Follows the commands for the camera; none when nobody is left to give them.
    pub fn on_control(&self, control: Option<Control>) -> (res: Option<End>)
        ensures
            res == self@.commanded(control),
    {
        match control {
            Some(control) if !control.stop => None,
            _ => Some(End::Stopped),
        }
    }

    /// Follows the state of the application; none when nobody is left to change it. How the
    /// session ends, if it does, and whether the decoder is to be paused.
    pub fn on_global<F>(
        &mut self,
        global: Option<Global>,
        shared: &mut StreamShared<F>,
    ) -> (res: (Option<End>, bool))
        ensures
            final(self).wf() == old(self).wf(),
            res.0 == old(self)@.ends_for(global),
            res.1 == (old(self)@.switches_for(global) && old(self)@.decoding),
            final(self)@ == old(self)@.following(global),
            final(shared)@ == old(self)@.shared_following(global, old(shared)@),
    {
        let global = match global {
            Some(global) => global,
            None => {
                return (Some(End::Stopped), false);
            },
        };
        if !global.wants_connection() {
            return (Some(End::Paused), false);
        }
        let decode: bool = global.activity == Activity::Decode;
        if decode == self.decoding {
            return (None, false);
        }
        self.decoding = decode;
        if decode {
            self.skip_until_key = true;
            self.count_skipped = false;
            shared.set_status(StreamStatus::WaitingKeyframe);
        } else {
            shared.set_status(StreamStatus::Paused);
        }
        (None, !decode)
    }

    /// Follows the decoder. What it says of other sessions is ignored.
    pub fn on_event(&self, event: DecoderEvent) -> (res: Option<End>)
        ensures
            self@.heeds(event, res),
    {
        match event {
            DecoderEvent::Failed { session, reason } if session == self.session => Some(
                End::Failed {
                    failure: Failure { kind: FailureKind::Retry, reason },
                    streaming_since: self.streaming_since,
                },
            ),
            DecoderEvent::Fatal { session, reason } if session == self.session => Some(
                End::Failed {
                    failure: Failure { kind: FailureKind::Fatal, reason },
                    streaming_since: self.streaming_since,
                },
            ),
            _ => None,
        }
    }

    /// Closes a stats period at `now`.
    pub fn on_tick<F>(&mut self, now: Moment, shared: &mut StreamShared<F>)
        requires
            old(self).wf(),
        ensures
            final(self).wf(),
            final(self)@ == old(self)@.ticked(now, old(shared)@.frames_published),
            final(shared)@ == old(self)@.shared_ticked(now, old(shared)@),
    {
        let elapsed: u64 = now.since(self.tick_at);
        let nanos: u64 = if elapsed < SHORTEST_PERIOD {
            SHORTEST_PERIOD
        } else {
            elapsed
        };
        let published: u64 = shared.frames_published();
        let shown: u64 = published.wrapping_sub(self.published_at_tick);
        shared.set_fps(round::ratio_u32(shown as u128 * 100_000_000_000, nanos as u128));
        let kbps: u32 = self.rx.tick(nanos);
        let camera_fps: u128 = self.rx.camera_fps();
        let jitter_ms: u128 = self.rx.jitter_ms();
        {
            let stats = shared.update_stats();
            stats.kbps = kbps;
            stats.camera_fps = camera_fps;
            stats.jitter_ms = jitter_ms;
            stats.dropped_frames = stats.dropped_frames.saturating_add(self.dropped);
        }
        self.dropped = 0;
        self.tick_at = now;
        self.published_at_tick = published;
    }

    /// When the session fails unless a frame has come by then.
    pub fn deadline(&self) -> (res: Moment)
        ensures
            res == self@.last_frame.after(FRAME_TIMEOUT),
            self@.last_frame.nanos + 10_000_000_000 <= u64::MAX ==> res.nanos
                == self@.last_frame.nanos + 10_000_000_000,
    {
        self.last_frame.plus(FRAME_TIMEOUT)
    }

    /// The session ended because no frame came in time.
    pub fn on_timeout(&self) -> (res: End)
        ensures
            self@.breaks_off(res, "No video for 10 s"@),
    {
        End::Failed {
            failure: Failure::retry("No video for 10 s"),
            streaming_since: self.streaming_since,
        }
    }

    /// The session ended because the camera ended it.
    pub fn on_end(&self) -> (res: End)
        ensures
            self@.breaks_off(res, "Camera ended the stream"@),
    {
        End::Failed {
            failure: Failure::retry("Camera ended the stream"),
            streaming_since: self.streaming_since,
        }
    }

    /// The session ended because it failed.
    pub fn on_failure(&self, failure: Failure) -> (res: End)
        ensures
            res == self@.failing(failure),
    {
        End::Failed { failure, streaming_since: self.streaming_since }
    }

    /// Whether the parameters of the stream are wanted with a frame.
    pub fn wants_parameters(&self, new_parameters: bool) -> (res: bool)
        ensures
            res == self@.wants(new_parameters),
    {
        new_parameters || self.params.is_none()
    }

    /// Takes in a frame that came at `now`.
    pub fn on_frame<F>(
        &mut self,
        frame: VideoFrame,
        now: Moment,
        shared: &mut StreamShared<F>,
    ) -> (res: FrameStep)
        requires
            old(self).wf(),
        ensures
            final(self).wf(),
            final(self)@ == old(self)@.after(frame, now),
            final(shared)@ == old(self)@.shared_after(frame, now, old(shared)@),
            match res {
                FrameStep::Send { unit, capacity } => {
                    &&& old(self)@.forwards(frame, now)
                    &&& unit@ == old(self)@.unit(frame, now)
                    &&& capacity == final(self)@.capacity(now)
                },
                FrameStep::Drop => !old(self)@.forwards(frame, now),
            },
    {
        let ghost before = self@;
        if frame.stream != self.stream {
            return FrameStep::Drop;
        }
        self.last_frame = now;
        if self.streaming_since.is_none() {
            self.streaming_since = Some(now);
        }
        self.rx.on_frame(now, frame.media_ts, frame.data.len(), frame.lost);
        if frame.new_parameters || self.params.is_none() {
            if let Some(params) = read_params(&frame.video) {
                self.take_params(params, shared);
            }
        }
        let ghost received = before.received(frame, now);
        assert(self@ == received);
        let (params, params_id) = match &self.params {
            Some((params, id)) => (share(params), *id),
            None => {
                return FrameStep::Drop;
            },
        };
        if !self.decoding {
            return FrameStep::Drop;
        }
        let picture = match self.codec {
            Codec::H264 => HevcPicture::Other,
            Codec::H265 => hevc_picture(frame.data.as_slice()),
        };
        let key: bool = frame.random_access || picture == HevcPicture::ClosedIrap || picture
            == HevcPicture::Cra;
        assert(key == received.is_key(frame));
        if frame.lost {
            self.discontinuity = true;
            if !key && !self.skip_until_key {
                self.skip_until_key = true;
                self.count_skipped = true;
                shared.freeze();
            }
        }
        let ghost noted = received.noted(frame);
        assert(self@ == noted);
        if self.skip_until_key {
            if !key {
                if self.count_skipped {
                    self.dropped = self.dropped.saturating_add(1);
                }
                return FrameStep::Drop;
            }
            self.skip_until_key = false;
            // Leading pictures of a CRA that decoding starts on reference frames it never had.
            self.skip_rasl = picture == HevcPicture::Cra;
            if !self.count_skipped {
                self.warmup_until = now.plus(WARMUP);
            }
        } else if self.skip_rasl {
            if picture == HevcPicture::Rasl {
                return FrameStep::Drop;
            }
            self.skip_rasl = false;
        }
        let capacity: usize = if now.nanos < self.warmup_until.nanos {
            WARMUP_QUEUE_CAPACITY
        } else {
            QUEUE_CAPACITY
        };
        let discontinuity = self.discontinuity;
        self.discontinuity = false;
        FrameStep::Send {
            unit: AccessUnit {
                data: frame.data,
                params,
                params_id,
                key,
                session: self.session,
                discontinuity,
                media_ts: frame.media_ts,
                arrival: now,
            },
            capacity,
        }
    }

    /// Whether the decoder took the unit that was offered to it.
    pub fn on_sent<F>(&mut self, taken: bool, shared: &mut StreamShared<F>)
        ensures
            final(self).wf() == old(self).wf(),
            taken ==> final(self)@ == old(self)@ && final(shared)@ == old(shared)@,
            !taken ==> final(self)@ == old(self)@.refused() && final(shared)@
                == old(shared)@.frozen(),
    {
        if !taken {
            self.dropped = self.dropped.saturating_add(1);
            self.skip_until_key = true;
            self.count_skipped = true;
            self.discontinuity = true;
            shared.freeze();
        }
    }
}

/// Nothing but a keyframe goes to the decoder after the start, a resume, a refused unit or lost
/// packets; until one comes, the session keeps waiting for it.
pub proof fn lemma_resumes_on_keyframe(session: SessionView, frame: VideoFrame, now: Moment)
    requires
        session.skip_until_key || frame.lost,
    ensures
        session.forwards(frame, now) ==> session.unit(frame, now).key,
        frame.stream == session.stream && session.received(frame, now).considers()
            && !session.is_key(frame) ==> session.after(frame, now).skip_until_key,
        session.received(frame, now).considers() && session.skip_until_key && session.is_key(frame)
            && frame.stream == session.stream ==> session.forwards(frame, now),
{
}

/// The first unit after a gap says so: the gap is remembered over every frame that is not sent,
/// and told with the first one that is.
pub proof fn lemma_gap_is_told_once(session: SessionView, frame: VideoFrame, now: Moment)
    ensures
        session.discontinuity && session.forwards(frame, now) ==> session.unit(
            frame,
            now,
        ).discontinuity && !session.after(frame, now).discontinuity,
        session.discontinuity && !session.forwards(frame, now) ==> session.after(
            frame,
            now,
        ).discontinuity,
        session.refused().discontinuity && session.refused().skip_until_key,
{
}

/// The leading pictures of an open keyframe that decoding started on never go to the decoder.
pub proof fn lemma_leading_pictures_are_skipped(
    session: SessionView,
    frame: VideoFrame,
    now: Moment,
)
    requires
        session.skip_rasl,
        !frame.random_access,
        picture_in(session.codec, frame.data@) == HevcPicture::Rasl,
    ensures
        !session.forwards(frame, now),
        session.after(frame, now).skip_rasl,
{
}

/// The skip at the start and after a resume is expected: its frames do not count as dropped.
pub proof fn lemma_expected_skip_is_not_counted(
    session: SessionView,
    frame: VideoFrame,
    now: Moment,
)
    requires
        session.skip_until_key,
        !session.count_skipped,
    ensures
        session.after(frame, now).dropped == session.dropped,
{
}

/// Parameters that the camera announces one after the other have different ids.
pub proof fn lemma_announced_ids_differ(session: SessionView, a: ParamsView, b: ParamsView)
    ensures
        (session.with_params(Some(a)).params->0).1 != (session.with_params(Some(a)).with_params(
            Some(b),
        ).params->0).1,
{
}

/// A frame that can be decoded on its own always goes to the decoder, as a keyframe, and ends
/// any wait for one. Of H.264 these are the frames that the RTSP client marks; of H.265 also
/// those whose first picture is an open or a closed keyframe. (A marked leading picture of the
/// keyframe that decoding started on is left aside.)
pub proof fn lemma_keyframes_are_sent(session: SessionView, frame: VideoFrame, now: Moment)
    requires
        frame.stream == session.stream,
        session.decoding,
        session.params is Some,
        ({
            let picture = nal::first_picture(nal::nal_units(frame.data@));
            ||| session.codec == Codec::H264 && frame.random_access
            ||| session.codec == Codec::H265 && picture == HevcPicture::ClosedIrap
            ||| session.codec == Codec::H265 && picture == HevcPicture::Cra
            ||| session.codec == Codec::H265 && frame.random_access && picture != HevcPicture::Rasl
            ||| frame.random_access && (session.skip_until_key || !session.skip_rasl)
        }),
    ensures
        session.forwards(frame, now),
        session.unit(frame, now).key,
        !session.after(frame, now).skip_until_key,
{
}

/// What goes to the decoder is called a keyframe exactly where it is one: of H.264 where the RTSP
/// client marks the frame, of H.265 also where its first picture is an open or a closed keyframe.
pub proof fn lemma_only_keyframes_are_called_so(
    session: SessionView,
    frame: VideoFrame,
    now: Moment,
)
    ensures
        session.codec == Codec::H264 ==> session.unit(frame, now).key == frame.random_access,
        session.codec == Codec::H265 ==> session.unit(frame, now).key == (frame.random_access
            || nal::first_picture(nal::nal_units(frame.data@)) == HevcPicture::ClosedIrap
            || nal::first_picture(nal::nal_units(frame.data@)) == HevcPicture::Cra),
{
}

/// The data of H.264 frames is never looked into: what is sent, and what follows, depends on the
/// RTSP client's mark alone.
pub proof fn lemma_h264_data_is_opaque(
    session: SessionView,
    a: VideoFrame,
    b: VideoFrame,
    now: Moment,
)
    requires
        session.codec == Codec::H264,
        a.stream == b.stream,
        a.lost == b.lost,
        a.random_access == b.random_access,
        a.new_parameters == b.new_parameters,
        a.video == b.video,
    ensures
        session.forwards(a, now) == session.forwards(b, now),
        session.after(a, now).skip_until_key == session.after(b, now).skip_until_key,
        session.after(a, now).skip_rasl == session.after(b, now).skip_rasl,
{
}

/// While the picture runs, every frame of the stream goes to the decoder as it came, but for the
/// leading pictures of the open keyframe that decoding started on. Nothing is waited for, nothing
/// is counted as dropped, and the tile goes on showing what it shows.
pub proof fn lemma_running_stream_is_passed_on<F>(
    session: SessionView,
    frame: VideoFrame,
    now: Moment,
    shared: SharedView<F>,
)
    requires
        frame.stream == session.stream,
        session.decoding,
        session.params is Some,
        !session.skip_until_key,
        !frame.lost,
        session.codec == Codec::H265 && session.skip_rasl ==> nal::first_picture(
            nal::nal_units(frame.data@),
        ) != HevcPicture::Rasl,
    ensures
        session.forwards(frame, now),
        session.unit(frame, now).data == frame.data@,
        session.unit(frame, now).media_ts == frame.media_ts,
        session.unit(frame, now).arrival == now,
        session.unit(frame, now).session == session.session,
        session.unit(frame, now).discontinuity == session.discontinuity,
        !session.after(frame, now).skip_until_key,
        !session.after(frame, now).skip_rasl,
        session.after(frame, now).dropped == session.dropped,
        session.after(frame, now).warmup_until == session.warmup_until,
        session.shared_after(frame, now, shared).status == shared.status,
        session.shared_after(frame, now, shared).frame == shared.frame,
{
}

/// Packets lost before a frame that needs the frames before it: the frame is not sent and counts
/// as dropped, a running picture freezes, and from then on only a keyframe is sent, which tells of
/// the gap.
pub proof fn lemma_loss_freezes_the_picture<F>(
    session: SessionView,
    frame: VideoFrame,
    now: Moment,
    shared: SharedView<F>,
)
    requires
        frame.stream == session.stream,
        session.decoding,
        session.params is Some,
        !session.skip_until_key,
        session.dropped < u64::MAX,
        frame.lost,
        !frame.random_access,
        session.codec == Codec::H265 ==> {
            let picture = nal::first_picture(nal::nal_units(frame.data@));
            picture != HevcPicture::ClosedIrap && picture != HevcPicture::Cra
        },
    ensures
        !session.forwards(frame, now),
        session.after(frame, now).skip_until_key,
        session.after(frame, now).count_skipped,
        session.after(frame, now).discontinuity,
        session.after(frame, now).dropped == session.dropped + 1,
        session.shared_after(frame, now, shared).status == (if shared.status is Live {
            StatusView::WaitingKeyframe
        } else {
            shared.status
        }),
{
}

/// Packets lost before a keyframe do not freeze the picture: the keyframe is sent, tells of the
/// gap, and nothing counts as dropped.
pub proof fn lemma_keyframe_heals_loss<F>(
    session: SessionView,
    frame: VideoFrame,
    now: Moment,
    shared: SharedView<F>,
)
    requires
        frame.stream == session.stream,
        session.decoding,
        session.params is Some,
        frame.lost,
        frame.random_access,
        session.codec == Codec::H264 || session.skip_until_key || !session.skip_rasl,
    ensures
        session.forwards(frame, now),
        session.unit(frame, now).key,
        session.unit(frame, now).discontinuity,
        !session.after(frame, now).discontinuity,
        !session.after(frame, now).skip_until_key,
        session.after(frame, now).dropped == session.dropped,
        session.shared_after(frame, now, shared).status == shared.status,
{
}

/// After a loss, each frame that is passed over on the way to the next keyframe counts as dropped,
/// and the gap is still told.
pub proof fn lemma_skipped_frames_are_counted(
    session: SessionView,
    frame: VideoFrame,
    now: Moment,
)
    requires
        frame.stream == session.stream,
        session.decoding,
        session.params is Some,
        session.skip_until_key,
        session.count_skipped,
        session.dropped < u64::MAX,
        !frame.random_access,
        session.codec == Codec::H265 ==> {
            let picture = nal::first_picture(nal::nal_units(frame.data@));
            picture != HevcPicture::ClosedIrap && picture != HevcPicture::Cra
        },
    ensures
        !session.forwards(frame, now),
        session.after(frame, now).skip_until_key,
        session.after(frame, now).dropped == session.dropped + 1,
        session.after(frame, now).discontinuity == (session.discontinuity || frame.lost),
{
}

/// The leading pictures are skipped for as long as they follow the open keyframe that decoding
/// started on, and no longer: the first other picture ends it, and an open keyframe that decoding
/// did not start on has its leading pictures sent.
pub proof fn lemma_leading_pictures_follow_the_start(
    session: SessionView,
    frame: VideoFrame,
    now: Moment,
)
    requires
        frame.stream == session.stream,
        session.codec == Codec::H265,
        session.decoding,
        session.params is Some,
        !frame.lost,
    ensures
        ({
            let picture = nal::first_picture(nal::nal_units(frame.data@));
            let after = session.after(frame, now);
            &&& session.skip_until_key && picture == HevcPicture::Cra ==> after.skip_rasl
            &&& session.skip_until_key && picture == HevcPicture::ClosedIrap ==> !after.skip_rasl
            &&& !session.skip_until_key && picture != HevcPicture::Rasl ==> !after.skip_rasl
            &&& !session.skip_until_key && !session.skip_rasl ==> session.forwards(frame, now)
                && !after.skip_rasl
            &&& !session.skip_until_key && session.skip_rasl && picture == HevcPicture::Rasl
                ==> !session.forwards(frame, now) && after.skip_rasl && after.dropped
                == session.dropped
        }),
{
}

/// The queue of the decoder is larger for three seconds after a start or a resume, and only then:
/// a keyframe that ends the wait after a loss does not start a warm-up.
pub proof fn lemma_warmup_follows_the_start(
    session: SessionView,
    frame: VideoFrame,
    now: Moment,
    later: Moment,
)
    requires
        frame.stream == session.stream,
        session.decoding,
        session.params is Some,
        session.skip_until_key,
        frame.random_access,
        now.nanos <= later.nanos,
        now.nanos + 3_000_000_000 <= u64::MAX,
    ensures
        !session.count_skipped ==> session.after(frame, now).capacity(later) == (if later.nanos
            - now.nanos < 3_000_000_000 {
            90usize
        } else {
            60usize
        }),
        session.count_skipped ==> session.after(frame, now).capacity(later) == session.capacity(
            later,
        ),
        later.nanos >= session.warmup_until.nanos ==> session.capacity(later) == 60,
{
}

/// Frames of other streams do nothing at all. Those of the played one show that the camera
/// streams, whatever becomes of them: since the first one, and up to now.
pub proof fn lemma_frames_keep_the_session_alive<F>(
    session: SessionView,
    frame: VideoFrame,
    now: Moment,
    shared: SharedView<F>,
)
    ensures
        frame.stream != session.stream ==> session.after(frame, now) == session
            && session.shared_after(frame, now, shared) == shared && !session.forwards(frame, now),
        frame.stream == session.stream ==> session.after(frame, now).last_frame == now,
        frame.stream == session.stream ==> session.after(frame, now).rx == session.rx.received(
            now,
            frame.media_ts,
            frame.data@.len(),
            frame.lost,
        ),
        frame.stream == session.stream && session.streaming_since is None ==> session.after(
            frame,
            now,
        ).streaming_since == Some(now),
        session.streaming_since is Some ==> session.after(frame, now).streaming_since
            == session.streaming_since,
{
}

/// Nothing is sent, dropped or shown while the window is hidden or no parameters are known.
pub proof fn lemma_nothing_is_sent_unprepared<F>(
    session: SessionView,
    frame: VideoFrame,
    now: Moment,
    shared: SharedView<F>,
)
    requires
        !session.decoding || (session.params is None && frame.video is None),
    ensures
        !session.forwards(frame, now),
        session.after(frame, now).dropped == session.dropped,
        session.after(frame, now).skip_until_key == session.skip_until_key,
        session.after(frame, now).discontinuity == session.discontinuity,
        session.shared_after(frame, now, shared).status == shared.status,
{
}

/// New parameters are taken over where the camera announces them, or where there are none yet;
/// the picture size that is shown follows them, and the unit goes with them. Without an
/// announcement the known ones stay.
pub proof fn lemma_announced_parameters_are_taken<F>(
    session: SessionView,
    frame: VideoFrame,
    now: Moment,
    shared: SharedView<F>,
    params: ParamsView,
)
    requires
        frame.stream == session.stream,
        frame.video is Some,
        rtsp::params_of(frame.video->0) == Some(params),
    ensures
        frame.new_parameters || session.params is None ==> {
            &&& (session.after(frame, now).params->0).0 == params
            &&& session.unit(frame, now).params == params
            &&& session.shared_after(frame, now, shared).stats.width == params.width
            &&& session.shared_after(frame, now, shared).stats.height == params.height
        },
        !frame.new_parameters && session.params is Some ==> session.after(frame, now).params
            == session.params && session.shared_after(frame, now, shared).stats == shared.stats,
{
}

/// A unit that the decoder has no room for counts as dropped, freezes a running picture, and makes
/// the session wait for a keyframe that tells of the gap.
pub proof fn lemma_full_queue_waits_for_keyframe<F>(session: SessionView, shared: SharedView<F>)
    requires
        session.dropped < u64::MAX,
    ensures
        session.refused().dropped == session.dropped + 1,
        session.refused().skip_until_key,
        session.refused().count_skipped,
        session.refused().discontinuity,
        session.refused().warmup_until == session.warmup_until,
        shared.status is Live ==> shared.frozen().status == StatusView::WaitingKeyframe,
        !(shared.status is Live) ==> shared.frozen() == shared,
{
}

/// A session waits for its first keyframe before anything is sent, without counting what it
/// passes over, and tells of no gap with it.
pub proof fn lemma_session_starts_on_a_keyframe(
    number: u32,
    codec: Codec,
    stream: usize,
    decoding: bool,
    start: Moment,
    published: u64,
    params: ParamsView,
    frame: VideoFrame,
    now: Moment,
)
    requires
        frame.stream == stream,
        !frame.lost,
    ensures
        ({
            let session = SessionView::starting(number, codec, stream, decoding, start, published)
                .with_params(Some(params));
            &&& frame.random_access && decoding ==> session.forwards(frame, now) && session.unit(
                frame,
                now,
            ).key && !session.unit(frame, now).discontinuity && session.unit(frame, now).session
                == number
            &&& codec == Codec::H264 && !frame.random_access ==> !session.forwards(frame, now)
            &&& session.after(frame, now).dropped == 0
            &&& session.streaming_since is None
            &&& session.last_frame == start
            &&& session.tick_at == start
            &&& session.published_at_tick == published
        }),
{
}

/// The window hides: the session stays and stops to decode, and the tile says so. The window
/// shows again: it waits for a keyframe, without counting what it passes over. Sleep and a long
/// hide end the session on purpose, and so does the end of the application.
pub proof fn lemma_session_follows_the_window<F>(
    session: SessionView,
    global: Global,
    shared: SharedView<F>,
)
    ensures
        session.ends_for(None) == Some(End::Stopped),
        session.ends_for(Some(global)) == (if global.suspended || global.activity
            == Activity::Disconnect {
            Some(End::Paused)
        } else {
            None
        }),
        !global.suspended && global.activity == Activity::Discard && session.decoding ==> {
            &&& !session.following(Some(global)).decoding
            &&& session.switches_for(Some(global))
            &&& session.shared_following(Some(global), shared).status == StatusView::Paused
        },
        !global.suspended && global.activity == Activity::Decode && !session.decoding ==> {
            let shown = session.following(Some(global));
            &&& shown.decoding
            &&& shown.skip_until_key
            &&& !shown.count_skipped
            &&& shown.streaming_since == session.streaming_since
            &&& session.shared_following(Some(global), shared).status
                == StatusView::WaitingKeyframe
        },
        !global.suspended && (global.activity == Activity::Decode) == session.decoding ==> {
            &&& session.following(Some(global)) == session
            &&& session.shared_following(Some(global), shared) == shared
        },
{
}

/// A stats period counts the frames that were shown in it, in hundredths a second to the nearest
/// one, adds the frames that were dropped in it, and looks at the bytes of the last five periods.
/// Nothing is counted twice.
pub proof fn lemma_tick_measures_the_period<F>(
    session: SessionView,
    now: Moment,
    shared: SharedView<F>,
    shown: u64,
)
    requires
        now.nanos - session.tick_at.nanos >= 1_000_000,
        shared.frames_published == session.published_at_tick + shown,
        shared.stats.dropped_frames + session.dropped <= u64::MAX,
        shown * 100_000_000_000 < 0xffff_ffff * (now.nanos - session.tick_at.nanos),
        session.rx.buckets.len() <= 5,
    ensures
        ({
            let time = now.nanos - session.tick_at.nanos;
            let next = session.ticked(now, shared.frames_published);
            let told = session.shared_ticked(now, shared);
            &&& -time < 2 * (told.fps_x100 * time - shown * 100_000_000_000) <= time
            &&& told.stats.dropped_frames == shared.stats.dropped_frames + session.dropped
            &&& told.stats.camera_fps == session.rx.rate()
            &&& told.stats.jitter_ms == session.rx.jitter_ms()
            &&& told.stats.kbps == crate::timing::kbps_of(next.rx.buckets)
            &&& next.rx.buckets.last() == (session.rx.bytes, time as u64)
            &&& next.rx.buckets.len() == if session.rx.buckets.len() < 5 {
                session.rx.buckets.len() + 1
            } else {
                5
            }
            &&& next.rx.bytes == 0
            &&& next.dropped == 0
            &&& next.tick_at == now
            &&& next.published_at_tick == shared.frames_published
            &&& told.status == shared.status
            &&& told.stats.reconnects == shared.stats.reconnects
        }),
{
    let time = (now.nanos - session.tick_at.nanos) as nat;
    let n = shown as nat * 100_000_000_000;
    round::lemma_rounded_quotient_is_near(n, time);
    assert(n / time < 0xffff_ffff) by (nonlinear_arith)
        requires
            n < 0xffff_ffff * time,
            time > 0,
    ;
}

/// A session is stopped by a command to stop, or when nobody is left to give one, and by no other
/// command. It ends for its own decoder's failures alone: one that is worth a retry, or one for good.
/// Whatever breaks it off, its end tells since when it streamed.
pub proof fn lemma_how_a_session_ends(
    session: SessionView,
    control: Control,
    event: DecoderEvent,
    end: Option<End>,
    reason: Seq<char>,
    failure: Failure,
)
    requires
        session.heeds(event, end),
    ensures
        session.commanded(None) == Some(End::Stopped),
        control.stop ==> session.commanded(Some(control)) == Some(End::Stopped),
        !control.stop ==> session.commanded(Some(control)) is None,
        event is Failed && event->Failed_session == session.session ==> end is Some && end->0
            is Failed && end->0->failure.kind == FailureKind::Retry && end->0->failure.reason@
            == event->Failed_reason@ && end->0->streaming_since == session.streaming_since,
        event is Fatal && event->Fatal_session == session.session ==> end is Some && end->0
            is Failed && end->0->failure.kind == FailureKind::Fatal && end->0->failure.reason@
            == event->Fatal_reason@ && end->0->streaming_since == session.streaming_since,
        event is Failed && event->Failed_session != session.session ==> end is None,
        event is Fatal && event->Fatal_session != session.session ==> end is None,
        end is Some && session.breaks_off(end->0, reason) ==> end->0 is Failed
            && end->0->failure.kind == FailureKind::Retry && end->0->failure.reason@ == reason
            && end->0->streaming_since == session.streaming_since,
        session.failing(failure) is Failed,
        session.failing(failure)->failure == failure,
        session.failing(failure)->streaming_since == session.streaming_since,
{
}

/// A session that was never connected never streamed, whatever kept it from it. A refusal is told as
/// it is, and waiting for too long is worth a retry.
pub proof fn lemma_how_a_connection_fails(event: ConnectEvent, end: Option<End>)
    requires
        connects(event, end),
    ensures
        end is None <==> event is Connected,
        event is Refused ==> end->0 is Failed && end->0->failure == event->Refused_0,
        event is TimedOut ==> end->0 is Failed && end->0->failure.kind == FailureKind::Retry,
        event is Stop || event is Abandoned ==> end == Some(End::Stopped),
        event is Unwanted ==> end == Some(End::Paused),
        end is Some && end->0 is Failed ==> end->0->streaming_since is None,
{
}

/// Parameters are asked for when the camera announced new ones, and until there are any.
pub proof fn lemma_when_parameters_are_asked_for(session: SessionView)
    ensures
        session.wants(true),
        session.params is None ==> session.wants(false),
        session.params is Some ==> !session.wants(false),
{
}

/// A refused unit counts as one dropped frame, as far as they can be counted.
pub proof fn lemma_refused_unit_is_counted(session: SessionView)
    ensures
        session.dropped < 0xffff_ffff_ffff_ffff ==> session.refused().dropped == session.dropped + 1,
        session.dropped == 0xffff_ffff_ffff_ffff ==> session.refused().dropped == session.dropped,
        session.refused().skip_until_key,
        session.refused().count_skipped,
        session.refused().discontinuity,
        session.refused().params == session.params,
        session.refused().streaming_since == session.streaming_since,
        session.refused().last_frame == session.last_frame,
{
}

}
