//! What a camera's pipeline shares with its tile: the latest frame, the status and the metrics.
use vstd::prelude::*;
use vstd::string::*;

use crate::camera::CameraId;
use crate::clock::Moment;

verus! {

/// Connection state of one camera, as shown in its mosaic tile.
#[derive(Debug)]
pub enum StreamStatus {
    /// RTSP handshake in progress (or waiting for the first keyframe of a new session).
    Connecting,
    /// Frames are being decoded and displayed.
    Live,
    /// Connected but the picture is frozen until the next keyframe (packet loss / decoder error).
    WaitingKeyframe,
    /// Waiting before the next reconnection attempt.
    Reconnecting { attempt: u32, retry_at: Moment, reason: String },
    /// Decoding paused because the window is hidden (RTSP may still be connected).
    Paused,
    /// The camera rejected the credentials. Not retried until the camera config changes.
    AuthFailed,
    /// Non-retryable problem (e.g. unsupported codec). Not retried until the config changes.
    Error(String),
}

/// What a [`StreamStatus`] says.
pub enum StatusView {
    Connecting,
    Live,
    WaitingKeyframe,
    Reconnecting { attempt: u32, retry_at: Moment, reason: Seq<char> },
    Paused,
    AuthFailed,
    Error(Seq<char>),
}

impl View for StreamStatus {
    type V = StatusView;

    open spec fn view(&self) -> StatusView {
        match self {
            StreamStatus::Connecting => StatusView::Connecting,
            StreamStatus::Live => StatusView::Live,
            StreamStatus::WaitingKeyframe => StatusView::WaitingKeyframe,
            StreamStatus::Reconnecting { attempt, retry_at, reason } => StatusView::Reconnecting {
                attempt: *attempt,
                retry_at: *retry_at,
                reason: reason@,
            },
            StreamStatus::Paused => StatusView::Paused,
            StreamStatus::AuthFailed => StatusView::AuthFailed,
            StreamStatus::Error(reason) => StatusView::Error(reason@),
        }
    }
}

impl Clone for StreamStatus {
    fn clone(&self) -> (res: StreamStatus)
        ensures
            res@ == self@,
    {
        match self {
            StreamStatus::Connecting => StreamStatus::Connecting,
            StreamStatus::Live => StreamStatus::Live,
            StreamStatus::WaitingKeyframe => StreamStatus::WaitingKeyframe,
            StreamStatus::Reconnecting { attempt, retry_at, reason } => {
                StreamStatus::Reconnecting {
                    attempt: *attempt,
                    retry_at: *retry_at,
                    reason: reason.clone(),
                }
            },
            StreamStatus::Paused => StreamStatus::Paused,
            StreamStatus::AuthFailed => StreamStatus::AuthFailed,
            StreamStatus::Error(reason) => StreamStatus::Error(reason.clone()),
        }
    }
}

impl PartialEq for StreamStatus {
    fn eq(&self, other: &StreamStatus) -> (res: bool) {
        match (self, other) {
            (StreamStatus::Connecting, StreamStatus::Connecting) => true,
            (StreamStatus::Live, StreamStatus::Live) => true,
            (StreamStatus::WaitingKeyframe, StreamStatus::WaitingKeyframe) => true,
            (
                StreamStatus::Reconnecting { attempt: a, retry_at: at, reason: why },
                StreamStatus::Reconnecting { attempt: b, retry_at: bt, reason: because },
            ) => *a == *b && *at == *bt && *why == *because,
            (StreamStatus::Paused, StreamStatus::Paused) => true,
            (StreamStatus::AuthFailed, StreamStatus::AuthFailed) => true,
            (StreamStatus::Error(why), StreamStatus::Error(because)) => *why == *because,
            _ => false,
        }
    }
}

impl vstd::std_specs::cmp::PartialEqSpecImpl for StreamStatus {
    open spec fn obeys_eq_spec() -> bool {
        true
    }

    open spec fn eq_spec(&self, other: &StreamStatus) -> bool {
        self@ == other@
    }
}

/// Point-in-time metrics for the optional stats overlay.
#[derive(Debug)]
pub struct StatsSnapshot {
    /// Frames published (decoded and shown) per second, in hundredths.
    pub fps: u32,
    /// Rate the camera is sending at: frames per second in single precision, in units of one part
    /// in [`crate::single::ONE`].
    pub camera_fps: u128,
    /// Interarrival jitter of the video frames: milliseconds, in the same units.
    pub jitter_ms: u128,
    /// Received video bitrate, averaged over a few seconds.
    pub kbps: u32,
    pub width: u32,
    pub height: u32,
    pub codec: String,
    pub reconnects: u32,
    pub dropped_frames: u64,
    pub last_error: Option<String>,
}

/// What a [`StatsSnapshot`] says.
pub struct StatsView {
    pub fps: u32,
    pub camera_fps: u128,
    pub jitter_ms: u128,
    pub kbps: u32,
    pub width: u32,
    pub height: u32,
    pub codec: Seq<char>,
    pub reconnects: u32,
    pub dropped_frames: u64,
    pub last_error: Option<Seq<char>>,
}

impl View for StatsSnapshot {
    type V = StatsView;

    open spec fn view(&self) -> StatsView {
        StatsView {
            fps: self.fps,
            camera_fps: self.camera_fps,
            jitter_ms: self.jitter_ms,
            kbps: self.kbps,
            width: self.width,
            height: self.height,
            codec: self.codec@,
            reconnects: self.reconnects,
            dropped_frames: self.dropped_frames,
            last_error: match self.last_error {
                Some(reason) => Some(reason@),
                None => None,
            },
        }
    }
}

impl StatsView {
    /// The metrics of a stream that has not started.
    pub open spec fn zero() -> StatsView {
        StatsView {
            fps: 0,
            camera_fps: 0,
            jitter_ms: 0,
            kbps: 0,
            width: 0,
            height: 0,
            codec: Seq::empty(),
            reconnects: 0,
            dropped_frames: 0,
            last_error: None,
        }
    }
}

impl Default for StatsSnapshot {
    fn default() -> (res: StatsSnapshot)
        ensures
            res@ == StatsView::zero(),
    {
        StatsSnapshot {
            fps: 0,
            camera_fps: 0,
            jitter_ms: 0,
            kbps: 0,
            width: 0,
            height: 0,
            codec: String::new(),
            reconnects: 0,
            dropped_frames: 0,
            last_error: None,
        }
    }
}

impl Clone for StatsSnapshot {
    fn clone(&self) -> (res: StatsSnapshot)
        ensures
            res@ == self@,
    {
        let last_error = match &self.last_error {
            Some(reason) => Some(reason.clone()),
            None => None,
        };
        StatsSnapshot {
            fps: self.fps,
            camera_fps: self.camera_fps,
            jitter_ms: self.jitter_ms,
            kbps: self.kbps,
            width: self.width,
            height: self.height,
            codec: self.codec.clone(),
            reconnects: self.reconnects,
            dropped_frames: self.dropped_frames,
            last_error,
        }
    }
}

/// State shared between a camera's pipeline and its tile. `F` is a decoded frame.
///
/// It lives as long as the camera stays in the mosaic, across reconnections and restarts, so
/// that the tile never shows a stale one: see the handles of [`crate::manager::Change`].
pub struct StreamShared<F> {
    id: CameraId,
    frame: Option<F>,
    status: StreamStatus,
    stats: StatsSnapshot,
    frames_published: u64,
    fps_x100: u32,
    pending: bool,
}

/// What a [`StreamShared`] holds.
pub struct SharedView<F> {
    pub id: CameraId,
    pub frame: Option<F>,
    pub status: StatusView,
    pub stats: StatsView,
    pub frames_published: u64,
    /// Shown frames per second, in hundredths.
    pub fps_x100: u32,
    /// Whether a change has not been looked at yet.
    pub pending: bool,
}

impl<F> View for StreamShared<F> {
    type V = SharedView<F>;

    closed spec fn view(&self) -> SharedView<F> {
        SharedView {
            id: self.id,
            frame: self.frame,
            status: self.status@,
            stats: self.stats@,
            frames_published: self.frames_published,
            fps_x100: self.fps_x100,
            pending: self.pending,
        }
    }
}

/// Whether the picture runs.
pub open spec fn is_live(status: StatusView) -> bool {
    status is Live
}

/// Whether the picture is expected to start with the next decoded frame.
pub open spec fn is_starting(status: StatusView) -> bool {
    status is Connecting || status is WaitingKeyframe
}

impl<F> SharedView<F> {
    /// What is shared when a camera is put in the mosaic.
    pub open spec fn fresh(id: CameraId) -> SharedView<F> {
        SharedView {
            id,
            frame: None,
            status: StatusView::Connecting,
            stats: StatsView::zero(),
            frames_published: 0,
            fps_x100: 0,
            pending: false,
        }
    }

    /// After the status became `status`: a change is announced, a repetition is not.
    pub open spec fn with_status(self, status: StatusView) -> SharedView<F> {
        if self.status == status {
            self
        } else {
            SharedView { status, pending: true, ..self }
        }
    }

    /// After the picture froze: only a running one does.
    pub open spec fn frozen(self) -> SharedView<F> {
        if is_live(self.status) {
            self.with_status(StatusView::WaitingKeyframe)
        } else {
            self
        }
    }

    /// After the picture started: only an expected one does.
    pub open spec fn started(self) -> SharedView<F> {
        if is_starting(self.status) {
            self.with_status(StatusView::Live)
        } else {
            self
        }
    }

    /// After the retained frame was dropped.
    pub open spec fn without_frame(self) -> SharedView<F> {
        SharedView { frame: None, pending: self.pending || self.frame is Some, ..self }
    }

    /// After `frame` was published.
    pub open spec fn with_frame(self, frame: F) -> SharedView<F> {
        SharedView {
            frame: Some(frame),
            frames_published: if self.frames_published < u64::MAX {
                (self.frames_published + 1) as u64
            } else {
                0
            },
            pending: true,
            ..self
        }
    }

    /// After the shown frame rate was measured, in hundredths.
    pub open spec fn with_fps(self, fps: u32) -> SharedView<F> {
        SharedView { fps_x100: fps, ..self }
    }

    /// With other metrics.
    pub open spec fn with_stats(self, stats: StatsView) -> SharedView<F> {
        SharedView { stats, ..self }
    }
}

impl<F> StreamShared<F> {
    pub fn new(id: CameraId) -> (res: StreamShared<F>)
        ensures
            res@ == SharedView::<F>::fresh(id),
    {
        StreamShared {
            id,
            frame: None,
            status: StreamStatus::Connecting,
            stats: StatsSnapshot::default(),
            frames_published: 0,
            fps_x100: 0,
            pending: false,
        }
    }

    pub fn id(&self) -> (res: CameraId)
        ensures
            res == self@.id,
    {
        self.id
    }

    /// Latest decoded frame.
    pub fn latest_frame(&self) -> (res: Option<&F>)
        ensures
            match self@.frame {
                Some(frame) => res == Some(&frame),
                None => res is None,
            },
    {
        match &self.frame {
            Some(frame) => Some(frame),
            None => None,
        }
    }

    pub fn status(&self) -> (res: StreamStatus)
        ensures
            res@ == self@.status,
    {
        self.status.clone()
    }

    pub fn stats(&self) -> (res: StatsSnapshot)
        ensures
            res@ == (StatsView { fps: self@.fps_x100, ..self@.stats }),
    {
        let mut stats = self.stats.clone();
        stats.fps = self.fps_x100;
        stats
    }

    /// Total frames published since creation.
    pub fn frames_published(&self) -> (res: u64)
        ensures
            res == self@.frames_published,
    {
        self.frames_published
    }

    /// Coalesced change signal: at most one pending notification, so a slow tile never
    /// accumulates work. Taking it clears it.
    pub fn changed(&mut self) -> (res: bool)
        ensures
            res == old(self)@.pending,
            final(self)@ == (SharedView { pending: false, ..old(self)@ }),
    {
        let res = self.pending;
        self.pending = false;
        res
    }

    /// Replaces the latest frame: the latest one wins.
    pub fn publish_frame(&mut self, frame: F)
        ensures
            final(self)@ == old(self)@.with_frame(frame),
    {
        self.frame = Some(frame);
        self.frames_published = self.frames_published.wrapping_add(1);
        self.pending = true;
    }

    /// Drops the retained frame (e.g. while paused) so the decoder's buffers can be freed.
    pub fn clear_frame(&mut self)
        ensures
            final(self)@ == old(self)@.without_frame(),
    {
        if self.frame.is_some() {
            self.frame = None;
            self.pending = true;
        }
    }

    pub fn set_status(&mut self, status: StreamStatus)
        ensures
            final(self)@ == old(self)@.with_status(status@),
    {
        if self.status != status {
            self.status = status;
            self.pending = true;
        }
    }

    /// Sets `status` only if the current status satisfies `from` (lets the decoder report
    /// `Live` or `WaitingKeyframe` without overwriting a state like `Paused` that is not its own).
    /// Whether it was set.
    pub fn transition<P: Fn(&StreamStatus) -> bool>(
        &mut self,
        from: P,
        status: StreamStatus,
    ) -> (res: bool)
        requires
            forall|current: StreamStatus| call_requires(from, (&current,)),
        ensures
            res ==> {
                &&& final(self)@ == old(self)@.with_status(status@)
                &&& old(self)@.status != status@
                &&& exists|current: StreamStatus|
                    current@ == old(self)@.status && #[trigger] call_ensures(
                        from,
                        (&current,),
                        true,
                    )
            },
            !res ==> {
                &&& final(self)@ == old(self)@
                &&& old(self)@.status == status@ || exists|current: StreamStatus|
                    current@ == old(self)@.status && #[trigger] call_ensures(
                        from,
                        (&current,),
                        false,
                    )
            },
    {
        if self.status == status || !from(&self.status) {
            return false;
        }
        self.status = status;
        self.pending = true;
        true
    }

    /// The picture froze until the next keyframe.
    pub fn freeze(&mut self)
        ensures
            final(self)@ == old(self)@.frozen(),
    {
        let from = |s: &StreamStatus| -> (b: bool)
            ensures
                b == is_live(s@),
            { matches!(s, StreamStatus::Live) };
        self.transition(from, StreamStatus::WaitingKeyframe);
    }

    /// The picture runs.
    pub fn start(&mut self)
        ensures
            final(self)@ == old(self)@.started(),
    {
        let from = |s: &StreamStatus| -> (b: bool)
            ensures
                b == is_starting(s@),
            { matches!(s, StreamStatus::Connecting | StreamStatus::WaitingKeyframe) };
        self.transition(from, StreamStatus::Live);
    }

    /// Sets the shown frame rate, in hundredths.
    pub fn set_fps(&mut self, fps: u32)
        ensures
            final(self)@ == old(self)@.with_fps(fps),
    {
        self.fps_x100 = fps;
    }

    /// The metrics, to be changed in place.
    pub fn update_stats(&mut self) -> (res: &mut StatsSnapshot)
        ensures
            res@ == old(self)@.stats,
            final(self)@ == old(self)@.with_stats(final(res)@),
    {
        &mut self.stats
    }
}

/// A state that the pipeline does not own is not overwritten by a decoded or lost frame.
pub proof fn lemma_pipeline_keeps_foreign_states<F>(shared: SharedView<F>)
    requires
        shared.status is Paused || shared.status is AuthFailed || shared.status is Error
            || shared.status is Reconnecting,
    ensures
        shared.frozen() == shared,
        shared.started() == shared,
{
}

/// Every change of the status or of the frame is announced, and repeating a status is not.
pub proof fn lemma_changes_are_announced<F>(shared: SharedView<F>, status: StatusView, frame: F)
    ensures
        shared.with_status(status).status == status,
        shared.status != status ==> shared.with_status(status).pending,
        shared.status == status ==> shared.with_status(status).pending == shared.pending,
        shared.with_frame(frame).pending,
        shared.frame is Some ==> shared.without_frame().pending,
        shared.frame is None ==> shared.without_frame() == shared,
{
}

/// The picture that freezes is a running one, and the one that starts was expected: a running one
/// waits for a keyframe, and one that was connecting or waiting is live. The rest of what is shared
/// stays.
pub proof fn lemma_picture_freezes_and_starts<F>(shared: SharedView<F>)
    ensures
        shared.status is Live ==> shared.frozen().status == StatusView::WaitingKeyframe,
        shared.status is Connecting || shared.status is WaitingKeyframe ==> shared.frozen()
            == shared,
        shared.status is Connecting || shared.status is WaitingKeyframe
            ==> shared.started().status == StatusView::Live,
        shared.status is Live ==> shared.started() == shared,
        shared.status is Live ==> shared.frozen().started().status == StatusView::Live,
        shared.frozen().frame == shared.frame && shared.started().frame == shared.frame,
        shared.frozen().stats == shared.stats && shared.started().stats == shared.stats,
        shared.frozen().frames_published == shared.frames_published,
        shared.started().frames_published == shared.frames_published,
{
}

/// The latest frame wins and is counted; letting go of it changes nothing else.
pub proof fn lemma_latest_frame_wins<F>(shared: SharedView<F>, a: F, b: F)
    requires
        shared.frames_published < u64::MAX - 1,
    ensures
        shared.with_frame(a).with_frame(b).frame == Some(b),
        shared.with_frame(a).with_frame(b).frames_published == shared.frames_published + 2,
        shared.with_frame(a).status == shared.status,
        shared.with_frame(a).stats == shared.stats,
        shared.with_frame(a).without_frame().frame is None,
        shared.with_frame(a).without_frame().frames_published == shared.frames_published + 1,
        shared.with_frame(a).without_frame().status == shared.status,
{
}

/// A camera that is put in the mosaic connects first: it has no frame and no numbers yet, and there
/// is nothing to announce.
pub proof fn lemma_new_camera_connects<F>(id: CameraId)
    ensures
        ({
            let shared = SharedView::<F>::fresh(id);
            &&& shared.id == id
            &&& shared.status == StatusView::Connecting
            &&& shared.frame is None
            &&& shared.frames_published == 0 && shared.fps_x100 == 0
            &&& shared.stats.reconnects == 0 && shared.stats.dropped_frames == 0
            &&& shared.stats.last_error is None
            &&& !shared.pending
        }),
{
}

/// Published frames are counted one by one, and from the start again when they cannot be counted on.
pub proof fn lemma_published_frames_are_counted<F>(shared: SharedView<F>, frame: F)
    ensures
        shared.frames_published < 0xffff_ffff_ffff_ffff ==> shared.with_frame(frame).frames_published
            == shared.frames_published + 1,
        shared.frames_published == 0xffff_ffff_ffff_ffff ==> shared.with_frame(
            frame,
        ).frames_published == 0,
        shared.with_frame(frame).status == shared.status,
        shared.with_frame(frame).stats == shared.stats,
{
}

}
