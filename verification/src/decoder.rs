//! Decoding of one camera's video: what is decoded, skipped or held back, and when.
use std::collections::VecDeque;
use std::sync::Arc;

use vstd::prelude::*;
use vstd::string::*;

use crate::clock::Moment;
use crate::rtsp::{share, CodecParams, ParamsId, ParamsView};
use crate::shared::{SharedView, StatsView, StreamShared};
use crate::text;
use crate::timing::{self, Pacer, PacerView};

verus! {

/// Most access units queued between the RTSP side and the decode thread (2 s at 30 frames per
/// second). Wi-Fi jitter delivers frames in bursts; depth only absorbs them, because decoding
/// drains a full queue in well under 100 ms.
pub const QUEUE_CAPACITY: usize = 60;

/// Capacity right after decoding (re)starts: cameras send their buffered pictures as a burst
/// while the decoder is still being set up.
pub const WARMUP_QUEUE_CAPACITY: usize = 90;

/// One encoded picture (4-byte length-prefixed NAL units) plus the parameters it depends on.
pub struct AccessUnit {
    pub data: Vec<u8>,
    /// Shared by the pictures of an RTSP session; replaced when the camera announces new ones.
    pub params: Arc<CodecParams>,
    pub params_id: ParamsId,
    pub key: bool,
    /// RTSP session sequence number; a change means "start over from a keyframe".
    pub session: u32,
    /// Frames were lost or dropped right before this one.
    pub discontinuity: bool,
    /// Media timestamp, in nanoseconds since the start of the RTSP session.
    pub media_ts: i64,
    /// When the frame came out of the RTSP demuxer.
    pub arrival: Moment,
}

/// What an [`AccessUnit`] says.
pub struct UnitView {
    pub data: Seq<u8>,
    pub params: ParamsView,
    pub params_id: ParamsId,
    pub key: bool,
    pub session: u32,
    pub discontinuity: bool,
    pub media_ts: i64,
    pub arrival: Moment,
}

impl View for AccessUnit {
    type V = UnitView;

    open spec fn view(&self) -> UnitView {
        UnitView {
            data: self.data@,
            params: (*self.params)@,
            params_id: self.params_id,
            key: self.key,
            session: self.session,
            discontinuity: self.discontinuity,
            media_ts: self.media_ts,
            arrival: self.arrival,
        }
    }
}

/// Problems the decode thread reports to the camera's supervisor.
#[derive(Debug)]
pub enum DecoderEvent {
    /// Reconnect with backoff.
    Failed { session: u32, reason: String },
    /// Do not retry (e.g. the decoder produced pictures that cannot be drawn).
    Fatal { session: u32, reason: String },
}

/// What a [`DecoderEvent`] says.
pub enum EventView {
    Failed { session: u32, reason: Seq<char> },
    Fatal { session: u32, reason: Seq<char> },
}

impl View for DecoderEvent {
    type V = EventView;

    open spec fn view(&self) -> EventView {
        match self {
            DecoderEvent::Failed { session, reason } => EventView::Failed {
                session: *session,
                reason: reason@,
            },
            DecoderEvent::Fatal { session, reason } => EventView::Fatal {
                session: *session,
                reason: reason@,
            },
        }
    }
}

/// This many recreated decompression sessions within [`RECREATE_WINDOW`] escalate to a full
/// reconnect.
pub const MAX_RECREATES: usize = 3;

pub const RECREATE_WINDOW: u64 = 30_000_000_000;

/// While smoothing, a unit held this long after its arrival means that the decoder fell behind:
/// the backlog is decoded at once instead of growing latency.
pub const MAX_BACKLOG: u64 = 1_000_000_000;

/// `'420f'`: the only pixel format that the renderer draws.
pub const PIXEL_FORMAT_420F: u32 = 0x3432_3066;

/// The status for data that the decompression session cannot make sense of.
pub const BAD_DATA: i32 = -12909;

/// The status for a decoder that broke.
pub const MALFUNCTION: i32 = -12911;

/// The status for a picture that refers to one that is missing.
pub const REFERENCE_MISSING: i32 = -17694;

/// Whether there is room for one more unit.
pub open spec fn has_room(in_flight: int, capacity: int) -> bool {
    in_flight < capacity
}

/// Whether a unit is queued when `in_flight` units are queued already. The caller of a refused
/// one must skip to the next keyframe.
pub fn admits(in_flight: usize, capacity: usize) -> (res: bool)
    ensures
        res == has_room(in_flight as int, capacity as int),
{
    in_flight < capacity
}

/// Whether a byte is a printing ASCII character or a space.
pub open spec fn prints(b: u8) -> bool {
    0x20 <= b <= 0x7e
}

/// The four characters of a pixel format code, from the highest byte to the lowest.
pub open spec fn code_bytes(code: u32) -> Seq<u8> {
    seq![
        (code / 0x100_0000) as u8,
        ((code / 0x1_0000) % 0x100) as u8,
        ((code / 0x100) % 0x100) as u8,
        (code % 0x100) as u8,
    ]
}

/// `'420f'`-style rendering of a pixel format code; hexadecimal where a byte does not print.
pub open spec fn fourcc(code: u32) -> Seq<char> {
    let bytes = code_bytes(code);
    if forall|i: int| 0 <= i < 4 ==> prints(#[trigger] bytes[i]) {
        "'"@ + bytes.map_values(|b: u8| b as char) + "'"@
    } else {
        "0x"@ + text::hex(code as nat, 8)
    }
}

/// `'420f'`-style rendering of a pixel format code.
pub fn fourcc_str(code: u32) -> (res: String)
    ensures
        res@ == fourcc(code),
{
    let bytes: [u8; 4] = [
        (code / 0x100_0000) as u8,
        ((code / 0x1_0000) % 0x100) as u8,
        ((code / 0x100) % 0x100) as u8,
        (code % 0x100) as u8,
    ];
    assert(bytes@ =~= code_bytes(code));
    let mut chars = String::new();
    let mut i: usize = 0;
    while i < 4
        invariant
            i <= 4,
            bytes@ == code_bytes(code),
            forall|k: int| 0 <= k < i ==> prints(#[trigger] bytes@[k]),
            chars@ == bytes@.take(i as int).map_values(|b: u8| b as char),
        decreases 4 - i,
    {
        let b: u8 = bytes[i];
        if b < 0x20 || b > 0x7e {
            assert(!prints(code_bytes(code)[i as int]));
            let mut out = "0x".to_owned();
            out.append(text::to_hex(code, 8).as_str());
            return out;
        }
        chars.push(b as char);
        assert(bytes@.take(i + 1).map_values(|b: u8| b as char) =~= bytes@.take(
            i as int,
        ).map_values(|b: u8| b as char).push(b as char));
        i = i + 1;
    }
    assert(bytes@.take(4) =~= bytes@);
    let mut out = "'".to_owned();
    out.append(chars.as_str());
    out.append("'");
    out
}

/// Why frames are skipped until the next keyframe.
#[derive(Clone, Copy, Debug, PartialEq, Eq, Structural)]
pub enum Skip {
    /// New session or resume: the skipped frames are expected, not counted as dropped.
    Start,
    /// Decoder error: skipped frames count as dropped.
    Error,
}

/// What comes next for an access unit.
#[derive(Clone, Copy, Debug, PartialEq, Eq, Structural)]
pub enum DecodeStep {
    /// Nothing: it is done with.
    Done,
    /// Make a format description of its parameters; go on with [`Decoder::described`].
    Describe,
    /// Open a decompression session; go on with [`Decoder::opened`].
    Open,
    /// Decode it in the open session; go on with [`Decoder::decoded`].
    Decode,
}

/// What is to be done.
#[derive(Debug)]
pub struct Reply {
    pub step: DecodeStep,
    /// First invalidate the decompression session that is open.
    pub invalidate: bool,
    /// First report this to the supervisor.
    pub event: Option<DecoderEvent>,
}

/// What a [`Reply`] says.
pub struct ReplyView {
    pub step: DecodeStep,
    pub invalidate: bool,
    pub event: Option<EventView>,
}

impl View for Reply {
    type V = ReplyView;

    open spec fn view(&self) -> ReplyView {
        ReplyView {
            step: self.step,
            invalidate: self.invalidate,
            event: match self.event {
                Some(event) => Some(event@),
                None => None,
            },
        }
    }
}

/// What the decompression session made of a unit.
#[derive(Clone, Copy, Debug, PartialEq, Eq, Structural)]
pub enum Output {
    /// No output yet.
    Nothing,
    /// The picture was published.
    Published,
    /// The decoder dropped the picture, or it is not to be shown.
    NoImage,
    /// The picture is not of a kind that can be drawn; with its pixel format.
    BadFormat(u32),
    /// Taking the picture broke down.
    Panicked,
}

/// How a unit was decoded.
#[derive(Clone, Copy, Debug, PartialEq, Eq, Structural)]
pub struct Decoded {
    /// Status of the call; zero is success.
    pub status: i32,
    /// Status of the output; zero is success.
    pub output_status: i32,
    pub output: Output,
}

/// What a decoded picture is.
#[derive(Clone, Copy, Debug, PartialEq, Eq, Structural)]
pub struct Image {
    pub format: u32,
    /// Whether the picture lies in memory that the renderer can use.
    pub iosurface_backed: bool,
}

/// What becomes of a decoded picture, and whether pictures of this session need no further look.
/// Nothing is decided when the status is not success: it is recorded as it is.
pub open spec fn judged(status: i32, image: Option<Image>, format_ok: bool) -> (Output, bool) {
    if status != 0 {
        (Output::Nothing, format_ok)
    } else {
        match image {
            None => (Output::NoImage, format_ok),
            Some(image) => if format_ok || (image.format == PIXEL_FORMAT_420F
                && image.iosurface_backed) {
                (Output::Published, true)
            } else {
                (Output::BadFormat(image.format), false)
            },
        }
    }
}

/// What becomes of a decoded picture: only those that can be drawn are published. `format_ok`
/// says that the first picture of the session has been found to be one, which spares the others
/// the look. The outcome, and the next `format_ok`.
pub fn judge_output(status: i32, image: Option<Image>, format_ok: bool) -> (res: (Output, bool))
    ensures
        res == judged(status, image, format_ok),
{
    if status != 0 {
        return (Output::Nothing, format_ok);
    }
    match image {
        None => (Output::NoImage, format_ok),
        Some(image) => {
            if format_ok || (image.format == PIXEL_FORMAT_420F && image.iosurface_backed) {
                (Output::Published, true)
            } else {
                (Output::BadFormat(image.format), false)
            }
        },
    }
}

/// The decoding of one camera: what is known of the format description and the decompression
/// session, which are kept elsewhere.
pub struct Decoder {
    params: Option<(Arc<CodecParams>, ParamsId)>,
    has_format: bool,
    has_session: bool,
    skip: Option<Skip>,
    session_id: u32,
    /// `Live` was reported for the current run of decoded frames.
    live: bool,
    /// Nothing is decoded until the next RTSP session (after a fatal error or escalation).
    halted: bool,
    recreates: VecDeque<Moment>,
}

/// What a [`Decoder`] holds.
pub struct DecoderView {
    pub params: Option<(ParamsView, ParamsId)>,
    pub has_format: bool,
    pub has_session: bool,
    pub skip: Option<Skip>,
    pub session_id: u32,
    pub live: bool,
    pub halted: bool,
    pub recreates: Seq<Moment>,
}

impl View for Decoder {
    type V = DecoderView;

    closed spec fn view(&self) -> DecoderView {
        DecoderView {
            params: match self.params {
                Some((params, id)) => Some(((*params)@, id)),
                None => None,
            },
            has_format: self.has_format,
            has_session: self.has_session,
            skip: self.skip,
            session_id: self.session_id,
            live: self.live,
            halted: self.halted,
            recreates: self.recreates@,
        }
    }
}

/// The decoding, what is shared and what is to be done, after a step.
pub struct Stage<F> {
    pub decoder: DecoderView,
    pub shared: SharedView<F>,
    pub reply: ReplyView,
}

/// What is left of earlier moments when those before the window that ends `now` are dropped from
/// the front.
pub open spec fn recent(moments: Seq<Moment>, now: Moment) -> Seq<Moment>
    decreases moments.len(),
{
    if moments.len() > 0 && now.elapsed_since(moments[0]) > RECREATE_WINDOW {
        recent(moments.skip(1), now)
    } else {
        moments
    }
}

/// What is decoded of a unit that is let go: nothing once the camera's handle is gone, because
/// what is still queued then is discarded.
pub fn released(unit: AccessUnit, stopped: bool) -> (res: Option<AccessUnit>)
    ensures
        res == (if stopped {
            None
        } else {
            Some(unit)
        }),
{
    if stopped {
        None
    } else {
        Some(unit)
    }
}

/// What is shared after one more frame was dropped.
pub open spec fn one_dropped<F>(shared: SharedView<F>) -> SharedView<F> {
    shared.with_stats(
        StatsView {
            dropped_frames: timing::capped_sum(shared.stats.dropped_frames, 1),
            ..shared.stats
        },
    )
}

impl DecoderView {
    /// The decoding before the first unit.
    pub open spec fn fresh() -> DecoderView {
        DecoderView {
            params: None,
            has_format: false,
            has_session: false,
            skip: Some(Skip::Start),
            session_id: 0,
            live: false,
            halted: false,
            recreates: Seq::empty(),
        }
    }

    /// A decompression session belongs to a format description.
    pub open spec fn wf(self) -> bool {
        self.has_session ==> self.has_format
    }

    /// On the RTSP session of a unit: another one starts over.
    pub open spec fn on_session(self, session: u32) -> DecoderView {
        if session == self.session_id {
            self
        } else {
            DecoderView {
                session_id: session,
                skip: Some(Skip::Start),
                live: false,
                halted: false,
                recreates: Seq::empty(),
                ..self
            }
        }
    }

    /// While decoding pauses: nothing is decoded until the next keyframe, in a new session.
    pub open spec fn paused(self) -> DecoderView {
        DecoderView { has_session: false, skip: Some(Skip::Start), live: false, ..self }
    }

    /// After the gap before a unit, if there is one: the next picture is reported as live, and a
    /// unit that is no keyframe cannot be decoded.
    pub open spec fn after_gap(self, unit: UnitView) -> DecoderView {
        if !unit.discontinuity {
            self
        } else {
            DecoderView {
                live: false,
                skip: if !unit.key && self.skip is None {
                    Some(Skip::Error)
                } else {
                    self.skip
                },
                ..self
            }
        }
    }

    /// After an error: wait for a keyframe and, if `recreate`, do so with a new decompression
    /// session. Too many of those in a short time ask for a full reconnect.
    pub open spec fn failing<F>(
        self,
        shared: SharedView<F>,
        recreate: bool,
        now: Moment,
    ) -> Stage<F> {
        let waiting = DecoderView { skip: Some(Skip::Error), live: false, ..self };
        let dropped = one_dropped(shared);
        let frozen = if self.live {
            dropped.frozen()
        } else {
            dropped
        };
        if !recreate {
            Stage {
                decoder: waiting,
                shared: frozen,
                reply: ReplyView { step: DecodeStep::Done, invalidate: false, event: None },
            }
        } else {
            let recreates = recent(self.recreates, now).push(now);
            let escalates = recreates.len() >= MAX_RECREATES;
            Stage {
                decoder: DecoderView {
                    has_session: false,
                    recreates,
                    halted: self.halted || escalates,
                    ..waiting
                },
                shared: frozen,
                reply: ReplyView {
                    step: DecodeStep::Done,
                    invalidate: self.has_session,
                    event: if escalates {
                        Some(
                            EventView::Failed {
                                session: self.session_id,
                                reason: "Decoder failure"@,
                            },
                        )
                    } else {
                        None
                    },
                },
            }
        }
    }

    /// With a format description for the parameters of `unit`: skip it, or see to it that it is
    /// decoded.
    pub open spec fn proceeding<F>(
        self,
        unit: UnitView,
        shared: SharedView<F>,
        now: Moment,
    ) -> Stage<F> {
        if self.skip is Some && !unit.key {
            Stage {
                decoder: self,
                shared: if self.skip == Some(Skip::Error) {
                    one_dropped(shared)
                } else {
                    shared
                },
                reply: ReplyView { step: DecodeStep::Done, invalidate: false, event: None },
            }
        } else {
            let resumed = DecoderView { skip: None, ..self };
            if self.has_session {
                resumed.submitting(unit, shared, now)
            } else if self.has_format {
                Stage {
                    decoder: resumed,
                    shared,
                    reply: ReplyView { step: DecodeStep::Open, invalidate: false, event: None },
                }
            } else {
                resumed.failing(shared, true, now)
            }
        }
    }

    /// With an open session: an empty unit is an error, any other one is decoded.
    pub open spec fn submitting<F>(
        self,
        unit: UnitView,
        shared: SharedView<F>,
        now: Moment,
    ) -> Stage<F> {
        if unit.data.len() == 0 {
            self.failing(shared, true, now)
        } else {
            Stage {
                decoder: self,
                shared,
                reply: ReplyView { step: DecodeStep::Decode, invalidate: false, event: None },
            }
        }
    }

    /// After the parameters of the present session turned out to be unusable.
    pub open spec fn without_format<F>(self, shared: SharedView<F>) -> Stage<F> {
        Stage {
            decoder: DecoderView { has_format: false, has_session: false, halted: true, ..self },
            shared,
            reply: ReplyView {
                step: DecodeStep::Done,
                invalidate: self.has_session,
                event: Some(
                    EventView::Failed {
                        session: self.session_id,
                        reason: "Invalid video parameters"@,
                    },
                ),
            },
        }
    }

    /// After a unit was taken in.
    pub open spec fn begun<F>(self, unit: UnitView, shared: SharedView<F>, now: Moment) -> Stage<
        F,
    > {
        let current = self.on_session(unit.session);
        if current.halted {
            Stage {
                decoder: current,
                shared,
                reply: ReplyView { step: DecodeStep::Done, invalidate: false, event: None },
            }
        } else {
            let told = current.after_gap(unit);
            let next = DecoderView { params: Some((unit.params, unit.params_id)), ..told };
            if told.params is Some && (told.params->0).1 == unit.params_id {
                told.proceeding(unit, shared, now)
            } else if told.params is Some && (told.params->0).0.same_format(unit.params)
                && told.has_format {
                next.proceeding(unit, shared, now)
            } else if !unit.params.complete() {
                next.without_format(shared)
            } else {
                Stage {
                    decoder: next,
                    shared,
                    reply: ReplyView { step: DecodeStep::Describe, invalidate: false, event: None },
                }
            }
        }
    }

    /// After the attempt to make a format description.
    pub open spec fn with_description<F>(
        self,
        unit: UnitView,
        accepted: Result<bool, i32>,
        shared: SharedView<F>,
        now: Moment,
    ) -> Stage<F> {
        match accepted {
            Ok(accepts) => {
                let described = DecoderView {
                    has_format: true,
                    has_session: self.has_session && accepts,
                    ..self
                };
                let stage = described.proceeding(unit, shared, now);
                Stage {
                    reply: ReplyView {
                        invalidate: stage.reply.invalidate || (self.has_session && !accepts),
                        ..stage.reply
                    },
                    ..stage
                }
            },
            Err(_) => self.without_format(shared),
        }
    }

    /// After the attempt to open a decompression session.
    pub open spec fn with_session<F>(
        self,
        unit: UnitView,
        opened: Result<(), i32>,
        shared: SharedView<F>,
        now: Moment,
    ) -> Stage<F> {
        match opened {
            Ok(_) => (DecoderView { has_session: true, ..self }).submitting(unit, shared, now),
            Err(_) => self.failing(shared, true, now),
        }
    }

    /// After a unit was decoded.
    pub open spec fn with_output<F>(
        self,
        decoded: Decoded,
        shared: SharedView<F>,
        now: Moment,
    ) -> Stage<F> {
        let done = ReplyView { step: DecodeStep::Done, invalidate: false, event: None };
        match error_of(decoded) {
            Some(status) => self.failing(shared, recreates_on(status), now),
            None => match decoded.output {
                Output::Published => Stage {
                    decoder: DecoderView { live: true, ..self },
                    shared: if self.live {
                        shared
                    } else {
                        shared.started()
                    },
                    reply: done,
                },
                Output::BadFormat(format) => Stage {
                    decoder: DecoderView { has_session: false, halted: true, ..self },
                    shared,
                    reply: ReplyView {
                        step: DecodeStep::Done,
                        invalidate: self.has_session,
                        event: Some(
                            EventView::Fatal {
                                session: self.session_id,
                                reason: "Unsupported image format ("@ + fourcc(format) + ")"@,
                            },
                        ),
                    },
                },
                _ => Stage { decoder: self, shared, reply: done },
            },
        }
    }
}

/// The error with which a unit was decoded, if it was with one.
pub open spec fn error_of(decoded: Decoded) -> Option<i32> {
    if decoded.status != 0 {
        Some(decoded.status)
    } else if decoded.output_status != 0 {
        Some(decoded.output_status)
    } else if decoded.output == Output::Panicked {
        Some(MALFUNCTION)
    } else {
        None
    }
}

/// Whether decoding a unit put a picture on the screen.
pub fn published(decoded: Decoded) -> (res: bool)
    ensures
        res == (error_of(decoded) is None && decoded.output == Output::Published),
{
    decoded.status == 0 && decoded.output_status == 0 && decoded.output == Output::Published
}

/// Whether an error calls for a new decompression session: not where only the data is at fault.
pub open spec fn recreates_on(status: i32) -> bool {
    status != BAD_DATA && status != REFERENCE_MISSING
}

/// Whether `reply`, the decoding and what is shared are those of `stage`.
pub open spec fn reaches<F>(
    reply: Reply,
    decoder: DecoderView,
    shared: SharedView<F>,
    stage: Stage<F>,
) -> bool {
    &&& reply@ == stage.reply
    &&& decoder == stage.decoder
    &&& shared == stage.shared
}

fn plain_reply(step: DecodeStep) -> (res: Reply)
    ensures
        res@ == (ReplyView { step, invalidate: false, event: None }),
{
    Reply { step, invalidate: false, event: None }
}

impl Decoder {
    pub fn new() -> (res: Decoder)
        ensures
            res@ == DecoderView::fresh(),
            res@.wf(),
    {
        Decoder {
            params: None,
            has_format: false,
            has_session: false,
            skip: Some(Skip::Start),
            session_id: 0,
            live: false,
            halted: false,
            recreates: VecDeque::new(),
        }
    }

    /// Stops decoding until the next keyframe and drops the retained frame. Whether the open
    /// decompression session is to be invalidated.
    pub fn pause<F>(&mut self, shared: &mut StreamShared<F>) -> (res: bool)
        ensures
            res == old(self)@.has_session,
            final(self)@ == old(self)@.paused(),
            final(shared)@ == old(shared)@.without_frame(),
    {
        let open = self.has_session;
        self.has_session = false;
        self.skip = Some(Skip::Start);
        self.live = false;
        shared.clear_frame();
        open
    }

    /// Decoding broke down: starts over, and reports it.
    pub fn broke_down(&mut self) -> (res: DecoderEvent)
        ensures
            final(self)@ == DecoderView::fresh(),
            res@ == (EventView::Failed {
                session: old(self)@.session_id,
                reason: "Internal decoder error"@,
            }),
    {
        let session = self.session_id;
        *self = Decoder::new();
        DecoderEvent::Failed { session, reason: "Internal decoder error".to_owned() }
    }

    /// Handles an error.
    fn fail<F>(&mut self, recreate: bool, now: Moment, shared: &mut StreamShared<F>) -> (res: Reply)
        requires
            old(self)@.wf(),
        ensures
            reaches(res, final(self)@, final(shared)@, old(self)@.failing(old(shared)@, recreate, now)),
            final(self)@.wf(),
    {
        let ghost before = self@;
        self.skip = Some(Skip::Error);
        {
            let stats = shared.update_stats();
            stats.dropped_frames = stats.dropped_frames.saturating_add(1);
        }
        if self.live {
            self.live = false;
            shared.freeze();
        }
        if !recreate {
            return plain_reply(DecodeStep::Done);
        }
        let invalidate = self.has_session;
        self.has_session = false;
        while self.recreates.len() > 0 && now.since(self.recreates[0]) > RECREATE_WINDOW
            invariant
                recent(self.recreates@, now) == recent(before.recreates, now),
                self@ == (DecoderView {
                    skip: Some(Skip::Error),
                    live: false,
                    has_session: false,
                    recreates: self.recreates@,
                    ..before
                }),
            decreases self.recreates@.len(),
        {
            let ghost moments = self.recreates@;
            self.recreates.pop_front();
            assert(self.recreates@ =~= moments.skip(1));
        }
        self.recreates.push_back(now);
        let event = if self.recreates.len() >= MAX_RECREATES {
            self.halted = true;
            Some(
                DecoderEvent::Failed {
                    session: self.session_id,
                    reason: "Decoder failure".to_owned(),
                },
            )
        } else {
            None
        };
        Reply { step: DecodeStep::Done, invalidate, event }
    }

    /// Reports that the parameters cannot be used.
    fn reject_params<F>(&mut self, shared: &mut StreamShared<F>) -> (res: Reply)
        ensures
            reaches(res, final(self)@, final(shared)@, old(self)@.without_format(old(shared)@)),
            final(self)@.wf(),
    {
        let invalidate = self.has_session;
        self.has_format = false;
        self.has_session = false;
        self.halted = true;
        Reply {
            step: DecodeStep::Done,
            invalidate,
            event: Some(
                DecoderEvent::Failed {
                    session: self.session_id,
                    reason: "Invalid video parameters".to_owned(),
                },
            ),
        }
    }

    fn submit<F>(
        &mut self,
        unit: &AccessUnit,
        now: Moment,
        shared: &mut StreamShared<F>,
    ) -> (res: Reply)
        requires
            old(self)@.wf(),
        ensures
            reaches(
                res,
                final(self)@,
                final(shared)@,
                old(self)@.submitting(unit@, old(shared)@, now),
            ),
            final(self)@.wf(),
    {
        if unit.data.len() == 0 {
            self.fail(true, now, shared)
        } else {
            plain_reply(DecodeStep::Decode)
        }
    }

    fn proceed<F>(
        &mut self,
        unit: &AccessUnit,
        now: Moment,
        shared: &mut StreamShared<F>,
    ) -> (res: Reply)
        requires
            old(self)@.wf(),
        ensures
            reaches(
                res,
                final(self)@,
                final(shared)@,
                old(self)@.proceeding(unit@, old(shared)@, now),
            ),
            final(self)@.wf(),
    {
        if let Some(skip) = self.skip {
            if !unit.key {
                if skip == Skip::Error {
                    let stats = shared.update_stats();
                    stats.dropped_frames = stats.dropped_frames.saturating_add(1);
                }
                return plain_reply(DecodeStep::Done);
            }
            self.skip = None;
        }
        if self.has_session {
            self.submit(unit, now, shared)
        } else if self.has_format {
            plain_reply(DecodeStep::Open)
        } else {
            self.fail(true, now, shared)
        }
    }

    /// Takes in a unit.
    pub fn decode<F>(
        &mut self,
        unit: &AccessUnit,
        now: Moment,
        shared: &mut StreamShared<F>,
    ) -> (res: Reply)
        requires
            old(self)@.wf(),
        ensures
            reaches(
                res,
                final(self)@,
                final(shared)@,
                old(self)@.begun(unit@, old(shared)@, now),
            ),
            final(self)@.wf(),
    {
        if unit.session != self.session_id {
            self.session_id = unit.session;
            self.skip = Some(Skip::Start);
            self.live = false;
            self.halted = false;
            self.recreates.clear();
        }
        if self.halted {
            return plain_reply(DecodeStep::Done);
        }
        if unit.discontinuity {
            self.live = false;
            if !unit.key && self.skip.is_none() {
                self.skip = Some(Skip::Error);
            }
        }
        let (known, same_format) = match &self.params {
            Some((params, id)) => (*id == unit.params_id, params.has_format_of(&unit.params)),
            None => (false, false),
        };
        if !known {
            self.params = Some((share(&unit.params), unit.params_id));
            if !(same_format && self.has_format) {
                if !unit.params.is_complete() {
                    return self.reject_params(shared);
                }
                return plain_reply(DecodeStep::Describe);
            }
        }
        self.proceed(unit, now, shared)
    }

    /// Goes on after [`DecodeStep::Describe`]: whether the session that is open, if one is,
    /// accepts the new format description, or the status with which making it failed.
    pub fn described<F>(
        &mut self,
        unit: &AccessUnit,
        accepted: Result<bool, i32>,
        now: Moment,
        shared: &mut StreamShared<F>,
    ) -> (res: Reply)
        requires
            old(self)@.wf(),
        ensures
            reaches(
                res,
                final(self)@,
                final(shared)@,
                old(self)@.with_description(unit@, accepted, old(shared)@, now),
            ),
            final(self)@.wf(),
    {
        match accepted {
            Ok(accepts) => {
                let replaced = self.has_session && !accepts;
                if replaced {
                    self.has_session = false;
                }
                self.has_format = true;
                let mut reply = self.proceed(unit, now, shared);
                if replaced {
                    reply.invalidate = true;
                }
                reply
            },
            Err(_) => self.reject_params(shared),
        }
    }

    /// Goes on after [`DecodeStep::Open`]: the status with which opening failed, if it did.
    pub fn opened<F>(
        &mut self,
        unit: &AccessUnit,
        opened: Result<(), i32>,
        now: Moment,
        shared: &mut StreamShared<F>,
    ) -> (res: Reply)
        requires
            old(self)@.wf(),
            old(self)@.has_format,
        ensures
            reaches(
                res,
                final(self)@,
                final(shared)@,
                old(self)@.with_session(unit@, opened, old(shared)@, now),
            ),
            final(self)@.wf(),
    {
        match opened {
            Ok(_) => {
                self.has_session = true;
                self.submit(unit, now, shared)
            },
            Err(_) => self.fail(true, now, shared),
        }
    }

    /// Goes on after [`DecodeStep::Decode`].
    pub fn decoded<F>(
        &mut self,
        decoded: Decoded,
        now: Moment,
        shared: &mut StreamShared<F>,
    ) -> (res: Reply)
        requires
            old(self)@.wf(),
        ensures
            reaches(
                res,
                final(self)@,
                final(shared)@,
                old(self)@.with_output(decoded, old(shared)@, now),
            ),
            final(self)@.wf(),
    {
        let error: Option<i32> = if decoded.status != 0 {
            Some(decoded.status)
        } else if decoded.output_status != 0 {
            Some(decoded.output_status)
        } else if decoded.output == Output::Panicked {
            Some(MALFUNCTION)
        } else {
            None
        };
        if let Some(status) = error {
            return self.fail(status != BAD_DATA && status != REFERENCE_MISSING, now, shared);
        }
        match decoded.output {
            Output::Published => {
                if !self.live {
                    self.live = true;
                    shared.start();
                }
                plain_reply(DecodeStep::Done)
            },
            Output::BadFormat(format) => {
                let invalidate = self.has_session;
                self.has_session = false;
                self.halted = true;
                let mut reason = "Unsupported image format (".to_owned();
                reason.append(fourcc_str(format).as_str());
                reason.append(")");
                Reply {
                    step: DecodeStep::Done,
                    invalidate,
                    event: Some(DecoderEvent::Fatal { session: self.session_id, reason }),
                }
            },
            _ => plain_reply(DecodeStep::Done),
        }
    }
}

/// A unit is only decoded in an open session with a format description, never an empty one, and
/// never one that is not a keyframe while a keyframe is waited for.
pub proof fn lemma_decodes_only_when_ready<F>(
    decoder: DecoderView,
    unit: UnitView,
    shared: SharedView<F>,
    now: Moment,
)
    requires
        decoder.wf(),
    ensures
        ({
            let stage = decoder.begun(unit, shared, now);
            &&& stage.decoder.wf()
            &&& stage.reply.step == DecodeStep::Decode ==> {
                &&& stage.decoder.has_session
                &&& stage.decoder.has_format
                &&& unit.data.len() > 0
                &&& decoder.skip is Some || decoder.session_id != unit.session ==> unit.key
                &&& unit.discontinuity ==> unit.key
            }
            &&& stage.reply.step == DecodeStep::Open ==> stage.decoder.has_format
                && !stage.decoder.has_session
        }),
{
}

/// After a fatal error or an escalation nothing is decoded, and nothing changes, until the next
/// RTSP session.
pub proof fn lemma_halted_until_next_session<F>(
    decoder: DecoderView,
    unit: UnitView,
    shared: SharedView<F>,
    now: Moment,
)
    requires
        decoder.halted,
    ensures
        unit.session == decoder.session_id ==> {
            let stage = decoder.begun(unit, shared, now);
            &&& stage.reply == (ReplyView {
                step: DecodeStep::Done,
                invalidate: false,
                event: None,
            })
            &&& stage.decoder == decoder
            &&& stage.shared == shared
        },
        unit.session != decoder.session_id ==> !decoder.on_session(unit.session).halted,
{
}

/// The third recreated session within the window asks for a reconnect; sessions that were
/// recreated before the window do not count.
pub proof fn lemma_third_recreation_escalates<F>(
    decoder: DecoderView,
    shared: SharedView<F>,
    first: Moment,
    second: Moment,
    now: Moment,
)
    requires
        decoder.recreates == seq![first, second],
        !decoder.halted,
        now.elapsed_since(second) <= RECREATE_WINDOW,
    ensures
        ({
            let stage = decoder.failing(shared, true, now);
            &&& stage.decoder.halted == (now.elapsed_since(first) <= RECREATE_WINDOW)
            &&& stage.reply.event is Some == stage.decoder.halted
        }),
{
    reveal_with_fuel(recent, 3);
    assert(decoder.recreates.skip(1) =~= seq![second]);
}

/// Where only the data is at fault the decompression session stays, and no reconnect is asked
/// for.
pub proof fn lemma_bad_data_keeps_session<F>(
    decoder: DecoderView,
    decoded: Decoded,
    shared: SharedView<F>,
    now: Moment,
)
    requires
        error_of(decoded) is Some,
        error_of(decoded)->0 == BAD_DATA || error_of(decoded)->0 == REFERENCE_MISSING,
    ensures
        ({
            let stage = decoder.with_output(decoded, shared, now);
            &&& stage.decoder.has_session == decoder.has_session
            &&& stage.decoder.skip == Some(Skip::Error)
            &&& !stage.reply.invalidate
            &&& stage.reply.event is None
        }),
{
}

/// A picture is only published where it, or one before it in the session, was found to be one
/// that can be drawn.
pub proof fn lemma_publishes_only_drawable(status: i32, image: Option<Image>, format_ok: bool)
    ensures
        judged(status, image, format_ok).0 == Output::Published && !format_ok ==> image is Some
            && image->0.format == PIXEL_FORMAT_420F && image->0.iosurface_backed,
        judged(status, image, format_ok).1 && !format_ok ==> image is Some && image->0.format
            == PIXEL_FORMAT_420F && image->0.iosurface_backed,
{
}

/// Whether the next picture that is published in this state is reported: a camera that was
/// connecting or waiting for a keyframe is live from then on.
pub open spec fn next_picture_is_live<F>(
    decoder: DecoderView,
    shared: SharedView<F>,
    now: Moment,
) -> bool {
    let shown = decoder.with_output(
        Decoded { status: 0, output_status: 0, output: Output::Published },
        shared,
        now,
    );
    &&& shown.decoder.live
    &&& shown.reply.step == DecodeStep::Done
    &&& !shown.reply.invalidate
    &&& shown.reply.event is None
    &&& shared.status is WaitingKeyframe || shared.status is Connecting ==> shown.shared.status
        == crate::shared::StatusView::Live
}

/// After lost packets, and in a new RTSP session, the first picture that is published makes the
/// camera live again: whether its unit is decoded at once, after a session was opened, or after a
/// format description was made.
pub proof fn lemma_first_picture_after_a_gap_is_live<F>(
    decoder: DecoderView,
    unit: UnitView,
    accepts: bool,
    shared: SharedView<F>,
    later: SharedView<F>,
    now: Moment,
)
    requires
        !decoder.halted || unit.session != decoder.session_id,
        unit.key,
        unit.discontinuity || unit.session != decoder.session_id,
    ensures
        ({
            let taken = decoder.begun(unit, shared, now);
            let opened = taken.decoder.with_session(unit, Ok(()), shared, now);
            let described = taken.decoder.with_description(unit, Ok(accepts), shared, now);
            let reopened = described.decoder.with_session(unit, Ok(()), shared, now);
            &&& taken.reply.step == DecodeStep::Decode ==> next_picture_is_live(
                taken.decoder,
                later,
                now,
            )
            &&& taken.reply.step == DecodeStep::Open && opened.reply.step == DecodeStep::Decode
                ==> next_picture_is_live(opened.decoder, later, now)
            &&& taken.reply.step == DecodeStep::Describe && described.reply.step
                == DecodeStep::Decode ==> next_picture_is_live(described.decoder, later, now)
            &&& taken.reply.step == DecodeStep::Describe && described.reply.step
                == DecodeStep::Open && reopened.reply.step == DecodeStep::Decode
                ==> next_picture_is_live(reopened.decoder, later, now)
        }),
{
}

/// The first picture after the start, after a pause and after any error is reported as live too.
/// Pictures that follow one another without a gap do not touch the status any more.
pub proof fn lemma_first_picture_is_live<F>(
    decoder: DecoderView,
    decoded: Decoded,
    recreate: bool,
    shared: SharedView<F>,
    now: Moment,
)
    ensures
        next_picture_is_live(DecoderView::fresh(), shared, now),
        next_picture_is_live(decoder.paused(), shared, now),
        next_picture_is_live(decoder.failing(shared, recreate, now).decoder, shared, now),
        decoded.status == 0 && decoded.output_status == 0 && decoded.output == Output::Published
            && decoder.live ==> decoder.with_output(decoded, shared, now).shared == shared
            && decoder.with_output(decoded, shared, now).decoder == decoder,
{
}

/// A unit that needs no more than the open session is decoded: any keyframe, and any unit that
/// follows without a gap while nothing is waited for. It does not change what is shown.
pub proof fn lemma_fitting_unit_is_decoded<F>(
    decoder: DecoderView,
    unit: UnitView,
    shared: SharedView<F>,
    now: Moment,
)
    requires
        !decoder.halted,
        unit.session == decoder.session_id,
        decoder.params is Some,
        (decoder.params->0).1 == unit.params_id || ((decoder.params->0).0.codec
            == unit.params.codec && (decoder.params->0).0.sets == unit.params.sets
            && decoder.has_format),
        decoder.has_session,
        unit.data.len() > 0,
        unit.key || (decoder.skip is None && !unit.discontinuity),
    ensures
        ({
            let taken = decoder.begun(unit, shared, now);
            &&& taken.reply.step == DecodeStep::Decode
            &&& !taken.reply.invalidate
            &&& taken.reply.event is None
            &&& taken.decoder.skip is None
            &&& taken.decoder.has_session
            &&& taken.decoder.params is Some
            &&& (taken.decoder.params->0).1 == unit.params_id
            &&& taken.shared == shared
        }),
{
}

/// While a keyframe is waited for, and after a gap, a unit that is none is passed over. It counts
/// as dropped after an error or a gap, and not at the start, in a new session or after a pause.
pub proof fn lemma_units_before_a_keyframe_are_passed_over<F>(
    decoder: DecoderView,
    unit: UnitView,
    shared: SharedView<F>,
    now: Moment,
)
    requires
        !decoder.halted,
        unit.session == decoder.session_id,
        decoder.params is Some,
        (decoder.params->0).1 == unit.params_id,
        !unit.key,
        shared.stats.dropped_frames < u64::MAX,
    ensures
        ({
            let taken = decoder.begun(unit, shared, now);
            let dropped = taken.shared.stats.dropped_frames - shared.stats.dropped_frames;
            &&& decoder.skip is Some || unit.discontinuity ==> {
                &&& taken.reply.step == DecodeStep::Done
                &&& taken.decoder.skip is Some
                &&& taken.decoder.has_session == decoder.has_session
                &&& taken.shared.status == shared.status
            }
            &&& decoder.skip == Some(Skip::Start) ==> dropped == 0
            &&& decoder.skip == Some(Skip::Error) ==> dropped == 1
            &&& decoder.skip is None && unit.discontinuity ==> dropped == 1
        }),
{
}

/// A fresh decoder, a pause and another RTSP session wait for a keyframe without counting what is
/// passed over; another session also ends a halt and forgets earlier recreations. Within a
/// session a halt stays.
pub proof fn lemma_starts_wait_for_a_keyframe<F>(
    decoder: DecoderView,
    unit: UnitView,
    shared: SharedView<F>,
    now: Moment,
)
    ensures
        DecoderView::fresh().skip == Some(Skip::Start),
        !DecoderView::fresh().has_session && !DecoderView::fresh().has_format,
        decoder.paused().skip == Some(Skip::Start),
        !decoder.paused().has_session,
        decoder.paused().has_format == decoder.has_format,
        decoder.paused().halted == decoder.halted,
        unit.session != decoder.session_id && !unit.key && decoder.params is Some && (
        decoder.params->0).1 == unit.params_id ==> {
            let taken = decoder.begun(unit, shared, now);
            &&& taken.reply.step == DecodeStep::Done
            &&& !taken.decoder.halted
            &&& taken.decoder.session_id == unit.session
            &&& taken.decoder.recreates.len() == 0
            &&& taken.decoder.skip == Some(Skip::Start)
            &&& taken.shared == shared
        },
{
}

/// Parameters that were not seen before: a format description is asked for, unless one of them is
/// empty. That, and a refused description, ends decoding until the next RTSP session and asks for
/// a reconnect.
pub proof fn lemma_new_parameters_need_a_description<F>(
    decoder: DecoderView,
    unit: UnitView,
    code: i32,
    shared: SharedView<F>,
    now: Moment,
)
    requires
        !decoder.halted,
        unit.session == decoder.session_id,
        decoder.params is Some ==> (decoder.params->0).1 != unit.params_id && ((
        decoder.params->0).0.codec != unit.params.codec || (decoder.params->0).0.sets
            != unit.params.sets || !decoder.has_format),
    ensures
        ({
            let taken = decoder.begun(unit, shared, now);
            let refused = taken.decoder.with_description(unit, Err(code), shared, now);
            let empty = exists|i: int|
                0 <= i < unit.params.sets.len() && (#[trigger] unit.params.sets[i]).len() == 0;
            let failed = EventView::Failed {
                session: unit.session,
                reason: "Invalid video parameters"@,
            };
            &&& !empty ==> {
                &&& taken.reply.step == DecodeStep::Describe
                &&& taken.reply.event is None
                &&& !taken.decoder.halted
                &&& taken.decoder.params == Some((unit.params, unit.params_id))
                &&& refused.decoder.halted
                &&& !refused.decoder.has_session
                &&& refused.reply.event == Some(failed)
                &&& refused.reply.step == DecodeStep::Done
                &&& refused.reply.invalidate == decoder.has_session
            }
            &&& empty ==> {
                &&& taken.decoder.halted
                &&& !taken.decoder.has_session
                &&& taken.reply.event == Some(failed)
                &&& taken.reply.step == DecodeStep::Done
                &&& taken.reply.invalidate == decoder.has_session
            }
            &&& taken.shared == shared
        }),
{
}

/// With a description: the open session goes on where it accepts it, and is replaced where it does
/// not; without one a session is opened. So a keyframe is decoded in the end.
pub proof fn lemma_described_keyframe_is_decoded<F>(
    decoder: DecoderView,
    unit: UnitView,
    accepts: bool,
    shared: SharedView<F>,
    now: Moment,
)
    requires
        unit.key,
        unit.data.len() > 0,
    ensures
        ({
            let described = decoder.with_description(unit, Ok(accepts), shared, now);
            let opened = described.decoder.with_session(unit, Ok(()), shared, now);
            &&& described.decoder.has_format
            &&& decoder.has_session && accepts ==> described.reply.step == DecodeStep::Decode
                && !described.reply.invalidate
            &&& decoder.has_session && !accepts ==> described.reply.step == DecodeStep::Open
                && described.reply.invalidate && !described.decoder.has_session
            &&& !decoder.has_session ==> described.reply.step == DecodeStep::Open
                && !described.reply.invalidate
            &&& described.reply.step == DecodeStep::Open ==> opened.reply.step
                == DecodeStep::Decode && opened.decoder.has_session && opened.shared == shared
            &&& described.shared == shared
        }),
{
}

/// An error freezes a picture that was reported as live, counts one frame as dropped, and makes
/// decoding wait for a keyframe. The decompression session stays where only the data is at fault
/// (statuses -12909 and -17694) and is replaced on any other error: the next keyframe is decoded
/// in the old one, or a new one is opened for it.
pub proof fn lemma_errors_wait_for_a_keyframe<F>(
    decoder: DecoderView,
    decoded: Decoded,
    unit: UnitView,
    shared: SharedView<F>,
    later: SharedView<F>,
    now: Moment,
)
    requires
        decoded.status != 0 || decoded.output_status != 0 || decoded.output == Output::Panicked,
        decoder.has_session,
        decoder.has_format,
        !decoder.halted,
        decoder.recreates.len() == 0,
        decoder.params is Some,
        (decoder.params->0).1 == unit.params_id,
        unit.session == decoder.session_id,
        unit.key,
        unit.data.len() > 0,
        shared.stats.dropped_frames < u64::MAX,
    ensures
        ({
            let failed = decoder.with_output(decoded, shared, now);
            let next = failed.decoder.begun(unit, later, now);
            let code = if decoded.status != 0 {
                decoded.status
            } else {
                decoded.output_status
            };
            &&& failed.decoder.skip == Some(Skip::Error)
            &&& failed.reply.step == DecodeStep::Done
            &&& failed.reply.event is None
            &&& failed.shared.stats.dropped_frames == shared.stats.dropped_frames + 1
            &&& decoder.live && shared.status is Live ==> failed.shared.status
                == crate::shared::StatusView::WaitingKeyframe
            &&& !decoder.live || !(shared.status is Live) ==> failed.shared.status == shared.status
            &&& code == -12909 || code == -17694 ==> {
                &&& failed.decoder.has_session
                &&& !failed.reply.invalidate
                &&& next.reply.step == DecodeStep::Decode
            }
            &&& code != -12909 && code != -17694 ==> {
                &&& !failed.decoder.has_session
                &&& failed.reply.invalidate
                &&& failed.decoder.recreates == seq![now]
                &&& next.reply.step == DecodeStep::Open
            }
        }),
{
    assert(decoder.recreates.push(now) =~= seq![now]);
}

/// A failed attempt to open a session, and an empty unit, are errors that count towards the
/// reconnect like any other.
pub proof fn lemma_failed_opening_counts<F>(
    decoder: DecoderView,
    unit: UnitView,
    code: i32,
    shared: SharedView<F>,
    now: Moment,
)
    requires
        decoder.recreates.len() == 0,
        !decoder.halted,
    ensures
        ({
            let failed = decoder.with_session(unit, Err(code), shared, now);
            let empty = decoder.with_session(unit, Ok(()), shared, now);
            &&& failed.decoder.skip == Some(Skip::Error)
            &&& failed.decoder.recreates == seq![now]
            &&& !failed.decoder.has_session
            &&& !failed.decoder.halted
            &&& failed.reply.step == DecodeStep::Done
            &&& unit.data.len() == 0 ==> empty.decoder.skip == Some(Skip::Error)
                && empty.decoder.recreates == seq![now] && empty.reply.invalidate
                && empty.reply.step == DecodeStep::Done
        }),
{
    assert(decoder.recreates.push(now) =~= seq![now]);
}

/// Three recreations within thirty seconds, and no fewer, halt decoding and ask for a reconnect.
/// Recreations that lie further back do not count.
pub proof fn lemma_recreations_escalate_within_thirty_seconds<F>(
    decoder: DecoderView,
    shared: SharedView<F>,
    first: Moment,
    second: Moment,
    now: Moment,
)
    requires
        !decoder.halted,
        first.nanos <= second.nanos <= now.nanos,
    ensures
        decoder.recreates == seq![first, second] ==> {
            let failed = decoder.failing(shared, true, now);
            &&& failed.decoder.halted == (now.nanos - first.nanos <= 30_000_000_000)
            &&& failed.reply.event == (if now.nanos - first.nanos <= 30_000_000_000 {
                Some(
                    EventView::Failed { session: decoder.session_id, reason: "Decoder failure"@ },
                )
            } else {
                None
            })
            &&& now.nanos - second.nanos > 30_000_000_000 ==> failed.decoder.recreates
                == seq![now]
        },
        decoder.recreates == seq![second] ==> !decoder.failing(shared, true, now).decoder.halted
            && decoder.failing(shared, true, now).reply.event is None,
        !decoder.failing(shared, false, now).decoder.halted,
        decoder.failing(shared, false, now).decoder.recreates == decoder.recreates,
{
    reveal_with_fuel(recent, 3);
    assert(seq![first, second].skip(1) =~= seq![second]);
    assert(seq![second].skip(1) =~= Seq::<Moment>::empty());
    assert(Seq::<Moment>::empty().push(now) =~= seq![now]);
}

/// A picture that cannot be drawn ends decoding for good: the session is let go, and the camera is
/// not to be connected again by itself. A picture that is dropped or not to be shown changes
/// nothing.
pub proof fn lemma_undrawable_picture_is_fatal<F>(
    decoder: DecoderView,
    format: u32,
    shared: SharedView<F>,
    now: Moment,
)
    ensures
        ({
            let bad = decoder.with_output(
                Decoded { status: 0, output_status: 0, output: Output::BadFormat(format) },
                shared,
                now,
            );
            &&& bad.decoder.halted
            &&& !bad.decoder.has_session
            &&& bad.reply.invalidate == decoder.has_session
            &&& bad.reply.event is Some
            &&& bad.reply.event->0 is Fatal
            &&& bad.reply.event->0->Fatal_session == decoder.session_id
            &&& bad.shared == shared
        }),
        ({
            let none = decoder.with_output(
                Decoded { status: 0, output_status: 0, output: Output::NoImage },
                shared,
                now,
            );
            none.decoder == decoder && none.shared == shared && none.reply.event is None
        }),
{
}

/// A decoded picture is published exactly where it can be drawn: it is in the format of the code
/// 0x34323066 ('420f') in memory that the renderer can use, or the session's pictures were found
/// to be that before. A failed one is not looked at, and only a drawable one settles the question.
pub proof fn lemma_drawable_pictures_are_published(
    status: i32,
    image: Option<Image>,
    format_ok: bool,
)
    ensures
        judged(status, image, format_ok).0 == Output::Published <==> status == 0 && image is Some
            && (format_ok || (image->0.format == 0x3432_3066 && image->0.iosurface_backed)),
        status == 0 && image is None ==> judged(status, image, format_ok) == (
            Output::NoImage,
            format_ok,
        ),
        status != 0 ==> judged(status, image, format_ok) == (Output::Nothing, format_ok),
        status == 0 && image is Some && !format_ok && (image->0.format != 0x3432_3066
            || !image->0.iosurface_backed) ==> judged(status, image, format_ok) == (
            Output::BadFormat(image->0.format),
            false,
        ),
        judged(status, image, format_ok).0 == Output::Published ==> judged(
            status,
            image,
            format_ok,
        ).1,
{
}

proof fn lemma_code_bytes(code: u32, a: u8, b: u8, c: u8, d: u8)
    requires
        code == a as int * 0x100_0000 + b as int * 0x1_0000 + c as int * 0x100 + d as int,
    ensures
        code_bytes(code) == seq![a, b, c, d],
{
    assert(code / 0x100_0000 == a);
    assert((code / 0x1_0000) == a * 0x100 + b);
    assert((code / 0x100) == a * 0x1_0000 + b * 0x100 + c);
    assert(code_bytes(code) =~= seq![a, b, c, d]);
}

/// A code of four printing characters is written with them between quotes, and any other one in
/// eight hexadecimal digits.
pub proof fn lemma_printing_code_is_written_out(code: u32, a: u8, b: u8, c: u8, d: u8)
    requires
        code == a as int * 0x100_0000 + b as int * 0x1_0000 + c as int * 0x100 + d as int,
    ensures
        0x20 <= a <= 0x7e && 0x20 <= b <= 0x7e && 0x20 <= c <= 0x7e && 0x20 <= d <= 0x7e ==> {
            &&& fourcc(code).len() == 6
            &&& fourcc(code)[1] == a as char
            &&& fourcc(code)[2] == b as char
            &&& fourcc(code)[3] == c as char
            &&& fourcc(code)[4] == d as char
        },
        a < 0x20 || a > 0x7e || b < 0x20 || b > 0x7e || c < 0x20 || c > 0x7e || d < 0x20 || d > 0x7e
            ==> fourcc(code).len() == 10,
{
    lemma_code_bytes(code, a, b, c, d);
    reveal_strlit("'");
    reveal_strlit("0x");
    let bytes = code_bytes(code);
    assert(bytes[0] == a && bytes[1] == b && bytes[2] == c && bytes[3] == d);
    crate::camera::lemma_hex_len(code as nat, 8);
}

/// The access units that wait for their playout time. With smoothing on, compressed units are
/// held (never decoded pictures), so that bursts are shown at the camera's own cadence.
pub struct Playout {
    pacer: Pacer,
    smoothing: bool,
    held: VecDeque<(AccessUnit, Moment)>,
}

/// What a [`Playout`] holds.
pub struct PlayoutView {
    pub pacer: PacerView,
    pub smoothing: bool,
    /// The held units, each with the moment when it is due.
    pub held: Seq<(AccessUnit, Moment)>,
}

impl View for Playout {
    type V = PlayoutView;

    closed spec fn view(&self) -> PlayoutView {
        PlayoutView {
            pacer: self.pacer.state(),
            smoothing: self.smoothing,
            held: self.held@,
        }
    }
}

/// The units among held ones, in their order.
pub open spec fn units_of(held: Seq<(AccessUnit, Moment)>) -> Seq<AccessUnit> {
    held.map_values(|entry: (AccessUnit, Moment)| entry.0)
}

impl PlayoutView {
    /// Whether the decoder fell behind: the oldest unit arrived too long ago.
    pub open spec fn behind(self, now: Moment) -> bool {
        self.held.len() > 0 && now.elapsed_since(self.held[0].0.arrival) > MAX_BACKLOG
    }

    /// Whether every held unit is to be decoded now.
    pub open spec fn flushes(self, now: Moment) -> bool {
        !self.smoothing || self.behind(now)
    }

    /// The pacing after a unit.
    pub open spec fn paced(self, unit: AccessUnit) -> PacerView {
        self.pacer.prepared(unit).paced(unit.arrival, unit.media_ts)
    }

    /// When a unit is due.
    pub open spec fn due(self, unit: AccessUnit) -> Moment {
        self.paced(unit).due_at(unit.media_ts)
    }

    /// Whether a unit is not held at all.
    pub open spec fn hands_on(self, unit: AccessUnit, stopped: bool, now: Moment) -> bool {
        !self.smoothing || stopped || (self.held.len() == 0 && self.due(unit).nanos <= now.nanos)
    }

    /// After a unit was taken in.
    pub open spec fn accepting(self, unit: AccessUnit, stopped: bool, now: Moment) -> PlayoutView {
        if !self.smoothing || stopped {
            self
        } else if self.hands_on(unit, stopped, now) {
            PlayoutView { pacer: self.paced(unit), ..self }
        } else {
            PlayoutView {
                pacer: self.paced(unit),
                held: self.held.push((unit, self.due(unit))),
                ..self
            }
        }
    }

    /// With smoothing on or off.
    pub open spec fn switched(self, enabled: bool) -> PlayoutView {
        PlayoutView {
            smoothing: enabled,
            pacer: if enabled != self.smoothing {
                self.pacer.cleared()
            } else {
                self.pacer
            },
            ..self
        }
    }

    /// The units to be decoded now.
    pub open spec fn let_go(self, now: Moment) -> Seq<AccessUnit> {
        units_of(self.held.take(self.due_count(now) as int))
    }

    /// After they were taken out.
    pub open spec fn waiting(self, now: Moment) -> PlayoutView {
        PlayoutView {
            held: self.held.skip(self.due_count(now) as int),
            pacer: if self.behind(now) {
                self.pacer.cleared()
            } else {
                self.pacer
            },
            ..self
        }
    }

    /// When the next unit is due.
    pub open spec fn next_due(self) -> Option<Moment> {
        if self.held.len() > 0 {
            Some(self.held[0].1)
        } else {
            None
        }
    }

    /// How many of the held units are to be decoded now: all of them when the held ones are
    /// flushed, and else those up to the first one that is not due yet.
    pub open spec fn due_count(self, now: Moment) -> nat {
        if self.flushes(now) {
            self.held.len()
        } else {
            due_prefix(self.held, now)
        }
    }
}

/// How many units there are up to the first one that is not due yet.
pub open spec fn due_prefix(held: Seq<(AccessUnit, Moment)>, now: Moment) -> nat
    decreases held.len(),
{
    if held.len() > 0 && held[0].1.nanos <= now.nanos {
        1 + due_prefix(held.skip(1), now)
    } else {
        0
    }
}

proof fn lemma_due_prefix_bound(held: Seq<(AccessUnit, Moment)>, now: Moment)
    ensures
        due_prefix(held, now) <= held.len(),
        forall|i: int| 0 <= i < due_prefix(held, now) ==> (#[trigger] held[i]).1.nanos <= now.nanos,
        due_prefix(held, now) < held.len() ==> held[due_prefix(held, now) as int].1.nanos
            > now.nanos,
    decreases held.len(),
{
    if held.len() > 0 && held[0].1.nanos <= now.nanos {
        lemma_due_prefix_bound(held.skip(1), now);
        assert forall|i: int| 0 <= i < due_prefix(held, now) implies (#[trigger] held[i]).1.nanos
            <= now.nanos by {
            if i > 0 {
                assert(held.skip(1)[i - 1] == held[i]);
            }
        }
    }
}

impl Playout {
    /// The pacing is in order.
    pub closed spec fn wf(self) -> bool {
        self.pacer.state().wf()
    }

    pub fn new() -> (res: Playout)
        ensures
            res.wf(),
            res@ == (PlayoutView {
                pacer: PacerView {
                    epoch: None,
                    offset: 0,
                    last_arrival: 0,
                    session: 0,
                    params: None,
                },
                smoothing: false,
                held: Seq::empty(),
            }),
    {
        Playout {
            pacer: Pacer::new(),
            smoothing: false,
            held: VecDeque::with_capacity(WARMUP_QUEUE_CAPACITY),
        }
    }

    /// Turns smoothing on or off. A change starts the pacing over.
    pub fn set_smoothing(&mut self, enabled: bool)
        requires
            old(self).wf(),
        ensures
            final(self).wf(),
            final(self)@ == old(self)@.switched(enabled),
    {
        if enabled != self.smoothing {
            self.smoothing = enabled;
            self.pacer.reset();
        }
    }

    /// Takes out the units to be decoded now, oldest first.
    pub fn take_due(&mut self, now: Moment) -> (res: Vec<AccessUnit>)
        requires
            old(self).wf(),
        ensures
            final(self).wf(),
            res@ == old(self)@.let_go(now),
            final(self)@ == old(self)@.waiting(now),
    {
        let ghost before = self@;
        let ghost all = self.held@;
        let mut out: Vec<AccessUnit> = Vec::new();
        let behind: bool = self.held.len() > 0 && now.since(self.held[0].0.arrival) > MAX_BACKLOG;
        if behind {
            self.pacer.reset();
        }
        let ghost pacer = self.pacer.state();
        let flush: bool = !self.smoothing || behind;
        let ghost count = before.due_count(now);
        proof {
            lemma_due_prefix_bound(all, now);
        }
        assert(units_of(all.take(0)) =~= Seq::<AccessUnit>::empty());
        assert(all.skip(0) =~= all);
        while self.held.len() > 0 && (flush || self.held[0].1.nanos <= now.nanos)
            invariant
                flush == before.flushes(now),
                all == before.held,
                count == before.due_count(now),
                count <= all.len(),
                !flush ==> count == due_prefix(all, now),
                flush ==> count == all.len(),
                out@.len() <= count,
                self.held@ == all.skip(out@.len() as int),
                out@ == units_of(all.take(out@.len() as int)),
                self.smoothing == before.smoothing,
                self.pacer.state() == pacer,
                pacer.wf(),
                forall|i: int|
                    0 <= i < due_prefix(all, now) ==> (#[trigger] all[i]).1.nanos <= now.nanos,
                due_prefix(all, now) < all.len() ==> all[due_prefix(all, now) as int].1.nanos
                    > now.nanos,
            decreases self.held@.len(),
        {
            let ghost n = out@.len() as int;
            assert(self.held@[0] == all[n]);
            match self.held.pop_front() {
                Some((unit, _)) => {
                    out.push(unit);
                    assert(self.held@ =~= all.skip(n + 1));
                    assert(units_of(all.take(n + 1)) =~= units_of(all.take(n)).push(all[n].0));
                },
                None => {},
            }
        }
        proof {
            let n = out@.len() as int;
            if n < count {
                assert(self.held@[0] == all[n]);
            }
        }
        out
    }

    /// When the next unit is due.
    pub fn next_due(&self) -> (res: Option<Moment>)
        ensures
            res == self@.next_due(),
    {
        if self.held.len() > 0 {
            Some(self.held[0].1)
        } else {
            None
        }
    }

    /// Takes in a unit: hands it back if it is not to be held. While smoothing it is held until
    /// it is due, unless it is the only one and due already.
    pub fn accept(&mut self, unit: AccessUnit, stopped: bool, now: Moment) -> (res: Option<
        AccessUnit,
    >)
        requires
            old(self).wf(),
        ensures
            final(self).wf(),
            res == (if old(self)@.hands_on(unit, stopped, now) {
                Some(unit)
            } else {
                None
            }),
            final(self)@ == old(self)@.accepting(unit, stopped, now),
    {
        if !self.smoothing || stopped {
            return Some(unit);
        }
        let due = self.pacer.due(&unit);
        if self.held.len() == 0 && due.nanos <= now.nanos {
            Some(unit)
        } else {
            self.held.push_back((unit, due));
            None
        }
    }

    /// Lets go of every held unit, because decoding pauses. How many there were.
    pub fn pause(&mut self) -> (res: usize)
        requires
            old(self).wf(),
        ensures
            final(self).wf(),
            res == old(self)@.held.len(),
            final(self)@ == (PlayoutView {
                held: Seq::empty(),
                pacer: old(self)@.pacer.cleared(),
                ..old(self)@
            }),
    {
        let count: usize = self.held.len();
        self.held.clear();
        self.pacer.reset();
        count
    }
}

/// Nothing is held back without smoothing, and nothing for long with it: when the oldest unit
/// has waited for more than the allowed backlog, all go. Whatever is not flushed and stays is
/// not due yet at the front.
pub proof fn lemma_nothing_is_held_for_long(playout: PlayoutView, now: Moment)
    ensures
        !playout.smoothing ==> playout.due_count(now) == playout.held.len(),
        playout.behind(now) ==> playout.due_count(now) == playout.held.len(),
        playout.due_count(now) <= playout.held.len(),
        playout.due_count(now) < playout.held.len() ==> playout.held[playout.due_count(
            now,
        ) as int].1.nanos > now.nanos,
{
    lemma_due_prefix_bound(playout.held, now);
}

/// Without smoothing, and once the camera's handle is gone, every unit is handed on at once.
/// With it no unit overtakes another: while some are held the next one is held behind them, and
/// none is held that is due already and has nothing in front.
pub proof fn lemma_units_stay_in_order(playout: PlayoutView, unit: AccessUnit, now: Moment)
    ensures
        !playout.smoothing ==> playout.hands_on(unit, false, now) && playout.accepting(
            unit,
            false,
            now,
        ) == playout,
        playout.hands_on(unit, true, now) && playout.accepting(unit, true, now) == playout,
        playout.smoothing && playout.held.len() > 0 ==> {
            let next = playout.accepting(unit, false, now);
            &&& !playout.hands_on(unit, false, now)
            &&& next.held.len() == playout.held.len() + 1
            &&& next.held.drop_last() == playout.held
            &&& next.held.last().0 == unit
        },
        playout.smoothing && playout.held.len() == 0 ==> {
            let next = playout.accepting(unit, false, now);
            &&& playout.hands_on(unit, false, now) ==> next.held.len() == 0
            &&& !playout.hands_on(unit, false, now) ==> next.held.len() == 1 && next.held[0].0
                == unit && next.held[0].1.nanos > now.nanos
        },
{
    if playout.smoothing && playout.held.len() > 0 {
        let next = playout.accepting(unit, false, now);
        assert(next.held.drop_last() =~= playout.held);
    }
}

/// A unit is held for at most 150 ms after it arrived, and for exactly that where the pacing
/// starts over: at the first unit, in another session, with other parameters and after a gap.
pub proof fn lemma_units_are_held_for_150_ms_at_most(playout: PlayoutView, unit: AccessUnit)
    requires
        playout.pacer.epoch is Some ==> playout.pacer.epoch->0.nanos <= unit.arrival.nanos,
        unit.arrival.nanos + 150_000_000 <= u64::MAX,
    ensures
        playout.due(unit).nanos <= unit.arrival.nanos + 150_000_000,
        playout.pacer.epoch is None || unit.discontinuity || unit.session != playout.pacer.session
            || playout.pacer.params != Some(unit.params_id) ==> playout.due(unit).nanos
            == unit.arrival.nanos + 150_000_000,
{
    let pacer = playout.pacer.prepared(unit);
    timing::lemma_never_held_longer_than_delay(pacer, unit.arrival, unit.media_ts);
    if pacer.epoch is None {
        timing::lemma_resync_is_due_after_delay(pacer, unit.arrival, unit.media_ts);
    }
}

/// What is let go is due, in the order in which it came, and nothing that is due at the front
/// stays; but without smoothing, and when the oldest unit arrived more than a second ago, all goes.
pub proof fn lemma_due_units_are_let_go(playout: PlayoutView, now: Moment)
    ensures
        playout.held.len() > 0 && (!playout.smoothing || now.nanos
            - playout.held[0].0.arrival.nanos > 1_000_000_000) ==> playout.due_count(now)
            == playout.held.len(),
        playout.smoothing && playout.held.len() > 0 && now.nanos
            - playout.held[0].0.arrival.nanos <= 1_000_000_000 ==> {
            &&& forall|i: int|
                0 <= i < playout.due_count(now) ==> (#[trigger] playout.held[i]).1.nanos
                    <= now.nanos
            &&& playout.due_count(now) < playout.held.len() ==> playout.held[playout.due_count(
                now,
            ) as int].1.nanos > now.nanos
        },
        playout.due_count(now) <= playout.held.len(),
{
    lemma_due_prefix_bound(playout.held, now);
}

/// What is let go and what still waits are together what was held, in its order: nothing is lost
/// and nothing is decoded twice. With smoothing off, and when the oldest unit came more than a
/// second ago, nothing waits any more; a decoder that fell behind is paced anew.
pub proof fn lemma_held_units_are_let_go_once(playout: PlayoutView, now: Moment, i: int)
    requires
        0 <= i < playout.held.len(),
    ensures
        ({
            let gone = playout.let_go(now);
            let left = playout.waiting(now).held;
            &&& gone.len() + left.len() == playout.held.len()
            &&& i < gone.len() ==> gone[i] == playout.held[i].0
            &&& i >= gone.len() ==> left[i - gone.len()] == playout.held[i]
            &&& !playout.smoothing ==> left.len() == 0
            &&& now.nanos > playout.held[0].0.arrival.nanos + 1_000_000_000 ==> left.len() == 0
                && playout.waiting(now).pacer == playout.pacer.cleared()
            &&& now.nanos <= playout.held[0].0.arrival.nanos + 1_000_000_000 ==> playout.waiting(
                now,
            ).pacer == playout.pacer
            &&& playout.waiting(now).smoothing == playout.smoothing
            &&& left.len() > 0 ==> playout.waiting(now).next_due() == Some(left[0].1)
                && left[0].1.nanos > now.nanos
            &&& left.len() == 0 ==> playout.waiting(now).next_due() is None
        }),
{
    lemma_due_prefix_bound(playout.held, now);
}

/// Switching smoothing on or off starts the pacing over; being told the same again does not. Held
/// units stay held.
pub proof fn lemma_switching_starts_the_pacing_over(playout: PlayoutView, enabled: bool)
    ensures
        playout.switched(enabled).smoothing == enabled,
        playout.switched(enabled).held == playout.held,
        playout.switched(!playout.smoothing).pacer == playout.pacer.cleared(),
        playout.switched(playout.smoothing) == playout,
{
}

/// A queue takes as many units as it has room for: one more below its capacity, none at it.
pub proof fn lemma_queue_takes_what_it_has_room_for(in_flight: int, capacity: int)
    ensures
        in_flight + 1 <= capacity ==> has_room(in_flight, capacity),
        in_flight >= capacity ==> !has_room(in_flight, capacity),
{
}

/// The pacing follows every unit while smoothing is on, whether it is held or handed on.
pub proof fn lemma_pacing_follows_every_unit(
    playout: PlayoutView,
    unit: AccessUnit,
    stopped: bool,
    now: Moment,
)
    ensures
        playout.smoothing && !stopped ==> playout.accepting(unit, stopped, now).pacer
            == playout.pacer.prepared(unit).paced(unit.arrival, unit.media_ts),
        !playout.smoothing || stopped ==> playout.accepting(unit, stopped, now) == playout,
        playout.accepting(unit, stopped, now).smoothing == playout.smoothing,
{
}

/// Decoding starts without parameters or a session, ready for units, and waits for a keyframe.
pub proof fn lemma_decoding_starts_ready()
    ensures
        ({
            let decoder = DecoderView::fresh();
            &&& !decoder.halted && !decoder.live
            &&& !decoder.has_format && !decoder.has_session && decoder.params is None
            &&& decoder.skip == Some(Skip::Start)
            &&& decoder.recreates.len() == 0
        }),
{
}

/// A unit is in error exactly when the call was refused, its output came with an error, or its
/// output was lost in a panic, which counts as a broken decoder; the first of these is told.
pub proof fn lemma_which_error_is_told(decoded: Decoded)
    ensures
        decoded.status != 0 ==> error_of(decoded) == Some(decoded.status),
        decoded.status == 0 && decoded.output_status != 0 ==> error_of(decoded) == Some(
            decoded.output_status,
        ),
        decoded.status == 0 && decoded.output_status == 0 && decoded.output == Output::Panicked
            ==> error_of(decoded) is Some && error_of(decoded)->0 == -12911,
        decoded.status == 0 && decoded.output_status == 0 && decoded.output != Output::Panicked
            ==> error_of(decoded) is None,
{
}

}
