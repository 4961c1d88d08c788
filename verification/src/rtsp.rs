//! RTSP session setup: the address and credentials of a request, the choice of the video stream,
//! the codec parameters, and the one-shot connection test.
use std::sync::Arc;

use vstd::prelude::*;
use vstd::string::*;

use crate::camera::{CameraConfig, CameraView, Secret};
use crate::clock::SECOND;
use crate::policy::{Failure, FailureKind};
use crate::single;
use crate::text;

verus! {

/// A connection that takes longer than this has failed.
pub const CONNECT_TIMEOUT: u64 = 10_000_000_000;

/// The failure of a connection that took longer than [`CONNECT_TIMEOUT`].
pub fn connect_timeout() -> (res: Failure)
    ensures
        res.kind == FailureKind::Retry,
        res.reason@ == "Timed out while connecting"@,
{
    Failure::retry("Timed out while connecting")
}

/// A session without a video frame for this long has failed.
pub const FRAME_TIMEOUT: u64 = 10_000_000_000;

/// How long to wait for a session to be torn down.
pub const TEARDOWN_WAIT: u64 = 2_000_000_000;

#[derive(Clone, Copy, Debug, PartialEq, Eq, Structural)]
pub enum Codec {
    H264,
    H265,
}

impl Codec {
    /// The name of the codec.
    pub open spec fn name(self) -> Seq<char> {
        match self {
            Codec::H264 => "H.264"@,
            Codec::H265 => "H.265"@,
        }
    }

    pub fn label(self) -> (res: &'static str)
        ensures
            res@ == self.name(),
    {
        match self {
            Codec::H264 => "H.264",
            Codec::H265 => "H.265",
        }
    }
}

/// Everything the decoder needs to describe the format of the video.
pub struct CodecParams {
    pub codec: Codec,
    /// Raw parameter-set NAL units (with NAL header, no start code or length prefix):
    /// H.264 `[sps, pps]`, H.265 `[vps, sps, pps]`.
    pub sets: Vec<Vec<u8>>,
    pub width: u32,
    pub height: u32,
}

/// What [`CodecParams`] say.
pub struct ParamsView {
    pub codec: Codec,
    pub sets: Seq<Seq<u8>>,
    pub width: u32,
    pub height: u32,
}

/// The bytes of each parameter set.
pub open spec fn bytes_of(sets: Seq<Vec<u8>>) -> Seq<Seq<u8>> {
    sets.map_values(|s: Vec<u8>| s@)
}

impl View for CodecParams {
    type V = ParamsView;

    open spec fn view(&self) -> ParamsView {
        ParamsView {
            codec: self.codec,
            sets: bytes_of(self.sets@),
            width: self.width,
            height: self.height,
        }
    }
}

/// Tells apart the parameters that a camera announced one after the other. Two announcements are
/// two ids, also where they say the same.
#[derive(Clone, Copy, Debug, PartialEq, Eq, Structural)]
pub struct ParamsId {
    /// Number of the RTSP session.
    pub session: u32,
    /// Number of the announcement within the session.
    pub index: u64,
}

/// `Arc::clone`: the clone points to the same parameters.
#[verifier::external_body]
pub(crate) fn share(params: &Arc<CodecParams>) -> (res: Arc<CodecParams>)
    ensures
        *res == **params,
{
    params.clone()
}

/// The codec-specific part of a stream's parameters, as the camera announced it.
pub enum VideoCodec {
    H264 { sps: Vec<u8>, pps: Vec<u8> },
    H265 { vps: Vec<u8>, sps: Vec<u8>, pps: Vec<u8> },
    /// A codec that is not decoded here.
    Other,
}

/// The parameters of a video stream, as the camera announced them.
pub struct VideoInfo {
    pub codec: VideoCodec,
    pub width: u32,
    pub height: u32,
    /// Duration of one frame as a fraction of a second: numerator and denominator.
    pub frame_rate: Option<(u32, u32)>,
}

/// The decoder parameters of a stream; none for a codec that is not decoded.
pub open spec fn params_of(video: VideoInfo) -> Option<ParamsView> {
    match video.codec {
        VideoCodec::H264 { sps, pps } => Some(
            ParamsView {
                codec: Codec::H264,
                sets: seq![sps@, pps@],
                width: video.width,
                height: video.height,
            },
        ),
        VideoCodec::H265 { vps, sps, pps } => Some(
            ParamsView {
                codec: Codec::H265,
                sets: seq![vps@, sps@, pps@],
                width: video.width,
                height: video.height,
            },
        ),
        VideoCodec::Other => None,
    }
}

/// A copy of some bytes.
fn copy_bytes(bytes: &Vec<u8>) -> (res: Vec<u8>)
    ensures
        res@ == bytes@,
{
    let mut out: Vec<u8> = Vec::new();
    let mut i: usize = 0;
    while i < bytes.len()
        invariant
            i <= bytes@.len(),
            out@ == bytes@.take(i as int),
        decreases bytes@.len() - i,
    {
        out.push(bytes[i]);
        assert(bytes@.take(i + 1) =~= bytes@.take(i as int).push(bytes@[i as int]));
        i = i + 1;
    }
    assert(bytes@.take(i as int) =~= bytes@);
    out
}

/// Whether two byte strings are the same.
fn same_bytes(a: &Vec<u8>, b: &Vec<u8>) -> (res: bool)
    ensures
        res == (a@ == b@),
{
    if a.len() != b.len() {
        return false;
    }
    let mut i: usize = 0;
    while i < a.len()
        invariant
            a@.len() == b@.len(),
            i <= a@.len(),
            forall|k: int| 0 <= k < i ==> a@[k] == b@[k],
        decreases a@.len() - i,
    {
        if a[i] != b[i] {
            return false;
        }
        i = i + 1;
    }
    assert(a@ =~= b@);
    true
}

impl ParamsView {
    /// Whether the format description of the one serves for the other.
    pub open spec fn same_format(self, other: ParamsView) -> bool {
        self.codec == other.codec && self.sets == other.sets
    }

    /// Whether a format description can be asked for: no parameter set is empty.
    pub open spec fn complete(self) -> bool {
        forall|i: int| 0 <= i < self.sets.len() ==> (#[trigger] self.sets[i]).len() > 0
    }
}

impl CodecParams {
    pub fn from_video(video: &VideoInfo) -> (res: Option<CodecParams>)
        ensures
            match params_of(*video) {
                Some(params) => res is Some && (res->0)@ == params,
                None => res is None,
            },
    {
        let mut sets: Vec<Vec<u8>> = Vec::new();
        let codec = match &video.codec {
            VideoCodec::H264 { sps, pps } => {
                sets.push(copy_bytes(sps));
                sets.push(copy_bytes(pps));
                assert(bytes_of(sets@) =~= seq![sps@, pps@]);
                Codec::H264
            },
            VideoCodec::H265 { vps, sps, pps } => {
                sets.push(copy_bytes(vps));
                sets.push(copy_bytes(sps));
                sets.push(copy_bytes(pps));
                assert(bytes_of(sets@) =~= seq![vps@, sps@, pps@]);
                Codec::H265
            },
            VideoCodec::Other => {
                return None;
            },
        };
        Some(CodecParams { codec, sets, width: video.width, height: video.height })
    }

    /// Whether the format description of the one serves for the other.
    pub fn has_format_of(&self, other: &CodecParams) -> (res: bool)
        ensures
            res == self@.same_format(other@),
    {
        if self.codec != other.codec {
            return false;
        }
        if self.sets.len() != other.sets.len() {
            assert(self@.sets.len() != other@.sets.len());
            return false;
        }
        let mut i: usize = 0;
        while i < self.sets.len()
            invariant
                self.codec == other.codec,
                self.sets@.len() == other.sets@.len(),
                i <= self.sets@.len(),
                forall|k: int| 0 <= k < i ==> self@.sets[k] == other@.sets[k],
            decreases self.sets@.len() - i,
        {
            if !same_bytes(&self.sets[i], &other.sets[i]) {
                assert(self@.sets[i as int] != other@.sets[i as int]);
                return false;
            }
            assert(self@.sets[i as int] == other@.sets[i as int]);
            i = i + 1;
        }
        assert(self@.sets =~= other@.sets);
        true
    }

    /// Whether a format description can be asked for: no parameter set is empty.
    pub fn is_complete(&self) -> (res: bool)
        ensures
            res == self@.complete(),
    {
        let mut i: usize = 0;
        while i < self.sets.len()
            invariant
                i <= self.sets@.len(),
                forall|k: int| 0 <= k < i ==> (#[trigger] self@.sets[k]).len() > 0,
            decreases self.sets@.len() - i,
        {
            assert(self@.sets[i as int] == self.sets@[i as int]@);
            if self.sets[i].len() == 0 {
                return false;
            }
            i = i + 1;
        }
        true
    }
}

/// Whether a text is an address in the sense of the URL standard.
pub uninterp spec fn url_parses(s: Seq<char>) -> bool;

/// `url::Url::parse`: whether it accepts the text depends on the text alone.
#[verifier::external_body]
fn is_url(s: &str) -> (res: bool)
    ensures
        res == url_parses(s@),
{
    url::Url::parse(s).is_ok()
}

/// User name and password for a camera.
pub struct Credentials {
    pub username: String,
    pub password: Secret,
}

/// What is asked of a camera: its address, without credentials, and the credentials.
pub struct Request {
    pub url: String,
    pub credentials: Option<Credentials>,
}

/// Whether `res` is the request to `camera`: refused for good when the address does not parse,
/// and with credentials exactly when there is a user name.
pub open spec fn requests(
    res: Result<Request, Failure>,
    camera: CameraView,
    address_parses: bool,
) -> bool {
    match res {
        Ok(request) => {
            &&& address_parses
            &&& request.url@ == camera.url()
            &&& match request.credentials {
                Some(credentials) => {
                    &&& camera.username.len() > 0
                    &&& credentials.username@ == camera.username
                    &&& credentials.password@ == camera.password
                },
                None => camera.username.len() == 0,
            }
        },
        Err(failure) => {
            &&& !address_parses
            &&& failure.kind == FailureKind::Fatal
            &&& failure.reason@ == "Invalid address"@
        },
    }
}

/// The request to `camera`, given whether its address parses.
pub fn request_for(camera: &CameraConfig, address_parses: bool) -> (res: Result<Request, Failure>)
    ensures
        requests(res, camera@, address_parses),
{
    if !address_parses {
        return Err(Failure::fatal("Invalid address"));
    }
    let credentials = if camera.username.as_str().is_empty() {
        None
    } else {
        Some(
            Credentials { username: camera.username.clone(), password: camera.password.clone() },
        )
    };
    Ok(Request { url: camera.rtsp_url(), credentials })
}

/// The request to `camera`.
pub fn request(camera: &CameraConfig) -> (res: Result<Request, Failure>)
    ensures
        requests(res, camera@, url_parses(camera@.url())),
{
    let url = camera.rtsp_url();
    request_for(camera, is_url(url.as_str()))
}

/// A stream that a camera offers.
pub struct StreamInfo {
    pub media: String,
    pub encoding_name: String,
    /// Announced frames per second, in millionths.
    pub framerate: Option<u64>,
}

/// The codec with this name in lower case, if it is decoded here.
pub open spec fn codec_named(name: Seq<char>) -> Option<Codec> {
    if name == "h264"@ {
        Some(Codec::H264)
    } else if name == "h265"@ {
        Some(Codec::H265)
    } else {
        None
    }
}

/// The codec of a stream, if it is a video stream of a codec that is decoded here.
pub open spec fn stream_codec(stream: StreamInfo) -> Option<Codec> {
    if stream.media@ == "video"@ {
        codec_named(text::ascii_lower(stream.encoding_name@))
    } else {
        None
    }
}

/// The first of the first `n` video streams whose codec is not decoded here, by its name.
pub open spec fn first_unsupported(streams: Seq<StreamInfo>, n: int) -> Option<Seq<char>>
    decreases n,
{
    if n <= 0 {
        None
    } else {
        match first_unsupported(streams, n - 1) {
            Some(name) => Some(name),
            None => if streams[n - 1].media@ == "video"@ && stream_codec(streams[n - 1]) is None {
                Some(text::uppercase(text::ascii_lower(streams[n - 1].encoding_name@)))
            } else {
                None
            },
        }
    }
}

/// The announced rate, unless it is zero.
pub open spec fn positive(rate: Option<u64>) -> Option<u64> {
    match rate {
        Some(rate) if rate > 0 => Some(rate),
        _ => None,
    }
}

/// Whether `res` is the choice among these streams.
pub open spec fn picks(
    streams: Seq<StreamInfo>,
    res: Result<(usize, Codec, Option<u64>), Failure>,
) -> bool {
    match res {
        Ok((i, codec, rate)) => {
            &&& i < streams.len()
            &&& stream_codec(streams[i as int]) == Some(codec)
            &&& rate == positive(streams[i as int].framerate)
            &&& forall|j: int| 0 <= j < i ==> stream_codec(#[trigger] streams[j]) is None
        },
        Err(failure) => {
            &&& forall|j: int|
                0 <= j < streams.len() ==> stream_codec(#[trigger] streams[j]) is None
            &&& failure.kind == FailureKind::Fatal
            &&& failure.reason@ == match first_unsupported(streams, streams.len() as int) {
                Some(name) => "Unsupported video codec: "@ + name,
                None => "Camera has no video stream"@,
            }
        },
    }
}

/// The position, codec and announced rate of the stream to play: the first video stream of a
/// codec that is decoded. Without one, the failure names the first codec that is not.
pub fn pick_video(streams: &Vec<StreamInfo>) -> (res: Result<(usize, Codec, Option<u64>), Failure>)
    ensures
        picks(streams@, res),
{
    let mut unsupported: Option<String> = None;
    let mut i: usize = 0;
    while i < streams.len()
        invariant
            i <= streams@.len(),
            forall|j: int| 0 <= j < i ==> stream_codec(#[trigger] streams@[j]) is None,
            match first_unsupported(streams@, i as int) {
                Some(name) => unsupported is Some && (unsupported->0)@ == name,
                None => unsupported is None,
            },
        decreases streams@.len() - i,
    {
        let stream = &streams[i];
        if text::same_text(stream.media.as_str(), "video") {
            let lower = text::to_ascii_lowercase(stream.encoding_name.as_str());
            let rate = match stream.framerate {
                Some(rate) if rate > 0 => Some(rate),
                _ => None,
            };
            if text::same_text(lower.as_str(), "h264") {
                return Ok((i, Codec::H264, rate));
            }
            if text::same_text(lower.as_str(), "h265") {
                return Ok((i, Codec::H265, rate));
            }
            if unsupported.is_none() {
                unsupported = Some(lower.as_str().to_uppercase());
            }
        }
        i = i + 1;
    }
    match unsupported {
        Some(name) => {
            let mut reason = "Unsupported video codec: ".to_owned();
            reason.append(name.as_str());
            Err(Failure { kind: FailureKind::Fatal, reason })
        },
        None => Err(Failure::fatal("Camera has no video stream")),
    }
}

/// Result of a one-shot connection test.
pub struct ProbeInfo {
    pub codec: String,
    pub width: u32,
    pub height: u32,
    /// Frames per second, in tenths.
    pub fps: Option<u64>,
}

/// Frames whose timestamps are enough to measure the rate.
pub const SAMPLE_FRAMES: usize = 15;

/// A connection test: what it has seen of the stream so far. Never retries.
pub struct Probe {
    pub codec: Codec,
    /// Position of the stream that is played.
    pub stream: usize,
    /// Announced frames per second, in millionths.
    pub sdp_fps: Option<u64>,
    pub first_ts: Option<i64>,
    pub last_ts: i64,
    pub frames: usize,
    /// Size of the picture, once a frame came with parameters.
    pub size: Option<(u32, u32)>,
    /// Duration of one frame in the parameters, if there is one.
    pub sps_rate: Option<(u32, u32)>,
}

/// What a connection test is told.
pub enum ProbeItem {
    /// A video frame of stream `stream`, with its media timestamp in nanoseconds and the size and
    /// frame duration in the stream's parameters, if it has parameters.
    Frame { stream: usize, media_ts: i64, video: Option<(u32, u32, Option<(u32, u32)>)> },
    /// Anything that is not a video frame.
    Other,
    Failed(Failure),
    Ended,
    TimedOut,
}

/// The fraction, unless it is no duration.
pub open spec fn duration(rate: Option<(u32, u32)>) -> Option<(u32, u32)> {
    match rate {
        Some((n, d)) if n > 0 && d > 0 => Some((n, d)),
        _ => None,
    }
}

impl Probe {
    /// The first frame brings the picture size, and timestamps are kept from then on.
    pub open spec fn wf(self) -> bool {
        &&& self.frames < SAMPLE_FRAMES
        &&& self.size is Some == (self.frames > 0)
        &&& self.first_ts is Some == (self.frames > 0)
        &&& self.sps_rate == duration(self.sps_rate)
        &&& self.sdp_fps == positive(self.sdp_fps)
    }

    /// Frames per second in single precision: measured on the timestamps where possible, because
    /// cameras announce stale rates; then as announced; then from the parameters.
    pub open spec fn rate(self) -> Option<nat> {
        if self.frames >= 2 && self.first_ts is Some && self.last_ts > self.first_ts->0 {
            Some(
                single::rounded(
                    ((self.frames - 1) * SECOND * single::ONE) as nat,
                    (self.last_ts - self.first_ts->0) as nat,
                ),
            )
        } else if self.sdp_fps is Some {
            Some(single::rounded(self.sdp_fps->0 as nat * single::ONE as nat, 1_000_000))
        } else {
            match self.sps_rate {
                Some((n, d)) => Some(single::quotient(d as nat, n as nat)),
                None => None,
            }
        }
    }

    /// Whether `info` is what the test has found.
    pub open spec fn found(self, info: ProbeInfo) -> bool {
        &&& info.codec@ == self.codec.name()
        &&& self.size == Some((info.width, info.height))
        &&& match info.fps {
            Some(fps) => self.rate() is Some && fps == single::nearest_tenths(self.rate()->0),
            None => self.rate() is None,
        }
    }

    /// The test after one more item.
    pub open spec fn after(self, item: ProbeItem) -> Probe {
        match item {
            ProbeItem::Frame { stream, media_ts, video } => {
                if stream != self.stream || (self.size is None && video is None) {
                    self
                } else {
                    Probe {
                        first_ts: Some(
                            if self.first_ts is Some {
                                self.first_ts->0
                            } else {
                                media_ts
                            },
                        ),
                        last_ts: media_ts,
                        frames: (self.frames + 1) as usize,
                        size: if self.size is Some {
                            self.size
                        } else {
                            Some(((video->0).0, (video->0).1))
                        },
                        sps_rate: if self.size is Some {
                            self.sps_rate
                        } else {
                            duration((video->0).2)
                        },
                        ..self
                    }
                }
            },
            _ => self,
        }
    }

    /// Whether the test goes on after `item`: it does until the stream ends or fails or takes too
    /// long, or enough frames have come.
    pub open spec fn goes_on(self, item: ProbeItem) -> bool {
        match item {
            ProbeItem::Frame { .. } => self.after(item).frames < SAMPLE_FRAMES,
            ProbeItem::Other => true,
            _ => false,
        }
    }

    /// Why the test fails when `item` ends it before the first frame.
    pub open spec fn fails_with(self, item: ProbeItem, failure: Failure) -> bool {
        match item {
            ProbeItem::Failed(cause) => failure == cause,
            ProbeItem::Ended => failure.kind == FailureKind::Retry && failure.reason@
                == "Camera ended the stream"@,
            _ => failure.kind == FailureKind::Retry && failure.reason@
                == "No frames received in 10 s"@,
        }
    }

    /// A test of the stream at position `stream`.
    pub fn new(codec: Codec, stream: usize, sdp_fps: Option<u64>) -> (res: Probe)
        ensures
            res == (Probe {
                codec,
                stream,
                sdp_fps: positive(sdp_fps),
                first_ts: None,
                last_ts: 0,
                frames: 0,
                size: None,
                sps_rate: None,
            }),
            res.wf(),
    {
        let sdp_fps = match sdp_fps {
            Some(rate) if rate > 0 => Some(rate),
            _ => None,
        };
        Probe {
            codec,
            stream,
            sdp_fps,
            first_ts: None,
            last_ts: 0,
            frames: 0,
            size: None,
            sps_rate: None,
        }
    }

    /// What has been found.
    pub fn summary(&self) -> (res: ProbeInfo)
        requires
            self.size is Some,
            self.frames <= SAMPLE_FRAMES,
            self.sps_rate == duration(self.sps_rate),
        ensures
            self.found(res),
    {
        let measured: Option<u128> = match self.first_ts {
            Some(first) if self.frames >= 2 && self.last_ts > first => {
                let span: u64 = (self.last_ts as i128 - first as i128) as u64;
                let frames: u128 = self.frames as u128;
                assert((frames - 1) * SECOND * single::ONE <= 14 * SECOND * single::ONE)
                    by (nonlinear_arith)
                    requires
                        frames <= 15,
                ;
                Some(
                    single::round_to_single(
                        (frames - 1) * SECOND as u128 * single::ONE,
                        span as u128,
                    ),
                )
            },
            _ => None,
        };
        let rate: Option<u128> = match (measured, self.sdp_fps, self.sps_rate) {
            (Some(rate), _, _) => Some(rate),
            (None, Some(rate), _) => Some(
                single::round_to_single(rate as u128 * single::ONE, 1_000_000),
            ),
            (None, None, Some((n, d))) => Some(single::divide(d, n)),
            (None, None, None) => None,
        };
        let fps: Option<u64> = match rate {
            Some(rate) => Some(single::to_nearest_tenths(rate)),
            None => None,
        };
        let (width, height) = match self.size {
            Some(size) => size,
            None => (0, 0),
        };
        ProbeInfo { codec: self.codec.label().to_owned(), width, height, fps }
    }

    /// Takes in one item; gives the result once there is one.
    pub fn step(&mut self, item: ProbeItem) -> (res: Option<Result<ProbeInfo, Failure>>)
        requires
            old(self).wf(),
        ensures
            *final(self) == old(self).after(item),
            res is None ==> final(self).wf(),
            res is None == old(self).goes_on(item),
            match res {
                Some(Ok(info)) => final(self).found(info),
                Some(Err(failure)) => old(self).size is None && old(self).fails_with(item, failure),
                None => true,
            },
    {
        let none_seen: bool = self.size.is_none();
        match item {
            ProbeItem::Other => None,
            ProbeItem::Failed(failure) => Some(
                if none_seen {
                    Err(failure)
                } else {
                    Ok(self.summary())
                },
            ),
            ProbeItem::Ended => Some(
                if none_seen {
                    Err(Failure::retry("Camera ended the stream"))
                } else {
                    Ok(self.summary())
                },
            ),
            ProbeItem::TimedOut => Some(
                if none_seen {
                    Err(Failure::retry("No frames received in 10 s"))
                } else {
                    Ok(self.summary())
                },
            ),
            ProbeItem::Frame { stream, media_ts, video } => {
                if stream != self.stream {
                    return None;
                }
                if none_seen {
                    match video {
                        None => {
                            return None;
                        },
                        Some((width, height, rate)) => {
                            self.size = Some((width, height));
                            self.sps_rate = match rate {
                                Some((n, d)) if n > 0 && d > 0 => Some((n, d)),
                                _ => None,
                            };
                        },
                    }
                }
                if self.first_ts.is_none() {
                    self.first_ts = Some(media_ts);
                }
                self.last_ts = media_ts;
                self.frames = self.frames + 1;
                if self.frames >= SAMPLE_FRAMES {
                    Some(Ok(self.summary()))
                } else {
                    None
                }
            },
        }
    }
}

/// A test always ends after a bounded number of frames of its stream: each one that counts brings
/// it closer, and the last one ends it with a result.
pub proof fn lemma_probe_ends(probe: Probe, stream: usize, media_ts: i64, size: (u32, u32))
    requires
        probe.wf(),
        stream == probe.stream,
    ensures
        probe.after(
            ProbeItem::Frame { stream, media_ts, video: Some((size.0, size.1, None)) },
        ).frames == probe.frames + 1,
        probe.frames + 1 == SAMPLE_FRAMES ==> !probe.goes_on(
            ProbeItem::Frame { stream, media_ts, video: Some((size.0, size.1, None)) },
        ),
{
}

/// Whether this is a video stream whose encoding has this name in small letters.
pub open spec fn is_video(stream: StreamInfo, name: Seq<char>) -> bool {
    stream.media@ == "video"@ && text::ascii_lower(stream.encoding_name@) == name
}

/// The stream that is played is the first video stream in H.264 or H.265, whatever the case of the
/// letters in its encoding's name. What is not video, or in another encoding, is passed over.
pub proof fn lemma_first_decodable_video_is_played(
    streams: Seq<StreamInfo>,
    res: Result<(usize, Codec, Option<u64>), Failure>,
    k: int,
)
    requires
        picks(streams, res),
        0 <= k < streams.len(),
        forall|j: int|
            0 <= j < k ==> !is_video(#[trigger] streams[j], "h264"@) && !is_video(
                streams[j],
                "h265"@,
            ),
    ensures
        is_video(streams[k], "h264"@) ==> res is Ok && (res->Ok_0).0 == k && (res->Ok_0).1
            == Codec::H264,
        is_video(streams[k], "h265"@) ==> res is Ok && (res->Ok_0).0 == k && (res->Ok_0).1
            == Codec::H265,
        res is Ok && (res->Ok_0).0 == k ==> {
            &&& is_video(streams[k], "h264"@) || is_video(streams[k], "h265"@)
            &&& streams[k].framerate is None || streams[k].framerate == Some(0u64) ==> (res->Ok_0).2
                is None
            &&& streams[k].framerate is Some && streams[k].framerate->0 > 0 ==> (res->Ok_0).2
                == streams[k].framerate
        },
{
    reveal_strlit("h264");
    reveal_strlit("h265");
    assert("h264"@[3] != "h265"@[3]);
    assert forall|j: int| 0 <= j < k implies stream_codec(#[trigger] streams[j]) is None by {
        assert(!is_video(streams[j], "h264"@));
    }
    if res is Ok {
        let i = (res->Ok_0).0 as int;
        if i < k {
            assert(stream_codec(streams[i]) is None);
        }
        if i > k {
            assert(stream_codec(streams[k]) is None);
        }
    } else {
        assert(stream_codec(streams[k]) is None);
    }
}

/// Without such a stream nothing is played, for good. The failure names the encoding of the first
/// video stream, or says that there is no video.
pub proof fn lemma_undecodable_video_is_named(
    streams: Seq<StreamInfo>,
    res: Result<(usize, Codec, Option<u64>), Failure>,
    k: int,
)
    requires
        picks(streams, res),
        forall|j: int|
            0 <= j < streams.len() ==> !is_video(#[trigger] streams[j], "h264"@) && !is_video(
                streams[j],
                "h265"@,
            ),
        0 <= k <= streams.len(),
        forall|j: int| 0 <= j < k ==> (#[trigger] streams[j]).media@ != "video"@,
    ensures
        res is Err,
        (res->Err_0).kind == FailureKind::Fatal,
        k < streams.len() && streams[k].media@ == "video"@ ==> (res->Err_0).reason@
            == "Unsupported video codec: "@ + text::uppercase(
            text::ascii_lower(streams[k].encoding_name@),
        ),
        k == streams.len() ==> (res->Err_0).reason@ == "Camera has no video stream"@,
{
    if res is Ok {
        let i = (res->Ok_0).0 as int;
        assert(!is_video(streams[i], "h264"@));
    }
    assert forall|j: int| 0 <= j < streams.len() implies stream_codec(#[trigger] streams[j])
        is None by {
        assert(!is_video(streams[j], "h264"@));
    }
    lemma_first_unsupported(streams, streams.len() as int, k);
}

proof fn lemma_first_unsupported(streams: Seq<StreamInfo>, n: int, k: int)
    requires
        0 <= n <= streams.len(),
        0 <= k,
        forall|j: int| 0 <= j < n ==> stream_codec(#[trigger] streams[j]) is None,
        forall|j: int| 0 <= j < k && j < n ==> (#[trigger] streams[j]).media@ != "video"@,
    ensures
        k >= n ==> first_unsupported(streams, n) is None,
        k < n && streams[k].media@ == "video"@ ==> first_unsupported(streams, n) == Some(
            text::uppercase(text::ascii_lower(streams[k].encoding_name@)),
        ),
    decreases n,
{
    if n > 0 {
        lemma_first_unsupported(streams, n - 1, k);
        assert(stream_codec(streams[n - 1]) is None);
    }
}

/// A camera is asked at its address, with its user name and password when it has a user name. An
/// address that cannot be read is a failure for good.
pub proof fn lemma_what_is_asked_of_a_camera(
    res: Result<Request, Failure>,
    camera: CameraView,
    address_parses: bool,
)
    requires
        requests(res, camera, address_parses),
    ensures
        address_parses <==> res is Ok,
        res is Err ==> (res->Err_0).kind == FailureKind::Fatal,
        res is Ok ==> {
            let request = res->Ok_0;
            &&& request.url@ == camera.url()
            &&& camera.username.len() > 0 ==> request.credentials is Some && (
            request.credentials->0).username@ == camera.username && (
            request.credentials->0).password@ == camera.password
            &&& camera.username.len() == 0 ==> request.credentials is None
        },
{
}

/// The parameter sets keep the order in which a decoder takes them: for H.265 the video set comes
/// first, and the picture set comes last in both. The size is that of the picture.
pub proof fn lemma_parameter_sets_in_order(video: VideoInfo)
    ensures
        video.codec is H264 ==> {
            let params = params_of(video)->0;
            &&& params_of(video) is Some
            &&& params.codec == Codec::H264
            &&& params.sets.len() == 2
            &&& params.sets[0] == video.codec->H264_sps@
            &&& params.sets[1] == video.codec->H264_pps@
        },
        video.codec is H265 ==> {
            let params = params_of(video)->0;
            &&& params_of(video) is Some
            &&& params.codec == Codec::H265
            &&& params.sets.len() == 3
            &&& params.sets[0] == video.codec->vps@
            &&& params.sets[1] == video.codec->H265_sps@
            &&& params.sets[2] == video.codec->H265_pps@
        },
        video.codec is Other <==> params_of(video) is None,
        params_of(video) is Some ==> (params_of(video)->0).width == video.width && (params_of(
            video,
        )->0).height == video.height,
{
}

/// A description serves exactly while the codec and every parameter set stay what they are; the
/// size alone does not count. It can be asked for when no set is empty.
pub proof fn lemma_when_a_description_serves(a: ParamsView, b: ParamsView, i: int)
    ensures
        a.codec != b.codec ==> !a.same_format(b),
        a.sets.len() != b.sets.len() ==> !a.same_format(b),
        0 <= i < a.sets.len() && a.sets[i] != b.sets[i] ==> !a.same_format(b),
        (ParamsView { width: b.width, height: b.height, ..a }) == b ==> a.same_format(b),
        a.same_format(b) == b.same_format(a),
        0 <= i < a.sets.len() && a.sets[i].len() == 0 ==> !a.complete(),
{
}

/// A frame of another stream, and one before the first with parameters, leaves a test as it is. Any
/// other frame counts: the first one's time and parameters stay, and the last time is the newest.
pub proof fn lemma_what_a_test_keeps(
    probe: Probe,
    stream: usize,
    media_ts: i64,
    video: Option<(u32, u32, Option<(u32, u32)>)>,
)
    requires
        probe.wf(),
    ensures
        ({
            let after = probe.after(ProbeItem::Frame { stream, media_ts, video });
            &&& stream != probe.stream ==> after == probe
            &&& probe.frames == 0 && video is None ==> after == probe
            &&& stream == probe.stream && probe.frames == 0 && video is Some ==> {
                &&& after.frames == 1
                &&& after.first_ts == Some(media_ts)
                &&& after.size == Some(((video->0).0, (video->0).1))
                &&& (video->0).2 is Some && ((video->0).2->0).0 > 0 && ((video->0).2->0).1 > 0
                    ==> after.sps_rate == (video->0).2
                &&& (video->0).2 is None || ((video->0).2->0).0 == 0 || ((video->0).2->0).1 == 0
                    ==> after.sps_rate is None
            }
            &&& stream == probe.stream && probe.frames > 0 ==> {
                &&& after.frames == probe.frames + 1
                &&& after.first_ts == probe.first_ts
                &&& after.last_ts == media_ts
                &&& after.size == probe.size
                &&& after.sps_rate == probe.sps_rate
            }
            &&& after.codec == probe.codec && after.sdp_fps == probe.sdp_fps && after.stream
                == probe.stream
        }),
        probe.after(ProbeItem::Other) == probe,
{
}

/// A test ends with the fifteenth frame, or when the stream is over, fails or takes too long, and
/// with nothing else.
pub proof fn lemma_when_a_test_ends(probe: Probe, item: ProbeItem)
    requires
        probe.wf(),
    ensures
        item is Other ==> probe.goes_on(item),
        item is Failed || item is Ended || item is TimedOut ==> !probe.goes_on(item),
        item is Frame ==> (probe.goes_on(item) <==> probe.after(item).frames < 15),
        item is Frame && item->stream != probe.stream ==> probe.goes_on(item),
{
}

/// The rate that a test shows is the measured one where times have passed between frames, then the
/// announced one, then that of the parameters. Where it is a whole number it is shown exactly.
pub proof fn lemma_rate_that_a_test_shows(probe: Probe, info: ProbeInfo, q: nat)
    requires
        probe.wf() || probe.frames == 15,
        probe.found(info),
        q < 0x10_0000,
        probe.sps_rate == duration(probe.sps_rate),
    ensures
        ({
            let measured = probe.frames >= 2 && probe.first_ts is Some && probe.last_ts
                > probe.first_ts->0;
            &&& measured && q * (probe.last_ts - probe.first_ts->0) == (probe.frames - 1)
                * 1_000_000_000 ==> info.fps is Some && info.fps->0 == 10 * q
            &&& !measured && probe.sdp_fps is Some && probe.sdp_fps->0 == q * 1_000_000
                ==> info.fps is Some && info.fps->0 == 10 * q
            &&& !measured && probe.sdp_fps is None && probe.sps_rate is Some && (
            probe.sps_rate->0).0 < 0x100_0000 && (probe.sps_rate->0).1 < 0x100_0000 && (
            probe.sps_rate->0).1 == q * (probe.sps_rate->0).0 ==> info.fps is Some && info.fps->0
                == 10 * q
            &&& !measured && probe.sdp_fps is None && probe.sps_rate is None ==> info.fps is None
        }),
{
    let one = single::ONE as nat;
    lemma_whole_rate_in_tenths(q);
    let measured = probe.frames >= 2 && probe.first_ts is Some && probe.last_ts
        > probe.first_ts->0;
    if measured {
        let span = (probe.last_ts - probe.first_ts->0) as nat;
        if q * span == (probe.frames - 1) * 1_000_000_000 {
            single::lemma_whole_numbers_are_exact(span, q);
            assert(((probe.frames - 1) * SECOND * single::ONE) as nat == q * span * one);
        }
    } else if probe.sdp_fps is Some {
        if probe.sdp_fps->0 == q * 1_000_000 {
            single::lemma_whole_numbers_are_exact(1_000_000, q);
        }
    } else if probe.sps_rate is Some {
        let (n, d) = probe.sps_rate->0;
        if n < 0x100_0000 && d < 0x100_0000 && d == q * n {
            single::lemma_rounded_units_are_near(n as nat);
            single::lemma_rounded_units_are_near(d as nat);
            single::lemma_whole_numbers_are_exact(n as nat, q);
        }
    }
}

proof fn lemma_whole_rate_in_tenths(q: nat)
    requires
        q < 0x10_0000,
    ensures
        single::nearest_tenths(q * single::ONE as nat) == 10 * q,
{
    let one = single::ONE as nat;
    single::lemma_whole_numbers_are_exact(1, 10 * q);
    assert(10 * q * 1 * one == 10 * (q * one)) by (nonlinear_arith);
    assert(10 * q * one == 10 * (q * one)) by (nonlinear_arith);
    crate::round::lemma_rounded_quotient_is_near(10 * (q * one), one);
    assert(single::rounded(10 * (q * one), 1) == 10 * (q * one));
}

/// A test that saw no frame fails with what ended it: the failure itself, or one to try again after.
pub proof fn lemma_how_a_test_fails(probe: Probe, item: ProbeItem, failure: Failure)
    requires
        probe.fails_with(item, failure),
    ensures
        item is Failed ==> failure == item->Failed_0,
        item is Ended ==> failure.kind == FailureKind::Retry && failure.reason@
            == "Camera ended the stream"@,
        item is TimedOut ==> failure.kind == FailureKind::Retry && failure.reason@
            == "No frames received in 10 s"@,
{
}

}
