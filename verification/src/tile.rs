//! One camera tile: what is drawn over the video, and what the statistics say.
use vstd::prelude::*;
use vstd::string::*;

use crate::camera::CameraId;
use crate::clock::Moment;
use crate::round;
use crate::shared::{StatsSnapshot, StatsView, StatusView, StreamStatus};
use crate::single;
use crate::text;

verus! {

/// The colour of a camera's dot.
#[derive(Clone, Copy, Debug, PartialEq, Eq, Structural)]
pub enum StatusColor {
    Success,
    Warning,
    Muted,
    Danger,
}

/// The colour for a status.
pub open spec fn color_of(status: StatusView) -> StatusColor {
    match status {
        StatusView::Live => StatusColor::Success,
        StatusView::Connecting => StatusColor::Warning,
        StatusView::WaitingKeyframe => StatusColor::Warning,
        StatusView::Reconnecting { .. } => StatusColor::Warning,
        StatusView::Paused => StatusColor::Muted,
        StatusView::AuthFailed => StatusColor::Danger,
        StatusView::Error(_) => StatusColor::Danger,
    }
}

/// The colour for a status.
pub fn status_color(status: &StreamStatus) -> (res: StatusColor)
    ensures
        res == color_of(status@),
{
    match status {
        StreamStatus::Live => StatusColor::Success,
        StreamStatus::Connecting => StatusColor::Warning,
        StreamStatus::WaitingKeyframe => StatusColor::Warning,
        StreamStatus::Reconnecting { .. } => StatusColor::Warning,
        StreamStatus::Paused => StatusColor::Muted,
        StreamStatus::AuthFailed => StatusColor::Danger,
        StreamStatus::Error(_) => StatusColor::Danger,
    }
}

/// Whole seconds until `at`, rounded up from the seconds in single precision: a time that is over
/// a whole number by less than that can tell counts as that number.
pub open spec fn seconds_until(at: Moment, now: Moment) -> nat {
    single::whole_seconds(at.elapsed_since(now))
}

/// The message shown for a status that is not live.
pub open spec fn title_of(status: StatusView, now: Moment) -> Seq<char> {
    match status {
        StatusView::Live => Seq::empty(),
        StatusView::Connecting => "Connecting…"@,
        StatusView::WaitingKeyframe => "Waiting for video…"@,
        StatusView::Reconnecting { attempt, retry_at, reason } => if seconds_until(
            retry_at,
            now,
        ) > 0 {
            "Reconnecting in "@ + text::decimal(seconds_until(retry_at, now)) + "s (attempt "@
                + text::decimal(attempt as nat) + ")"@
        } else {
            "Reconnecting… (attempt "@ + text::decimal(attempt as nat) + ")"@
        },
        StatusView::Paused => "Paused"@,
        StatusView::AuthFailed => "Invalid username or password"@,
        StatusView::Error(_) => "Error"@,
    }
}

/// The line below the message.
pub open spec fn detail_of(status: StatusView) -> Option<Seq<char>> {
    match status {
        StatusView::Reconnecting { attempt, retry_at, reason } => if reason.len() > 0 {
            Some(reason)
        } else {
            None
        },
        StatusView::Error(reason) => Some(reason),
        _ => None,
    }
}

/// Centered message (and optional detail line) shown when the stream is not live.
pub fn status_message(status: &StreamStatus, now: Moment) -> (res: (String, Option<String>))
    ensures
        res.0@ == title_of(status@, now),
        match detail_of(status@) {
            Some(detail) => res.1 is Some && (res.1->0)@ == detail,
            None => res.1 is None,
        },
{
    match status {
        StreamStatus::Live => (String::new(), None),
        StreamStatus::Connecting => ("Connecting…".to_owned(), None),
        StreamStatus::WaitingKeyframe => ("Waiting for video…".to_owned(), None),
        StreamStatus::Reconnecting { attempt, retry_at, reason } => {
            let secs: u64 = single::seconds_up(retry_at.since(now));
            let title = if secs > 0 {
                let mut title = "Reconnecting in ".to_owned();
                title.append(text::to_decimal(secs).as_str());
                title.append("s (attempt ");
                title.append(text::to_decimal(*attempt as u64).as_str());
                title.append(")");
                title
            } else {
                let mut title = "Reconnecting… (attempt ".to_owned();
                title.append(text::to_decimal(*attempt as u64).as_str());
                title.append(")");
                title
            };
            let detail = if reason.as_str().is_empty() {
                None
            } else {
                Some(reason.clone())
            };
            (title, detail)
        },
        StreamStatus::Paused => ("Paused".to_owned(), None),
        StreamStatus::AuthFailed => ("Invalid username or password".to_owned(), None),
        StreamStatus::Error(reason) => ("Error".to_owned(), Some(reason.clone())),
    }
}

/// Whether a camera waits for its next attempt.
pub open spec fn is_reconnecting(status: Option<StatusView>) -> bool {
    status is Some && status->0 is Reconnecting
}

/// What is drawn of a tile.
pub enum TileLook {
    /// No camera: a hint.
    Empty { title: String, detail: String },
    Camera {
        name: String,
        color: StatusColor,
        /// Message and detail over the video, while it is not live.
        message: Option<(String, Option<String>)>,
        /// The last frame is darkened under the message.
        scrim: bool,
        /// The statistics are shown.
        stats: bool,
    },
}

/// Whether `look` is what is drawn of a tile with this camera, status, frame and setting.
pub open spec fn looks(
    look: TileLook,
    camera: Option<(CameraId, Seq<char>)>,
    status: Option<StatusView>,
    has_frame: bool,
    show_stats: bool,
    now: Moment,
) -> bool {
    match look {
        TileLook::Empty { title, detail } => {
            &&& camera is None
            &&& title@ == "No camera"@
            &&& detail@ == "Right-click to choose a camera"@
        },
        TileLook::Camera { name, color, message, scrim, stats } => {
            let current = match status {
                Some(status) => status,
                None => StatusView::Connecting,
            };
            &&& camera is Some
            &&& name@ == (camera->0).1
            &&& color == color_of(current)
            &&& match message {
                Some((title, detail)) => {
                    &&& !(current is Live)
                    &&& title@ == title_of(current, now)
                    &&& match detail_of(current) {
                        Some(said) => detail is Some && (detail->0)@ == said,
                        None => detail is None,
                    }
                },
                None => current is Live,
            }
            &&& scrim == (!(current is Live) && has_frame)
            &&& stats == show_stats
        },
    }
}

/// What follows for the countdown of a tile.
#[derive(Clone, Copy, Debug, PartialEq, Eq, Structural)]
pub enum Countdown {
    Start,
    Stop,
    Keep,
}

/// What changed of a tile that was pointed at a camera.
#[derive(Clone, Copy, Debug, PartialEq, Eq, Structural)]
pub enum Pointed {
    /// Neither the camera nor the stream.
    Unchanged,
    /// The camera or its name, but not the stream.
    SameStream,
    OtherStream,
}

/// A tile of the mosaic.
pub struct CameraTile {
    camera: Option<(CameraId, String)>,
    /// The handle of the stream that is shown.
    stream: Option<u64>,
    show_stats: bool,
    /// The "Reconnecting in" countdown is refreshed every second; only while reconnecting.
    counting: bool,
}

/// What a [`CameraTile`] holds.
pub struct TileView {
    pub camera: Option<(CameraId, Seq<char>)>,
    pub stream: Option<u64>,
    pub show_stats: bool,
    pub counting: bool,
}

impl View for CameraTile {
    type V = TileView;

    closed spec fn view(&self) -> TileView {
        TileView {
            camera: match self.camera {
                Some((id, name)) => Some((id, name@)),
                None => None,
            },
            stream: self.stream,
            show_stats: self.show_stats,
            counting: self.counting,
        }
    }
}

/// What a camera given to a tile says.
pub open spec fn camera_of(camera: Option<(CameraId, String)>) -> Option<(CameraId, Seq<char>)> {
    match camera {
        Some((id, name)) => Some((id, name@)),
        None => None,
    }
}

impl TileView {
    /// Pointed at a camera and at the stream with a handle.
    pub open spec fn pointing(
        self,
        camera: Option<(CameraId, Seq<char>)>,
        stream: Option<u64>,
    ) -> TileView {
        TileView { camera, stream, counting: self.counting && stream == self.stream, ..self }
    }

    /// What changes when it is pointed at them.
    pub open spec fn pointed(
        self,
        camera: Option<(CameraId, Seq<char>)>,
        stream: Option<u64>,
    ) -> Pointed {
        if stream != self.stream {
            Pointed::OtherStream
        } else if camera != self.camera {
            Pointed::SameStream
        } else {
            Pointed::Unchanged
        }
    }

    /// After its stream changed to a status.
    pub open spec fn watching(self, status: Option<StatusView>) -> TileView {
        TileView { counting: is_reconnecting(status), ..self }
    }

    /// What follows for its countdown.
    pub open spec fn countdown(self, status: Option<StatusView>) -> Countdown {
        if is_reconnecting(status) && !self.counting {
            Countdown::Start
        } else if !is_reconnecting(status) && self.counting {
            Countdown::Stop
        } else {
            Countdown::Keep
        }
    }
}

impl CameraTile {
    pub fn new() -> (res: CameraTile)
        ensures
            res@ == (TileView { camera: None, stream: None, show_stats: false, counting: false }),
    {
        CameraTile { camera: None, stream: None, show_stats: false, counting: false }
    }

    pub fn camera_name(&self) -> (res: Option<String>)
        ensures
            match self@.camera {
                Some((_, name)) => res is Some && (res->0)@ == name,
                None => res is None,
            },
    {
        match &self.camera {
            Some((_, name)) => Some(name.clone()),
            None => None,
        }
    }

    /// Points the tile at another camera and at the stream with another handle. What changed:
    /// nothing when both are those it has. Another stream has no countdown yet.
    pub fn set_camera(&mut self, camera: Option<(CameraId, String)>, stream: Option<u64>) -> (res:
        Pointed)
        ensures
            res == old(self)@.pointed(camera_of(camera), stream),
            final(self)@ == old(self)@.pointing(camera_of(camera), stream),
    {
        let same_stream = match (self.stream, stream) {
            (Some(a), Some(b)) => a == b,
            (None, None) => true,
            _ => false,
        };
        let same_camera = match (&self.camera, &camera) {
            (Some((a, x)), Some((b, y))) => *a == *b && *x == *y,
            (None, None) => true,
            _ => false,
        };
        self.camera = camera;
        self.stream = stream;
        if !same_stream {
            self.counting = false;
            Pointed::OtherStream
        } else if !same_camera {
            Pointed::SameStream
        } else {
            Pointed::Unchanged
        }
    }

    /// Shows or hides the statistics. Whether that is a change.
    pub fn set_show_stats(&mut self, show: bool) -> (res: bool)
        ensures
            res == (old(self)@.show_stats != show),
            final(self)@ == (TileView { show_stats: show, ..old(self)@ }),
    {
        let changed = self.show_stats != show;
        self.show_stats = show;
        changed
    }

    /// The stream changed: whether the countdown is to start or to stop.
    pub fn stream_changed(&mut self, status: Option<&StreamStatus>) -> (res: Countdown)
        ensures
            ({
                let said = match status {
                    Some(status) => Some(status@),
                    None => None,
                };
                &&& final(self)@ == old(self)@.watching(said)
                &&& res == old(self)@.countdown(said)
            }),
    {
        let reconnecting = match status {
            Some(StreamStatus::Reconnecting { .. }) => true,
            _ => false,
        };
        let res = if reconnecting && !self.counting {
            Countdown::Start
        } else if !reconnecting && self.counting {
            Countdown::Stop
        } else {
            Countdown::Keep
        };
        self.counting = reconnecting;
        res
    }

    /// What is drawn.
    pub fn look(&self, status: Option<&StreamStatus>, has_frame: bool, now: Moment) -> (res:
        TileLook)
        ensures
            looks(
                res,
                self@.camera,
                match status {
                    Some(status) => Some(status@),
                    None => None,
                },
                has_frame,
                self@.show_stats,
                now,
            ),
    {
        let name = match &self.camera {
            Some((_, name)) => name.clone(),
            None => {
                return TileLook::Empty {
                    title: "No camera".to_owned(),
                    detail: "Right-click to choose a camera".to_owned(),
                };
            },
        };
        let current = match status {
            Some(status) => status.clone(),
            None => StreamStatus::Connecting,
        };
        let live = matches!(current, StreamStatus::Live);
        let message = if live {
            None
        } else {
            Some(status_message(&current, now))
        };
        TileLook::Camera {
            name,
            color: status_color(&current),
            message,
            scrim: !live && has_frame,
            stats: self.show_stats,
        }
    }
}

/// A number of tenths, with one digit after the point.
pub open spec fn in_tenths(tenths: nat) -> Seq<char> {
    text::decimal(tenths / 10) + "."@ + text::decimal(tenths % 10)
}

/// The first line of the statistics: the rate that the camera sends at, and the bitrate in
/// millions of bits per second, divided in single precision.
pub open spec fn rate_line(stats: StatsView) -> Seq<char> {
    text::decimal(round::to_even(stats.camera_fps as nat, single::ONE as nat)) + " fps · "@ + in_tenths(
        single::tenths(single::quotient(stats.kbps as nat, 1000)),
    ) + " Mbps"@
}

/// The line with the picture size and the codec.
pub open spec fn size_line(stats: StatsView) -> Seq<char> {
    text::decimal(stats.width as nat) + "×"@ + text::decimal(stats.height as nat) + if
        stats.codec.len() == 0 {
        Seq::empty()
    } else {
        " · "@ + stats.codec
    }
}

/// The line with the jitter.
pub open spec fn jitter_line(stats: StatsView, smoothing: bool) -> Seq<char> {
    "network jitter ±"@ + text::decimal(
        round::to_even(stats.jitter_ms as nat, single::ONE as nat),
    ) + " ms"@ + if smoothing {
        " · smoothed"@
    } else {
        Seq::empty()
    }
}

/// The line with the counts.
pub open spec fn counts_line(stats: StatsView) -> Seq<char> {
    text::decimal(stats.reconnects as nat) + if stats.reconnects == 1 {
        " reconnect · "@
    } else {
        " reconnects · "@
    } + text::decimal(stats.dropped_frames as nat) + " dropped"@
}

/// The lines of the statistics. The size is known once there is one, and the last error once
/// there was one.
pub open spec fn lines_of(stats: StatsView, smoothing: bool) -> Seq<Seq<char>> {
    let first = seq![rate_line(stats)];
    let second = if stats.width > 0 {
        first.push(size_line(stats))
    } else {
        first
    };
    let fourth = second.push(jitter_line(stats, smoothing)).push(counts_line(stats));
    match stats.last_error {
        Some(reason) => fourth.push("Last error: "@ + reason),
        None => fourth,
    }
}

/// The lines of the statistics.
pub fn stats_lines(stats: &StatsSnapshot, smoothing: bool) -> (res: Vec<String>)
    ensures
        res@.map_values(|line: String| line@) == lines_of(stats@, smoothing),
{
    let mut lines: Vec<String> = Vec::new();
    let ghost expected = lines_of(stats@, smoothing);
    let tenths: u64 = single::thousandths_in_tenths(stats.kbps);
    let mut mbps = text::to_decimal(tenths / 10);
    mbps.append(".");
    mbps.append(text::to_decimal(tenths % 10).as_str());
    let mut rate = text::to_decimal_u128(round::nearest(stats.camera_fps, single::ONE));
    rate.append(" fps · ");
    rate.append(mbps.as_str());
    rate.append(" Mbps");
    lines.push(rate);
    if stats.width > 0 {
        let mut size = text::to_decimal(stats.width as u64);
        size.append("×");
        size.append(text::to_decimal(stats.height as u64).as_str());
        if !stats.codec.as_str().is_empty() {
            let mut codec = " · ".to_owned();
            codec.append(stats.codec.as_str());
            size.append(codec.as_str());
        }
        assert(size@ =~= size_line(stats@));
        lines.push(size);
    }
    let mut jitter = "network jitter ±".to_owned();
    jitter.append(
        text::to_decimal_u128(round::nearest(stats.jitter_ms, single::ONE)).as_str(),
    );
    jitter.append(" ms");
    if smoothing {
        jitter.append(" · smoothed");
    }
    assert(jitter@ =~= jitter_line(stats@, smoothing));
    lines.push(jitter);
    let mut counts = text::to_decimal(stats.reconnects as u64);
    counts.append(
        if stats.reconnects == 1 {
            " reconnect · "
        } else {
            " reconnects · "
        },
    );
    counts.append(text::to_decimal(stats.dropped_frames).as_str());
    counts.append(" dropped");
    lines.push(counts);
    if let Some(reason) = &stats.last_error {
        let mut last = "Last error: ".to_owned();
        last.append(reason.as_str());
        lines.push(last);
    }
    assert(lines@.map_values(|line: String| line@) =~= expected);
    lines
}

/// A tile that is not live never leaves the picture without a word.
pub proof fn lemma_message_unless_live(status: StatusView, now: Moment)
    requires
        !(status is Live),
    ensures
        title_of(status, now).len() > 0,
        color_of(status) != StatusColor::Success,
{
    reveal_strlit("Connecting…");
    reveal_strlit("Waiting for video…");
    reveal_strlit("Reconnecting in ");
    reveal_strlit("Reconnecting… (attempt ");
    reveal_strlit("Paused");
    reveal_strlit("Invalid username or password");
    reveal_strlit("Error");
}

/// The countdown ends when the attempt is due, and not before.
pub proof fn lemma_countdown_ends_when_due(at: Moment, now: Moment)
    ensures
        seconds_until(at, now) == 0 <==> at.nanos <= now.nanos,
{
    single::lemma_seconds_run_out(at.elapsed_since(now));
}

/// Green is for a live picture alone, red for what the user has to mend, grey for a pause, and
/// yellow for all that goes on by itself.
pub proof fn lemma_colours_tell_apart(status: StatusView)
    ensures
        color_of(status) == StatusColor::Success <==> status is Live,
        color_of(status) == StatusColor::Danger <==> status is AuthFailed || status is Error,
        color_of(status) == StatusColor::Muted <==> status is Paused,
        color_of(status) == StatusColor::Warning <==> status is Connecting || status
            is WaitingKeyframe || status is Reconnecting,
{
}

/// While an attempt is ahead its countdown is shown, and from when it is due on no seconds are.
/// The seconds are rounded up: a whole number of them, up to half a year, is shown as it is. The
/// number of the attempt stands at the end either way.
pub proof fn lemma_countdown_is_shown(
    attempt: u32,
    at: Moment,
    now: Moment,
    reason: Seq<char>,
    secs: nat,
)
    requires
        secs < 0x100_0000,
    ensures
        ({
            let title = title_of(
                StatusView::Reconnecting { attempt, retry_at: at, reason },
                now,
            );
            &&& at.nanos == now.nanos + secs * 1_000_000_000 && secs > 0 ==> title
                == "Reconnecting in "@ + text::decimal(secs) + "s (attempt "@ + text::decimal(
                attempt as nat,
            ) + ")"@
            &&& at.nanos > now.nanos ==> exists|n: nat|
                0x40_0000 * 1_000_000_000 * n >= 0x3f_ffff * (at.nanos - now.nanos) && 0x40_0000
                    * 1_000_000_000 * (n - 1) < 0x40_0001 * (at.nanos - now.nanos) && title
                    == "Reconnecting in "@ + (#[trigger] text::decimal(n)) + "s (attempt "@
                    + text::decimal(attempt as nat) + ")"@
            &&& at.nanos <= now.nanos ==> title == "Reconnecting… (attempt "@ + text::decimal(
                attempt as nat,
            ) + ")"@
        }),
{
    let left = at.elapsed_since(now);
    lemma_countdown_ends_when_due(at, now);
    if at.nanos > now.nanos {
        single::lemma_seconds_are_rounded_up(left, secs);
        let n = seconds_until(at, now);
        assert(text::decimal(n) == text::decimal(n));
    }
}

/// The reason of a failure stands below its message, and nothing stands below any other one. An
/// empty reason of an attempt takes no line.
pub proof fn lemma_reason_stands_below(status: StatusView)
    ensures
        status is Error ==> detail_of(status) == Some(status->Error_0),
        status is Reconnecting && status->reason.len() > 0 ==> detail_of(status) == Some(
            status->reason,
        ),
        status is Reconnecting && status->reason.len() == 0 ==> detail_of(status) is None,
        status is Live || status is Connecting || status is WaitingKeyframe || status is Paused
            || status is AuthFailed ==> detail_of(status) is None,
{
}

/// A tile without a camera shows a hint, and any other one the camera's name. Over a live picture
/// nothing is written; otherwise there is a message, over the last frame if there is one, which is
/// darkened. A camera that has no stream yet is connecting.
pub proof fn lemma_what_a_tile_shows(
    look: TileLook,
    camera: Option<(CameraId, Seq<char>)>,
    status: Option<StatusView>,
    has_frame: bool,
    show_stats: bool,
    now: Moment,
)
    requires
        looks(look, camera, status, has_frame, show_stats, now),
    ensures
        camera is None <==> look is Empty,
        camera is Some ==> {
            &&& look->name@ == (camera->0).1
            &&& look->stats == show_stats
            &&& status == Some(StatusView::Live) ==> look->message is None && !look->scrim
                && look->color == StatusColor::Success
            &&& status != Some(StatusView::Live) ==> look->message is Some && look->scrim
                == has_frame && look->color != StatusColor::Success
            &&& status is None ==> look->color == StatusColor::Warning && (look->message->0).0@
                == "Connecting…"@
            &&& status is Some && !(status->0 is Live) ==> (look->message->0).0@ == title_of(
                status->0,
                now,
            )
            &&& status is Some && status->0 is Error ==> (look->message->0).1 is Some && (
            look->message->0).1->0@ == status->0->Error_0
            &&& status is None || status->0 is Paused || status->0 is AuthFailed || status->0
                is Connecting ==> (look->message->0).1 is None
        },
{
}

/// A countdown runs exactly while an attempt is waited for: it is started and stopped when that
/// begins and ends, and another stream has none yet.
pub proof fn lemma_countdown_runs_while_waiting(
    tile: TileView,
    status: Option<StatusView>,
    camera: Option<(CameraId, Seq<char>)>,
    stream: Option<u64>,
)
    ensures
        tile.watching(status).counting <==> status is Some && status->0 is Reconnecting,
        tile.countdown(status) == Countdown::Start <==> !tile.counting && tile.watching(
            status,
        ).counting,
        tile.countdown(status) == Countdown::Stop <==> tile.counting && !tile.watching(
            status,
        ).counting,
        tile.watching(status).countdown(status) == Countdown::Keep,
        stream != tile.stream ==> !tile.pointing(camera, stream).counting,
        stream == tile.stream ==> tile.pointing(camera, stream).counting == tile.counting,
{
}

/// A tile shows what it was pointed at last. It tells another stream from a mere change of the
/// camera or its name, and tells nothing when it is pointed there again.
pub proof fn lemma_tile_is_pointed(
    tile: TileView,
    camera: Option<(CameraId, Seq<char>)>,
    stream: Option<u64>,
)
    ensures
        tile.pointing(camera, stream).camera == camera,
        tile.pointing(camera, stream).stream == stream,
        tile.pointing(camera, stream).show_stats == tile.show_stats,
        tile.pointed(camera, stream) == Pointed::OtherStream <==> stream != tile.stream,
        tile.pointed(camera, stream) == Pointed::Unchanged <==> stream == tile.stream && camera
            == tile.camera,
        tile.pointing(camera, stream).pointed(camera, stream) == Pointed::Unchanged,
{
}

/// The statistics have a line with the rates, one with the jitter and one with the counts, in this
/// order; behind the first stands the size once it is known, and at the end the last error once
/// there was one.
pub proof fn lemma_lines_of_the_statistics(stats: StatsView, smoothing: bool)
    ensures
        ({
            let lines = lines_of(stats, smoothing);
            let sized: int = if stats.width > 0 {
                1
            } else {
                0
            };
            &&& lines.len() == 3 + sized + (if stats.last_error is Some {
                1int
            } else {
                0int
            })
            &&& lines[0] == rate_line(stats)
            &&& stats.width > 0 ==> lines[1] == size_line(stats)
            &&& lines[1 + sized] == jitter_line(stats, smoothing)
            &&& lines[2 + sized] == counts_line(stats)
            &&& stats.last_error is Some ==> lines[3 + sized] == "Last error: "@
                + stats.last_error->0
        }),
{
}

/// The rate is shown in whole frames per second, the nearest one, and the bitrate in tenths of
/// millions of bits, the nearest but for one part in 2 to the 22nd.
pub proof fn lemma_rates_are_shown_rounded(stats: StatsView) -> (shown: (nat, nat))
    ensures
        ({
            let (fps, tenths) = shown;
            &&& rate_line(stats) == text::decimal(fps) + " fps · "@ + text::decimal(tenths / 10)
                + "."@ + text::decimal(tenths % 10) + " Mbps"@
            &&& -0x10_0000_0000_0000 <= fps * 0x20_0000_0000_0000 - stats.camera_fps
                <= 0x10_0000_0000_0000
            &&& -stats.kbps <= 0x40_0000 * (100 * tenths - stats.kbps + 50)
            &&& 0x40_0000 * (100 * tenths - stats.kbps - 50) <= stats.kbps
        }),
{
    let fps = round::to_even(stats.camera_fps as nat, single::ONE as nat);
    let tenths = single::tenths(single::quotient(stats.kbps as nat, 1000));
    round::lemma_rounded_quotient_is_near(stats.camera_fps as nat, single::ONE as nat);
    single::lemma_thousandths_are_near(stats.kbps as nat);
    assert(rate_line(stats) =~= text::decimal(fps) + " fps · "@ + text::decimal(tenths / 10) + "."@
        + text::decimal(tenths % 10) + " Mbps"@);
    (fps, tenths)
}

/// The size is width by height, with the codec behind it where that is known.
pub proof fn lemma_size_is_shown(stats: StatsView)
    ensures
        stats.codec.len() == 0 ==> size_line(stats) == text::decimal(stats.width as nat) + "×"@
            + text::decimal(stats.height as nat),
        stats.codec.len() > 0 ==> size_line(stats) == text::decimal(stats.width as nat) + "×"@
            + text::decimal(stats.height as nat) + " · "@ + stats.codec,
{
    if stats.codec.len() == 0 {
        assert(size_line(stats) =~= text::decimal(stats.width as nat) + "×"@ + text::decimal(
            stats.height as nat,
        ));
    } else {
        assert(size_line(stats) =~= text::decimal(stats.width as nat) + "×"@ + text::decimal(
            stats.height as nat,
        ) + " · "@ + stats.codec);
    }
}

/// The jitter is shown in whole milliseconds, the nearest one, with a remark while it is smoothed
/// away.
pub proof fn lemma_jitter_is_shown_rounded(stats: StatsView, smoothing: bool) -> (ms: nat)
    ensures
        -0x10_0000_0000_0000 <= ms * 0x20_0000_0000_0000 - stats.jitter_ms <= 0x10_0000_0000_0000,
        !smoothing ==> jitter_line(stats, smoothing) == "network jitter ±"@ + text::decimal(ms)
            + " ms"@,
        smoothing ==> jitter_line(stats, smoothing) == "network jitter ±"@ + text::decimal(ms)
            + " ms"@ + " · smoothed"@,
{
    let ms = round::to_even(stats.jitter_ms as nat, single::ONE as nat);
    round::lemma_rounded_quotient_is_near(stats.jitter_ms as nat, single::ONE as nat);
    if !smoothing {
        assert(jitter_line(stats, smoothing) =~= "network jitter ±"@ + text::decimal(ms) + " ms"@);
    }
    ms
}

/// One reconnect is not told in the plural, and any other number is. The dropped frames follow.
pub proof fn lemma_counts_are_shown(stats: StatsView)
    ensures
        stats.reconnects == 1 ==> counts_line(stats) == "1"@ + " reconnect · "@ + text::decimal(
            stats.dropped_frames as nat,
        ) + " dropped"@,
        stats.reconnects != 1 ==> counts_line(stats) == text::decimal(stats.reconnects as nat)
            + " reconnects · "@ + text::decimal(stats.dropped_frames as nat) + " dropped"@,
{
    reveal_strlit("1");
    assert(text::decimal(1) =~= "1"@);
}

}
