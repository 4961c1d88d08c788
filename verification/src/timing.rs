//! Frame timing: receive statistics and playout pacing.
//!
//! Both work from two clocks per frame: the media timestamp (the camera's capture clock) and the
//! local arrival time. Their difference separates what the camera sends from what the network
//! does to it.
use vstd::prelude::*;

use crate::clock::{Moment, MILLISECOND, SECOND};
use crate::decoder::AccessUnit;
use crate::round;
use crate::rtsp::ParamsId;
use crate::single;

verus! {

/// Media-time window for [`RxStats::camera_fps`], in nanoseconds.
pub const CAMERA_FPS_WINDOW: i64 = 2_000_000_000;

/// Frames kept for the camera rate window (enough for 2 s at 120 frames per second).
pub const CAMERA_FPS_FRAMES: usize = 256;

/// Stats periods averaged by [`RxStats::tick`] (so keyframes do not spike the bitrate).
pub const KBPS_BUCKETS: usize = 5;

/// A media-time step outside `0..=MAX_MEDIA_STEP` is a timestamp jump, not a frame interval.
pub const MAX_MEDIA_STEP: i64 = 2_000_000_000;

/// Fixed-capacity queue that overwrites its oldest element when full (no allocation).
pub struct Ring<T: Copy + Default, const N: usize> {
    items: [T; N],
    start: usize,
    len: usize,
}

impl<T: Copy + Default, const N: usize> View for Ring<T, N> {
    type V = Seq<T>;

    closed spec fn view(&self) -> Seq<T> {
        Seq::new(self.len as nat, |i: int| self.items@[slot(self.start as int, i, N as int)])
    }
}

/// Where element `i` stands in an array of `n` elements whose first one is at `start`.
spec fn slot(start: int, i: int, n: int) -> int {
    if start + i < n {
        start + i
    } else {
        start + i - n
    }
}

/// What a ring of `n` elements holds after one more was pushed: the newest `n`.
pub open spec fn pushed<T>(s: Seq<T>, item: T, n: nat) -> Seq<T> {
    if s.len() == n {
        s.skip(1).push(item)
    } else {
        s.push(item)
    }
}

impl<T: Copy + Default, const N: usize> Default for Ring<T, N> {
    fn default() -> (res: Ring<T, N>)
        ensures
            res@ == Seq::<T>::empty(),
            res.wf(),
    {
        let fill: T = T::default();
        let res = Ring { items: [fill; N], start: 0, len: 0 };
        assert(res@ =~= Seq::<T>::empty());
        res
    }
}

impl<T: Copy + Default, const N: usize> Ring<T, N> {
    /// The positions are those of the array.
    pub closed spec fn wf(self) -> bool {
        &&& self.len <= N
        &&& N > 0 ==> self.start < N
    }

    /// A ring never holds more than its capacity.
    pub proof fn lemma_len(self)
        requires
            self.wf(),
        ensures
            self@.len() <= N,
    {
    }

    /// Appends `item`; a full ring loses its oldest element.
    pub fn push(&mut self, item: T)
        requires
            old(self).wf(),
            N > 0,
        ensures
            final(self).wf(),
            final(self)@ == pushed(old(self)@, item, N as nat),
    {
        let ghost before = self@;
        if self.len == N {
            let at: usize = self.start;
            self.items[at] = item;
            self.start = if at + 1 == N {
                0
            } else {
                at + 1
            };
        } else {
            let at: usize = if self.start < N - self.len {
                self.start + self.len
            } else {
                self.start - (N - self.len)
            };
            self.items[at] = item;
            self.len = self.len + 1;
        }
        assert(self@ =~= pushed(before, item, N as nat));
    }

    /// The oldest element.
    pub fn front(&self) -> (res: Option<T>)
        requires
            self.wf(),
        ensures
            res == (if self@.len() > 0 {
                Some(self@[0])
            } else {
                None
            }),
    {
        if self.len > 0 {
            Some(self.items[self.start])
        } else {
            None
        }
    }

    /// Element `i`, counted from the oldest.
    fn at(&self, i: usize) -> (res: T)
        requires
            self.wf(),
            i < self@.len(),
        ensures
            res == self@[i as int],
    {
        if self.start < N - i {
            self.items[self.start + i]
        } else {
            self.items[self.start - (N - i)]
        }
    }

    /// The newest element.
    pub fn back(&self) -> (res: Option<T>)
        requires
            self.wf(),
        ensures
            res == (if self@.len() > 0 {
                Some(self@.last())
            } else {
                None
            }),
    {
        if self.len > 0 {
            Some(self.at(self.len - 1))
        } else {
            None
        }
    }

    /// Removes the oldest element, if there is one.
    pub fn pop_front(&mut self)
        requires
            old(self).wf(),
        ensures
            final(self).wf(),
            final(self)@ == (if old(self)@.len() > 0 {
                old(self)@.skip(1)
            } else {
                old(self)@
            }),
    {
        let ghost before = self@;
        if self.len > 0 {
            self.start = if self.start + 1 == N {
                0
            } else {
                self.start + 1
            };
            self.len = self.len - 1;
            assert(self@ =~= before.skip(1));
        }
    }

    /// Removes every element.
    pub fn clear(&mut self)
        requires
            old(self).wf(),
        ensures
            final(self).wf(),
            final(self)@ == Seq::<T>::empty(),
    {
        self.len = 0;
        assert(self@ =~= Seq::<T>::empty());
    }

    /// How many elements there are.
    pub fn len(&self) -> (res: usize)
        requires
            self.wf(),
        ensures
            res == self@.len(),
    {
        self.len
    }

    /// The elements, oldest first.
    pub fn iter(&self) -> (res: Vec<T>)
        requires
            self.wf(),
        ensures
            res@ == self@,
    {
        let mut out: Vec<T> = Vec::new();
        let mut i: usize = 0;
        while i < self.len
            invariant
                self.wf(),
                i <= self@.len(),
                self.len == self@.len(),
                out@ == self@.take(i as int),
            decreases self.len - i,
        {
            out.push(self.at(i));
            assert(self@.take(i + 1) =~= self@.take(i as int).push(self@[i as int]));
            i = i + 1;
        }
        assert(self@.take(i as int) =~= self@);
        out
    }
}

/// Pushing never exceeds the capacity, and what is held then are the newest elements.
pub proof fn lemma_pushed_keeps_newest<T>(s: Seq<T>, item: T, n: nat)
    requires
        s.len() <= n,
        n > 0,
    ensures
        pushed(s, item, n).len() <= n,
        pushed(s, item, n).is_suffix_of(s.push(item)),
{
    let res = pushed(s, item, n);
    let all = s.push(item);
    assert(res =~= all.subrange(all.len() - res.len(), all.len() as int));
}

/// Receive statistics of a session, fed with every video frame.
pub struct RxStats {
    /// Media timestamps of the frames within the last [`CAMERA_FPS_WINDOW`].
    media: Ring<i64, CAMERA_FPS_FRAMES>,
    /// Previous frame (arrival, media timestamp) for the jitter estimator.
    prev: Option<(Moment, i64)>,
    /// Interarrival jitter in the fixed-point unit of [`JITTER_UNIT`].
    jitter: u128,
    /// Bytes and nanoseconds of each stats period.
    buckets: Ring<(u64, u64), KBPS_BUCKETS>,
    bytes: u64,
}

/// The jitter estimate is kept in this many parts of a nanosecond.
pub const JITTER_UNIT: u128 = 65_536;

/// What [`RxStats`] hold.
pub struct RxView {
    pub media: Seq<i64>,
    pub prev: Option<(Moment, i64)>,
    pub jitter: nat,
    pub buckets: Seq<(u64, u64)>,
    pub bytes: u64,
}

/// Whether `step` is the time from one frame to the next, not a jump of the timestamps.
pub open spec fn is_frame_step(step: int) -> bool {
    0 <= step <= MAX_MEDIA_STEP
}

/// What is left of `media` when the timestamps older than the window before `ts` are dropped
/// from its front.
pub open spec fn recent(media: Seq<i64>, ts: i64) -> Seq<i64>
    decreases media.len(),
{
    if media.len() > 0 && media[0] < ts - CAMERA_FPS_WINDOW {
        recent(media.skip(1), ts)
    } else {
        media
    }
}

/// The timestamps kept after a frame at `ts`: a jump starts over.
pub open spec fn timestamps(media: Seq<i64>, ts: i64) -> Seq<i64> {
    let kept = if media.len() > 0 && !is_frame_step(ts - media.last()) {
        Seq::empty()
    } else {
        media
    };
    recent(pushed(kept, ts, CAMERA_FPS_FRAMES as nat), ts)
}

/// How much longer or shorter the way of a frame was than that of the one before:
/// the distance between the step of the arrivals and the step of the timestamps.
pub open spec fn deviation(prev: (Moment, i64), arrival: Moment, ts: i64) -> nat {
    let d = arrival.elapsed_since(prev.0) - (ts - prev.1);
    if d < 0 {
        (-d) as nat
    } else {
        d as nat
    }
}

/// One step of the estimator of RFC 3550: a sixteenth of the way from `jitter` towards `sample`.
pub open spec fn smoothed(jitter: nat, sample: nat) -> int {
    jitter + (sample - jitter) / 16
}

/// The jitter estimate after a frame.
pub open spec fn jitter_after(
    stats: RxView,
    arrival: Moment,
    ts: i64,
    discontinuity: bool,
) -> nat {
    match stats.prev {
        Some(prev) if !discontinuity && is_frame_step(ts - prev.1) => smoothed(
            stats.jitter,
            deviation(prev, arrival, ts) * JITTER_UNIT as nat,
        ) as nat,
        _ => stats.jitter,
    }
}

/// `a + b`, or the largest number of 64 bits.
pub open spec fn capped_sum(a: u64, b: int) -> u64 {
    if a + b <= u64::MAX {
        (a + b) as u64
    } else {
        u64::MAX
    }
}

impl RxView {
    /// The statistics after one received frame of `len` bytes.
    pub open spec fn received(
        self,
        arrival: Moment,
        ts: i64,
        len: nat,
        discontinuity: bool,
    ) -> RxView {
        RxView {
            media: timestamps(self.media, ts),
            prev: Some((arrival, ts)),
            jitter: jitter_after(self, arrival, ts, discontinuity),
            buckets: self.buckets,
            bytes: capped_sum(self.bytes, len as int),
        }
    }

    /// Frames per second that the camera sends, in single precision.
    pub open spec fn rate(self) -> u128 {
        if self.media.len() > 0 && self.media.last() > self.media[0] {
            single::rounded(
                ((self.media.len() - 1) * SECOND * single::ONE) as nat,
                (self.media.last() - self.media[0]) as nat,
            ) as u128
        } else {
            0
        }
    }

    /// The jitter in milliseconds, in single precision.
    pub open spec fn jitter_ms(self) -> u128 {
        single::rounded(
            self.jitter * (single::ONE / JITTER_UNIT) as nat,
            MILLISECOND as nat,
        ) as u128
    }

    /// The estimates stay within what frames can show.
    pub open spec fn wf(self) -> bool {
        &&& self.jitter <= u64::MAX * JITTER_UNIT
        &&& self.media.len() <= CAMERA_FPS_FRAMES
        &&& self.buckets.len() <= KBPS_BUCKETS
    }
}

/// The bytes of some stats periods together.
pub open spec fn total_bytes(buckets: Seq<(u64, u64)>) -> nat
    decreases buckets.len(),
{
    if buckets.len() == 0 {
        0
    } else {
        total_bytes(buckets.drop_last()) + buckets.last().0 as nat
    }
}

/// The nanoseconds of some stats periods together.
pub open spec fn total_nanos(buckets: Seq<(u64, u64)>) -> nat
    decreases buckets.len(),
{
    if buckets.len() == 0 {
        0
    } else {
        total_nanos(buckets.drop_last()) + buckets.last().1 as nat
    }
}

/// The bitrate over some stats periods, in thousands of bits per second.
pub open spec fn kbps_of(buckets: Seq<(u64, u64)>) -> u32 {
    if total_nanos(buckets) == 0 {
        0
    } else {
        round::clamp_u32(
            round::half_up(total_bytes(buckets) * 8_000_000, total_nanos(buckets)),
        )
    }
}

proof fn lemma_smoothed_bounds(jitter: nat, sample: nat)
    ensures
        jitter <= sample ==> jitter <= smoothed(jitter, sample) <= sample,
        sample <= jitter ==> sample <= smoothed(jitter, sample) <= jitter,
{
}

impl RxStats {
    /// What the statistics hold.
    pub closed spec fn state(self) -> RxView {
        RxView {
            media: self.media@,
            prev: self.prev,
            jitter: self.jitter as nat,
            buckets: self.buckets@,
            bytes: self.bytes,
        }
    }

    /// The parts are in order.
    pub closed spec fn wf(self) -> bool {
        &&& self.media.wf()
        &&& self.buckets.wf()
        &&& self.state().wf()
    }

    /// Statistics of a session without frames.
    pub fn new() -> (res: RxStats)
        ensures
            res.wf(),
            res.state() == (RxView {
                media: Seq::empty(),
                prev: None,
                jitter: 0,
                buckets: Seq::empty(),
                bytes: 0,
            }),
    {
        RxStats {
            media: Ring::default(),
            prev: None,
            jitter: 0,
            buckets: Ring::default(),
            bytes: 0,
        }
    }

    /// Records one received frame. `discontinuity`: packets were lost right before it.
    pub fn on_frame(&mut self, arrival: Moment, media_ts: i64, len: usize, discontinuity: bool)
        requires
            old(self).wf(),
        ensures
            final(self).wf(),
            final(self).state() == old(self).state().received(
                arrival,
                media_ts,
                len as nat,
                discontinuity,
            ),
    {
        let ghost before = self.state();
        self.bytes = self.bytes.saturating_add(len as u64);
        if let Some(last) = self.media.back() {
            let step: i128 = media_ts as i128 - last as i128;
            if step < 0 || step > MAX_MEDIA_STEP as i128 {
                self.media.clear();
            }
        }
        self.media.push(media_ts);
        let ghost all = self.media@;
        let oldest: i128 = media_ts as i128 - CAMERA_FPS_WINDOW as i128;
        let mut done: bool = false;
        while !done
            invariant
                self.media.wf(),
                self.buckets.wf(),
                self.media@.len() <= CAMERA_FPS_FRAMES,
                self.prev == before.prev,
                self.jitter == before.jitter,
                self.buckets@ == before.buckets,
                self.bytes == capped_sum(before.bytes, len as int),
                oldest == media_ts - CAMERA_FPS_WINDOW,
                recent(self.media@, media_ts) == recent(all, media_ts),
                done ==> recent(all, media_ts) == self.media@,
            decreases
                self.media@.len(),
                (if done {
                    0int
                } else {
                    1int
                }),
        {
            match self.media.front() {
                Some(first) if (first as i128) < oldest => {
                    self.media.pop_front();
                },
                _ => {
                    done = true;
                },
            }
        }
        if !discontinuity {
            if let Some((prev_arrival, prev_ts)) = self.prev {
                let media_step: i128 = media_ts as i128 - prev_ts as i128;
                if media_step >= 0 && media_step <= MAX_MEDIA_STEP as i128 {
                    let arrived: u64 = arrival.since(prev_arrival);
                    let stamped: u64 = media_step as u64;
                    let off: u64 = if arrived >= stamped {
                        arrived - stamped
                    } else {
                        stamped - arrived
                    };
                    assert(off == deviation((prev_arrival, prev_ts), arrival, media_ts));
                    let sample: u128 = off as u128 * 65_536;
                    proof {
                        lemma_smoothed_bounds(self.jitter as nat, sample as nat);
                    }
                    self.jitter = if sample >= self.jitter {
                        self.jitter + (sample - self.jitter) / 16
                    } else {
                        self.jitter - (self.jitter - sample + 15) / 16
                    };
                }
            }
        }
        self.prev = Some((arrival, media_ts));
    }

    /// Rate the camera is sending at, from media timestamps (independent of network jitter), in
    /// single precision.
    pub fn camera_fps(&self) -> (res: u128)
        requires
            self.wf(),
        ensures
            res == self.state().rate(),
    {
        match (self.media.front(), self.media.back()) {
            (Some(first), Some(last)) if last > first => {
                let span: u64 = (last as i128 - first as i128) as u64;
                let frames: u128 = self.media.len() as u128;
                assert((frames - 1) * SECOND * single::ONE <= 255 * SECOND * single::ONE)
                    by (nonlinear_arith)
                    requires
                        frames <= 256,
                ;
                single::round_to_single((frames - 1) * SECOND as u128 * single::ONE, span as u128)
            },
            _ => 0,
        }
    }

    /// Interarrival jitter of the frames in milliseconds, in single precision.
    pub fn jitter_ms(&self) -> (res: u128)
        requires
            self.wf(),
        ensures
            res == self.state().jitter_ms(),
    {
        assert(single::ONE / JITTER_UNIT == 0x20_0000_0000);
        let scale: u128 = single::ONE / JITTER_UNIT;
        assert(self.jitter * scale <= u64::MAX * JITTER_UNIT * scale) by (nonlinear_arith)
            requires
                self.jitter <= u64::MAX * JITTER_UNIT,
                scale >= 0,
        ;
        single::round_to_single(self.jitter * scale, MILLISECOND as u128)
    }

    /// Closes a stats period of `nanos` nanoseconds; returns the bitrate over the last few ones.
    pub fn tick(&mut self, nanos: u64) -> (res: u32)
        requires
            old(self).wf(),
        ensures
            final(self).wf(),
            final(self).state() == (RxView {
                buckets: pushed(
                    old(self).state().buckets,
                    (old(self).state().bytes, nanos),
                    KBPS_BUCKETS as nat,
                ),
                bytes: 0,
                ..old(self).state()
            }),
            res == kbps_of(final(self).state().buckets),
    {
        self.buckets.push((self.bytes, nanos));
        self.bytes = 0;
        let buckets = self.buckets.iter();
        let mut bytes: u128 = 0;
        let mut span: u128 = 0;
        let mut i: usize = 0;
        while i < buckets.len()
            invariant
                i <= buckets@.len() <= KBPS_BUCKETS,
                bytes == total_bytes(buckets@.take(i as int)),
                span == total_nanos(buckets@.take(i as int)),
                bytes <= i * u64::MAX,
                span <= i * u64::MAX,
            decreases buckets@.len() - i,
        {
            assert(buckets@.take(i + 1).drop_last() =~= buckets@.take(i as int));
            bytes = bytes + buckets[i].0 as u128;
            span = span + buckets[i].1 as u128;
            i = i + 1;
        }
        assert(buckets@.take(i as int) =~= buckets@);
        if span == 0 {
            0
        } else {
            round::ratio_u32(bytes * 8_000_000, span)
        }
    }
}

/// A frame as the statistics see it.
pub struct Reception {
    pub arrival: Moment,
    pub ts: i64,
    pub len: nat,
    pub discontinuity: bool,
}

impl RxView {
    /// The statistics after these frames, one after the other.
    pub open spec fn after_all(self, frames: Seq<Reception>) -> RxView
        decreases frames.len(),
    {
        if frames.len() == 0 {
            self
        } else {
            let last = frames.last();
            self.after_all(frames.drop_last()).received(
                last.arrival,
                last.ts,
                last.len,
                last.discontinuity,
            )
        }
    }
}

/// When frames arrive, how large they are and whether packets were lost does not touch the rate
/// that the camera is found to send at: two runs of frames with the same timestamps show the same
/// rate.
pub proof fn lemma_rate_ignores_arrivals(
    a: RxView,
    b: RxView,
    first: Seq<Reception>,
    second: Seq<Reception>,
)
    requires
        a.media == b.media,
        first.len() == second.len(),
        forall|i: int| 0 <= i < first.len() ==> (#[trigger] first[i]).ts == second[i].ts,
    ensures
        a.after_all(first).media == b.after_all(second).media,
        a.after_all(first).rate() == b.after_all(second).rate(),
    decreases first.len(),
{
    if first.len() > 0 {
        let (p, q) = (first.drop_last(), second.drop_last());
        assert forall|i: int| 0 <= i < p.len() implies (#[trigger] p[i]).ts == q[i].ts by {
            assert(p[i] == first[i]);
        }
        lemma_rate_ignores_arrivals(a, b, p, q);
        assert(first[first.len() - 1].ts == second[second.len() - 1].ts);
    }
}

/// A frame after lost packets does not touch the jitter estimate, and neither does one whose
/// timestamp jumped.
pub proof fn lemma_gaps_keep_jitter(stats: RxView, arrival: Moment, ts: i64, len: nat, lost: bool)
    requires
        lost || stats.prev is None || !is_frame_step(ts - (stats.prev->0).1),
    ensures
        stats.received(arrival, ts, len, lost).jitter == stats.jitter,
{
}

/// The jitter estimate moves towards the newest deviation and never past it; so frames that
/// arrive as they were stamped never raise it, and an estimate of zero then stays zero.
pub proof fn lemma_jitter_moves_towards_sample(
    stats: RxView,
    arrival: Moment,
    ts: i64,
    len: nat,
)
    requires
        stats.prev is Some,
        is_frame_step(ts - (stats.prev->0).1),
    ensures
        ({
            let sample = deviation(stats.prev->0, arrival, ts) * JITTER_UNIT as nat;
            let next = stats.received(arrival, ts, len, false).jitter;
            &&& stats.jitter <= sample ==> stats.jitter <= next <= sample
            &&& sample <= stats.jitter ==> sample <= next <= stats.jitter
        }),
{
    lemma_smoothed_bounds(
        stats.jitter,
        deviation(stats.prev->0, arrival, ts) * JITTER_UNIT as nat,
    );
}

/// Whether timestamps never go back.
pub open spec fn ordered(media: Seq<i64>) -> bool {
    forall|i: int, j: int| 0 <= i < j < media.len() ==> media[i] <= media[j]
}

proof fn lemma_recent(media: Seq<i64>, ts: i64)
    requires
        ordered(media),
        media.len() > 0,
        media.last() == ts,
    ensures
        ordered(recent(media, ts)),
        recent(media, ts).len() > 0,
        recent(media, ts).last() == ts,
        forall|i: int|
            0 <= i < recent(media, ts).len() ==> ts - CAMERA_FPS_WINDOW <= #[trigger] recent(
                media,
                ts,
            )[i] <= ts,
    decreases media.len(),
{
    if media[0] < ts - CAMERA_FPS_WINDOW {
        assert(media.len() > 1);
        lemma_recent(media.skip(1), ts);
    } else {
        assert forall|i: int| 0 <= i < media.len() implies ts - CAMERA_FPS_WINDOW <= (
        #[trigger] media[i]) <= ts by {
            if i > 0 {
                assert(media[0] <= media[i]);
            }
            if i < media.len() - 1 {
                assert(media[i] <= media[media.len() - 1]);
            }
        }
    }
}

/// The kept timestamps are in order, end with the newest one and all lie within the window
/// before it.
pub proof fn lemma_kept_timestamps_are_recent(media: Seq<i64>, ts: i64)
    requires
        ordered(media),
        media.len() <= CAMERA_FPS_FRAMES,
    ensures
        ({
            let kept = timestamps(media, ts);
            &&& ordered(kept)
            &&& 0 < kept.len() <= CAMERA_FPS_FRAMES
            &&& kept.last() == ts
            &&& forall|i: int|
                0 <= i < kept.len() ==> ts - CAMERA_FPS_WINDOW <= #[trigger] kept[i] <= ts
        }),
{
    let kept = if media.len() > 0 && !is_frame_step(ts - media.last()) {
        Seq::empty()
    } else {
        media
    };
    let all = pushed(kept, ts, CAMERA_FPS_FRAMES as nat);
    assert forall|i: int, j: int| 0 <= i < j < all.len() implies all[i] <= all[j] by {
        if kept.len() > 0 {
            let shift: int = if kept.len() == CAMERA_FPS_FRAMES {
                1
            } else {
                0
            };
            assert(all[i] == kept[i + shift]);
            if i + shift < kept.len() - 1 {
                assert(kept[i + shift] <= kept[kept.len() - 1]);
            }
        }
    }
    lemma_recent(all, ts);
    lemma_recent_len(all, ts);
}

proof fn lemma_recent_len(media: Seq<i64>, ts: i64)
    ensures
        recent(media, ts).len() <= media.len(),
    decreases media.len(),
{
    if media.len() > 0 && media[0] < ts - CAMERA_FPS_WINDOW {
        lemma_recent_len(media.skip(1), ts);
    }
}

/// When the timestamps jump, the rate is unknown until the next frame.
pub proof fn lemma_jump_resets_rate(
    stats: RxView,
    arrival: Moment,
    ts: i64,
    len: nat,
    lost: bool,
)
    requires
        stats.media.len() > 0,
        !is_frame_step(ts - stats.media.last()),
    ensures
        stats.received(arrival, ts, len, lost).rate() == 0,
{
    assert(pushed(Seq::<i64>::empty(), ts, CAMERA_FPS_FRAMES as nat) =~= seq![ts]);
    reveal_with_fuel(recent, 2);
}

/// Extra latency that smoothing adds on top of the least-delayed frame, to absorb jitter.
pub const PLAYOUT_DELAY: u64 = 150_000_000;

/// The baseline follows clock drift and route changes by one part in this many.
pub const BASELINE_CREEP: i128 = 2000;

/// A frame this much later than the baseline predicts means the timestamps jumped: resync.
pub const RESYNC_LATE: i128 = 1_000_000_000;

/// Maps media timestamps to local playout times.
///
/// The baseline is the smallest observed difference between arrival and media timestamp (the
/// least-delayed frame), creeping slowly upward; a frame is due at its timestamp plus the
/// baseline plus [`PLAYOUT_DELAY`], which is never later than its own arrival plus
/// [`PLAYOUT_DELAY`].
pub struct Pacer {
    /// Local time origin: the arrival of the first frame after a reset.
    epoch: Option<Moment>,
    /// Baseline relative to `epoch`, in parts of a nanosecond ([`BASELINE_CREEP`] of them).
    offset: i128,
    /// Arrival of the previous frame, in nanoseconds since `epoch`.
    last_arrival: u64,
    session: u32,
    params: Option<ParamsId>,
}

/// What a [`Pacer`] holds.
pub struct PacerView {
    pub epoch: Option<Moment>,
    pub offset: int,
    pub last_arrival: int,
    pub session: u32,
    pub params: Option<ParamsId>,
}

impl PacerView {
    /// Without a baseline.
    pub open spec fn cleared(self) -> PacerView {
        PacerView { epoch: None, ..self }
    }

    /// Whether a picture starts a new baseline: other parameters, another session, or pictures
    /// lost before it.
    pub open spec fn starts_over(self, au: AccessUnit) -> bool {
        ||| self.params != Some(au.params_id)
        ||| au.session != self.session
        ||| au.discontinuity
    }

    /// Ready for the picture `au`.
    pub open spec fn prepared(self, au: AccessUnit) -> PacerView {
        PacerView {
            epoch: if self.starts_over(au) {
                None
            } else {
                self.epoch
            },
            params: Some(au.params_id),
            session: au.session,
            ..self
        }
    }

    /// The local time origin for a frame that arrives at `arrival`.
    pub open spec fn origin(self, arrival: Moment) -> Moment {
        match self.epoch {
            Some(epoch) => epoch,
            None => arrival,
        }
    }

    /// Where the baseline would have to be for a frame to be due right after the playout delay.
    pub open spec fn sample(self, arrival: Moment, ts: i64) -> int {
        (arrival.elapsed_since(self.origin(arrival)) - ts) * BASELINE_CREEP
    }

    /// The baseline after it has crept up to `arrival`: one part in [`BASELINE_CREEP`] of the
    /// time since the previous arrival.
    pub open spec fn crept(self, arrival: Moment) -> int {
        let since = arrival.elapsed_since(self.origin(arrival)) - self.last_arrival;
        self.offset + if since > 0 {
            since
        } else {
            0
        }
    }

    /// Whether a frame is so late that its timestamp must have jumped.
    pub open spec fn jumped(self, arrival: Moment, ts: i64) -> bool {
        self.sample(arrival, ts) - self.crept(arrival) > RESYNC_LATE * BASELINE_CREEP
    }

    /// The state after a frame.
    pub open spec fn paced(self, arrival: Moment, ts: i64) -> PacerView {
        let sample = self.sample(arrival, ts);
        PacerView {
            epoch: Some(self.origin(arrival)),
            offset: if arrival == self.origin(arrival) || self.jumped(arrival, ts) {
                sample
            } else if self.crept(arrival) < sample {
                self.crept(arrival)
            } else {
                sample
            },
            last_arrival: arrival.elapsed_since(self.origin(arrival)) as int,
            ..self
        }
    }

    /// When a frame with the media timestamp `ts` is due by the present baseline.
    pub open spec fn due_at(self, ts: i64) -> Moment {
        let target = (ts * BASELINE_CREEP + self.offset + PLAYOUT_DELAY * BASELINE_CREEP)
            / (BASELINE_CREEP as int);
        if target <= 0 || self.epoch is None {
            self.origin(Moment { nanos: 0 })
        } else if target > u64::MAX {
            Moment { nanos: u64::MAX }
        } else {
            self.epoch->0.after(target as u64)
        }
    }

    /// The baseline stays within what frames can show.
    pub open spec fn wf(self) -> bool {
        &&& -0x8000_0000_0000_0000 * BASELINE_CREEP <= self.offset <= 0x2_0000_0000_0000_0000
            * BASELINE_CREEP
        &&& 0 <= self.last_arrival <= u64::MAX
    }
}

impl Pacer {
    /// What the pacer holds.
    pub closed spec fn state(self) -> PacerView {
        PacerView {
            epoch: self.epoch,
            offset: self.offset as int,
            last_arrival: self.last_arrival as int,
            session: self.session,
            params: self.params,
        }
    }

    /// A pacer without a baseline.
    pub fn new() -> (res: Pacer)
        ensures
            res.state() == (PacerView {
                epoch: None,
                offset: 0,
                last_arrival: 0,
                session: 0,
                params: None,
            }),
            res.state().wf(),
    {
        Pacer { epoch: None, offset: 0, last_arrival: 0, session: 0, params: None }
    }

    /// Forgets the baseline.
    pub fn reset(&mut self)
        ensures
            final(self).state() == old(self).state().cleared(),
    {
        self.epoch = None;
    }

    /// When `au` should be decoded. Resets the baseline on a new session, a parameter change
    /// or a discontinuity (loss or keyframe resync).
    pub fn due(&mut self, au: &AccessUnit) -> (res: Moment)
        requires
            old(self).state().wf(),
        ensures
            final(self).state() == old(self).state().prepared(*au).paced(au.arrival, au.media_ts),
            res == final(self).state().due_at(au.media_ts),
            final(self).state().wf(),
    {
        let known: bool = match self.params {
            Some(params) => params == au.params_id,
            None => false,
        };
        if !known {
            self.params = Some(au.params_id);
            self.reset();
        }
        if au.session != self.session || au.discontinuity {
            self.session = au.session;
            self.reset();
        }
        assert(self.state() == old(self).state().prepared(*au));
        self.target(au.arrival, au.media_ts)
    }

    /// When a frame should be decoded.
    pub fn target(&mut self, arrival: Moment, media_ts: i64) -> (res: Moment)
        requires
            old(self).state().wf(),
        ensures
            final(self).state() == old(self).state().paced(arrival, media_ts),
            res == final(self).state().due_at(media_ts),
            final(self).state().wf(),
    {
        let ghost before = self.state();
        let epoch = match self.epoch {
            Some(epoch) => epoch,
            None => arrival,
        };
        self.epoch = Some(epoch);
        let arrived: u64 = arrival.since(epoch);
        let sample: i128 = (arrived as i128 - media_ts as i128) * 2000;
        assert(sample == before.sample(arrival, media_ts));
        if arrival == epoch {
            self.offset = sample;
        } else {
            let since: u64 = if arrived > self.last_arrival {
                arrived - self.last_arrival
            } else {
                0
            };
            let crept: i128 = self.offset + since as i128;
            assert(crept == before.crept(arrival));
            self.offset = if sample - crept > RESYNC_LATE * 2000 || sample < crept {
                sample
            } else {
                crept
            };
        }
        self.last_arrival = arrived;
        assert(self.state() == before.paced(arrival, media_ts));
        let total: i128 = media_ts as i128 * 2000 + self.offset + 150_000_000 * 2000;
        if total < 2000 {
            return epoch;
        }
        let target: u128 = total as u128 / 2000;
        if target > u64::MAX as u128 {
            Moment { nanos: u64::MAX }
        } else {
            epoch.plus(target as u64)
        }
    }
}

/// A frame is never held longer than the playout delay after its arrival.
pub proof fn lemma_never_held_longer_than_delay(pacer: PacerView, arrival: Moment, ts: i64)
    requires
        pacer.origin(arrival).nanos <= arrival.nanos,
    ensures
        pacer.paced(arrival, ts).due_at(ts).nanos <= arrival.after(PLAYOUT_DELAY).nanos,
{
    let next = pacer.paced(arrival, ts);
    assert(next.offset <= pacer.sample(arrival, ts));
}

/// The first frame after a reset, and a frame whose timestamp jumped back, are due exactly the
/// playout delay after their arrival.
pub proof fn lemma_resync_is_due_after_delay(pacer: PacerView, arrival: Moment, ts: i64)
    requires
        pacer.origin(arrival).nanos <= arrival.nanos,
        pacer.epoch is None || pacer.jumped(arrival, ts),
        arrival.nanos + PLAYOUT_DELAY <= u64::MAX,
    ensures
        pacer.paced(arrival, ts).due_at(ts) == arrival.after(PLAYOUT_DELAY),
{
}

/// The baseline creeps up by at most one part in 2000 of the time between two arrivals, unless
/// the timestamps jumped.
pub proof fn lemma_baseline_creeps_slowly(pacer: PacerView, arrival: Moment, ts: i64)
    requires
        pacer.epoch is Some,
        arrival != pacer.epoch->0,
        !pacer.jumped(arrival, ts),
        arrival.elapsed_since(pacer.epoch->0) >= pacer.last_arrival,
    ensures
        pacer.paced(arrival, ts).offset - pacer.offset <= arrival.elapsed_since(pacer.epoch->0)
            - pacer.last_arrival,
{
}

/// A ring loses an element only when it is full, and then only the oldest one.
pub proof fn lemma_ring_loses_only_the_oldest<T>(s: Seq<T>, item: T, n: nat)
    requires
        s.len() <= n,
        n > 0,
    ensures
        s.len() < n ==> pushed(s, item, n) == s.push(item),
        s.len() == n ==> pushed(s, item, n) == s.push(item).skip(1),
        pushed(s, item, n).last() == item,
{
    if s.len() == n {
        assert(s.push(item).skip(1) =~= s.skip(1).push(item));
    }
}

/// The kept timestamps are those of the last two seconds: none that is younger is lost before there
/// are 256 of them, and a step back, or one of more than two seconds, starts over.
pub proof fn lemma_two_seconds_of_timestamps_are_kept(media: Seq<i64>, ts: i64)
    requires
        media.len() > 0,
        media.len() < 256,
    ensures
        0 <= ts - media.last() <= 2_000_000_000 && ts - media[0] <= 2_000_000_000 ==> timestamps(
            media,
            ts,
        ) == media.push(ts),
        ts < media.last() ==> timestamps(media, ts) == seq![ts],
        ts - media.last() > 2_000_000_000 ==> timestamps(media, ts) == seq![ts],
        0 <= ts - media.last() <= 2_000_000_000 && ts - media[0] > 2_000_000_000 ==> timestamps(
            media,
            ts,
        ).len() <= media.len(),
        timestamps(Seq::empty(), ts) == seq![ts],
{
    assert(pushed(Seq::<i64>::empty(), ts, CAMERA_FPS_FRAMES as nat) =~= seq![ts]);
    reveal_with_fuel(recent, 2);
    assert(media.push(ts)[0] == media[0]);
    assert(media.push(ts).last() == ts);
    lemma_recent_len(media.push(ts).skip(1), ts);
}

/// Frames that are stamped evenly show their rate: with `n` steps of which `per_second` make a
/// second, that is `per_second` frames per second, exactly.
pub proof fn lemma_even_frames_show_their_rate(stats: RxView, per_second: nat, n: nat)
    requires
        stats.media.len() == n + 1,
        n > 0,
        0 < per_second < 0x100_0000,
        (stats.media.last() - stats.media[0]) * per_second == n * 1_000_000_000,
    ensures
        stats.rate() == per_second * single::ONE,
{
    let span = (stats.media.last() - stats.media[0]) as int;
    assert(span > 0) by (nonlinear_arith)
        requires
            span * per_second == n * 1_000_000_000,
            n > 0,
            per_second > 0,
    ;
    single::lemma_whole_numbers_are_exact(span as nat, per_second);
    assert((stats.media.len() - 1) * SECOND * single::ONE == per_second * span * single::ONE)
        by (nonlinear_arith)
        requires
            stats.media.len() - 1 == n,
            span * per_second == n * 1_000_000_000,
            SECOND == 1_000_000_000,
    ;
    assert(per_second * single::ONE <= u128::MAX);
}

/// A rate needs two frames of different times.
pub proof fn lemma_no_rate_without_two_times(stats: RxView)
    requires
        stats.media.len() == 0 || stats.media.last() <= stats.media[0],
    ensures
        stats.rate() == 0,
{
}

/// A frame that came as much later than the one before as it is stamped later deviates by nothing;
/// one that is delayed, or early, by `off` deviates by that.
pub proof fn lemma_deviation_is_the_delay(
    prev: (Moment, i64),
    arrival: Moment,
    ts: i64,
    off: int,
)
    requires
        prev.0.nanos <= arrival.nanos,
        arrival.nanos - prev.0.nanos == ts - prev.1 + off,
    ensures
        off >= 0 ==> deviation(prev, arrival, ts) == off,
        off <= 0 ==> deviation(prev, arrival, ts) == -off,
{
}

/// The jitter goes a sixteenth of the way to each new deviation.
pub proof fn lemma_jitter_goes_a_sixteenth(stats: RxView, arrival: Moment, ts: i64)
    requires
        stats.prev is Some,
        0 <= ts - (stats.prev->0).1 <= 2_000_000_000,
    ensures
        ({
            let off = deviation(stats.prev->0, arrival, ts) * 65_536;
            let next = jitter_after(stats, arrival, ts, false);
            0 <= (off - stats.jitter) - 16 * (next - stats.jitter) < 16
        }),
        jitter_after(stats, arrival, ts, true) == stats.jitter,
{
}

/// The jitter is shown in milliseconds: a whole number of them, kept in parts of 65536 of a
/// nanosecond, is shown exactly.
pub proof fn lemma_jitter_is_shown_in_milliseconds(stats: RxView, ms: nat)
    requires
        ms < 0x100_0000,
        stats.jitter == ms * 1_000_000 * 65_536,
    ensures
        stats.jitter_ms() == ms * single::ONE,
{
    single::lemma_whole_numbers_are_exact(1_000_000, ms);
    assert(single::ONE / JITTER_UNIT == 0x20_0000_0000);
    assert(stats.jitter * (single::ONE / JITTER_UNIT) as nat == ms * 1_000_000
        * single::ONE as nat) by (nonlinear_arith)
        requires
            stats.jitter == ms * 1_000_000 * 65_536,
            single::ONE / JITTER_UNIT == 0x20_0000_0000,
            single::ONE == 0x20_0000_0000_0000,
    ;
}

/// Every received byte counts, in the period in which it came.
pub proof fn lemma_received_bytes_add_up(
    stats: RxView,
    arrival: Moment,
    ts: i64,
    len: nat,
    lost: bool,
    bucket: (u64, u64),
)
    ensures
        stats.bytes + len <= u64::MAX ==> stats.received(arrival, ts, len, lost).bytes
            == stats.bytes + len,
        stats.received(arrival, ts, len, lost).buckets == stats.buckets,
        stats.received(arrival, ts, len, lost).prev == Some((arrival, ts)),
        total_bytes(stats.buckets.push(bucket)) == total_bytes(stats.buckets) + bucket.0,
        total_nanos(stats.buckets.push(bucket)) == total_nanos(stats.buckets) + bucket.1,
        total_bytes(Seq::empty()) == 0,
        total_nanos(Seq::empty()) == 0,
{
    assert(stats.buckets.push(bucket).drop_last() =~= stats.buckets);
}

/// The bitrate is the bits of the periods over their time, to the nearest thousand a second.
pub proof fn lemma_bitrate_is_bits_over_time(buckets: Seq<(u64, u64)>)
    requires
        total_nanos(buckets) > 0,
        total_bytes(buckets) * 8_000_000 < 0xffff_ffff * total_nanos(buckets),
    ensures
        ({
            let bits = 8 * total_bytes(buckets) * 1_000_000;
            let time = total_nanos(buckets);
            -time < 2 * (kbps_of(buckets) * time - bits) <= time
        }),
        kbps_of(Seq::empty()) == 0,
{
    let n = total_bytes(buckets) * 8_000_000;
    let d = total_nanos(buckets);
    round::lemma_rounded_quotient_is_near(n, d);
    assert(n / d < 0xffff_ffff) by (nonlinear_arith)
        requires
            n < 0xffff_ffff * d,
            d > 0,
    ;
}

/// Frames that come by the same baseline are due as far apart as they are stamped.
pub proof fn lemma_cadence_is_that_of_the_camera(pacer: PacerView, a: i64, b: i64)
    requires
        pacer.epoch is Some,
        a <= b,
        pacer.epoch->0.nanos < pacer.due_at(a).nanos,
        pacer.due_at(b).nanos < u64::MAX,
    ensures
        pacer.due_at(b).nanos - pacer.due_at(a).nanos == b - a,
{
    let c = pacer.offset + PLAYOUT_DELAY * BASELINE_CREEP;
    assert((a * 2000 + c) / 2000 == a + c / 2000);
    assert((b * 2000 + c) / 2000 == b + c / 2000);
}

/// The baseline follows the least delayed frame at once, and otherwise creeps up by one part in
/// 2000 of the time that passes; a frame that is more than a second later than it predicts makes
/// it start over.
pub proof fn lemma_baseline_follows_the_least_delayed(
    pacer: PacerView,
    arrival: Moment,
    ts: i64,
)
    requires
        pacer.epoch is Some,
        pacer.epoch->0.nanos < arrival.nanos,
        arrival.nanos - pacer.epoch->0.nanos >= pacer.last_arrival,
    ensures
        ({
            let since = arrival.nanos - pacer.epoch->0.nanos;
            let own = (since - ts) * 2000;
            let crept = pacer.offset + (since - pacer.last_arrival);
            let next = pacer.paced(arrival, ts);
            &&& own <= crept ==> next.offset == own
            &&& crept < own <= crept + 2000 * 1_000_000_000 ==> next.offset == crept
            &&& own > crept + 2000 * 1_000_000_000 ==> next.offset == own
            &&& next.last_arrival == since
            &&& next.epoch == pacer.epoch
        }),
{
}

/// The pacing goes on only from a picture to the next one of the same stream: other parameters,
/// another session and a gap each start it over, and nothing else does.
pub proof fn lemma_what_starts_the_pacing_over(
    pacer: PacerView,
    au: AccessUnit,
    next: AccessUnit,
)
    ensures
        pacer.prepared(au).session == au.session,
        pacer.prepared(au).params == Some(au.params_id),
        au.discontinuity ==> pacer.prepared(au).epoch is None,
        au.session != pacer.session ==> pacer.prepared(au).epoch is None,
        pacer.params != Some(au.params_id) ==> pacer.prepared(au).epoch is None,
        !au.discontinuity && au.session == pacer.session && pacer.params == Some(au.params_id)
            ==> pacer.prepared(au) == pacer,
        !next.discontinuity && next.session == au.session && next.params_id == au.params_id
            ==> pacer.prepared(au).prepared(next) == pacer.prepared(au),
{
}

}
