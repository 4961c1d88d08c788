//! The supervision of one camera: connect, stream, and reconnect with backoff until stopped.
use vstd::prelude::*;
use vstd::string::*;

use crate::clock::Moment;
use crate::control::{Control, Global};
use crate::policy::{self, random_jitter, Backoff, FailureKind, STABLE_AFTER};
use crate::session::End;
use crate::shared::{SharedView, StatsView, StatusView, StreamShared, StreamStatus};

verus! {

/// How long to wait for the previous session of a camera to be torn down before reconnecting.
pub const TEARDOWN_BEFORE_CONNECT: u64 = 5_000_000_000;

/// What the supervisor does before a connection.
#[derive(Clone, Copy, Debug, PartialEq, Eq, Structural)]
pub enum Before {
    /// Nothing more.
    Stop,
    /// Pause the decoder and wait for a change.
    Park,
    /// Wait for the previous session to be torn down, then connect.
    Connect,
}

/// What the supervisor does after a session.
#[derive(Clone, Copy, Debug, PartialEq, Eq, Structural)]
pub enum After {
    /// Nothing more.
    Stop,
    /// Start over.
    Again,
    /// Wait for a command: only a changed configuration or an explicit retry helps.
    Hold,
    /// Wait for this moment, or a change.
    Wait { retry_at: Moment },
}

/// What ends a wait.
#[derive(Clone, Copy, Debug, PartialEq, Eq, Structural)]
pub enum Wake {
    /// New commands; none when nobody is left to give them.
    Control(Option<Control>),
    /// A new state of the application; none when nobody is left to change it.
    Global(Option<Global>),
    /// The time has come.
    Elapsed,
}

/// What follows from the end of a wait.
#[derive(Clone, Copy, Debug, PartialEq, Eq, Structural)]
pub enum Next {
    /// Nothing more.
    Stop,
    /// Start over.
    Again,
    /// Wait on.
    Stay,
}

/// Whether these commands, or their absence, end the supervision.
pub open spec fn stops(control: Option<Control>) -> bool {
    control is None || control->0.stop
}

/// The supervision of one camera.
pub struct Supervisor {
    backoff: Backoff,
    wake_epoch: u64,
    session: u32,
}

/// What a [`Supervisor`] holds.
pub struct SupervisorView {
    /// Number of consecutive failed attempts.
    pub attempts: u32,
    /// The last wake that was noticed.
    pub wake_epoch: u64,
    /// Number of the last session.
    pub session: u32,
}

impl View for Supervisor {
    type V = SupervisorView;

    closed spec fn view(&self) -> SupervisorView {
        SupervisorView {
            attempts: self.backoff.attempts(),
            wake_epoch: self.wake_epoch,
            session: self.session,
        }
    }
}

impl SupervisorView {
    /// After the state of the application was looked at: a wake resets the backoff.
    pub open spec fn noticing(self, global: Global) -> SupervisorView {
        if global.wake_epoch != self.wake_epoch {
            SupervisorView { wake_epoch: global.wake_epoch, attempts: 0, ..self }
        } else {
            self
        }
    }

    /// Whether a session that streamed since `since` was stable at `now`.
    pub open spec fn stable(since: Option<Moment>, now: Moment) -> bool {
        since is Some && now.elapsed_since(since->0) >= STABLE_AFTER
    }

    /// Before the next step, with what is wanted of the camera.
    pub open spec fn stepping(self, control: Control, global: Global) -> SupervisorView {
        if control.stop {
            self
        } else {
            self.noticing(global)
        }
    }

    /// With the number of the next session.
    pub open spec fn beginning(self) -> SupervisorView {
        SupervisorView { session: self.session.wrapping_add(1), ..self }
    }

    /// After something happened while the camera was held.
    pub open spec fn after_hold(self, wake: Wake) -> SupervisorView {
        if hold_next(wake) == Next::Again {
            SupervisorView { attempts: 0, ..self }
        } else {
            self
        }
    }

    /// After something happened while a retry was waited for.
    pub open spec fn after_wait(self, wake: Wake) -> SupervisorView {
        match wake {
            Wake::Global(Some(global)) => self.noticing(global),
            _ => self,
        }
    }

    /// The number of the attempt after a session failed in a way that is worth a retry.
    pub open spec fn attempt_after(self, since: Option<Moment>, now: Moment) -> u32 {
        policy::next_attempt(
            if Self::stable(since, now) {
                0
            } else {
                self.attempts
            },
        )
    }
}

/// What is shared once a session has ended: nothing is received any more.
pub open spec fn idle<F>(shared: SharedView<F>) -> SharedView<F> {
    shared.with_fps(0).with_stats(
        StatsView { kbps: 0, camera_fps: 0, jitter_ms: 0, ..shared.stats },
    )
}

/// What is shared once a session has failed.
pub open spec fn marked<F>(shared: SharedView<F>, reason: Seq<char>) -> SharedView<F> {
    shared.with_stats(StatsView { last_error: Some(reason), ..shared.stats })
}

/// The next number, or the last one of 32 bits.
pub open spec fn one_more(n: u32) -> u32 {
    if n < u32::MAX {
        (n + 1) as u32
    } else {
        n
    }
}

/// What is shared while waiting for attempt `attempt` at `retry_at`.
pub open spec fn reconnecting<F>(
    shared: SharedView<F>,
    attempt: u32,
    retry_at: Moment,
    reason: Seq<char>,
) -> SharedView<F> {
    shared.with_stats(
        StatsView { reconnects: one_more(shared.stats.reconnects), ..shared.stats },
    ).with_status(StatusView::Reconnecting { attempt, retry_at, reason })
}

impl Supervisor {
    /// The supervision of a camera that was put in the mosaic.
    pub fn new(global: Global) -> (res: Supervisor)
        ensures
            res@ == (SupervisorView { attempts: 0, wake_epoch: global.wake_epoch, session: 0 }),
    {
        Supervisor { backoff: Backoff::new(), wake_epoch: global.wake_epoch, session: 0 }
    }

    /// There is no thread to decode on: the camera cannot be shown.
    pub fn decoder_missing<F>(shared: &mut StreamShared<F>)
        ensures
            final(shared)@ == old(shared)@.with_status(
                StatusView::Error("Could not start the decoder"@),
            ),
    {
        shared.set_status(StreamStatus::Error("Could not start the decoder".to_owned()));
    }

    /// What to do now.
    pub fn next<F>(
        &mut self,
        control: Control,
        global: Global,
        shared: &mut StreamShared<F>,
    ) -> (res: Before)
        ensures
            res == before_of(control, global),
            final(self)@ == old(self)@.stepping(control, global),
            final(shared)@ == shared_before(control, global, old(shared)@),
    {
        if control.stop {
            return Before::Stop;
        }
        self.notice(global);
        if global.wants_connection() {
            return Before::Connect;
        }
        shared.set_fps(0);
        shared.set_status(StreamStatus::Paused);
        Before::Park
    }

    /// Looks at the state of the application. Whether the system woke up.
    fn notice(&mut self, global: Global) -> (res: bool)
        ensures
            final(self)@ == old(self)@.noticing(global),
            res == (global.wake_epoch != old(self)@.wake_epoch),
    {
        if global.wake_epoch != self.wake_epoch {
            self.wake_epoch = global.wake_epoch;
            self.backoff.reset();
            true
        } else {
            false
        }
    }

    /// What follows when the wait of [`Before::Park`] ends.
    pub fn on_parked(&self, wake: Wake) -> (res: Next)
        ensures
            res == parked_next(wake),
    {
        match wake {
            Wake::Control(None) => Next::Stop,
            Wake::Global(None) => Next::Stop,
            _ => Next::Again,
        }
    }

    /// The previous session is torn down: the number of the one to start now, unless the camera
    /// was stopped meanwhile.
    pub fn begin<F>(&mut self, control: Control, shared: &mut StreamShared<F>) -> (res: Option<u32>)
        ensures
            control.stop ==> res is None && final(self)@ == old(self)@ && final(shared)@ == old(
                shared,
            )@,
            !control.stop ==> {
                &&& res == Some(old(self)@.beginning().session)
                &&& final(self)@ == old(self)@.beginning()
                &&& final(shared)@ == old(shared)@.with_status(StatusView::Connecting)
            },
    {
        if control.stop {
            return None;
        }
        self.session = self.session.wrapping_add(1);
        shared.set_status(StreamStatus::Connecting);
        Some(self.session)
    }

    /// What follows from the end of a session, where a retry is delayed by the given jitter.
    pub fn ended_with<F>(
        &mut self,
        end: End,
        control: Control,
        now: Moment,
        jitter: u64,
        shared: &mut StreamShared<F>,
    ) -> (res: After)
        ensures
            ended_as(
                res,
                old(self)@,
                final(self)@,
                end,
                control,
                now,
                jitter,
                old(shared)@,
                final(shared)@,
            ),
    {
        let ghost before = shared@;
        shared.set_fps(0);
        {
            let stats = shared.update_stats();
            stats.kbps = 0;
            stats.camera_fps = 0;
            stats.jitter_ms = 0;
        }
        assert(shared@ == idle(before));
        let (failure, streaming_since) = match end {
            End::Stopped => {
                return After::Stop;
            },
            End::Paused => {
                return After::Again;
            },
            End::Failed { failure, streaming_since } => (failure, streaming_since),
        };
        if control.stop {
            return After::Stop;
        }
        {
            let stats = shared.update_stats();
            stats.last_error = Some(failure.reason.clone());
        }
        assert(shared@ == marked(idle(before), failure.reason@));
        match failure.kind {
            FailureKind::Auth => {
                shared.set_status(StreamStatus::AuthFailed);
                After::Hold
            },
            FailureKind::Fatal => {
                shared.set_status(StreamStatus::Error(failure.reason));
                After::Hold
            },
            FailureKind::Retry => {
                if let Some(since) = streaming_since {
                    if now.since(since) >= STABLE_AFTER {
                        self.backoff.reset();
                    }
                }
                let delay: u64 = self.backoff.next_delay(jitter);
                let retry_at = now.plus(delay);
                {
                    let stats = shared.update_stats();
                    stats.reconnects = stats.reconnects.saturating_add(1);
                }
                shared.set_status(
                    StreamStatus::Reconnecting {
                        attempt: self.backoff.attempt(),
                        retry_at,
                        reason: failure.reason,
                    },
                );
                After::Wait { retry_at }
            },
        }
    }

    /// What follows from the end of a session.
    pub fn ended<F>(
        &mut self,
        end: End,
        control: Control,
        now: Moment,
        shared: &mut StreamShared<F>,
    ) -> (res: After)
        ensures
            exists|jitter: u64|
                jitter < policy::JITTER_ONE && #[trigger] ended_as(
                    res,
                    old(self)@,
                    final(self)@,
                    end,
                    control,
                    now,
                    jitter,
                    old(shared)@,
                    final(shared)@,
                ),
    {
        let jitter: u64 = random_jitter();
        self.ended_with(end, control, now, jitter, shared)
    }

    /// What follows when something happens during [`After::Hold`]. Only a command re-arms the
    /// camera.
    pub fn on_hold(&mut self, wake: Wake) -> (res: Next)
        ensures
            res == hold_next(wake),
            final(self)@ == old(self)@.after_hold(wake),
    {
        let res = match wake {
            Wake::Control(Some(control)) if !control.stop => Next::Again,
            Wake::Control(_) => Next::Stop,
            Wake::Global(None) => Next::Stop,
            _ => Next::Stay,
        };
        if res == Next::Again {
            self.backoff.reset();
        }
        res
    }

    /// What follows when something happens during [`After::Wait`].
    pub fn on_wait(&mut self, wake: Wake) -> (res: Next)
        ensures
            res == wait_next(old(self)@, wake),
            final(self)@ == old(self)@.after_wait(wake),
    {
        match wake {
            Wake::Elapsed => Next::Again,
            Wake::Control(Some(control)) if !control.stop => Next::Again,
            Wake::Control(_) => Next::Stop,
            Wake::Global(None) => Next::Stop,
            Wake::Global(Some(global)) => {
                let woke = self.notice(global);
                if woke || !global.wants_connection() {
                    Next::Again
                } else {
                    Next::Stay
                }
            },
        }
    }
}

/// What follows from the end of a session: the decision, the supervision and what is shared.
pub open spec fn ended_as<F>(
    res: After,
    before: SupervisorView,
    after: SupervisorView,
    end: End,
    control: Control,
    now: Moment,
    jitter: u64,
    shared_before: SharedView<F>,
    shared_after: SharedView<F>,
) -> bool {
    let idle = idle(shared_before);
    match end {
        End::Stopped => res == After::Stop && after == before && shared_after == idle,
        End::Paused => res == After::Again && after == before && shared_after == idle,
        End::Failed { failure, streaming_since } => {
            let marked = marked(idle, failure.reason@);
            if control.stop {
                res == After::Stop && after == before && shared_after == idle
            } else {
                match failure.kind {
                    FailureKind::Auth => {
                        &&& res == After::Hold
                        &&& after == before
                        &&& shared_after == marked.with_status(StatusView::AuthFailed)
                    },
                    FailureKind::Fatal => {
                        &&& res == After::Hold
                        &&& after == before
                        &&& shared_after == marked.with_status(
                            StatusView::Error(failure.reason@),
                        )
                    },
                    FailureKind::Retry => {
                        let attempt = before.attempt_after(streaming_since, now);
                        let retry_at = now.after(
                            policy::backoff_delay(attempt as nat, jitter as nat) as u64,
                        );
                        &&& res == After::Wait { retry_at }
                        &&& after == SupervisorView { attempts: attempt, ..before }
                        &&& shared_after == reconnecting(
                            marked,
                            attempt,
                            retry_at,
                            failure.reason@,
                        )
                    },
                }
            }
        },
    }
}

/// What to do before a connection.
pub open spec fn before_of(control: Control, global: Global) -> Before {
    if control.stop {
        Before::Stop
    } else if global.connects() {
        Before::Connect
    } else {
        Before::Park
    }
}

/// What is shared before a connection.
pub open spec fn shared_before<F>(
    control: Control,
    global: Global,
    shared: SharedView<F>,
) -> SharedView<F> {
    if before_of(control, global) == Before::Park {
        shared.with_fps(0).with_status(StatusView::Paused)
    } else {
        shared
    }
}

/// What follows when something happens while nothing is to be connected.
pub open spec fn parked_next(wake: Wake) -> Next {
    if wake == Wake::Control(None) || wake == Wake::Global(None) {
        Next::Stop
    } else {
        Next::Again
    }
}

/// What follows when something happens while a camera is held.
pub open spec fn hold_next(wake: Wake) -> Next {
    match wake {
        Wake::Control(control) => if stops(control) {
            Next::Stop
        } else {
            Next::Again
        },
        Wake::Global(None) => Next::Stop,
        _ => Next::Stay,
    }
}

/// What follows when something happens while a retry is waited for.
pub open spec fn wait_next(supervisor: SupervisorView, wake: Wake) -> Next {
    match wake {
        Wake::Elapsed => Next::Again,
        Wake::Control(control) => if stops(control) {
            Next::Stop
        } else {
            Next::Again
        },
        Wake::Global(None) => Next::Stop,
        Wake::Global(Some(global)) => if global.wake_epoch != supervisor.wake_epoch
            || !global.connects() {
            Next::Again
        } else {
            Next::Stay
        },
    }
}

/// Rejected credentials and other failures that a retry cannot help are not tried again by
/// themselves: neither time nor anything that happens to the application ends the hold, only a
/// command for this camera does (or the end of the application).
pub proof fn lemma_only_a_command_rearms(wake: Wake)
    ensures
        hold_next(wake) == Next::Again ==> wake is Control,
        wake == Wake::Elapsed ==> hold_next(wake) == Next::Stay,
        wake is Global && wake->Global_0 is Some ==> hold_next(wake) == Next::Stay,
{
}

/// A stopped camera is never connected again, whatever its supervisor is waiting for.
pub proof fn lemma_stop_ends_supervision(supervisor: SupervisorView, control: Control)
    requires
        control.stop,
    ensures
        hold_next(Wake::Control(Some(control))) == Next::Stop,
        wait_next(supervisor, Wake::Control(Some(control))) == Next::Stop,
{
}

/// A wake of the system ends the wait for a retry at once and resets the backoff.
pub proof fn lemma_wake_skips_backoff(supervisor: SupervisorView, global: Global)
    requires
        global.wake_epoch != supervisor.wake_epoch,
    ensures
        wait_next(supervisor, Wake::Global(Some(global))) == Next::Again,
        supervisor.noticing(global).attempts == 0,
{
}

/// A retry is never sooner than a quarter of a second and never later than half a minute, and
/// after a stable session it counts as the first one.
pub proof fn lemma_retry_delay(
    before: SupervisorView,
    since: Option<Moment>,
    now: Moment,
    jitter: u64,
)
    ensures
        ({
            let attempt = before.attempt_after(since, now);
            let delay = policy::backoff_delay(attempt as nat, jitter as nat);
            &&& policy::BACKOFF_FLOOR <= delay <= policy::BACKOFF_MAX
            &&& SupervisorView::stable(since, now) ==> attempt == 1 && delay
                <= policy::BACKOFF_BASE
        }),
{
    let attempt = before.attempt_after(since, now);
    policy::lemma_backoff_delay_bounds(attempt as nat, jitter as nat);
    vstd::arithmetic::power2::lemma2_to64();
}

/// After a failure that is worth a retry, of a session that never streamed or streamed for less
/// than a minute, the attempts go on counting, and the delay is that of the next attempt: it grows
/// from failure to failure. Only a session that streamed for a minute or more starts over at the
/// first attempt. Whatever else is decided, nothing else of the supervision changes.
pub proof fn lemma_only_a_stable_session_resets_the_backoff<F>(
    res: After,
    before: SupervisorView,
    after: SupervisorView,
    end: End,
    control: Control,
    now: Moment,
    jitter: u64,
    shared: SharedView<F>,
    shown: SharedView<F>,
)
    requires
        ended_as(res, before, after, end, control, now, jitter, shared, shown),
        end is Failed,
        end->failure.kind == FailureKind::Retry,
        !control.stop,
        before.attempts < u32::MAX,
    ensures
        ({
            let since = end->streaming_since;
            let streamed = if since is Some {
                now.nanos - since->0.nanos
            } else {
                -1
            };
            &&& streamed < 60_000_000_000 ==> after.attempts == before.attempts + 1
            &&& streamed >= 60_000_000_000 ==> after.attempts == 1
            &&& after.wake_epoch == before.wake_epoch
            &&& after.session == before.session
            &&& res is Wait
            &&& jitter >= 0x20_0000_0000_0000 && now.nanos + 30_000_000_000 <= u64::MAX
                ==> res->retry_at.nanos - now.nanos == policy::longest_delay(
                after.attempts as nat,
            )
            &&& now.nanos + 30_000_000_000 <= u64::MAX ==> now.nanos + 250_000_000
                <= res->retry_at.nanos <= now.nanos + policy::longest_delay(after.attempts as nat)
            &&& res->retry_at == now.after(
                policy::backoff_delay(after.attempts as nat, jitter as nat) as u64,
            )
        }),
{
    let attempt = after.attempts as nat;
    policy::lemma_delay_is_a_part_of_the_longest(attempt, jitter as nat);
    policy::lemma_delay_is_a_part_of_the_longest(attempt, 0x20_0000_0000_0000);
    policy::lemma_backoff_delay_bounds(attempt, jitter as nat);
    policy::lemma_longest_delay_is_the_cap(attempt);
}

/// What the tile says after a failure. One that is worth a retry counts as a reconnect and is
/// waited out, with its number, its time and its reason; rejected credentials and final failures
/// are held, with their own messages. The reason is kept, and nothing is received any more.
pub proof fn lemma_failures_are_told<F>(
    res: After,
    before: SupervisorView,
    after: SupervisorView,
    end: End,
    control: Control,
    now: Moment,
    jitter: u64,
    shared: SharedView<F>,
    shown: SharedView<F>,
)
    requires
        ended_as(res, before, after, end, control, now, jitter, shared, shown),
        end is Failed,
        !control.stop,
        shared.stats.reconnects < u32::MAX,
    ensures
        ({
            let reason = end->failure.reason@;
            &&& shown.stats.last_error == Some(reason)
            &&& shown.stats.kbps == 0 && shown.stats.camera_fps == 0 && shown.stats.jitter_ms == 0
            &&& shown.fps_x100 == 0
            &&& shown.frame == shared.frame
            &&& shown.stats.dropped_frames == shared.stats.dropped_frames
            &&& end->failure.kind == FailureKind::Retry ==> {
                &&& shown.status == StatusView::Reconnecting {
                    attempt: after.attempts,
                    retry_at: res->retry_at,
                    reason,
                }
                &&& shown.stats.reconnects == shared.stats.reconnects + 1
            }
            &&& end->failure.kind != FailureKind::Retry ==> {
                &&& res == After::Hold
                &&& after == before
                &&& shown.stats.reconnects == shared.stats.reconnects
            }
            &&& end->failure.kind == FailureKind::Auth ==> shown.status == StatusView::AuthFailed
            &&& end->failure.kind == FailureKind::Fatal ==> shown.status == StatusView::Error(
                reason,
            )
        }),
{
}

/// A session that ended without a failure is no attempt: one that was paused on purpose is
/// followed by another look at what is wanted, and one that was stopped by nothing. A stopped
/// camera is not tried again after a failure either.
pub proof fn lemma_ends_without_failure<F>(
    res: After,
    before: SupervisorView,
    after: SupervisorView,
    end: End,
    control: Control,
    now: Moment,
    jitter: u64,
    shared: SharedView<F>,
    shown: SharedView<F>,
)
    requires
        ended_as(res, before, after, end, control, now, jitter, shared, shown),
        !(end is Failed) || control.stop,
    ensures
        after == before,
        end is Paused ==> res == After::Again,
        end is Stopped ==> res == After::Stop,
        end is Failed ==> res == After::Stop,
        shown.status == shared.status,
        shown.stats.reconnects == shared.stats.reconnects,
        shown.stats.last_error == shared.stats.last_error,
        shown.fps_x100 == 0,
        shown.stats.kbps == 0,
{
}

/// Before a connection: a stopped camera is never connected, and one that is wanted always is. One
/// that is not is parked, and its tile says so.
pub proof fn lemma_connects_while_wanted<F>(
    control: Control,
    global: Global,
    shared: SharedView<F>,
)
    ensures
        control.stop ==> before_of(control, global) == Before::Stop,
        !control.stop && !global.suspended && global.activity != policy::Activity::Disconnect
            ==> before_of(control, global) == Before::Connect,
        !control.stop && (global.suspended || global.activity == policy::Activity::Disconnect)
            ==> before_of(control, global) == Before::Park && shared_before(
            control,
            global,
            shared,
        ).status == StatusView::Paused && shared_before(control, global, shared).fps_x100 == 0,
        before_of(control, global) != Before::Park ==> shared_before(control, global, shared)
            == shared,
        parked_next(Wake::Control(Some(control))) == Next::Again,
        parked_next(Wake::Global(Some(global))) == Next::Again,
        parked_next(Wake::Control(None)) == Next::Stop,
        parked_next(Wake::Global(None)) == Next::Stop,
{
}

/// A wake that was not noticed yet resets the backoff, once; anything else that happens to the
/// application leaves it alone.
pub proof fn lemma_wake_is_noticed_once(supervisor: SupervisorView, global: Global)
    ensures
        ({
            let noticed = supervisor.noticing(global);
            &&& noticed.wake_epoch == global.wake_epoch
            &&& noticed.session == supervisor.session
            &&& global.wake_epoch != supervisor.wake_epoch ==> noticed.attempts == 0
            &&& global.wake_epoch == supervisor.wake_epoch ==> noticed == supervisor
            &&& noticed.noticing(global) == noticed
        }),
{
}

/// The wait for a retry ends when its time has come, on a command, and when nothing is to be
/// connected any more; otherwise it goes on. Only a wake of the system makes the next failure the
/// first one again.
pub proof fn lemma_wait_ends_in_time(
    supervisor: SupervisorView,
    control: Control,
    global: Global,
)
    ensures
        wait_next(supervisor, Wake::Elapsed) == Next::Again,
        !control.stop ==> wait_next(supervisor, Wake::Control(Some(control))) == Next::Again,
        wait_next(supervisor, Wake::Control(None)) == Next::Stop,
        wait_next(supervisor, Wake::Global(None)) == Next::Stop,
        global.wake_epoch == supervisor.wake_epoch && !global.suspended && global.activity
            != policy::Activity::Disconnect ==> wait_next(supervisor, Wake::Global(Some(global)))
            == Next::Stay,
        global.suspended || global.activity == policy::Activity::Disconnect ==> wait_next(
            supervisor,
            Wake::Global(Some(global)),
        ) == Next::Again,
        supervisor.after_wait(Wake::Elapsed) == supervisor,
        supervisor.after_wait(Wake::Control(Some(control))) == supervisor,
        global.wake_epoch == supervisor.wake_epoch ==> supervisor.after_wait(
            Wake::Global(Some(global)),
        ) == supervisor,
        global.wake_epoch != supervisor.wake_epoch ==> supervisor.after_wait(
            Wake::Global(Some(global)),
        ).attempts == 0,
{
}

/// A command for a camera that is held starts it over, with the first attempt; nothing else
/// changes what is known of it.
pub proof fn lemma_command_starts_a_held_camera_over(
    supervisor: SupervisorView,
    control: Control,
    global: Global,
)
    ensures
        !control.stop ==> hold_next(Wake::Control(Some(control))) == Next::Again
            && supervisor.after_hold(Wake::Control(Some(control))).attempts == 0,
        control.stop ==> hold_next(Wake::Control(Some(control))) == Next::Stop,
        hold_next(Wake::Control(None)) == Next::Stop,
        hold_next(Wake::Global(None)) == Next::Stop,
        hold_next(Wake::Global(Some(global))) == Next::Stay,
        supervisor.after_hold(Wake::Elapsed) == supervisor,
        supervisor.after_hold(Wake::Global(Some(global))) == supervisor,
        supervisor.after_hold(Wake::Control(Some(control))).session == supervisor.session,
        supervisor.after_hold(Wake::Control(Some(control))).wake_epoch == supervisor.wake_epoch,
{
}

/// Every session has another number than the one before.
pub proof fn lemma_sessions_are_told_apart(supervisor: SupervisorView)
    ensures
        supervisor.beginning().session != supervisor.session,
        supervisor.session < u32::MAX ==> supervisor.beginning().session == supervisor.session + 1,
        supervisor.beginning().attempts == supervisor.attempts,
        supervisor.beginning().wake_epoch == supervisor.wake_epoch,
{
}

/// Restarts a camera's supervision, with backoff, when it breaks down.
pub struct Guardian {
    backoff: Backoff,
}

impl Guardian {
    /// Number of breakdowns.
    pub closed spec fn attempts(self) -> u32 {
        self.backoff.attempts()
    }

    pub fn new() -> (res: Guardian)
        ensures
            res.attempts() == 0,
    {
        Guardian { backoff: Backoff::new() }
    }

    /// The supervision broke down: when to restart it, unless the camera was stopped. The delay
    /// is that of the given jitter.
    pub fn broke_down_with<F>(
        &mut self,
        control: Control,
        now: Moment,
        jitter: u64,
        shared: &mut StreamShared<F>,
    ) -> (res: Option<Moment>)
        ensures
            broke_down_as(
                res,
                old(self).attempts(),
                final(self).attempts(),
                control,
                now,
                jitter,
                old(shared)@,
                final(shared)@,
            ),
    {
        if control.stop {
            return None;
        }
        let delay: u64 = self.backoff.next_delay(jitter);
        let retry_at = now.plus(delay);
        {
            let stats = shared.update_stats();
            stats.reconnects = stats.reconnects.saturating_add(1);
            stats.last_error = Some("Internal error".to_owned());
        }
        shared.set_status(
            StreamStatus::Reconnecting {
                attempt: self.backoff.attempt(),
                retry_at,
                reason: "Internal error".to_owned(),
            },
        );
        Some(retry_at)
    }

    /// The supervision broke down: when to restart it, unless the camera was stopped.
    pub fn broke_down<F>(
        &mut self,
        control: Control,
        now: Moment,
        shared: &mut StreamShared<F>,
    ) -> (res: Option<Moment>)
        ensures
            exists|jitter: u64|
                jitter < policy::JITTER_ONE && #[trigger] broke_down_as(
                    res,
                    old(self).attempts(),
                    final(self).attempts(),
                    control,
                    now,
                    jitter,
                    old(shared)@,
                    final(shared)@,
                ),
    {
        let jitter: u64 = random_jitter();
        self.broke_down_with(control, now, jitter, shared)
    }
}

/// What follows from a breakdown of a camera's supervision.
pub open spec fn broke_down_as<F>(
    res: Option<Moment>,
    attempts_before: u32,
    attempts_after: u32,
    control: Control,
    now: Moment,
    jitter: u64,
    shared_before: SharedView<F>,
    shared_after: SharedView<F>,
) -> bool {
    if control.stop {
        res is None && attempts_after == attempts_before && shared_after == shared_before
    } else {
        let attempt = policy::next_attempt(attempts_before);
        let retry_at = now.after(policy::backoff_delay(attempt as nat, jitter as nat) as u64);
        &&& res == Some(retry_at)
        &&& attempts_after == attempt
        &&& shared_after == reconnecting(
            marked(shared_before, "Internal error"@),
            attempt,
            retry_at,
            "Internal error"@,
        )
    }
}

/// Each breakdown counts, and waits for longer than the one before, as a failed attempt does. The
/// tile says what it waits for. A stopped camera is not restarted.
pub proof fn lemma_breakdowns_back_off<F>(
    res: Option<Moment>,
    attempts: u32,
    after: u32,
    control: Control,
    now: Moment,
    jitter: u64,
    shared: SharedView<F>,
    shown: SharedView<F>,
)
    requires
        broke_down_as(res, attempts, after, control, now, jitter, shared, shown),
        attempts < u32::MAX,
        shared.stats.reconnects < u32::MAX,
        now.nanos + 30_000_000_000 <= u64::MAX,
    ensures
        control.stop ==> res is None && after == attempts && shown == shared,
        !control.stop ==> {
            &&& after == attempts + 1
            &&& res is Some
            &&& now.nanos + 250_000_000 <= res->0.nanos <= now.nanos + policy::longest_delay(
                after as nat,
            )
            &&& jitter >= 0x20_0000_0000_0000 ==> res->0.nanos == now.nanos
                + policy::longest_delay(after as nat)
            &&& shown.status == StatusView::Reconnecting {
                attempt: after,
                retry_at: res->0,
                reason: "Internal error"@,
            }
            &&& shown.stats.last_error == Some("Internal error"@)
            &&& shown.stats.reconnects == shared.stats.reconnects + 1
        },
{
    let attempt = policy::next_attempt(attempts) as nat;
    policy::lemma_delay_is_a_part_of_the_longest(attempt, jitter as nat);
    policy::lemma_backoff_delay_bounds(attempt, jitter as nat);
    policy::lemma_longest_delay_is_the_cap(attempt);
}

/// Before each step a wake of the system is noticed, so that the next failure counts as the first;
/// a camera that is to stop notices nothing any more.
pub proof fn lemma_wake_is_noticed_before_a_step(
    supervisor: SupervisorView,
    control: Control,
    global: Global,
)
    ensures
        control.stop ==> supervisor.stepping(control, global) == supervisor,
        !control.stop && global.wake_epoch != supervisor.wake_epoch ==> supervisor.stepping(
            control,
            global,
        ).attempts == 0,
        !control.stop && global.wake_epoch == supervisor.wake_epoch ==> supervisor.stepping(
            control,
            global,
        ) == supervisor,
        supervisor.stepping(control, global).session == supervisor.session,
{
}

/// Reconnects are counted one by one, as far as they can be counted.
pub proof fn lemma_reconnects_are_counted(n: u32)
    ensures
        n < 0xffff_ffff ==> one_more(n) == n + 1,
        n == 0xffff_ffff ==> one_more(n) == n,
{
}

}
