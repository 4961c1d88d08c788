//! Reconnection, visibility and error-classification policy. Time and chance are handed in.
use vstd::arithmetic::power2::*;
use vstd::prelude::*;

use crate::clock::Moment;
use crate::round;
use crate::text;

verus! {

/// Longest delay before the first retry.
pub const BACKOFF_BASE: u64 = 1_000_000_000;

/// Longest delay before any retry.
pub const BACKOFF_MAX: u64 = 30_000_000_000;

/// Full jitter can yield next to nothing; a camera is never tried again sooner than this.
pub const BACKOFF_FLOOR: u64 = 250_000_000;

/// Streaming this long without interruption resets the count of failed attempts.
pub const STABLE_AFTER: u64 = 60_000_000_000;

/// Window hidden this long: stop decoding (the connection stays).
pub const PAUSE_DECODE_AFTER: u64 = 2_000_000_000;

/// Window hidden this long: disconnect too.
pub const DISCONNECT_AFTER: u64 = 300_000_000_000;

/// A jitter is a fraction of this number, which stands for the whole.
pub const JITTER_ONE: u64 = 9_007_199_254_740_992;

/// Exponential backoff (1 s, doubled up to 30 s) with full jitter.
#[derive(Debug)]
pub struct Backoff {
    attempt: u32,
}

/// The longest delay before retry number `attempt`: 1 s, doubled by each further attempt, and
/// at most 30 s.
pub open spec fn backoff_cap(attempt: nat) -> nat {
    if attempt > 5 {
        BACKOFF_MAX as nat
    } else {
        (BACKOFF_BASE * pow2((attempt - 1) as nat)) as nat
    }
}

/// The delay before retry number `attempt` for a given jitter.
pub open spec fn backoff_delay(attempt: nat, jitter: nat) -> nat {
    let part = if jitter < JITTER_ONE {
        jitter
    } else {
        JITTER_ONE as nat
    };
    let scaled = round::to_even(backoff_cap(attempt) * part, JITTER_ONE as nat);
    if scaled < BACKOFF_FLOOR {
        BACKOFF_FLOOR as nat
    } else {
        scaled
    }
}

/// The count of attempts after one more failure.
pub open spec fn next_attempt(attempt: u32) -> u32 {
    if attempt < u32::MAX {
        (attempt + 1) as u32
    } else {
        attempt
    }
}

proof fn lemma_caps()
    ensures
        pow2(0) == 1,
        pow2(1) == 2,
        pow2(2) == 4,
        pow2(3) == 8,
        pow2(4) == 16,
{
    lemma2_to64();
}

/// Every delay lies between the floor and the cap of its attempt, and no cap exceeds 30 s.
pub proof fn lemma_backoff_delay_bounds(attempt: nat, jitter: nat)
    requires
        attempt >= 1,
    ensures
        BACKOFF_FLOOR <= backoff_delay(attempt, jitter) <= backoff_cap(attempt),
        backoff_cap(attempt) <= BACKOFF_MAX,
{
    lemma_caps();
    let cap = backoff_cap(attempt);
    let part = if jitter < JITTER_ONE {
        jitter
    } else {
        JITTER_ONE as nat
    };
    let one = JITTER_ONE as nat;
    assert(cap * part <= cap * one) by (nonlinear_arith)
        requires
            part <= one,
    ;
    let n = cap * part;
    assert(n / one <= cap) by (nonlinear_arith)
        requires
            n <= cap * one,
            one > 0,
    ;
    assert(n / one == cap ==> n % one == 0) by (nonlinear_arith)
        requires
            n <= cap * one,
            one > 0,
    ;
}

/// The caps never shrink from one attempt to the next.
pub proof fn lemma_backoff_cap_grows(attempt: nat)
    requires
        attempt >= 1,
    ensures
        backoff_cap(attempt) <= backoff_cap(attempt + 1),
{
    lemma_caps();
}

/// The longest delay before retry number `attempt`, in seconds: 1, 2, 4, 8, 16, and 30 from then
/// on.
pub open spec fn longest_delay(attempt: nat) -> nat {
    if attempt <= 1 {
        1_000_000_000
    } else if attempt == 2 {
        2_000_000_000
    } else if attempt == 3 {
        4_000_000_000
    } else if attempt == 4 {
        8_000_000_000
    } else if attempt == 5 {
        16_000_000_000
    } else {
        30_000_000_000
    }
}

/// The longest delays are 1 s, doubled by each attempt, and 30 s from the sixth attempt on.
pub proof fn lemma_longest_delay_is_the_cap(attempt: nat)
    requires
        attempt >= 1,
    ensures
        backoff_cap(attempt) == longest_delay(attempt),
{
    lemma_caps();
}

/// A delay is the part of the longest one of its attempt that the jitter stands for, to the nearest
/// nanosecond, and at least a quarter of a second: with the whole jitter it is 1 s, doubled by each
/// attempt, and at most 30 s. Here the whole is 2 to the 53rd.
pub proof fn lemma_delay_is_a_part_of_the_longest(attempt: nat, jitter: nat)
    requires
        attempt >= 1,
    ensures
        jitter >= 0x20_0000_0000_0000 ==> backoff_delay(attempt, jitter) == longest_delay(attempt),
        attempt == 1 ==> longest_delay(attempt) == 1_000_000_000,
        attempt == 2 ==> longest_delay(attempt) == 2_000_000_000,
        attempt == 3 ==> longest_delay(attempt) == 4_000_000_000,
        attempt == 4 ==> longest_delay(attempt) == 8_000_000_000,
        attempt == 5 ==> longest_delay(attempt) == 16_000_000_000,
        attempt >= 6 ==> longest_delay(attempt) == 30_000_000_000,
        jitter <= 0x20_0000_0000_0000 ==> {
            let exact = longest_delay(attempt) * jitter;
            let whole = 0x20_0000_0000_0000int;
            let delay = backoff_delay(attempt, jitter);
            &&& delay >= 250_000_000
            &&& delay > 250_000_000 ==> -whole <= 2 * (delay * whole - exact) <= whole
            &&& delay == 250_000_000 ==> 2 * exact <= (2 * 250_000_000 + 1) * whole
        },
{
    lemma_caps();
    let one = JITTER_ONE as nat;
    let cap = backoff_cap(attempt);
    assert(cap == longest_delay(attempt));
    let part = if jitter < JITTER_ONE {
        jitter
    } else {
        one
    };
    let n = cap * part;
    vstd::arithmetic::div_mod::lemma_fundamental_div_mod(n as int, one as int);
    if jitter >= one {
        assert(n == one * cap) by (nonlinear_arith)
            requires
                n == cap * one,
        ;
        vstd::arithmetic::div_mod::lemma_mod_multiples_basic(cap as int, one as int);
        vstd::arithmetic::div_mod::lemma_div_multiples_vanish(cap as int, one as int);
        assert(n % one == 0) by {
            assert(one * cap == cap * one) by (nonlinear_arith);
        }
        assert(n / one == cap);
    }
    let q = n / one;
    assert(one * q == q * one && one * (q + 1) == (q + 1) * one) by (nonlinear_arith);
    assert((q + 1) * one == q * one + one) by (nonlinear_arith);
}

/// `rand::random::<u64>`: any number at all.
#[verifier::external_body]
fn random_u64() -> u64 {
    rand::random::<u64>()
}

/// The part of [`JITTER_ONE`] that 64 random bits stand for: their 53 highest ones.
pub open spec fn jitter_of(bits: u64) -> u64 {
    bits / 2048
}

/// The part of [`JITTER_ONE`] that 64 random bits stand for. Each part, up to the whole and
/// without it, stands for equally many numbers: the 2048 from `2048 * res` on.
pub fn jitter_from(bits: u64) -> (res: u64)
    ensures
        res == jitter_of(bits),
        res < JITTER_ONE,
        2048 * res <= bits < 2048 * (res + 1),
{
    bits / 2048
}

/// A random part of [`JITTER_ONE`], less than the whole: that of 64 bits which are left to chance.
pub fn random_jitter() -> (res: u64)
    ensures
        res < JITTER_ONE,
        exists|bits: u64| res == #[trigger] jitter_of(bits),
{
    jitter_from(random_u64())
}

impl Backoff {
    /// Number of consecutive failed attempts so far.
    pub closed spec fn attempts(self) -> u32 {
        self.attempt
    }

    /// A backoff without failed attempts.
    pub fn new() -> (res: Backoff)
        ensures
            res.attempts() == 0,
    {
        Backoff { attempt: 0 }
    }

    /// Number of consecutive failed attempts so far.
    pub fn attempt(&self) -> (res: u32)
        ensures
            res == self.attempts(),
    {
        self.attempt
    }

    pub fn reset(&mut self)
        ensures
            final(self).attempts() == 0,
    {
        self.attempt = 0;
    }

    /// Registers a failure and returns the delay before the next attempt. `jitter` is a part of
    /// [`JITTER_ONE`]; anything larger counts as the whole.
    pub fn next_delay(&mut self, jitter: u64) -> (res: u64)
        ensures
            final(self).attempts() == next_attempt(old(self).attempts()),
            res == backoff_delay(final(self).attempts() as nat, jitter as nat),
    {
        self.attempt = self.attempt.saturating_add(1);
        let cap: u64 = if self.attempt > 5 {
            BACKOFF_MAX
        } else if self.attempt == 5 {
            16 * BACKOFF_BASE
        } else if self.attempt == 4 {
            8 * BACKOFF_BASE
        } else if self.attempt == 3 {
            4 * BACKOFF_BASE
        } else if self.attempt == 2 {
            2 * BACKOFF_BASE
        } else {
            BACKOFF_BASE
        };
        proof {
            lemma_caps();
        }
        assert(cap == backoff_cap(self.attempt as nat));
        let part: u64 = if jitter < JITTER_ONE {
            jitter
        } else {
            JITTER_ONE
        };
        assert(cap * part <= 30_000_000_000 * 9_007_199_254_740_992) by (nonlinear_arith)
            requires
                cap <= 30_000_000_000,
                part <= 9_007_199_254_740_992,
        ;
        let product: u128 = cap as u128 * part as u128;
        let one: u128 = JITTER_ONE as u128;
        let scaled: u128 = round::nearest(product, one);
        proof {
            lemma_backoff_delay_bounds(self.attempt as nat, jitter as nat);
        }
        if scaled < BACKOFF_FLOOR as u128 {
            BACKOFF_FLOOR
        } else {
            scaled as u64
        }
    }

    /// Like [`Self::next_delay`] with a random jitter.
    pub fn next_random_delay(&mut self) -> (res: u64)
        ensures
            final(self).attempts() == next_attempt(old(self).attempts()),
            exists|jitter: u64|
                jitter < JITTER_ONE && res == #[trigger] backoff_delay(
                    final(self).attempts() as nat,
                    jitter as nat,
                ),
            BACKOFF_FLOOR <= res <= BACKOFF_MAX,
    {
        let jitter: u64 = random_jitter();
        let res: u64 = self.next_delay(jitter);
        proof {
            lemma_backoff_delay_bounds(self.attempts() as nat, jitter as nat);
        }
        res
    }
}

impl Default for Backoff {
    fn default() -> (res: Backoff)
        ensures
            res.attempts() == 0,
    {
        Backoff::new()
    }
}

/// What the pipelines should be doing given the window visibility.
#[derive(Clone, Copy, Debug, PartialEq, Eq, Structural)]
pub enum Activity {
    /// Receive and decode.
    Decode,
    /// Stay connected but discard frames (no decoder, no retained buffers).
    Discard,
    /// Disconnect.
    Disconnect,
}

/// Debounced window-visibility state: a hide only takes effect after being continuous for
/// [`PAUSE_DECODE_AFTER`], so flapping costs nothing. Becoming visible takes effect at once.
#[derive(Clone, Copy, Debug)]
pub struct VisibilityTracker {
    hidden_since: Option<Moment>,
}

/// Since when a window is hidden, if it is, after it was found to be visible or not at `now`.
pub open spec fn hidden_after(since: Option<Moment>, visible: bool, now: Moment) -> Option<
    Moment,
> {
    if visible {
        None
    } else if since is None {
        Some(now)
    } else {
        since
    }
}

/// The activity that a window hidden since `since` calls for at `now`.
pub open spec fn activity_of(since: Option<Moment>, now: Moment) -> Activity {
    match since {
        None => Activity::Decode,
        Some(since) => if now.elapsed_since(since) >= DISCONNECT_AFTER {
            Activity::Disconnect
        } else if now.elapsed_since(since) >= PAUSE_DECODE_AFTER {
            Activity::Discard
        } else {
            Activity::Decode
        },
    }
}

/// When the activity next changes by itself, as seen from `now`.
pub open spec fn next_change_of(since: Option<Moment>, now: Moment) -> Option<Moment> {
    match since {
        None => None,
        Some(since) => if since.after(PAUSE_DECODE_AFTER).nanos > now.nanos {
            Some(since.after(PAUSE_DECODE_AFTER))
        } else if since.after(DISCONNECT_AFTER).nanos > now.nanos {
            Some(since.after(DISCONNECT_AFTER))
        } else {
            None
        },
    }
}

impl VisibilityTracker {
    /// Since when the window has been hidden, if it is.
    pub closed spec fn hidden(self) -> Option<Moment> {
        self.hidden_since
    }

    /// The tracker of a visible window.
    pub fn new() -> (res: VisibilityTracker)
        ensures
            res.hidden() is None,
    {
        VisibilityTracker { hidden_since: None }
    }

    pub fn set_visible(&mut self, visible: bool, now: Moment)
        ensures
            final(self).hidden() == hidden_after(old(self).hidden(), visible, now),
            visible ==> final(self).hidden() is None,
            visible ==> forall|at: Moment|
                #[trigger] activity_of(final(self).hidden(), at) == Activity::Decode,
            !visible && old(self).hidden() is None ==> final(self).hidden() == Some(now),
            !visible && old(self).hidden() is Some ==> final(self).hidden() == old(self).hidden(),
    {
        if visible {
            self.hidden_since = None;
        } else if self.hidden_since.is_none() {
            self.hidden_since = Some(now);
        }
    }

    pub fn activity(&self, now: Moment) -> (res: Activity)
        ensures
            res == activity_of(self.hidden(), now),
    {
        match self.hidden_since {
            None => Activity::Decode,
            Some(since) => {
                let hidden: u64 = now.since(since);
                if hidden >= DISCONNECT_AFTER {
                    Activity::Disconnect
                } else if hidden >= PAUSE_DECODE_AFTER {
                    Activity::Discard
                } else {
                    Activity::Decode
                }
            },
        }
    }

    /// When [`Self::activity`] will next change on its own, if ever.
    pub fn next_change(&self, now: Moment) -> (res: Option<Moment>)
        ensures
            res == next_change_of(self.hidden(), now),
    {
        match self.hidden_since {
            None => None,
            Some(since) => {
                let pause = since.plus(PAUSE_DECODE_AFTER);
                let disconnect = since.plus(DISCONNECT_AFTER);
                if pause.nanos > now.nanos {
                    Some(pause)
                } else if disconnect.nanos > now.nanos {
                    Some(disconnect)
                } else {
                    None
                }
            },
        }
    }
}

impl Default for VisibilityTracker {
    fn default() -> (res: VisibilityTracker)
        ensures
            res.hidden() is None,
    {
        VisibilityTracker::new()
    }
}

/// The activity stays what it is until the announced change.
pub proof fn lemma_activity_constant_until_next_change(
    since: Option<Moment>,
    now: Moment,
    later: Moment,
)
    requires
        now.nanos <= later.nanos,
        next_change_of(since, now) is Some ==> later.nanos < next_change_of(since, now)->0.nanos,
        since is Some ==> since->0.nanos + DISCONNECT_AFTER <= u64::MAX,
    ensures
        activity_of(since, later) == activity_of(since, now),
{
}

/// The activity is another one at the announced change.
pub proof fn lemma_activity_changes_at_next_change(since: Option<Moment>, now: Moment)
    requires
        next_change_of(since, now) is Some,
        since is Some ==> since->0.nanos + DISCONNECT_AFTER <= u64::MAX,
    ensures
        activity_of(since, next_change_of(since, now)->0) != activity_of(since, now),
{
}

/// A hide that has lasted less than two seconds changes nothing.
pub proof fn lemma_brief_hide_keeps_decoding(since: Moment, now: Moment)
    requires
        now.nanos < since.nanos + PAUSE_DECODE_AFTER,
    ensures
        activity_of(Some(since), now) == Activity::Decode,
{
}

/// A hide counts from its beginning, however often it is reported, and a window that shows again
/// has never been hidden: only being hidden without a break for two seconds stops the decoding,
/// and for five minutes the connection.
pub proof fn lemma_only_a_long_hide_counts(since: Option<Moment>, hide: Moment, now: Moment)
    requires
        hide.nanos <= now.nanos,
    ensures
        activity_of(hidden_after(since, true, hide), now) == Activity::Decode,
        hidden_after(hidden_after(None, false, hide), false, now) == Some(hide),
        now.nanos - hide.nanos < 2_000_000_000 ==> activity_of(
            hidden_after(None, false, hide),
            now,
        ) == Activity::Decode,
        2_000_000_000 <= now.nanos - hide.nanos < 300_000_000_000 ==> activity_of(
            hidden_after(None, false, hide),
            now,
        ) == Activity::Discard,
        now.nanos - hide.nanos >= 300_000_000_000 ==> activity_of(
            hidden_after(None, false, hide),
            now,
        ) == Activity::Disconnect,
        activity_of(
            hidden_after(hidden_after(hidden_after(None, false, hide), true, now), false, now),
            now,
        ) == Activity::Decode,
{
}

/// The next change is announced two seconds, and then five minutes, after the window was hidden;
/// a visible window, and one that was hidden for longer, waits for none.
pub proof fn lemma_next_change_is_announced(since: Moment, now: Moment)
    requires
        since.nanos <= now.nanos,
        since.nanos + 300_000_000_000 <= u64::MAX,
    ensures
        next_change_of(None, now) is None,
        now.nanos - since.nanos < 2_000_000_000 ==> next_change_of(Some(since), now) == Some(
            Moment { nanos: (since.nanos + 2_000_000_000) as u64 },
        ),
        2_000_000_000 <= now.nanos - since.nanos < 300_000_000_000 ==> next_change_of(
            Some(since),
            now,
        ) == Some(Moment { nanos: (since.nanos + 300_000_000_000) as u64 }),
        now.nanos - since.nanos >= 300_000_000_000 ==> next_change_of(Some(since), now) is None,
{
}

/// How the supervisor must react to a failed or ended session.
#[derive(Clone, Copy, Debug, PartialEq, Eq, Structural)]
pub enum FailureKind {
    /// Reconnect with backoff.
    Retry,
    /// Credentials rejected: never retried by itself (a few failures lock the camera user).
    Auth,
    /// Not fixable by retrying (unsupported codec, bad address...).
    Fatal,
}

#[derive(Debug)]
pub struct Failure {
    pub kind: FailureKind,
    /// Short reason for the user.
    pub reason: String,
}

impl Failure {
    pub fn retry(reason: &str) -> (res: Failure)
        ensures
            res.kind == FailureKind::Retry,
            res.reason@ == reason@,
    {
        Failure { kind: FailureKind::Retry, reason: reason.to_owned() }
    }

    pub fn fatal(reason: &str) -> (res: Failure)
        ensures
            res.kind == FailureKind::Fatal,
            res.reason@ == reason@,
    {
        Failure { kind: FailureKind::Fatal, reason: reason.to_owned() }
    }

    pub fn auth() -> (res: Failure)
        ensures
            res.kind == FailureKind::Auth,
            res.reason@ == "Invalid username or password"@,
    {
        Failure { kind: FailureKind::Auth, reason: "Invalid username or password".to_owned() }
    }
}

/// The reason shown for an error that carries no status code, from its message in lower case.
pub open spec fn message_reason(lower: Seq<char>) -> Seq<char> {
    if "unable to connect"@.is_prefix_of(lower) {
        if text::occurs(lower, "refused"@) {
            "Connection refused"@
        } else if text::occurs(lower, "lookup"@) || text::occurs(lower, "nodename"@)
            || text::occurs(lower, "resolve"@) {
            "Address not found"@
        } else if text::occurs(lower, "unreachable"@) {
            "Camera unreachable"@
        } else {
            "No connection to the camera"@
        }
    } else if "error reading"@.is_prefix_of(lower) || "error writing"@.is_prefix_of(lower) {
        "Connection lost"@
    } else if "timeout"@.is_prefix_of(lower) {
        "Timed out"@
    } else {
        "RTSP protocol error"@
    }
}

/// How an RTSP error is classified.
pub open spec fn error_kind(status: Option<u16>) -> FailureKind {
    if status == Some(401u16) || status == Some(403u16) {
        FailureKind::Auth
    } else {
        FailureKind::Retry
    }
}

/// The reason shown for an RTSP error.
pub open spec fn error_reason(status: Option<u16>, message: Seq<char>) -> Seq<char> {
    match status {
        Some(code) if code == 401 || code == 403 => "Invalid username or password"@,
        Some(code) if code == 404 => "Stream not found (404)"@,
        Some(code) if code == 453 => "Camera connection limit reached"@,
        Some(code) if code >= 300 => "Camera responded with error "@ + text::decimal(code as nat),
        _ => message_reason(text::ascii_lower(message)),
    }
}

/// Maps an RTSP error (its status code, if any, and its message) to a policy decision.
pub fn classify_rtsp_error(status: Option<u16>, message: &str) -> (res: Failure)
    ensures
        res.kind == error_kind(status),
        res.reason@ == error_reason(status, message@),
{
    if let Some(code) = status {
        if code == 401 || code == 403 {
            return Failure::auth();
        }
        if code == 404 {
            return Failure::retry("Stream not found (404)");
        }
        if code == 453 {
            return Failure::retry("Camera connection limit reached");
        }
        if code >= 300 {
            let mut reason = "Camera responded with error ".to_owned();
            reason.append(text::to_decimal(code as u64).as_str());
            return Failure { kind: FailureKind::Retry, reason };
        }
    }
    let lowered = text::to_ascii_lowercase(message);
    let lower = lowered.as_str();
    if text::starts_with(lower, "unable to connect") {
        if text::contains(lower, "refused") {
            Failure::retry("Connection refused")
        } else if text::contains(lower, "lookup") || text::contains(lower, "nodename")
            || text::contains(lower, "resolve") {
            Failure::retry("Address not found")
        } else if text::contains(lower, "unreachable") {
            Failure::retry("Camera unreachable")
        } else {
            Failure::retry("No connection to the camera")
        }
    } else if text::starts_with(lower, "error reading") || text::starts_with(
        lower,
        "error writing",
    ) {
        Failure::retry("Connection lost")
    } else if text::starts_with(lower, "timeout") {
        Failure::retry("Timed out")
    } else {
        Failure::retry("RTSP protocol error")
    }
}

/// Only rejected credentials (401 and 403) stop the retries; any other error is worth one.
pub proof fn lemma_only_rejected_credentials_stop_retries(status: Option<u16>)
    ensures
        error_kind(status) == FailureKind::Auth <==> status == Some(401u16) || status == Some(
            403u16,
        ),
        error_kind(status) != FailureKind::Fatal,
{
}

/// A status of 300 or more decides alone what the user is told: nothing of the message is looked
/// at. Other errors are told apart by the message, whatever the case of its letters.
pub proof fn lemma_status_decides_the_reason(
    status: Option<u16>,
    a: Seq<char>,
    b: Seq<char>,
)
    ensures
        status is Some && status->0 >= 300 ==> error_reason(status, a) == error_reason(status, b),
        status == Some(401u16) ==> error_reason(status, a) == "Invalid username or password"@,
        status == Some(403u16) ==> error_reason(status, a) == "Invalid username or password"@,
        status == Some(404u16) ==> error_reason(status, a) == "Stream not found (404)"@,
        status == Some(453u16) ==> error_reason(status, a) == "Camera connection limit reached"@,
        status is Some && status->0 >= 300 && status->0 != 401 && status->0 != 403 && status->0
            != 404 && status->0 != 453 ==> error_reason(status, a)
            == "Camera responded with error "@ + text::decimal(status->0 as nat),
        (status is None || status->0 < 300) && text::ascii_lower(a) == text::ascii_lower(b)
            ==> error_reason(status, a) == error_reason(status, b),
        status is Some && status->0 < 300 ==> error_reason(status, a) == error_reason(None, a),
{
}

/// What the user is told of an error without a status: a connection that was not made, one that
/// was lost, one that took too long, or something else. A connection that was refused is told
/// from an address that was not found and from a camera that was not reached, in this order.
pub proof fn lemma_message_tells_the_reason(lower: Seq<char>)
    ensures
        ({
            let connecting = "unable to connect"@.is_prefix_of(lower);
            let named = text::occurs(lower, "lookup"@) || text::occurs(lower, "nodename"@)
                || text::occurs(lower, "resolve"@);
            let reason = message_reason(lower);
            &&& connecting && text::occurs(lower, "refused"@) ==> reason == "Connection refused"@
            &&& connecting && !text::occurs(lower, "refused"@) && named ==> reason
                == "Address not found"@
            &&& connecting && !text::occurs(lower, "refused"@) && !named && text::occurs(
                lower,
                "unreachable"@,
            ) ==> reason == "Camera unreachable"@
            &&& connecting && !text::occurs(lower, "refused"@) && !named && !text::occurs(
                lower,
                "unreachable"@,
            ) ==> reason == "No connection to the camera"@
            &&& !connecting && ("error reading"@.is_prefix_of(lower)
                || "error writing"@.is_prefix_of(lower)) ==> reason == "Connection lost"@
            &&& !connecting && !"error reading"@.is_prefix_of(lower)
                && !"error writing"@.is_prefix_of(lower) && "timeout"@.is_prefix_of(lower)
                ==> reason == "Timed out"@
            &&& !connecting && !"error reading"@.is_prefix_of(lower)
                && !"error writing"@.is_prefix_of(lower) && !"timeout"@.is_prefix_of(lower)
                ==> reason == "RTSP protocol error"@
        }),
{
}

/// Failures are counted one by one, as far as they can be counted.
pub proof fn lemma_failures_are_counted(attempt: u32)
    ensures
        attempt < 0xffff_ffff ==> next_attempt(attempt) == attempt + 1,
        attempt == 0xffff_ffff ==> next_attempt(attempt) == attempt,
{
}

}
