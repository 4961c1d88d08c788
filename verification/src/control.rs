//! What the cameras' supervisors follow: the state of the whole application, and the commands
//! for one camera.
use vstd::prelude::*;

use crate::clock::Moment;
use crate::policy::{self, Activity, VisibilityTracker};

verus! {

/// State of the application that every supervisor follows.
#[derive(Clone, Copy, Debug, PartialEq, Eq, Structural)]
pub struct Global {
    pub activity: Activity,
    /// System sleep: everything disconnected.
    pub suspended: bool,
    /// Changed on system wake: supervisors reset their backoff and reconnect now.
    pub wake_epoch: u64,
}

impl Global {
    /// Whether cameras should be connected.
    pub open spec fn connects(self) -> bool {
        !self.suspended && self.activity != Activity::Disconnect
    }

    /// While the system sleeps.
    pub open spec fn asleep(self) -> Global {
        Global { suspended: true, ..self }
    }

    /// After the system woke up.
    pub open spec fn awake(self) -> Global {
        Global { suspended: false, wake_epoch: self.wake_epoch.wrapping_add(1), ..self }
    }

    /// Whether cameras should be connected.
    pub fn wants_connection(&self) -> (res: bool)
        ensures
            res == self.connects(),
    {
        !self.suspended && self.activity != Activity::Disconnect
    }

    /// The state at the start: decode, awake.
    pub fn new() -> (res: Global)
        ensures
            res == (Global { activity: Activity::Decode, suspended: false, wake_epoch: 0 }),
    {
        Global { activity: Activity::Decode, suspended: false, wake_epoch: 0 }
    }

    /// The window calls for `activity`. Whether that is a change.
    pub fn set_activity(&mut self, activity: Activity) -> (res: bool)
        ensures
            *final(self) == (Global { activity, ..*old(self) }),
            res == (old(self).activity != activity),
    {
        let res = self.activity != activity;
        self.activity = activity;
        res
    }

    /// The system is going to sleep: tear down every session.
    pub fn suspend(&mut self)
        ensures
            *final(self) == old(self).asleep(),
    {
        self.suspended = true;
    }

    /// The system woke up: reconnect everything at once.
    pub fn resume(&mut self)
        ensures
            *final(self) == old(self).awake(),
    {
        self.suspended = false;
        self.wake_epoch = self.wake_epoch.wrapping_add(1);
    }
}

/// Commands for one camera.
#[derive(Clone, Copy, Debug, PartialEq, Eq, Structural)]
pub struct Control {
    pub stop: bool,
    /// Changed to skip the backoff or to try again after a failure that is not retried.
    pub retry_epoch: u64,
}

impl Control {
    /// After it was told to try again.
    pub open spec fn retried(self) -> Control {
        Control { retry_epoch: self.retry_epoch.wrapping_add(1), ..self }
    }

    pub fn new() -> (res: Control)
        ensures
            res == (Control { stop: false, retry_epoch: 0 }),
    {
        Control { stop: false, retry_epoch: 0 }
    }

    /// Ends the camera's supervisor.
    pub fn stop(&mut self)
        ensures
            *final(self) == (Control { stop: true, ..*old(self) }),
    {
        self.stop = true;
    }

    /// Tries again now.
    pub fn retry(&mut self)
        ensures
            *final(self) == old(self).retried(),
    {
        self.retry_epoch = self.retry_epoch.wrapping_add(1);
    }
}

/// While the system sleeps no camera is connected. Waking up undoes that and is noticed, also by
/// a supervisor that slept through it.
pub proof fn lemma_sleep_and_wake(global: Global)
    ensures
        !global.asleep().connects(),
        global.asleep().awake().connects() == (global.activity != Activity::Disconnect),
        global.asleep().awake().wake_epoch != global.wake_epoch,
{
}

/// Turns the raw visibility of the window into the debounced activity that every supervisor
/// follows. Whether the activity changed, and when to look again unless the visibility changes.
pub fn follow_visibility(tracker: &VisibilityTracker, global: &mut Global, now: Moment) -> (res: (
    bool,
    Option<Moment>,
))
    ensures
        final(global).activity == policy::activity_of(tracker.hidden(), now),
        *final(global) == (Global { activity: final(global).activity, ..*old(global) }),
        res.0 == (final(global).activity != old(global).activity),
        res.1 == policy::next_change_of(tracker.hidden(), now),
{
    let changed = global.set_activity(tracker.activity(now));
    (changed, tracker.next_change(now))
}

/// Cameras are connected while the system is awake and the window has not been hidden for long,
/// whether or not anything is decoded. Sleep and wake leave the rest of the state alone.
pub proof fn lemma_connected_while_awake_and_in_view(global: Global)
    ensures
        global.connects() <==> !global.suspended && (global.activity == Activity::Decode
            || global.activity == Activity::Discard),
        global.asleep().suspended,
        global.asleep().activity == global.activity,
        global.asleep().wake_epoch == global.wake_epoch,
        !global.awake().suspended,
        global.awake().activity == global.activity,
        global.awake().wake_epoch != global.wake_epoch,
{
}

/// Being told to try again is noticed, however often it was before, and does not stop the camera.
pub proof fn lemma_retry_is_noticed(control: Control)
    ensures
        control.retried().retry_epoch != control.retry_epoch,
        control.retried().retried().retry_epoch != control.retry_epoch,
        control.retried().stop == control.stop,
{
}

}
