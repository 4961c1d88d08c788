//! The set of running streams: one supervised stream for each camera placed in the mosaic.
use vstd::prelude::*;

use crate::camera::{CameraConfig, CameraId, CameraView};
use crate::config;
use crate::control::Global;
use crate::platform::PowerEvent;
use crate::shared::{SharedView, StatusView, StreamShared, StreamStatus};

verus! {

/// How long a shutdown waits for the sessions to be torn down.
pub const SHUTDOWN_GRACE: u64 = 2_000_000_000;

/// What becomes of one camera's stream. The handle names what the stream shares with its tile: it
/// stays the same for as long as the camera is in the mosaic.
pub enum Change {
    /// The camera left the mosaic: its supervisor is to stop.
    Stop(CameraId),
    /// The camera came to the mosaic: a supervisor is to start, with something new to share under
    /// a handle that no stream had before. `resumes` says that the supervisor before is still
    /// tearing down: the new one waits for it and keeps its session group.
    Start { camera: CameraConfig, resumes: bool, handle: u64 },
    /// The connection changed: the supervisor is to stop, and a new one to start after it. It
    /// goes on with what the one before shared: the handle is that of the running stream.
    Restart { camera: CameraConfig, handle: u64 },
    /// Nothing that the running supervisor needs to know. The handle stays too.
    Keep { camera: CameraConfig, handle: u64 },
}

/// What a [`Change`] says.
pub enum ChangeView {
    Stop(CameraId),
    Start { camera: CameraView, resumes: bool, handle: nat },
    Restart { camera: CameraView, handle: nat },
    Keep { camera: CameraView, handle: nat },
}

impl View for Change {
    type V = ChangeView;

    open spec fn view(&self) -> ChangeView {
        match self {
            Change::Stop(id) => ChangeView::Stop(*id),
            Change::Start { camera, resumes, handle } => ChangeView::Start {
                camera: camera@,
                resumes: *resumes,
                handle: *handle as nat,
            },
            Change::Restart { camera, handle } => ChangeView::Restart {
                camera: camera@,
                handle: *handle as nat,
            },
            Change::Keep { camera, handle } => ChangeView::Keep {
                camera: camera@,
                handle: *handle as nat,
            },
        }
    }
}

impl ChangeView {
    /// The handle of the stream that runs after the change.
    pub open spec fn handle(self) -> Option<nat> {
        match self {
            ChangeView::Stop(_) => None,
            ChangeView::Start { handle, .. } => Some(handle),
            ChangeView::Restart { handle, .. } => Some(handle),
            ChangeView::Keep { handle, .. } => Some(handle),
        }
    }
}

/// What changes say.
pub open spec fn changes_of(changes: Seq<Change>) -> Seq<ChangeView> {
    changes.map_values(|c: Change| c@)
}

/// What the tile of a camera shows after a change of its stream.
pub open spec fn shown_after<F>(change: ChangeView, shared: SharedView<F>) -> SharedView<F> {
    match change {
        ChangeView::Stop(_) => shared.without_frame().with_status(StatusView::Paused),
        ChangeView::Restart { .. } => shared.without_frame().with_status(StatusView::Connecting),
        _ => shared,
    }
}

impl Change {
    /// Updates what the camera's tile shows.
    pub fn show<F>(&self, shared: &mut StreamShared<F>)
        ensures
            final(shared)@ == shown_after(self@, old(shared)@),
    {
        match self {
            Change::Stop(_) => {
                shared.clear_frame();
                shared.set_status(StreamStatus::Paused);
            },
            Change::Restart { .. } => {
                shared.clear_frame();
                shared.set_status(StreamStatus::Connecting);
            },
            _ => {},
        }
    }
}

/// The running streams and the state that they follow.
pub struct StreamManager {
    streams: Vec<CameraConfig>,
    /// The handle of each stream.
    handles: Vec<u64>,
    /// How many streams were started. The next one gets this for its handle.
    started: u64,
    /// Cameras that left the mosaic and may still be tearing down. If one comes back before it
    /// has finished, its new supervisor waits for it: one session per camera.
    retired: Vec<CameraId>,
    global: Global,
    visible: bool,
    smooth: bool,
    running: bool,
}

/// What a [`StreamManager`] holds.
pub struct ManagerView {
    pub streams: Seq<CameraView>,
    /// The handles of the streams, in the same order.
    pub handles: Seq<nat>,
    pub started: nat,
    pub retired: Seq<CameraId>,
    pub global: Global,
    pub visible: bool,
    pub smooth: bool,
    pub running: bool,
}

impl View for StreamManager {
    type V = ManagerView;

    closed spec fn view(&self) -> ManagerView {
        ManagerView {
            streams: config::views(self.streams@),
            handles: numbers(self.handles@),
            started: self.started as nat,
            retired: self.retired@,
            global: self.global,
            visible: self.visible,
            smooth: self.smooth,
            running: self.running,
        }
    }
}

/// Handles as numbers.
pub open spec fn numbers(handles: Seq<u64>) -> Seq<nat> {
    handles.map_values(|handle: u64| handle as nat)
}

/// The streams of the first `n` of `streams` that are wanted no more.
pub open spec fn unwanted(streams: Seq<CameraView>, wanted: Seq<CameraView>, n: int) -> Seq<
    CameraId,
>
    decreases n,
{
    if n <= 0 {
        Seq::empty()
    } else if config::known(wanted, streams[n - 1].id) {
        unwanted(streams, wanted, n - 1)
    } else {
        unwanted(streams, wanted, n - 1).push(streams[n - 1].id)
    }
}

/// The streams of the first `n` of `streams` that are still wanted.
pub open spec fn still_wanted(streams: Seq<CameraView>, wanted: Seq<CameraView>, n: int) -> Seq<
    CameraView,
>
    decreases n,
{
    if n <= 0 {
        Seq::empty()
    } else if config::known(wanted, streams[n - 1].id) {
        still_wanted(streams, wanted, n - 1).push(streams[n - 1])
    } else {
        still_wanted(streams, wanted, n - 1)
    }
}

/// The handles of the first `n` of `streams` that are still wanted.
pub open spec fn handles_still_wanted(
    streams: Seq<CameraView>,
    handles: Seq<nat>,
    wanted: Seq<CameraView>,
    n: int,
) -> Seq<nat>
    decreases n,
{
    if n <= 0 {
        Seq::empty()
    } else if config::known(wanted, streams[n - 1].id) {
        handles_still_wanted(streams, handles, wanted, n - 1).push(handles[n - 1])
    } else {
        handles_still_wanted(streams, handles, wanted, n - 1)
    }
}

/// Those of the first `n` of `retired` that have not finished.
pub open spec fn unfinished(retired: Seq<CameraId>, finished: Seq<CameraId>, n: int) -> Seq<
    CameraId,
>
    decreases n,
{
    if n <= 0 {
        Seq::empty()
    } else if finished.contains(retired[n - 1]) {
        unfinished(retired, finished, n - 1)
    } else {
        unfinished(retired, finished, n - 1).push(retired[n - 1])
    }
}

/// `ids` without `id`.
pub open spec fn dropped(ids: Seq<CameraId>, id: CameraId) -> Seq<CameraId> {
    ids.filter(|other: CameraId| other != id)
}

impl ManagerView {
    /// Every stream runs once, and the handles are those of streams that were started, in the
    /// order in which they were.
    pub open spec fn wf(self) -> bool {
        &&& config::distinct_ids(self.streams)
        &&& self.handles.len() == self.streams.len()
        &&& forall|i: int, j: int|
            0 <= i < j < self.handles.len() ==> #[trigger] self.handles[i]
                < #[trigger] self.handles[j]
        &&& forall|i: int| 0 <= i < self.handles.len() ==> #[trigger] self.handles[i] < self.started
    }

    /// The handle of the camera's stream, if it has one.
    pub open spec fn handle_of(self, id: CameraId) -> Option<nat> {
        if config::known(self.streams, id) {
            Some(self.handles[choose|i: int| config::first_at(self.streams, id, i)])
        } else {
            None
        }
    }

    /// Whether the camera runs, or is still tearing down, but not both.
    pub open spec fn apart(self, id: CameraId) -> bool {
        !(config::known(self.streams, id) && self.retired.contains(id))
    }

    /// What a camera that is wanted means for its stream.
    pub open spec fn change_for(self, camera: CameraView) -> ChangeView {
        if !config::known(self.streams, camera.id) {
            ChangeView::Start {
                camera,
                resumes: self.retired.contains(camera.id),
                handle: self.started,
            }
        } else if self.streams[choose|i: int|
            config::first_at(self.streams, camera.id, i)].connects_differently(camera) {
            ChangeView::Restart { camera, handle: self.handle_of(camera.id)->0 }
        } else {
            ChangeView::Keep { camera, handle: self.handle_of(camera.id)->0 }
        }
    }

    /// With the stream of `camera`. One that runs keeps its handle; a new one gets a new handle.
    pub open spec fn with_stream(self, camera: CameraView) -> ManagerView {
        ManagerView {
            streams: config::upserted(self.streams, camera),
            handles: if config::known(self.streams, camera.id) {
                self.handles
            } else {
                self.handles.push(self.started)
            },
            started: if config::known(self.streams, camera.id) {
                self.started
            } else {
                self.started + 1
            },
            retired: if config::known(self.streams, camera.id) {
                self.retired
            } else {
                dropped(self.retired, camera.id)
            },
            ..self
        }
    }

    /// With the streams of the first `n` cameras of `wanted`.
    pub open spec fn with_streams(self, wanted: Seq<CameraView>, n: int) -> ManagerView
        decreases n,
    {
        if n <= 0 {
            self
        } else {
            self.with_streams(wanted, n - 1).with_stream(wanted[n - 1])
        }
    }

    /// What the first `n` cameras of `wanted` mean for their streams, one after the other.
    pub open spec fn changes_for(self, wanted: Seq<CameraView>, n: int) -> Seq<ChangeView>
        decreases n,
    {
        if n <= 0 {
            Seq::empty()
        } else {
            self.changes_for(wanted, n - 1).push(
                self.with_streams(wanted, n - 1).change_for(wanted[n - 1]),
            )
        }
    }

    /// That the streams of all these cameras are kept.
    pub open spec fn all_kept(self, cameras: Seq<CameraView>) -> Seq<ChangeView> {
        cameras.map_values(
            |camera: CameraView|
                ChangeView::Keep { camera, handle: self.handle_of(camera.id)->0 },
        )
    }

    /// Without the streams that are wanted no more. Those of `finished` have torn down.
    pub open spec fn pruned(self, wanted: Seq<CameraView>, finished: Seq<CameraId>) -> ManagerView {
        ManagerView {
            streams: still_wanted(self.streams, wanted, self.streams.len() as int),
            handles: handles_still_wanted(
                self.streams,
                self.handles,
                wanted,
                self.streams.len() as int,
            ),
            retired: unfinished(self.retired, finished, self.retired.len() as int) + unwanted(
                self.streams,
                wanted,
                self.streams.len() as int,
            ),
            ..self
        }
    }

    /// After the running set was made to match `wanted`.
    pub open spec fn synced(self, wanted: Seq<CameraView>, finished: Seq<CameraId>) -> ManagerView {
        self.pruned(wanted, finished).with_streams(wanted, wanted.len() as int)
    }

    /// What is to be done for that: first the streams to stop, then those of the wanted cameras.
    pub open spec fn sync_changes(self, wanted: Seq<CameraView>, finished: Seq<CameraId>) -> Seq<
        ChangeView,
    > {
        unwanted(self.streams, wanted, self.streams.len() as int).map_values(
            |id: CameraId| ChangeView::Stop(id),
        ) + self.pruned(wanted, finished).changes_for(wanted, wanted.len() as int)
    }
}

/// Position of the first camera with this id.
fn position(cameras: &Vec<CameraConfig>, id: CameraId) -> (res: Option<usize>)
    ensures
        match res {
            Some(i) => config::first_at(config::views(cameras@), id, i as int),
            None => !config::known(config::views(cameras@), id),
        },
{
    let ghost all = config::views(cameras@);
    let mut i: usize = 0;
    while i < cameras.len()
        invariant
            i <= cameras@.len(),
            all == config::views(cameras@),
            forall|j: int| 0 <= j < i ==> (#[trigger] all[j]).id != id,
        decreases cameras@.len() - i,
    {
        assert(all[i as int] == cameras@[i as int]@);
        if cameras[i].id == id {
            return Some(i);
        }
        i = i + 1;
    }
    None
}

/// Whether `ids` holds `id`.
fn holds(ids: &Vec<CameraId>, id: CameraId) -> (res: bool)
    ensures
        res == ids@.contains(id),
{
    let mut i: usize = 0;
    while i < ids.len()
        invariant
            i <= ids@.len(),
            forall|j: int| 0 <= j < i ==> ids@[j] != id,
        decreases ids@.len() - i,
    {
        if ids[i] == id {
            assert(ids@[i as int] == id);
            return true;
        }
        i = i + 1;
    }
    false
}

impl StreamManager {
    pub fn new() -> (res: StreamManager)
        ensures
            res@.wf(),
            res@ == (ManagerView {
                streams: Seq::empty(),
                handles: Seq::empty(),
                started: 0,
                retired: Seq::empty(),
                global: Global {
                    activity: crate::policy::Activity::Decode,
                    suspended: false,
                    wake_epoch: 0,
                },
                visible: true,
                smooth: false,
                running: true,
            }),
    {
        let res = StreamManager {
            streams: Vec::new(),
            handles: Vec::new(),
            started: 0,
            retired: Vec::new(),
            global: Global::new(),
            visible: true,
            smooth: false,
            running: true,
        };
        assert(res@.streams =~= Seq::<CameraView>::empty());
        assert(res@.handles =~= Seq::<nat>::empty());
        res
    }

    /// Takes `id` out of the retired cameras. Whether it was among them.
    fn unretire(&mut self, id: CameraId) -> (res: bool)
        ensures
            res == old(self)@.retired.contains(id),
            final(self)@ == (ManagerView {
                retired: dropped(old(self)@.retired, id),
                ..old(self)@
            }),
            final(self).streams == old(self).streams,
            final(self).handles == old(self).handles,
    {
        let found = holds(&self.retired, id);
        let mut kept: Vec<CameraId> = Vec::new();
        let ghost all = self.retired@;
        let mut i: usize = 0;
        assert(dropped(all.take(0), id) =~= Seq::<CameraId>::empty()) by {
            reveal(Seq::filter);
        }
        while i < self.retired.len()
            invariant
                i <= self.retired@.len(),
                all == self.retired@,
                *self == *old(self),
                kept@ == dropped(all.take(i as int), id),
            decreases self.retired@.len() - i,
        {
            assert(all.take(i + 1).drop_last() =~= all.take(i as int));
            assert(dropped(all.take(i + 1), id) == (if all[i as int] != id {
                dropped(all.take(i as int), id).push(all[i as int])
            } else {
                dropped(all.take(i as int), id)
            })) by {
                reveal(Seq::filter);
            }
            if self.retired[i] != id {
                kept.push(self.retired[i]);
            }
            i = i + 1;
        }
        assert(all.take(i as int) =~= all);
        self.retired = kept;
        found
    }

    /// Forgets the retired cameras that have finished, and retires the streams that are wanted
    /// no more.
    fn prune(&mut self, wanted: &Vec<CameraConfig>, finished: &Vec<CameraId>) -> (res: Vec<Change>)
        requires
            old(self)@.wf(),
        ensures
            final(self)@ == old(self)@.pruned(config::views(wanted@), finished@),
            changes_of(res@) == unwanted(
                old(self)@.streams,
                config::views(wanted@),
                old(self)@.streams.len() as int,
            ).map_values(|id: CameraId| ChangeView::Stop(id)),
    {
        let ghost before = self@;
        let ghost goal = config::views(wanted@);
        let mut retired: Vec<CameraId> = Vec::new();
        let mut i: usize = 0;
        while i < self.retired.len()
            invariant
                i <= self.retired@.len(),
                *self == *old(self),
                before == self@,
                retired@ == unfinished(before.retired, finished@, i as int),
            decreases self.retired@.len() - i,
        {
            if !holds(finished, self.retired[i]) {
                retired.push(self.retired[i]);
            }
            i = i + 1;
        }
        let ghost left = retired@;
        let mut streams: Vec<CameraConfig> = Vec::new();
        let mut handles: Vec<u64> = Vec::new();
        let mut changes: Vec<Change> = Vec::new();
        let mut j: usize = 0;
        assert(left + unwanted(before.streams, goal, 0) =~= left);
        assert(config::views(streams@) =~= Seq::<CameraView>::empty());
        assert(numbers(handles@) =~= Seq::<nat>::empty());
        assert(changes_of(changes@) =~= unwanted(before.streams, goal, 0).map_values(
            |id: CameraId| ChangeView::Stop(id),
        ));
        while j < self.streams.len()
            invariant
                j <= self.streams@.len(),
                *self == *old(self),
                before == self@,
                before.wf(),
                goal == config::views(wanted@),
                config::views(streams@) == still_wanted(before.streams, goal, j as int),
                numbers(handles@) == handles_still_wanted(
                    before.streams,
                    before.handles,
                    goal,
                    j as int,
                ),
                retired@ == left + unwanted(before.streams, goal, j as int),
                changes_of(changes@) == unwanted(before.streams, goal, j as int).map_values(
                    |id: CameraId| ChangeView::Stop(id),
                ),
            decreases self.streams@.len() - j,
        {
            assert(before.streams[j as int] == self.streams@[j as int]@);
            assert(before.handles[j as int] == self.handles@[j as int]);
            let id = self.streams[j].id;
            let ghost gone = unwanted(before.streams, goal, j as int);
            if position(wanted, id).is_some() {
                let ghost kept = streams@;
                streams.push(self.streams[j].clone());
                assert(config::views(streams@) =~= config::views(kept).push(
                    before.streams[j as int],
                ));
                let ghost known = handles@;
                handles.push(self.handles[j]);
                assert(numbers(handles@) =~= numbers(known).push(before.handles[j as int]));
            } else {
                let ghost listed = retired@;
                retired.push(id);
                assert(retired@ =~= left + gone.push(id));
                let ghost said = changes@;
                changes.push(Change::Stop(id));
                assert(changes_of(changes@) =~= changes_of(said).push(ChangeView::Stop(id)));
                assert(gone.push(id).map_values(|id: CameraId| ChangeView::Stop(id))
                    =~= gone.map_values(|id: CameraId| ChangeView::Stop(id)).push(
                    ChangeView::Stop(id),
                ));
            }
            j = j + 1;
        }
        self.streams = streams;
        self.handles = handles;
        self.retired = retired;
        changes
    }

    /// Sees to the stream of a wanted camera.
    fn want(&mut self, camera: &CameraConfig) -> (res: Change)
        requires
            old(self)@.wf(),
            old(self)@.started < u64::MAX,
        ensures
            final(self)@.wf(),
            final(self)@ == old(self)@.with_stream(camera@),
            res@ == old(self)@.change_for(camera@),
    {
        let ghost before = self@;
        proof {
            lemma_with_stream_wf(before, camera@);
        }
        match position(&self.streams, camera.id) {
            None => {
                let resumes = self.unretire(camera.id);
                let ghost streams = self.streams@;
                self.streams.push(camera.clone());
                assert(config::views(self.streams@) =~= config::views(streams).push(camera@));
                let ghost handles = self.handles@;
                let handle: u64 = self.started;
                self.handles.push(handle);
                assert(numbers(self.handles@) =~= numbers(handles).push(handle as nat));
                self.started = handle + 1;
                Change::Start { camera: camera.clone(), resumes, handle }
            },
            Some(at) => {
                proof {
                    config::lemma_first_at_unique(before.streams, camera.id, at as int);
                }
                assert(before.streams[at as int] == self.streams@[at as int]@);
                let handle: u64 = self.handles[at];
                assert(before.handles[at as int] == handle);
                let differs = self.streams[at].connection_differs(camera);
                let ghost streams = self.streams@;
                self.streams.set(at, camera.clone());
                assert(config::views(self.streams@) =~= config::views(streams).update(
                    at as int,
                    camera@,
                ));
                if differs {
                    Change::Restart { camera: camera.clone(), handle }
                } else {
                    // Only the name changed: nothing to retry. Re-arming a camera that rejected
                    // the credentials would spend one of its login attempts.
                    Change::Keep { camera: camera.clone(), handle }
                }
            },
        }
    }

    /// Makes the running set match `cameras` (the cameras currently in the mosaic): starts new
    /// ones, stops removed ones and restarts those whose connection settings changed. What is to
    /// be done for that, in this order. `finished` are retired cameras that have torn down. There
    /// are handles for as many streams as 64 bits can count.
    pub fn sync(&mut self, cameras: &Vec<CameraConfig>, finished: &Vec<CameraId>) -> (res: Vec<
        Change,
    >)
        requires
            old(self)@.wf(),
            old(self)@.running || cameras@.len() == 0,
            old(self)@.started + cameras@.len() <= u64::MAX,
        ensures
            final(self)@.wf(),
            final(self)@ == old(self)@.synced(config::views(cameras@), finished@),
            changes_of(res@) == old(self)@.sync_changes(config::views(cameras@), finished@),
    {
        let ghost before = self@;
        let ghost goal = config::views(cameras@);
        proof {
            lemma_pruned_wf(before, goal, finished@);
        }
        let mut changes = self.prune(cameras, finished);
        let ghost pruned = self@;
        let ghost stops = changes_of(changes@);
        let mut i: usize = 0;
        assert(stops + pruned.changes_for(goal, 0) =~= stops);
        while i < cameras.len()
            invariant
                i <= cameras@.len(),
                goal == config::views(cameras@),
                self@.wf(),
                self@ == pruned.with_streams(goal, i as int),
                self@.started <= pruned.started + i,
                pruned.started + cameras@.len() <= u64::MAX,
                changes_of(changes@) == stops + pruned.changes_for(goal, i as int),
            decreases cameras@.len() - i,
        {
            assert(goal[i as int] == cameras@[i as int]@);
            let change = self.want(&cameras[i]);
            let ghost said = changes@;
            let ghost what = change@;
            changes.push(change);
            assert(changes_of(changes@) =~= changes_of(said).push(what));
            assert((stops + pruned.changes_for(goal, i as int)).push(what) =~= stops
                + pruned.changes_for(goal, i as int).push(what));
            i = i + 1;
        }
        changes
    }

    /// How many streams were started.
    pub fn started(&self) -> (res: u64)
        ensures
            res == self@.started,
    {
        self.started
    }

    /// The handle of the camera's stream, if it has one.
    pub fn stream(&self, id: CameraId) -> (res: Option<u64>)
        requires
            self@.wf(),
        ensures
            match res {
                Some(handle) => self@.handle_of(id) == Some(handle as nat),
                None => self@.handle_of(id) is None,
            },
    {
        match position(&self.streams, id) {
            Some(at) => {
                proof {
                    config::lemma_first_at_unique(self@.streams, id, at as int);
                }
                assert(self@.handles[at as int] == self.handles@[at as int]);
                Some(self.handles[at])
            },
            None => None,
        }
    }

    /// Window visibility. Whether it changed.
    pub fn set_window_visible(&mut self, visible: bool) -> (res: bool)
        ensures
            res == (old(self)@.visible != visible),
            final(self)@ == (ManagerView { visible, ..old(self)@ }),
    {
        let changed = self.visible != visible;
        self.visible = visible;
        changed
    }

    /// Holds each frame until its playout time, absorbing network jitter. Applies to every
    /// stream, current and future, without reconnecting.
    pub fn set_smooth_playback(&mut self, enabled: bool)
        ensures
            final(self)@ == (ManagerView { smooth: enabled, ..old(self)@ }),
    {
        self.smooth = enabled;
    }

    /// System is going to sleep: tear down every session.
    pub fn suspend(&mut self) -> (res: Global)
        ensures
            res == old(self)@.global.asleep(),
            final(self)@ == (ManagerView { global: res, ..old(self)@ }),
    {
        self.global.suspend();
        self.global
    }

    /// System woke up: reconnect everything at once.
    pub fn resume(&mut self) -> (res: Global)
        ensures
            res == old(self)@.global.awake(),
            final(self)@ == (ManagerView { global: res, ..old(self)@ }),
    {
        self.global.resume();
        self.global
    }

    /// Follows the system into sleep and out of it.
    pub fn on_power(&mut self, event: PowerEvent) -> (res: Global)
        ensures
            res == (match event {
                PowerEvent::Sleep => old(self)@.global.asleep(),
                PowerEvent::Wake => old(self)@.global.awake(),
            }),
            final(self)@ == (ManagerView { global: res, ..old(self)@ }),
    {
        match event {
            PowerEvent::Sleep => self.suspend(),
            PowerEvent::Wake => self.resume(),
        }
    }

    /// The window calls for `activity`. Whether that is a change.
    pub fn set_activity(&mut self, activity: crate::policy::Activity) -> (res: bool)
        ensures
            res == (old(self)@.global.activity != activity),
            final(self)@ == (ManagerView {
                global: Global { activity, ..old(self)@.global },
                ..old(self)@
            }),
    {
        self.global.set_activity(activity)
    }

    /// Skips the remaining backoff delay of a camera, or re-arms one that is not retried by
    /// itself. Whether the camera has a stream to tell.
    pub fn retry_now(&self, id: CameraId) -> (res: bool)
        ensures
            res == config::known(self@.streams, id),
    {
        let found = position(&self.streams, id);
        proof {
            if let Some(at) = found {
                config::lemma_first_at_unique(self@.streams, id, at as int);
            }
        }
        found.is_some()
    }

    /// Stops every stream. The cameras to wait for; none when everything was stopped before.
    pub fn shutdown(&mut self) -> (res: Option<Vec<CameraId>>)
        ensures
            res is Some == old(self)@.running,
            res is Some ==> (res->0)@ == old(self)@.streams.map_values(|c: CameraView| c.id)
                + old(self)@.retired && final(self)@ == (ManagerView {
                streams: Seq::empty(),
                handles: Seq::empty(),
                retired: Seq::empty(),
                running: false,
                ..old(self)@
            }),
            res is None ==> final(self)@ == old(self)@,
    {
        if !self.running {
            return None;
        }
        let ghost ids = self@.streams.map_values(|c: CameraView| c.id);
        let mut out: Vec<CameraId> = Vec::new();
        let mut i: usize = 0;
        while i < self.streams.len()
            invariant
                i <= self.streams@.len(),
                *self == *old(self),
                ids == self@.streams.map_values(|c: CameraView| c.id),
                out@ == ids.take(i as int),
            decreases self.streams@.len() - i,
        {
            assert(ids[i as int] == self.streams@[i as int].id);
            out.push(self.streams[i].id);
            assert(ids.take(i + 1) =~= ids.take(i as int).push(ids[i as int]));
            i = i + 1;
        }
        assert(ids.take(i as int) =~= ids);
        let mut j: usize = 0;
        let ghost retired = self.retired@;
        assert(ids + retired.take(0) =~= ids);
        while j < self.retired.len()
            invariant
                j <= self.retired@.len(),
                *self == *old(self),
                retired == self.retired@,
                out@ == ids + retired.take(j as int),
            decreases self.retired@.len() - j,
        {
            out.push(self.retired[j]);
            assert(out@ =~= ids + retired.take(j + 1));
            j = j + 1;
        }
        assert(retired.take(j as int) =~= retired);
        self.streams = Vec::new();
        self.handles = Vec::new();
        self.retired = Vec::new();
        self.running = false;
        assert(self@.streams =~= Seq::<CameraView>::empty());
        assert(self@.handles =~= Seq::<nat>::empty());
        Some(out)
    }
}

proof fn lemma_with_stream_wf(manager: ManagerView, camera: CameraView)
    requires
        manager.wf(),
    ensures
        manager.with_stream(camera).wf(),
{
    let streams = manager.streams;
    if config::known(streams, camera.id) {
        config::lemma_known_has_first(streams, camera.id);
    }
}

proof fn lemma_still_wanted(streams: Seq<CameraView>, wanted: Seq<CameraView>, n: int)
    requires
        0 <= n <= streams.len(),
        config::distinct_ids(streams),
    ensures
        config::distinct_ids(still_wanted(streams, wanted, n)),
        forall|i: int|
            0 <= i < still_wanted(streams, wanted, n).len() ==> config::known(
                wanted,
                (#[trigger] still_wanted(streams, wanted, n)[i]).id,
            ) && exists|k: int| 0 <= k < n && streams[k] == still_wanted(streams, wanted, n)[i],
    decreases n,
{
    if n > 0 {
        lemma_still_wanted(streams, wanted, n - 1);
        let before = still_wanted(streams, wanted, n - 1);
        let after = still_wanted(streams, wanted, n);
        assert forall|i: int| 0 <= i < after.len() implies config::known(
            wanted,
            (#[trigger] after[i]).id,
        ) && exists|k: int| 0 <= k < n && streams[k] == after[i] by {
            if i < before.len() {
                assert(before[i] == after[i]);
                let k = choose|k: int| 0 <= k < n - 1 && streams[k] == before[i];
                assert(streams[k] == after[i]);
            } else {
                assert(streams[n - 1] == after[i]);
            }
        }
        assert forall|i: int, j: int| 0 <= i < j < after.len() implies (#[trigger] after[i]).id != (
        #[trigger] after[j]).id by {
            assert(before[i] == after[i]);
            if j < before.len() {
                assert(before[j] == after[j]);
            } else {
                let k = choose|k: int| 0 <= k < n - 1 && streams[k] == before[i];
                assert(streams[k].id != streams[n - 1].id);
            }
        }
    }
}

proof fn lemma_handles_still_wanted(manager: ManagerView, wanted: Seq<CameraView>, n: int)
    requires
        manager.wf(),
        0 <= n <= manager.streams.len(),
    ensures
        ({
            let kept = handles_still_wanted(manager.streams, manager.handles, wanted, n);
            &&& kept.len() == still_wanted(manager.streams, wanted, n).len()
            &&& forall|i: int, j: int|
                0 <= i < j < kept.len() ==> #[trigger] kept[i] < #[trigger] kept[j]
            &&& forall|i: int|
                0 <= i < kept.len() ==> #[trigger] kept[i] < manager.started && (n
                    < manager.handles.len() ==> kept[i] < manager.handles[n])
        }),
    decreases n,
{
    if n > 0 {
        lemma_handles_still_wanted(manager, wanted, n - 1);
        let before = handles_still_wanted(manager.streams, manager.handles, wanted, n - 1);
        let after = handles_still_wanted(manager.streams, manager.handles, wanted, n);
        assert(manager.handles[n - 1] < manager.started);
        assert(n < manager.handles.len() ==> manager.handles[n - 1] < manager.handles[n]);
        assert forall|i: int| 0 <= i < after.len() implies #[trigger] after[i] < manager.started
            && (n < manager.handles.len() ==> after[i] < manager.handles[n]) by {
            if i < before.len() {
                assert(before[i] == after[i]);
            }
        }
        assert forall|i: int, j: int| 0 <= i < j < after.len() implies #[trigger] after[i]
            < #[trigger] after[j] by {
            assert(before[i] == after[i]);
            if j < before.len() {
                assert(before[j] == after[j]);
            }
        }
    }
}

proof fn lemma_pruned_wf(manager: ManagerView, wanted: Seq<CameraView>, finished: Seq<CameraId>)
    requires
        manager.wf(),
    ensures
        manager.pruned(wanted, finished).wf(),
{
    lemma_still_wanted(manager.streams, wanted, manager.streams.len() as int);
    lemma_handles_still_wanted(manager, wanted, manager.streams.len() as int);
}

proof fn lemma_upserted_ids(cameras: Seq<CameraView>, camera: CameraView, id: CameraId)
    ensures
        config::known(config::upserted(cameras, camera), id) == (config::known(cameras, id) || id
            == camera.id),
{
    let res = config::upserted(cameras, camera);
    if config::known(cameras, camera.id) {
        config::lemma_known_has_first(cameras, camera.id);
    }
    let at = if config::known(cameras, camera.id) {
        choose|i: int| config::first_at(cameras, camera.id, i)
    } else {
        cameras.len() as int
    };
    assert(res[at] == camera);
    if config::known(cameras, id) {
        let k = choose|k: int| 0 <= k < cameras.len() && (#[trigger] cameras[k]).id == id;
        assert(res[k].id == id);
    }
    if config::known(res, id) && id != camera.id {
        let k = choose|k: int| 0 <= k < res.len() && (#[trigger] res[k]).id == id;
        assert(cameras[k].id == id);
    }
}

proof fn lemma_with_streams_ids(
    manager: ManagerView,
    wanted: Seq<CameraView>,
    n: int,
    id: CameraId,
)
    requires
        0 <= n <= wanted.len(),
    ensures
        config::known(manager.with_streams(wanted, n).streams, id) == (config::known(
            manager.streams,
            id,
        ) || config::known(wanted.take(n), id)),
    decreases n,
{
    if n > 0 {
        lemma_with_streams_ids(manager, wanted, n - 1, id);
        lemma_upserted_ids(manager.with_streams(wanted, n - 1).streams, wanted[n - 1], id);
        let all = wanted.take(n);
        let fewer = wanted.take(n - 1);
        if config::known(fewer, id) {
            let k = choose|k: int| 0 <= k < fewer.len() && (#[trigger] fewer[k]).id == id;
            assert(all[k].id == id);
        }
        if config::known(all, id) && id != wanted[n - 1].id {
            let k = choose|k: int| 0 <= k < all.len() && (#[trigger] all[k]).id == id;
            assert(fewer[k].id == id);
        }
        assert(all[n - 1] == wanted[n - 1]);
    }
}

proof fn lemma_still_wanted_ids(
    streams: Seq<CameraView>,
    wanted: Seq<CameraView>,
    n: int,
    id: CameraId,
)
    requires
        0 <= n <= streams.len(),
    ensures
        config::known(still_wanted(streams, wanted, n), id) ==> config::known(wanted, id)
            && config::known(streams, id),
    decreases n,
{
    if n > 0 {
        lemma_still_wanted_ids(streams, wanted, n - 1, id);
        let before = still_wanted(streams, wanted, n - 1);
        let after = still_wanted(streams, wanted, n);
        if config::known(after, id) {
            let k = choose|k: int| 0 <= k < after.len() && (#[trigger] after[k]).id == id;
            if k < before.len() {
                assert(before[k].id == id);
            } else {
                assert(streams[n - 1].id == id);
            }
        }
    }
}

/// After a sync exactly the wanted cameras have streams.
pub proof fn lemma_sync_runs_the_wanted(
    manager: ManagerView,
    wanted: Seq<CameraView>,
    finished: Seq<CameraId>,
    id: CameraId,
)
    ensures
        config::known(manager.synced(wanted, finished).streams, id) == config::known(wanted, id),
{
    let pruned = manager.pruned(wanted, finished);
    lemma_with_streams_ids(pruned, wanted, wanted.len() as int, id);
    lemma_still_wanted_ids(manager.streams, wanted, manager.streams.len() as int, id);
    assert(wanted.take(wanted.len() as int) =~= wanted);
}

proof fn lemma_dropped(ids: Seq<CameraId>, gone: CameraId, id: CameraId)
    ensures
        dropped(ids, gone).contains(id) == (ids.contains(id) && id != gone),
    decreases ids.len(),
{
    reveal(Seq::filter);
    let kept = dropped(ids, gone);
    if ids.len() > 0 {
        let fewer = ids.drop_last();
        let before = dropped(fewer, gone);
        lemma_dropped(fewer, gone, id);
        assert(kept == if ids.last() != gone {
            before.push(ids.last())
        } else {
            before
        });
        if before.contains(id) {
            let k = choose|k: int| 0 <= k < before.len() && before[k] == id;
            assert(kept[k] == id);
        }
        if kept.contains(id) {
            let k = choose|k: int| 0 <= k < kept.len() && kept[k] == id;
            if k < before.len() {
                assert(before[k] == id);
            }
        }
        if ids.last() != gone {
            assert(kept.last() == ids.last());
        }
        if ids.contains(id) && id != ids.last() {
            let k = choose|k: int| 0 <= k < ids.len() && ids[k] == id;
            assert(fewer[k] == id);
        }
        if fewer.contains(id) {
            let k = choose|k: int| 0 <= k < fewer.len() && fewer[k] == id;
            assert(ids[k] == id);
        }
    }
}

proof fn lemma_unwanted(
    streams: Seq<CameraView>,
    wanted: Seq<CameraView>,
    n: int,
    id: CameraId,
)
    requires
        0 <= n <= streams.len(),
    ensures
        unwanted(streams, wanted, n).contains(id) == (config::known(streams.take(n), id)
            && !config::known(wanted, id)),
    decreases n,
{
    let all = streams.take(n);
    if n > 0 {
        lemma_unwanted(streams, wanted, n - 1, id);
        let fewer = streams.take(n - 1);
        let last = streams[n - 1].id;
        assert(all[n - 1].id == last);
        if config::known(fewer, id) {
            let k = choose|k: int| 0 <= k < fewer.len() && (#[trigger] fewer[k]).id == id;
            assert(all[k].id == id);
        }
        if config::known(all, id) && id != last {
            let k = choose|k: int| 0 <= k < all.len() && (#[trigger] all[k]).id == id;
            assert(fewer[k].id == id);
        }
        let before = unwanted(streams, wanted, n - 1);
        if !config::known(wanted, last) {
            assert(before.push(last).contains(id) == (before.contains(id) || id == last)) by {
                if before.contains(id) {
                    let k = choose|k: int| 0 <= k < before.len() && before[k] == id;
                    assert(before.push(last)[k] == id);
                }
                assert(before.push(last)[before.len() as int] == last);
            }
        }
    }
}

proof fn lemma_unfinished(retired: Seq<CameraId>, finished: Seq<CameraId>, n: int, id: CameraId)
    requires
        0 <= n <= retired.len(),
    ensures
        unfinished(retired, finished, n).contains(id) ==> retired.contains(id),
    decreases n,
{
    if n > 0 {
        lemma_unfinished(retired, finished, n - 1, id);
        let before = unfinished(retired, finished, n - 1);
        let after = unfinished(retired, finished, n);
        if after.contains(id) {
            let k = choose|k: int| 0 <= k < after.len() && after[k] == id;
            if k < before.len() {
                assert(before[k] == id);
            } else {
                assert(retired[n - 1] == id);
            }
        }
    }
}

proof fn lemma_with_streams_apart(
    manager: ManagerView,
    wanted: Seq<CameraView>,
    n: int,
    id: CameraId,
)
    requires
        0 <= n <= wanted.len(),
        manager.apart(id),
    ensures
        manager.with_streams(wanted, n).apart(id),
    decreases n,
{
    if n > 0 {
        lemma_with_streams_apart(manager, wanted, n - 1, id);
        let before = manager.with_streams(wanted, n - 1);
        lemma_upserted_ids(before.streams, wanted[n - 1], id);
        lemma_dropped(before.retired, wanted[n - 1].id, id);
    }
}

/// One session per camera: no camera runs while its former stream counts as tearing down.
pub proof fn lemma_sync_keeps_apart(
    manager: ManagerView,
    wanted: Seq<CameraView>,
    finished: Seq<CameraId>,
    id: CameraId,
)
    requires
        manager.apart(id),
    ensures
        manager.synced(wanted, finished).apart(id),
{
    let streams = manager.streams;
    let retired = manager.retired;
    let pruned = manager.pruned(wanted, finished);
    let rest = unfinished(retired, finished, retired.len() as int);
    let stopped = unwanted(streams, wanted, streams.len() as int);
    assert(streams.take(streams.len() as int) =~= streams);
    lemma_unwanted(streams, wanted, streams.len() as int, id);
    lemma_unfinished(retired, finished, retired.len() as int, id);
    lemma_still_wanted_ids(streams, wanted, streams.len() as int, id);
    if (rest + stopped).contains(id) {
        let k = choose|k: int| 0 <= k < (rest + stopped).len() && (rest + stopped)[k] == id;
        if k < rest.len() {
            assert(rest[k] == id);
        } else {
            assert(stopped[k - rest.len()] == id);
        }
    }
    lemma_with_streams_apart(pruned, wanted, wanted.len() as int, id);
}

/// A camera that leaves the mosaic and comes back before its stream has torn down waits for that.
pub proof fn lemma_readded_camera_waits(
    manager: ManagerView,
    others: Seq<CameraView>,
    camera: CameraView,
    finished: Seq<CameraId>,
    later: Seq<CameraId>,
)
    requires
        config::known(manager.streams, camera.id),
        !config::known(others, camera.id),
        !later.contains(camera.id),
    ensures
        manager.synced(others, finished).sync_changes(seq![camera], later).last()
            == (ChangeView::Start {
            camera,
            resumes: true,
            handle: manager.synced(others, finished).started,
        }),
{
    let id = camera.id;
    let streams = manager.streams;
    let pruned = manager.pruned(others, finished);
    let gone = manager.synced(others, finished);
    lemma_sync_runs_the_wanted(manager, others, finished, id);
    assert(streams.take(streams.len() as int) =~= streams);
    lemma_unwanted(streams, others, streams.len() as int, id);
    let stopped = unwanted(streams, others, streams.len() as int);
    let rest = unfinished(manager.retired, finished, manager.retired.len() as int);
    let at = choose|k: int| 0 <= k < stopped.len() && stopped[k] == id;
    assert(pruned.retired[rest.len() + at] == id);
    lemma_with_streams_keeps_retired(pruned, others, others.len() as int, id);
    assert(gone.retired.contains(id));
    let next = gone.pruned(seq![camera], later);
    lemma_unfinished_holds(gone.retired, later, gone.retired.len() as int, id);
    let waiting = unfinished(gone.retired, later, gone.retired.len() as int);
    let k = choose|k: int| 0 <= k < waiting.len() && waiting[k] == id;
    assert(next.retired[k] == id);
    lemma_still_wanted_ids(gone.streams, seq![camera], gone.streams.len() as int, id);
    reveal_with_fuel(ManagerView::changes_for, 2);
    assert(next.with_streams(seq![camera], 0) == next);
    let changes = next.changes_for(seq![camera], 1);
    assert(changes.last() == next.change_for(camera));
}

proof fn lemma_with_streams_keeps_retired(
    manager: ManagerView,
    wanted: Seq<CameraView>,
    n: int,
    id: CameraId,
)
    requires
        0 <= n <= wanted.len(),
        manager.retired.contains(id),
        !config::known(wanted, id),
    ensures
        manager.with_streams(wanted, n).retired.contains(id),
    decreases n,
{
    if n > 0 {
        lemma_with_streams_keeps_retired(manager, wanted, n - 1, id);
        lemma_dropped(manager.with_streams(wanted, n - 1).retired, wanted[n - 1].id, id);
        assert(wanted[n - 1].id != id);
    }
}

proof fn lemma_unfinished_holds(
    retired: Seq<CameraId>,
    finished: Seq<CameraId>,
    n: int,
    id: CameraId,
)
    requires
        0 <= n <= retired.len(),
        !finished.contains(id),
    ensures
        retired.take(n).contains(id) ==> unfinished(retired, finished, n).contains(id),
        n == retired.len() && retired.contains(id) ==> unfinished(retired, finished, n).contains(id),
    decreases n,
{
    if n > 0 {
        lemma_unfinished_holds(retired, finished, n - 1, id);
        let before = unfinished(retired, finished, n - 1);
        let after = unfinished(retired, finished, n);
        let all = retired.take(n);
        if all.contains(id) {
            let k = choose|k: int| 0 <= k < all.len() && all[k] == id;
            if k < n - 1 {
                assert(retired.take(n - 1)[k] == id);
                let j = choose|j: int| 0 <= j < before.len() && before[j] == id;
                assert(after[j] == id);
            } else {
                assert(after[after.len() - 1] == id);
            }
        }
    }
    if n == retired.len() {
        assert(retired.take(n) =~= retired);
    }
}

/// A camera whose connection settings are the same is not restarted, whatever its name became.
pub proof fn lemma_rename_never_restarts(manager: ManagerView, camera: CameraView, at: int)
    requires
        config::first_at(manager.streams, camera.id, at),
        !manager.streams[at].connects_differently(camera),
    ensures
        manager.change_for(camera) == (ChangeView::Keep {
            camera,
            handle: manager.handle_of(camera.id)->0,
        }),
{
    config::lemma_first_at_unique(manager.streams, camera.id, at);
}

proof fn lemma_with_streams_holds(manager: ManagerView, wanted: Seq<CameraView>, n: int, i: int)
    requires
        manager.wf(),
        config::distinct_ids(wanted),
        0 <= i < n <= wanted.len(),
    ensures
        manager.with_streams(wanted, n).wf(),
        manager.with_streams(wanted, n).streams.contains(wanted[i]),
    decreases n,
{
    lemma_with_streams_wf(manager, wanted, n);
    let before = manager.with_streams(wanted, n - 1);
    let after = manager.with_streams(wanted, n);
    let camera = wanted[n - 1];
    if config::known(before.streams, camera.id) {
        config::lemma_known_has_first(before.streams, camera.id);
    }
    let at = if config::known(before.streams, camera.id) {
        choose|k: int| config::first_at(before.streams, camera.id, k)
    } else {
        before.streams.len() as int
    };
    if i == n - 1 {
        assert(after.streams[at] == wanted[i]);
    } else {
        lemma_with_streams_holds(manager, wanted, n - 1, i);
        let k = choose|k: int| 0 <= k < before.streams.len() && before.streams[k] == wanted[i];
        assert(wanted[i].id != wanted[n - 1].id);
        assert(after.streams[k] == wanted[i]);
    }
}

proof fn lemma_with_streams_wf(manager: ManagerView, wanted: Seq<CameraView>, n: int)
    requires
        manager.wf(),
    ensures
        manager.with_streams(wanted, n).wf(),
    decreases n,
{
    if n > 0 {
        lemma_with_streams_wf(manager, wanted, n - 1);
        lemma_with_stream_wf(manager.with_streams(wanted, n - 1), wanted[n - 1]);
    }
}

proof fn lemma_all_wanted(
    streams: Seq<CameraView>,
    handles: Seq<nat>,
    wanted: Seq<CameraView>,
    n: int,
)
    requires
        0 <= n <= streams.len(),
        handles.len() == streams.len(),
        forall|k: int| 0 <= k < streams.len() ==> config::known(wanted, (#[trigger] streams[k]).id),
    ensures
        still_wanted(streams, wanted, n) == streams.take(n),
        handles_still_wanted(streams, handles, wanted, n) == handles.take(n),
        unwanted(streams, wanted, n) == Seq::<CameraId>::empty(),
    decreases n,
{
    if n > 0 {
        lemma_all_wanted(streams, handles, wanted, n - 1);
        assert(config::known(wanted, streams[n - 1].id));
        assert(streams.take(n) =~= streams.take(n - 1).push(streams[n - 1]));
        assert(handles.take(n) =~= handles.take(n - 1).push(handles[n - 1]));
    } else {
        assert(streams.take(n) =~= Seq::<CameraView>::empty());
        assert(handles.take(n) =~= Seq::<nat>::empty());
    }
}

proof fn lemma_settled(manager: ManagerView, wanted: Seq<CameraView>, n: int)
    requires
        manager.wf(),
        0 <= n <= wanted.len(),
        forall|i: int| 0 <= i < wanted.len() ==> manager.streams.contains(#[trigger] wanted[i]),
    ensures
        manager.with_streams(wanted, n) == manager,
        manager.changes_for(wanted, n) == manager.all_kept(wanted.take(n)),
    decreases n,
{
    if n > 0 {
        lemma_settled(manager, wanted, n - 1);
        let camera = wanted[n - 1];
        assert(manager.streams.contains(camera));
        let k = choose|k: int| 0 <= k < manager.streams.len() && manager.streams[k] == camera;
        assert forall|j: int| 0 <= j < k implies (#[trigger] manager.streams[j]).id
            != camera.id by {
            assert(manager.streams[j].id != manager.streams[k].id);
        }
        assert(config::first_at(manager.streams, camera.id, k));
        config::lemma_first_at_unique(manager.streams, camera.id, k);
        assert(manager.streams.update(k, camera) =~= manager.streams);
        assert(wanted.take(n) =~= wanted.take(n - 1).push(camera));
        assert(manager.all_kept(wanted.take(n)) =~= manager.all_kept(wanted.take(n - 1)).push(
            manager.change_for(camera),
        ));
    } else {
        assert(manager.all_kept(wanted.take(n)) =~= Seq::<ChangeView>::empty());
    }
}

/// A second sync with the same cameras changes no stream: none is stopped, started or restarted.
pub proof fn lemma_sync_is_idempotent(
    manager: ManagerView,
    wanted: Seq<CameraView>,
    finished: Seq<CameraId>,
    later: Seq<CameraId>,
)
    requires
        manager.wf(),
        config::distinct_ids(wanted),
    ensures
        ({
            let first = manager.synced(wanted, finished);
            let second = first.synced(wanted, later);
            &&& first.sync_changes(wanted, later) == first.all_kept(wanted)
            &&& second.streams == first.streams
            &&& second.handles == first.handles
        }),
{
    let first = manager.synced(wanted, finished);
    let pruned = manager.pruned(wanted, finished);
    lemma_pruned_wf(manager, wanted, finished);
    let n = wanted.len() as int;
    lemma_with_streams_wf(pruned, wanted, n);
    assert forall|i: int| 0 <= i < wanted.len() implies first.streams.contains(
        #[trigger] wanted[i],
    ) by {
        lemma_with_streams_holds(pruned, wanted, n, i);
    }
    assert forall|k: int| 0 <= k < first.streams.len() implies config::known(
        wanted,
        (#[trigger] first.streams[k]).id,
    ) by {
        lemma_sync_runs_the_wanted(manager, wanted, finished, first.streams[k].id);
    }
    lemma_all_wanted(first.streams, first.handles, wanted, first.streams.len() as int);
    assert(first.streams.take(first.streams.len() as int) =~= first.streams);
    assert(first.handles.take(first.handles.len() as int) =~= first.handles);
    let again = first.pruned(wanted, later);
    assert(again.streams == first.streams);
    assert(again.handles == first.handles);
    lemma_settled(again, wanted, n);
    assert(wanted.take(n) =~= wanted);
    assert(again.all_kept(wanted) =~= first.all_kept(wanted));
    assert(Seq::<CameraId>::empty().map_values(|id: CameraId| ChangeView::Stop(id))
        + again.all_kept(wanted) =~= again.all_kept(wanted));
}

/// The stream of a camera keeps its handle when a camera is seen to; a new stream gets the next
/// one.
proof fn lemma_with_stream_handle(manager: ManagerView, camera: CameraView, id: CameraId)
    requires
        manager.wf(),
    ensures
        config::known(manager.streams, id) ==> manager.with_stream(camera).handle_of(id)
            == manager.handle_of(id),
        !config::known(manager.streams, camera.id) ==> manager.with_stream(camera).handle_of(
            camera.id,
        ) == Some(manager.started),
{
    let streams = manager.streams;
    let after = manager.with_stream(camera).streams;
    if config::known(streams, camera.id) {
        config::lemma_known_has_first(streams, camera.id);
    }
    if config::known(streams, id) {
        config::lemma_known_has_first(streams, id);
        let k = choose|k: int| config::first_at(streams, id, k);
        assert forall|j: int| 0 <= j < k implies (#[trigger] after[j]).id != id by {
            assert(streams[j].id != id);
        }
        assert(config::first_at(after, id, k));
        config::lemma_first_at_unique(after, id, k);
    }
    if !config::known(streams, camera.id) {
        let last = streams.len() as int;
        assert forall|j: int| 0 <= j < last implies (#[trigger] after[j]).id != camera.id by {
            assert(streams[j].id != camera.id);
        }
        assert(config::first_at(after, camera.id, last));
        config::lemma_first_at_unique(after, camera.id, last);
    }
}

proof fn lemma_with_streams_handle(
    manager: ManagerView,
    wanted: Seq<CameraView>,
    n: int,
    id: CameraId,
)
    requires
        manager.wf(),
        0 <= n <= wanted.len(),
    ensures
        manager.with_streams(wanted, n).wf(),
        manager.with_streams(wanted, n).started >= manager.started,
        config::known(manager.streams, id) ==> manager.with_streams(wanted, n).handle_of(id)
            == manager.handle_of(id),
        !config::known(manager.streams, id) && manager.with_streams(wanted, n).handle_of(id) is Some
            ==> manager.with_streams(wanted, n).handle_of(id)->0 >= manager.started,
    decreases n,
{
    if n > 0 {
        lemma_with_streams_handle(manager, wanted, n - 1, id);
        let before = manager.with_streams(wanted, n - 1);
        lemma_with_stream_wf(before, wanted[n - 1]);
        lemma_with_stream_handle(before, wanted[n - 1], id);
        lemma_with_streams_ids(manager, wanted, n - 1, id);
        lemma_upserted_ids(before.streams, wanted[n - 1], id);
    }
}

proof fn lemma_handle_stays(manager: ManagerView, wanted: Seq<CameraView>, n: int, k: int)
    requires
        manager.wf(),
        0 <= k < n <= manager.streams.len(),
        config::known(wanted, manager.streams[k].id),
    ensures
        exists|m: int|
            0 <= m < still_wanted(manager.streams, wanted, n).len() && #[trigger] still_wanted(
                manager.streams,
                wanted,
                n,
            )[m] == manager.streams[k] && handles_still_wanted(
                manager.streams,
                manager.handles,
                wanted,
                n,
            )[m] == manager.handles[k],
    decreases n,
{
    let streams = manager.streams;
    let handles = manager.handles;
    let before = still_wanted(streams, wanted, n - 1);
    let after = still_wanted(streams, wanted, n);
    let held = handles_still_wanted(streams, handles, wanted, n - 1);
    let holds = handles_still_wanted(streams, handles, wanted, n);
    lemma_handles_still_wanted(manager, wanted, n - 1);
    if k == n - 1 {
        assert(after[before.len() as int] == streams[k]);
        assert(holds[before.len() as int] == handles[k]);
    } else {
        lemma_handle_stays(manager, wanted, n - 1, k);
        let m = choose|m: int|
            0 <= m < before.len() && #[trigger] before[m] == streams[k] && held[m] == handles[k];
        assert(after[m] == before[m]);
        assert(holds[m] == held[m]);
    }
}

proof fn lemma_pruned_handle(
    manager: ManagerView,
    wanted: Seq<CameraView>,
    finished: Seq<CameraId>,
    id: CameraId,
)
    requires
        manager.wf(),
        config::known(manager.streams, id),
        config::known(wanted, id),
    ensures
        manager.pruned(wanted, finished).handle_of(id) == manager.handle_of(id),
{
    let pruned = manager.pruned(wanted, finished);
    lemma_pruned_wf(manager, wanted, finished);
    config::lemma_known_has_first(manager.streams, id);
    let k = choose|k: int| config::first_at(manager.streams, id, k);
    lemma_handle_stays(manager, wanted, manager.streams.len() as int, k);
    let m = choose|m: int|
        0 <= m < pruned.streams.len() && #[trigger] pruned.streams[m] == manager.streams[k]
            && pruned.handles[m] == manager.handles[k];
    assert forall|j: int| 0 <= j < m implies (#[trigger] pruned.streams[j]).id != id by {
        assert(pruned.streams[j].id != pruned.streams[m].id);
    }
    assert(config::first_at(pruned.streams, id, m));
    config::lemma_first_at_unique(pruned.streams, id, m);
}

/// What a camera shares with its tile lives for as long as the camera stays in the mosaic: its
/// handle is the same after a sync, whether or not the stream is restarted.
pub proof fn lemma_handle_outlives_restarts(
    manager: ManagerView,
    wanted: Seq<CameraView>,
    finished: Seq<CameraId>,
    id: CameraId,
)
    requires
        manager.wf(),
        config::known(manager.streams, id),
        config::known(wanted, id),
    ensures
        manager.handle_of(id) is Some,
        manager.synced(wanted, finished).handle_of(id) == manager.handle_of(id),
{
    let pruned = manager.pruned(wanted, finished);
    lemma_pruned_wf(manager, wanted, finished);
    lemma_pruned_handle(manager, wanted, finished, id);
    lemma_with_streams_handle(pruned, wanted, wanted.len() as int, id);
}

/// A camera that comes to the mosaic shares something new with its tile: its handle is one that
/// no stream has had.
pub proof fn lemma_new_stream_has_new_handle(
    manager: ManagerView,
    wanted: Seq<CameraView>,
    finished: Seq<CameraId>,
    id: CameraId,
)
    requires
        manager.wf(),
        !config::known(manager.streams, id),
        config::known(wanted, id),
    ensures
        manager.synced(wanted, finished).handle_of(id) is Some,
        manager.started <= manager.synced(wanted, finished).handle_of(id)->0,
        manager.synced(wanted, finished).handle_of(id)->0 < manager.synced(
            wanted,
            finished,
        ).started,
{
    let pruned = manager.pruned(wanted, finished);
    let after = manager.synced(wanted, finished);
    lemma_pruned_wf(manager, wanted, finished);
    lemma_still_wanted_ids(manager.streams, wanted, manager.streams.len() as int, id);
    lemma_with_streams_handle(pruned, wanted, wanted.len() as int, id);
    lemma_sync_runs_the_wanted(manager, wanted, finished, id);
    config::lemma_known_has_first(after.streams, id);
    let k = choose|k: int| config::first_at(after.streams, id, k);
    assert(after.handles[k] < after.started);
}

proof fn lemma_changes_name_handles(
    manager: ManagerView,
    wanted: Seq<CameraView>,
    n: int,
    m: int,
    i: int,
)
    requires
        manager.wf(),
        0 <= i < n <= m <= wanted.len(),
    ensures
        manager.changes_for(wanted, n).len() == n,
        manager.changes_for(wanted, n)[i].handle() == manager.with_streams(wanted, m).handle_of(
            wanted[i].id,
        ),
    decreases m, n,
{
    let id = wanted[i].id;
    let before = manager.with_streams(wanted, m - 1);
    lemma_with_streams_wf(manager, wanted, m - 1);
    if n < m {
        lemma_changes_name_handles(manager, wanted, n, m - 1, i);
        lemma_with_streams_ids(manager, wanted, m - 1, id);
        assert(wanted.take(m - 1)[i].id == id);
        lemma_with_stream_handle(before, wanted[m - 1], id);
    } else {
        lemma_changes_len(manager, wanted, n - 1);
        if i < n - 1 {
            lemma_changes_name_handles(manager, wanted, n - 1, m, i);
        } else {
            lemma_with_stream_handle(before, wanted[i], id);
        }
    }
}

proof fn lemma_changes_len(manager: ManagerView, wanted: Seq<CameraView>, n: int)
    requires
        0 <= n,
    ensures
        manager.changes_for(wanted, n).len() == n,
    decreases n,
{
    if n > 0 {
        lemma_changes_len(manager, wanted, n - 1);
    }
}

/// What a sync says of each wanted camera names the handle that its stream has from then on.
pub proof fn lemma_changes_name_the_handles(
    manager: ManagerView,
    wanted: Seq<CameraView>,
    finished: Seq<CameraId>,
    i: int,
)
    requires
        manager.wf(),
        0 <= i < wanted.len(),
    ensures
        ({
            let changes = manager.sync_changes(wanted, finished);
            let change = changes[changes.len() - wanted.len() + i];
            &&& changes.len() >= wanted.len()
            &&& change.handle() is Some
            &&& change.handle() == manager.synced(wanted, finished).handle_of(wanted[i].id)
        }),
{
    let n = wanted.len() as int;
    let pruned = manager.pruned(wanted, finished);
    lemma_pruned_wf(manager, wanted, finished);
    lemma_changes_len(pruned, wanted, n);
    lemma_changes_name_handles(pruned, wanted, n, n, i);
    assert(config::known(wanted, wanted[i].id));
    lemma_sync_runs_the_wanted(manager, wanted, finished, wanted[i].id);
}

/// A camera whose connection changed in any way is restarted, one that has no stream is started,
/// and one whose connection is the same goes on.
pub proof fn lemma_changed_connection_restarts(manager: ManagerView, camera: CameraView, at: int)
    ensures
        config::first_at(manager.streams, camera.id, at) ==> {
            let running = manager.streams[at];
            &&& running.host != camera.host || running.port != camera.port || running.stream
                != camera.stream || running.username != camera.username || running.password
                != camera.password ==> manager.change_for(camera) is Restart
            &&& running.host == camera.host && running.port == camera.port && running.stream
                == camera.stream && running.username == camera.username && running.password
                == camera.password ==> manager.change_for(camera) is Keep
            &&& manager.change_for(camera).handle() == Some(manager.handles[at])
        },
        !config::known(manager.streams, camera.id) ==> {
            &&& manager.change_for(camera) is Start
            &&& manager.change_for(camera)->Start_camera == camera
            &&& manager.change_for(camera)->resumes == manager.retired.contains(camera.id)
        },
{
    if config::first_at(manager.streams, camera.id, at) {
        config::lemma_first_at_unique(manager.streams, camera.id, at);
    }
}

/// A sync stops exactly the streams whose cameras are wanted no more, before anything else is done.
pub proof fn lemma_sync_stops_the_unwanted(
    manager: ManagerView,
    wanted: Seq<CameraView>,
    finished: Seq<CameraId>,
    id: CameraId,
)
    ensures
        ({
            let changes = manager.sync_changes(wanted, finished);
            let stops = changes.take(changes.len() - wanted.len());
            &&& changes.len() >= wanted.len()
            &&& stops.contains(ChangeView::Stop(id)) <==> config::known(manager.streams, id)
                && !config::known(wanted, id)
            &&& forall|i: int| 0 <= i < stops.len() ==> (#[trigger] stops[i]) is Stop
            &&& forall|i: int|
                stops.len() <= i < changes.len() ==> !((#[trigger] changes[i]) is Stop)
        }),
{
    let streams = manager.streams;
    let n = wanted.len() as int;
    let pruned = manager.pruned(wanted, finished);
    lemma_changes_len(pruned, wanted, n);
    let gone = unwanted(streams, wanted, streams.len() as int);
    let stops = gone.map_values(|id: CameraId| ChangeView::Stop(id));
    let changes = manager.sync_changes(wanted, finished);
    assert(changes.take(changes.len() - n) =~= stops);
    assert(streams.take(streams.len() as int) =~= streams);
    lemma_unwanted(streams, wanted, streams.len() as int, id);
    if gone.contains(id) {
        let k = choose|k: int| 0 <= k < gone.len() && gone[k] == id;
        assert(stops[k] == ChangeView::Stop(id));
    }
    if stops.contains(ChangeView::Stop(id)) {
        let k = choose|k: int| 0 <= k < stops.len() && stops[k] == ChangeView::Stop(id);
        assert(gone[k] == id);
    }
    assert forall|i: int| stops.len() <= i < changes.len() implies !(
    (#[trigger] changes[i]) is Stop) by {
        assert(changes[i] == pruned.changes_for(wanted, n)[i - stops.len()]);
        lemma_no_stop_among_the_wanted(pruned, wanted, n, i - stops.len());
    }
}

proof fn lemma_no_stop_among_the_wanted(
    manager: ManagerView,
    wanted: Seq<CameraView>,
    n: int,
    i: int,
)
    requires
        0 <= i < n,
    ensures
        !(manager.changes_for(wanted, n)[i] is Stop),
    decreases n,
{
    lemma_changes_len(manager, wanted, n);
    lemma_changes_len(manager, wanted, n - 1);
    if i < n - 1 {
        lemma_no_stop_among_the_wanted(manager, wanted, n - 1, i);
    }
}

/// What a tile shows after a change: a stopped camera is paused and a restarted one connects, both
/// without a picture; for any other one nothing changes.
pub proof fn lemma_changes_show<F>(change: ChangeView, shared: SharedView<F>)
    ensures
        change is Stop ==> shown_after(change, shared).status == StatusView::Paused && shown_after(
            change,
            shared,
        ).frame is None,
        change is Restart ==> shown_after(change, shared).status == StatusView::Connecting
            && shown_after(change, shared).frame is None,
        change is Start || change is Keep ==> shown_after(change, shared) == shared,
        shown_after(change, shared).stats == shared.stats,
        shown_after(change, shared).id == shared.id,
{
}

}
