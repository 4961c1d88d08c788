//! The configuration: the camera list, the mosaic slot assignments and the preferences.
use vstd::prelude::*;
use vstd::string::*;

use crate::camera::{self, same_name, validate_camera, CameraConfig, CameraId, CameraView};
use crate::error::ConfigError;
use crate::text;

verus! {

/// Positions of the mosaic: top left, top right, bottom left, bottom right.
pub const SLOT_COUNT: usize = 4;

/// The camera in each position of the mosaic.
pub type Slots = [Option<CameraId>; SLOT_COUNT];

/// One logical point, in the units of [`WindowGeometry`].
pub const POINT: i64 = 65_536;

/// Window frame in fixed-point logical points (see [`POINT`]), restored on the next launch.
#[derive(Clone, Copy, Debug, PartialEq, Eq, Structural)]
pub struct WindowGeometry {
    pub x: i64,
    pub y: i64,
    pub width: i64,
    pub height: i64,
}

pub struct Config {
    pub open_at_login: bool,
    /// Show frames at the camera's cadence, absorbing Wi-Fi jitter at the cost of extra latency.
    pub smooth_playback: bool,
    pub slots: Slots,
    pub window: Option<WindowGeometry>,
    pub cameras: Vec<CameraConfig>,
}

/// What a [`Config`] says.
pub struct ConfigView {
    pub open_at_login: bool,
    pub smooth_playback: bool,
    pub slots: Seq<Option<CameraId>>,
    pub window: Option<WindowGeometry>,
    pub cameras: Seq<CameraView>,
}

/// What a list of cameras says.
pub open spec fn views(cameras: Seq<CameraConfig>) -> Seq<CameraView> {
    cameras.map_values(|c: CameraConfig| c@)
}

impl View for Config {
    type V = ConfigView;

    open spec fn view(&self) -> ConfigView {
        ConfigView {
            open_at_login: self.open_at_login,
            smooth_playback: self.smooth_playback,
            slots: self.slots@,
            window: self.window,
            cameras: views(self.cameras@),
        }
    }
}

/// Whether a camera with this id is in the list.
pub open spec fn known(cameras: Seq<CameraView>, id: CameraId) -> bool {
    exists|i: int| 0 <= i < cameras.len() && (#[trigger] cameras[i]).id == id
}

/// Whether the first camera with this id stands at position `i`.
pub open spec fn first_at(cameras: Seq<CameraView>, id: CameraId, i: int) -> bool {
    &&& 0 <= i < cameras.len()
    &&& cameras[i].id == id
    &&& forall|j: int| 0 <= j < i ==> (#[trigger] cameras[j]).id != id
}

/// Whether no two cameras share an id.
pub open spec fn distinct_ids(cameras: Seq<CameraView>) -> bool {
    forall|i: int, j: int|
        0 <= i < j < cameras.len() ==> (#[trigger] cameras[i]).id != (#[trigger] cameras[j]).id
}

/// Whether no two cameras have names that count as the same.
pub open spec fn distinct_names(cameras: Seq<CameraView>) -> bool {
    forall|i: int, j: int|
        0 <= i < j < cameras.len() ==> !camera::names_match(
            (#[trigger] cameras[i]).name,
            (#[trigger] cameras[j]).name,
        )
}

/// Whether every camera is in order by itself.
pub open spec fn sound_cameras(cameras: Seq<CameraView>) -> bool {
    forall|i: int| 0 <= i < cameras.len() ==> camera::camera_problem(#[trigger] cameras[i]) is None
}

/// Whether no camera is in two slots.
pub open spec fn distinct_slots(slots: Seq<Option<CameraId>>) -> bool {
    forall|i: int, j: int|
        0 <= i < j < slots.len() && (#[trigger] slots[i]) is Some ==> slots[i] != (
        #[trigger] slots[j])
}

/// Whether every slot is empty or holds a camera of the list.
pub open spec fn known_slots(slots: Seq<Option<CameraId>>, cameras: Seq<CameraView>) -> bool {
    forall|i: int|
        0 <= i < slots.len() && (#[trigger] slots[i]) is Some ==> known(cameras, slots[i]->0)
}

impl ConfigView {
    /// The configuration of a first start.
    pub open spec fn blank() -> ConfigView {
        ConfigView {
            open_at_login: false,
            smooth_playback: false,
            slots: seq![None, None, None, None],
            window: None,
            cameras: Seq::empty(),
        }
    }

    /// Whether the configuration may be saved.
    pub open spec fn valid(self) -> bool {
        &&& sound_cameras(self.cameras)
        &&& distinct_names(self.cameras)
        &&& distinct_ids(self.cameras)
        &&& known_slots(self.slots, self.cameras)
        &&& distinct_slots(self.slots)
    }
}

/// The first of the first `n` cameras whose name counts as the same as `name`.
pub open spec fn first_named(cameras: Seq<CameraView>, n: int, name: Seq<char>) -> Option<
    CameraView,
>
    decreases n,
{
    if n <= 0 {
        None
    } else {
        match first_named(cameras, n - 1, name) {
            Some(c) => Some(c),
            None => if camera::names_match(cameras[n - 1].name, name) {
                Some(cameras[n - 1])
            } else {
                None
            },
        }
    }
}

/// The complaint about a name that `other` already has.
pub open spec fn name_taken(other: CameraView) -> Seq<char> {
    "A camera named \""@ + text::trimmed(other.name) + "\" already exists"@
}

/// What is wrong with camera `i`, given the cameras before it.
pub open spec fn entry_problem(cameras: Seq<CameraView>, i: int) -> Option<Seq<char>> {
    match camera::camera_problem(cameras[i]) {
        Some(problem) => Some(problem),
        None => match first_named(cameras, i, cameras[i].name) {
            Some(other) => Some(name_taken(other)),
            None => if known(cameras.take(i), cameras[i].id) {
                Some("Duplicate camera id: "@ + cameras[i].id.short_text())
            } else {
                None
            },
        },
    }
}

/// The first thing that is wrong with the first `n` cameras.
pub open spec fn cameras_problem(cameras: Seq<CameraView>, n: int) -> Option<Seq<char>>
    decreases n,
{
    if n <= 0 {
        None
    } else {
        match cameras_problem(cameras, n - 1) {
            Some(problem) => Some(problem),
            None => entry_problem(cameras, n - 1),
        }
    }
}

/// What is wrong with slot `i`, given the slots before it.
pub open spec fn slot_problem(
    slots: Seq<Option<CameraId>>,
    cameras: Seq<CameraView>,
    i: int,
) -> Option<Seq<char>> {
    match slots[i] {
        None => None,
        Some(id) => if !known(cameras, id) {
            Some("Layout slot points to unknown camera "@ + id.short_text())
        } else if slots.take(i).contains(Some(id)) {
            Some("The same camera is in two layout slots"@)
        } else {
            None
        },
    }
}

/// The first thing that is wrong with the first `n` slots.
pub open spec fn slots_problem(
    slots: Seq<Option<CameraId>>,
    cameras: Seq<CameraView>,
    n: int,
) -> Option<Seq<char>>
    decreases n,
{
    if n <= 0 {
        None
    } else {
        match slots_problem(slots, cameras, n - 1) {
            Some(problem) => Some(problem),
            None => slot_problem(slots, cameras, n - 1),
        }
    }
}

/// The first thing that is wrong with a configuration.
pub open spec fn config_problem(config: ConfigView) -> Option<Seq<char>> {
    match cameras_problem(config.cameras, config.cameras.len() as int) {
        Some(problem) => Some(problem),
        None => slots_problem(config.slots, config.cameras, config.slots.len() as int),
    }
}

proof fn lemma_first_named(cameras: Seq<CameraView>, n: int, name: Seq<char>)
    requires
        0 <= n <= cameras.len(),
    ensures
        first_named(cameras, n, name) is None == (forall|j: int|
            0 <= j < n ==> !camera::names_match((#[trigger] cameras[j]).name, name)),
    decreases n,
{
    if n > 0 {
        lemma_first_named(cameras, n - 1, name);
    }
}

proof fn lemma_cameras_problem(cameras: Seq<CameraView>, n: int)
    requires
        0 <= n <= cameras.len(),
    ensures
        cameras_problem(cameras, n) is None == (sound_cameras(cameras.take(n)) && distinct_names(
            cameras.take(n),
        ) && distinct_ids(cameras.take(n))),
    decreases n,
{
    if n > 0 {
        lemma_cameras_problem(cameras, n - 1);
        let all = cameras.take(n);
        let fewer = cameras.take(n - 1);
        let last = cameras[n - 1];
        lemma_first_named(cameras, n - 1, last.name);
        assert(forall|i: int| 0 <= i < n - 1 ==> #[trigger] fewer[i] == all[i]);
        assert(all[n - 1] == last);
        if cameras_problem(cameras, n) is None {
            assert forall|i: int, j: int| 0 <= i < j < all.len() implies (#[trigger] all[i]).id != (
            #[trigger] all[j]).id && !camera::names_match(all[i].name, all[j].name) by {
                assert(fewer[i] == all[i]);
                if j < n - 1 {
                    assert(fewer[j] == all[j]);
                } else {
                    assert(cameras[i] == all[i]);
                    assert(cameras.take(n - 1)[i].id != last.id);
                }
            }
            assert forall|i: int| 0 <= i < all.len() implies camera::camera_problem(
                #[trigger] all[i],
            ) is None by {
                if i < n - 1 {
                    assert(fewer[i] == all[i]);
                }
            }
        } else if sound_cameras(all) && distinct_names(all) && distinct_ids(all) {
            assert forall|i: int| 0 <= i < fewer.len() implies camera::camera_problem(
                #[trigger] fewer[i],
            ) is None by {
                assert(camera::camera_problem(all[i]) is None);
            }
            assert forall|i: int, j: int| 0 <= i < j < fewer.len() implies (
            #[trigger] fewer[i]).id != (#[trigger] fewer[j]).id && !camera::names_match(
                fewer[i].name,
                fewer[j].name,
            ) by {
                assert(all[i].id != all[j].id);
                assert(!camera::names_match(all[i].name, all[j].name));
            }
            assert(camera::camera_problem(all[n - 1]) is None);
            assert forall|j: int| 0 <= j < n - 1 implies !camera::names_match(
                (#[trigger] cameras[j]).name,
                last.name,
            ) by {
                assert(all[j] == cameras[j]);
            }
            assert forall|j: int| 0 <= j < n - 1 implies (#[trigger] fewer[j]).id != last.id by {
                assert(all[j].id != all[n - 1].id);
            }
            assert(false);
        }
    }
}

proof fn lemma_slots_problem(slots: Seq<Option<CameraId>>, cameras: Seq<CameraView>, n: int)
    requires
        0 <= n <= slots.len(),
    ensures
        slots_problem(slots, cameras, n) is None == (known_slots(slots.take(n), cameras)
            && distinct_slots(slots.take(n))),
    decreases n,
{
    if n > 0 {
        lemma_slots_problem(slots, cameras, n - 1);
        let all = slots.take(n);
        let fewer = slots.take(n - 1);
        let last = slots[n - 1];
        assert(forall|i: int| 0 <= i < n - 1 ==> #[trigger] fewer[i] == all[i]);
        assert(all[n - 1] == last);
        if slots_problem(slots, cameras, n) is None {
            assert forall|i: int| 0 <= i < all.len() && (#[trigger] all[i]) is Some implies known(
                cameras,
                all[i]->0,
            ) by {
                if i < n - 1 {
                    assert(fewer[i] == all[i]);
                }
            }
            assert forall|i: int, j: int|
                0 <= i < j < all.len() && (#[trigger] all[i]) is Some implies all[i] != (
            #[trigger] all[j]) by {
                assert(fewer[i] == all[i]);
                if j < n - 1 {
                    assert(fewer[j] == all[j]);
                } else if last is Some {
                    assert(!fewer.contains(last));
                }
            }
        } else if known_slots(all, cameras) && distinct_slots(all) {
            assert forall|i: int|
                0 <= i < fewer.len() && (#[trigger] fewer[i]) is Some implies known(
                cameras,
                fewer[i]->0,
            ) by {
                assert(all[i] is Some);
            }
            assert forall|i: int, j: int|
                0 <= i < j < fewer.len() && (#[trigger] fewer[i]) is Some implies fewer[i] != (
            #[trigger] fewer[j]) by {
                assert(all[i] != all[j]);
            }
            if last is Some {
                assert(all[n - 1] is Some);
                assert forall|j: int| 0 <= j < fewer.len() implies #[trigger] fewer[j] != last by {
                    if fewer[j] is Some {
                        assert(all[j] != all[n - 1]);
                    }
                }
            }
            assert(false);
        }
    }
}

/// A configuration without a problem is a valid one, and the other way round.
pub proof fn lemma_no_problem_is_valid(config: ConfigView)
    ensures
        config_problem(config) is None == config.valid(),
{
    let cameras = config.cameras;
    let slots = config.slots;
    lemma_cameras_problem(cameras, cameras.len() as int);
    lemma_slots_problem(slots, cameras, slots.len() as int);
    assert(cameras.take(cameras.len() as int) == cameras);
    assert(slots.take(slots.len() as int) == slots);
}

/// Whether `slot` holds the camera `id`.
fn holds(slot: Option<CameraId>, id: CameraId) -> (res: bool)
    ensures
        res == (slot == Some(id)),
{
    match slot {
        Some(other) => other == id,
        None => false,
    }
}

/// Whether two slots hold the same.
fn same_slot(a: Option<CameraId>, b: Option<CameraId>) -> (res: bool)
    ensures
        res == (a == b),
{
    match b {
        Some(id) => holds(a, id),
        None => a.is_none(),
    }
}

/// Whether two windows are the same.
fn same_window(a: Option<WindowGeometry>, b: Option<WindowGeometry>) -> (res: bool)
    ensures
        res == (a == b),
{
    match (a, b) {
        (Some(a), Some(b)) => a == b,
        (None, None) => true,
        _ => false,
    }
}

impl Clone for Config {
    fn clone(&self) -> (res: Config)
        ensures
            res@ == self@,
    {
        let mut cameras: Vec<CameraConfig> = Vec::new();
        let mut i: usize = 0;
        while i < self.cameras.len()
            invariant
                i <= self.cameras@.len(),
                views(cameras@) == views(self.cameras@).take(i as int),
            decreases self.cameras@.len() - i,
        {
            let ghost before = cameras@;
            cameras.push(self.cameras[i].clone());
            assert(views(cameras@) =~= views(before).push(self.cameras@[i as int]@));
            assert(views(self.cameras@).take(i + 1) =~= views(self.cameras@).take(i as int).push(
                views(self.cameras@)[i as int],
            ));
            i = i + 1;
        }
        assert(views(self.cameras@).take(i as int) =~= views(self.cameras@));
        Config {
            open_at_login: self.open_at_login,
            smooth_playback: self.smooth_playback,
            slots: self.slots,
            window: self.window,
            cameras,
        }
    }
}

/// Whether two camera lists say the same.
fn same_cameras(a: &Vec<CameraConfig>, b: &Vec<CameraConfig>) -> (res: bool)
    ensures
        res == (views(a@) == views(b@)),
{
    if a.len() != b.len() {
        assert(views(a@).len() != views(b@).len());
        return false;
    }
    let mut i: usize = 0;
    while i < a.len()
        invariant
            a@.len() == b@.len(),
            i <= a@.len(),
            forall|k: int| 0 <= k < i ==> (#[trigger] a@[k])@ == b@[k]@,
        decreases a@.len() - i,
    {
        if a[i] != b[i] {
            assert(views(a@)[i as int] != views(b@)[i as int]);
            return false;
        }
        i = i + 1;
    }
    assert(views(a@) =~= views(b@));
    true
}

/// Whether two slot assignments are the same.
fn same_slots(a: &Slots, b: &Slots) -> (res: bool)
    ensures
        res == (a@ == b@),
{
    let mut i: usize = 0;
    while i < SLOT_COUNT
        invariant
            i <= SLOT_COUNT,
            forall|k: int| 0 <= k < i ==> a@[k] == b@[k],
        decreases SLOT_COUNT - i,
    {
        if !same_slot(a[i], b[i]) {
            assert(a@[i as int] != b@[i as int]);
            return false;
        }
        i = i + 1;
    }
    assert(a@ =~= b@);
    true
}

impl Config {
    /// Whether the slots or the cameras are other ones.
    pub fn streams_differ(&self, other: &Config) -> (res: bool)
        ensures
            res == (other@.slots != self@.slots || other@.cameras != self@.cameras),
    {
        !same_slots(&self.slots, &other.slots) || !same_cameras(&self.cameras, &other.cameras)
    }
}

impl PartialEq for Config {
    fn eq(&self, other: &Config) -> (res: bool) {
        self.open_at_login == other.open_at_login && self.smooth_playback == other.smooth_playback
            && same_slots(&self.slots, &other.slots) && same_window(self.window, other.window)
            && same_cameras(&self.cameras, &other.cameras)
    }
}

impl vstd::std_specs::cmp::PartialEqSpecImpl for Config {
    open spec fn obeys_eq_spec() -> bool {
        true
    }

    open spec fn eq_spec(&self, other: &Config) -> bool {
        self@ == other@
    }
}

impl Default for Config {
    fn default() -> (res: Config)
        ensures
            res@ == ConfigView::blank(),
    {
        let res = Config {
            open_at_login: false,
            smooth_playback: false,
            slots: [None, None, None, None],
            window: None,
            cameras: Vec::new(),
        };
        assert(res@.slots =~= ConfigView::blank().slots);
        assert(res@.cameras =~= ConfigView::blank().cameras);
        res
    }
}

/// The slots that remain of `slots`: the first one for each camera of the list.
pub open spec fn sanitized(slots: Seq<Option<CameraId>>, cameras: Seq<CameraView>) -> Seq<
    Option<CameraId>,
> {
    Seq::new(
        slots.len(),
        |i: int|
            if slots[i] is Some && known(cameras, slots[i]->0) && !slots.take(i).contains(slots[i]) {
                slots[i]
            } else {
                None
            },
    )
}

/// The slots after `camera` was placed in `slot`.
pub open spec fn assigned(
    slots: Seq<Option<CameraId>>,
    slot: int,
    camera: Option<CameraId>,
) -> Seq<Option<CameraId>> {
    Seq::new(
        slots.len(),
        |i: int|
            if i == slot {
                camera
            } else if camera is Some && slots[i] == camera {
                None
            } else {
                slots[i]
            },
    )
}

/// The slots after the camera `id` was taken out of them.
pub open spec fn vacated(slots: Seq<Option<CameraId>>, id: CameraId) -> Seq<Option<CameraId>> {
    Seq::new(
        slots.len(),
        |i: int|
            if slots[i] == Some(id) {
                None
            } else {
                slots[i]
            },
    )
}

/// The cameras of the first `n` slots, in slot order.
pub open spec fn in_slots(config: ConfigView, n: int) -> Seq<CameraView>
    decreases n,
{
    if n <= 0 {
        Seq::empty()
    } else {
        let before = in_slots(config, n - 1);
        match config.slots[n - 1] {
            Some(id) if known(config.cameras, id) => before.push(
                config.cameras[choose|i: int| first_at(config.cameras, id, i)],
            ),
            _ => before,
        }
    }
}

/// There is one first camera with an id.
pub proof fn lemma_first_at_unique(cameras: Seq<CameraView>, id: CameraId, i: int)
    requires
        first_at(cameras, id, i),
    ensures
        known(cameras, id),
        (choose|k: int| first_at(cameras, id, k)) == i,
{
    let k = choose|k: int| first_at(cameras, id, k);
    assert(first_at(cameras, id, k));
    if k < i {
        assert(cameras[k].id != id);
    } else if i < k {
        assert(cameras[i].id != id);
    }
}

impl Config {
    /// Position of the first camera with this id.
    fn position(&self, id: CameraId) -> (res: Option<usize>)
        ensures
            match res {
                Some(i) => first_at(self@.cameras, id, i as int),
                None => !known(self@.cameras, id),
            },
    {
        let mut i: usize = 0;
        while i < self.cameras.len()
            invariant
                i <= self.cameras@.len(),
                forall|k: int| 0 <= k < i ==> (#[trigger] self@.cameras[k]).id != id,
            decreases self.cameras@.len() - i,
        {
            assert(self@.cameras[i as int] == self.cameras@[i as int]@);
            if self.cameras[i].id == id {
                return Some(i);
            }
            i = i + 1;
        }
        None
    }

    pub fn camera(&self, id: CameraId) -> (res: Option<&CameraConfig>)
        ensures
            match res {
                Some(c) => exists|i: int|
                    #[trigger] first_at(self@.cameras, id, i) && c@ == self@.cameras[i],
                None => !known(self@.cameras, id),
            },
    {
        match self.position(id) {
            Some(i) => {
                assert(first_at(self@.cameras, id, i as int));
                Some(&self.cameras[i])
            },
            None => None,
        }
    }

    pub fn camera_mut(&mut self, id: CameraId) -> (res: Option<&mut CameraConfig>)
        ensures
            match res {
                Some(c) => exists|i: int| #[trigger]
                    first_at(old(self)@.cameras, id, i) && *c == old(self).cameras@[i]
                        && final(self).cameras@ == old(self).cameras@.update(i, *final(c)),
                None => !known(old(self)@.cameras, id) && final(self).cameras@ == old(self).cameras@,
            },
            final(self).open_at_login == old(self).open_at_login,
            final(self).smooth_playback == old(self).smooth_playback,
            final(self).slots == old(self).slots,
            final(self).window == old(self).window,
    {
        match self.position(id) {
            Some(i) => {
                assert(first_at(old(self)@.cameras, id, i as int));
                Some(&mut self.cameras[i])
            },
            None => None,
        }
    }
}

/// The complaint about a name that `other` already has.
fn taken_name(other: &CameraConfig) -> (res: Result<(), ConfigError>)
    ensures
        camera::reports(res, Some(name_taken(other@))),
{
    let mut out = "A camera named \"".to_owned();
    out.append(text::trim(other.name.as_str()).as_str());
    out.append("\" already exists");
    Err(ConfigError::Invalid(out))
}

/// What remains of a camera list without the cameras with this id.
pub open spec fn without(cameras: Seq<CameraView>, id: CameraId) -> Seq<CameraView> {
    cameras.filter(|c: CameraView| c.id != id)
}

/// The complaint about a camera that is to be put in the list, if there is one.
pub open spec fn upsert_problem(cameras: Seq<CameraView>, camera: CameraView) -> Option<Seq<char>> {
    match camera::camera_problem(camera) {
        Some(problem) => Some(problem),
        None => {
            let others = without(cameras, camera.id);
            match first_named(others, others.len() as int, camera.name) {
                Some(other) => Some(name_taken(other)),
                None => None,
            }
        },
    }
}

/// The list with `camera` in place of the first camera with its id, or at the end without one.
pub open spec fn upserted(cameras: Seq<CameraView>, camera: CameraView) -> Seq<CameraView> {
    if known(cameras, camera.id) {
        cameras.update(choose|i: int| first_at(cameras, camera.id, i), camera)
    } else {
        cameras.push(camera)
    }
}

proof fn lemma_without_step(cameras: Seq<CameraView>, n: int, id: CameraId)
    requires
        0 <= n < cameras.len(),
    ensures
        without(cameras.take(n + 1), id) == (if cameras[n].id != id {
            without(cameras.take(n), id).push(cameras[n])
        } else {
            without(cameras.take(n), id)
        }),
{
    assert(cameras.take(n + 1).drop_last() =~= cameras.take(n));
    reveal(Seq::filter);
}

proof fn lemma_first_named_push(
    cameras: Seq<CameraView>,
    last: CameraView,
    n: int,
    name: Seq<char>,
)
    requires
        0 <= n <= cameras.len(),
    ensures
        first_named(cameras.push(last), n, name) == first_named(cameras, n, name),
    decreases n,
{
    if n > 0 {
        lemma_first_named_push(cameras, last, n - 1, name);
        assert(cameras.push(last)[n - 1] == cameras[n - 1]);
    }
}

impl Config {
    /// Drops slot references to unknown cameras and duplicate assignments (hand-edited files).
    pub fn sanitize(&mut self)
        ensures
            final(self)@ == (ConfigView {
                slots: sanitized(old(self)@.slots, old(self)@.cameras),
                ..old(self)@
            }),
    {
        let before: Slots = self.slots;
        let ghost wanted = sanitized(before@, self@.cameras);
        let ghost cameras = self.cameras;
        let ghost others = (self.open_at_login, self.smooth_playback, self.window);
        let mut i: usize = 0;
        while i < SLOT_COUNT
            invariant
                i <= SLOT_COUNT,
                self.cameras == cameras,
                (self.open_at_login, self.smooth_playback, self.window) == others,
                wanted == sanitized(before@, views(cameras@)),
                forall|k: int| 0 <= k < i ==> self.slots@[k] == wanted[k],
                forall|k: int| i <= k < SLOT_COUNT ==> self.slots@[k] == before@[k],
            decreases SLOT_COUNT - i,
        {
            if let Some(id) = before[i] {
                let mut seen: bool = false;
                let mut j: usize = 0;
                while j < i
                    invariant
                        j <= i < SLOT_COUNT,
                        seen == (exists|k: int| 0 <= k < j && before@[k] == Some(id)),
                    decreases i - j,
                {
                    if holds(before[j], id) {
                        seen = true;
                    }
                    j = j + 1;
                }
                assert(seen == before@.take(i as int).contains(Some(id))) by {
                    if seen {
                        let k = choose|k: int| 0 <= k < i && before@[k] == Some(id);
                        assert(before@.take(i as int)[k] == Some(id));
                    }
                    if before@.take(i as int).contains(Some(id)) {
                        let k = choose|k: int|
                            0 <= k < i && before@.take(i as int)[k] == Some(id);
                        assert(before@[k] == Some(id));
                    }
                }
                if seen || self.position(id).is_none() {
                    self.slots[i] = None;
                }
                assert(first_at(self@.cameras, id, 0) || !first_at(self@.cameras, id, 0));
            }
            i = i + 1;
        }
        assert(self.slots@ =~= wanted);
    }

    /// Checks that the configuration may be saved; otherwise says what is wrong with it.
    pub fn validate(&self) -> (res: Result<(), ConfigError>)
        ensures
            camera::reports(res, config_problem(self@)),
            res is Ok == self@.valid(),
    {
        proof {
            lemma_no_problem_is_valid(self@);
        }
        let ghost cameras = self@.cameras;
        let ghost slots = self@.slots;
        let mut i: usize = 0;
        while i < self.cameras.len()
            invariant
                i <= self.cameras@.len(),
                cameras == self@.cameras,
                config_problem(self@) is None == self@.valid(),
                cameras_problem(cameras, i as int) is None,
            decreases self.cameras@.len() - i,
        {
            assert(cameras[i as int] == self.cameras@[i as int]@);
            proof {
                lemma_problem_prefix(cameras, i + 1, cameras.len() as int);
            }
            let camera = &self.cameras[i];
            if let Err(e) = validate_camera(camera) {
                return Err(e);
            }
            let mut j: usize = 0;
            while j < i
                invariant
                    j <= i < self.cameras@.len(),
                    cameras == self@.cameras,
                    camera@ == cameras[i as int],
                    camera::camera_problem(camera@) is None,
                    cameras_problem(cameras, i as int) is None,
                    cameras_problem(cameras, i + 1) is Some ==> cameras_problem(
                        cameras,
                        cameras.len() as int,
                    ) == cameras_problem(cameras, i + 1),
                    config_problem(self@) is None == self@.valid(),
                    first_named(cameras, j as int, camera@.name) is None,
                decreases i - j,
            {
                assert(cameras[j as int] == self.cameras@[j as int]@);
                if same_name(self.cameras[j].name.as_str(), camera.name.as_str()) {
                    proof {
                        lemma_first_named_prefix(cameras, j + 1, i as int, camera@.name);
                    }
                    return taken_name(&self.cameras[j]);
                }
                j = j + 1;
            }
            let mut k: usize = 0;
            while k < i
                invariant
                    k <= i < self.cameras@.len(),
                    cameras == self@.cameras,
                    camera@ == cameras[i as int],
                    camera::camera_problem(camera@) is None,
                    first_named(cameras, i as int, camera@.name) is None,
                    cameras_problem(cameras, i as int) is None,
                    cameras_problem(cameras, i + 1) is Some ==> cameras_problem(
                        cameras,
                        cameras.len() as int,
                    ) == cameras_problem(cameras, i + 1),
                    forall|m: int| 0 <= m < k ==> (#[trigger] cameras[m]).id != camera.id,
                    config_problem(self@) is None == self@.valid(),
                decreases i - k,
            {
                assert(cameras[k as int] == self.cameras@[k as int]@);
                if self.cameras[k].id == camera.id {
                    assert(cameras.take(i as int)[k as int].id == camera.id);
                    let mut out = "Duplicate camera id: ".to_owned();
                    out.append(camera.id.short().as_str());
                    return Err(ConfigError::Invalid(out));
                }
                k = k + 1;
            }
            assert(!known(cameras.take(i as int), camera.id));
            i = i + 1;
        }
        let mut s: usize = 0;
        while s < SLOT_COUNT
            invariant
                s <= SLOT_COUNT,
                cameras == self@.cameras,
                slots == self@.slots,
                config_problem(self@) is None == self@.valid(),
                cameras_problem(cameras, cameras.len() as int) is None,
                slots_problem(slots, cameras, s as int) is None,
            decreases SLOT_COUNT - s,
        {
            proof {
                lemma_slot_problem_prefix(slots, cameras, s + 1, slots.len() as int);
            }
            if let Some(id) = self.slots[s] {
                assert(slots[s as int] == Some(id));
                if self.camera(id).is_none() {
                    let mut out = "Layout slot points to unknown camera ".to_owned();
                    out.append(id.short().as_str());
                    return Err(ConfigError::Invalid(out));
                }
                let mut j: usize = 0;
                while j < s
                    invariant
                        j <= s < SLOT_COUNT,
                        cameras == self@.cameras,
                        slots == self@.slots,
                        slots[s as int] == Some(id),
                        known(cameras, id),
                        config_problem(self@) is None == self@.valid(),
                        cameras_problem(cameras, cameras.len() as int) is None,
                        slots_problem(slots, cameras, s as int) is None,
                        slots_problem(slots, cameras, s + 1) is Some ==> slots_problem(
                            slots,
                            cameras,
                            slots.len() as int,
                        ) == slots_problem(slots, cameras, s + 1),
                        forall|m: int| 0 <= m < j ==> slots[m] != Some(id),
                    decreases s - j,
                {
                    if holds(self.slots[j], id) {
                        assert(slots.take(s as int)[j as int] == Some(id));
                        return Err(
                            ConfigError::Invalid(
                                "The same camera is in two layout slots".to_owned(),
                            ),
                        );
                    }
                    j = j + 1;
                }
                assert(!slots.take(s as int).contains(Some(id)));
            }
            s = s + 1;
        }
        Ok(())
    }

    /// Cameras currently placed in the mosaic (the only ones that should be streaming).
    pub fn assigned_cameras(&self) -> (res: Vec<&CameraConfig>)
        ensures
            res@.map_values(|c: &CameraConfig| c@) == in_slots(self@, SLOT_COUNT as int),
    {
        let mut out: Vec<&CameraConfig> = Vec::new();
        let mut i: usize = 0;
        while i < SLOT_COUNT
            invariant
                i <= SLOT_COUNT,
                out@.map_values(|c: &CameraConfig| c@) == in_slots(self@, i as int),
            decreases SLOT_COUNT - i,
        {
            let ghost before = out@;
            if let Some(id) = self.slots[i] {
                assert(self@.slots[i as int] == Some(id));
                if let Some(at) = self.position(id) {
                    proof {
                        lemma_first_at_unique(self@.cameras, id, at as int);
                    }
                    out.push(&self.cameras[at]);
                    assert(out@.map_values(|c: &CameraConfig| c@) =~= before.map_values(
                        |c: &CameraConfig| c@,
                    ).push(self@.cameras[at as int]));
                }
            }
            i = i + 1;
        }
        out
    }

    /// The slot that a camera is in.
    pub fn slot_of(&self, id: CameraId) -> (res: Option<usize>)
        ensures
            match res {
                Some(i) => i < SLOT_COUNT && self@.slots[i as int] == Some(id) && forall|j: int|
                    0 <= j < i ==> self@.slots[j] != Some(id),
                None => !self@.slots.contains(Some(id)),
            },
    {
        let mut i: usize = 0;
        while i < SLOT_COUNT
            invariant
                i <= SLOT_COUNT,
                forall|j: int| 0 <= j < i ==> self@.slots[j] != Some(id),
            decreases SLOT_COUNT - i,
        {
            if holds(self.slots[i], id) {
                return Some(i);
            }
            i = i + 1;
        }
        None
    }

    /// Empties every slot that holds `id`.
    fn vacate(&mut self, id: CameraId)
        ensures
            final(self)@ == (ConfigView { slots: vacated(old(self)@.slots, id), ..old(self)@ }),
            final(self).cameras == old(self).cameras,
    {
        let ghost wanted = vacated(self@.slots, id);
        let ghost start = *self;
        let mut i: usize = 0;
        while i < SLOT_COUNT
            invariant
                i <= SLOT_COUNT,
                wanted == vacated(start@.slots, id),
                self.cameras == start.cameras,
                self.open_at_login == start.open_at_login,
                self.smooth_playback == start.smooth_playback,
                self.window == start.window,
                forall|k: int| 0 <= k < i ==> self.slots@[k] == wanted[k],
                forall|k: int| i <= k < SLOT_COUNT ==> self.slots@[k] == start.slots@[k],
            decreases SLOT_COUNT - i,
        {
            if holds(self.slots[i], id) {
                self.slots[i] = None;
            }
            i = i + 1;
        }
        assert(self.slots@ =~= wanted);
    }

    /// Places `camera` in `slot`. A camera occupies at most one slot, so it is removed from any
    /// other slot first. A slot that does not exist is left alone.
    pub fn assign(&mut self, slot: usize, camera: Option<CameraId>)
        ensures
            slot >= SLOT_COUNT ==> final(self)@ == old(self)@,
            slot < SLOT_COUNT ==> final(self)@ == (ConfigView {
                slots: assigned(old(self)@.slots, slot as int, camera),
                ..old(self)@
            }),
    {
        if slot >= SLOT_COUNT {
            return ;
        }
        if let Some(id) = camera {
            self.vacate(id);
        }
        self.slots[slot] = camera;
        assert(self@.slots =~= assigned(old(self)@.slots, slot as int, camera));
    }

    /// Inserts or replaces a camera (matched by id) after validating it against the others.
    pub fn upsert_camera(&mut self, camera: CameraConfig) -> (res: Result<(), ConfigError>)
        ensures
            camera::reports(res, upsert_problem(old(self)@.cameras, camera@)),
            res is Err ==> final(self)@ == old(self)@,
            res is Ok ==> final(self)@ == (ConfigView {
                cameras: upserted(old(self)@.cameras, camera@),
                ..old(self)@
            }),
    {
        if let Err(e) = validate_camera(&camera) {
            return Err(e);
        }
        let ghost cameras = self@.cameras;
        let ghost others = without(cameras, camera.id);
        let mut i: usize = 0;
        assert(without(cameras.take(0), camera.id) =~= Seq::<CameraView>::empty()) by {
            reveal(Seq::filter);
        }
        while i < self.cameras.len()
            invariant
                i <= self.cameras@.len(),
                cameras == self@.cameras,
                others == without(cameras, camera.id),
                camera::camera_problem(camera@) is None,
                first_named(
                    without(cameras.take(i as int), camera.id),
                    without(cameras.take(i as int), camera.id).len() as int,
                    camera@.name,
                ) is None,
                *self == *old(self),
            decreases self.cameras@.len() - i,
        {
            assert(cameras[i as int] == self.cameras@[i as int]@);
            let ghost kept = without(cameras.take(i as int), camera.id);
            proof {
                lemma_without_step(cameras, i as int, camera.id);
                lemma_first_named_push(kept, cameras[i as int], kept.len() as int, camera@.name);
                assert(cameras[i as int].id != camera.id ==> kept.push(cameras[i as int])[kept.len() as int]
                    == cameras[i as int]);
            }
            if self.cameras[i].id != camera.id && same_name(
                self.cameras[i].name.as_str(),
                camera.name.as_str(),
            ) {
                proof {
                    lemma_without_prefix(cameras, i + 1, camera.id);
                    let found = kept.push(cameras[i as int]);
                    lemma_first_named_take(others, found.len() as int, found.len() as int, camera@.name);
                    lemma_first_named_prefix(
                        others,
                        found.len() as int,
                        others.len() as int,
                        camera@.name,
                    );
                }
                return taken_name(&self.cameras[i]);
            }
            i = i + 1;
        }
        assert(cameras.take(i as int) =~= cameras);
        match self.position(camera.id) {
            Some(at) => {
                proof {
                    lemma_first_at_unique(cameras, camera.id, at as int);
                }
                let ghost said = camera@;
                let ghost before = self.cameras@;
                self.cameras.set(at, camera);
                assert(views(self.cameras@) =~= views(before).update(at as int, said));
            },
            None => {
                let ghost said = camera@;
                let ghost before = self.cameras@;
                self.cameras.push(camera);
                assert(views(self.cameras@) =~= views(before).push(said));
            },
        }
        Ok(())
    }

    /// Removes a camera from the list and from the mosaic.
    pub fn remove_camera(&mut self, id: CameraId)
        ensures
            final(self)@ == (ConfigView {
                cameras: without(old(self)@.cameras, id),
                slots: vacated(old(self)@.slots, id),
                ..old(self)@
            }),
    {
        self.vacate(id);
        let ghost cameras = self@.cameras;
        let ghost start = *self;
        let mut kept: Vec<CameraConfig> = Vec::new();
        let mut i: usize = 0;
        assert(without(cameras.take(0), id) =~= Seq::<CameraView>::empty()) by {
            reveal(Seq::filter);
        }
        assert(views(kept@) =~= Seq::<CameraView>::empty());
        while i < self.cameras.len()
            invariant
                i <= self.cameras@.len(),
                *self == start,
                cameras == self@.cameras,
                views(kept@) == without(cameras.take(i as int), id),
            decreases self.cameras@.len() - i,
        {
            assert(cameras[i as int] == self.cameras@[i as int]@);
            proof {
                lemma_without_step(cameras, i as int, id);
            }
            if self.cameras[i].id != id {
                let ghost before = kept@;
                kept.push(self.cameras[i].clone());
                assert(views(kept@) =~= views(before).push(cameras[i as int]));
            }
            i = i + 1;
        }
        assert(cameras.take(i as int) =~= cameras);
        self.cameras = kept;
    }
}

proof fn lemma_problem_prefix(cameras: Seq<CameraView>, n: int, m: int)
    requires
        0 <= n <= m <= cameras.len(),
    ensures
        cameras_problem(cameras, n) is Some ==> cameras_problem(cameras, m) == cameras_problem(
            cameras,
            n,
        ),
    decreases m - n,
{
    if n < m {
        lemma_problem_prefix(cameras, n, m - 1);
    }
}

proof fn lemma_slot_problem_prefix(
    slots: Seq<Option<CameraId>>,
    cameras: Seq<CameraView>,
    n: int,
    m: int,
)
    requires
        0 <= n <= m <= slots.len(),
    ensures
        slots_problem(slots, cameras, n) is Some ==> slots_problem(slots, cameras, m)
            == slots_problem(slots, cameras, n),
    decreases m - n,
{
    if n < m {
        lemma_slot_problem_prefix(slots, cameras, n, m - 1);
    }
}

proof fn lemma_first_named_prefix(cameras: Seq<CameraView>, n: int, m: int, name: Seq<char>)
    requires
        0 <= n <= m <= cameras.len(),
    ensures
        first_named(cameras, n, name) is Some ==> first_named(cameras, m, name) == first_named(
            cameras,
            n,
            name,
        ),
    decreases m - n,
{
    if n < m {
        lemma_first_named_prefix(cameras, n, m - 1, name);
    }
}

proof fn lemma_first_named_take(cameras: Seq<CameraView>, k: int, n: int, name: Seq<char>)
    requires
        0 <= n <= k <= cameras.len(),
    ensures
        first_named(cameras.take(k), n, name) == first_named(cameras, n, name),
    decreases n,
{
    if n > 0 {
        lemma_first_named_take(cameras, k, n - 1, name);
    }
}

/// What is kept of the first `n` cameras stands in front of what is kept of all.
proof fn lemma_without_prefix(cameras: Seq<CameraView>, n: int, id: CameraId)
    requires
        0 <= n <= cameras.len(),
    ensures
        without(cameras.take(n), id).len() <= without(cameras, id).len(),
        without(cameras, id).take(without(cameras.take(n), id).len() as int) == without(
            cameras.take(n),
            id,
        ),
    decreases cameras.len() - n,
{
    if n < cameras.len() {
        lemma_without_prefix(cameras, n + 1, id);
        lemma_without_step(cameras, n, id);
        let all = without(cameras, id);
        let some = without(cameras.take(n), id);
        let more = without(cameras.take(n + 1), id);
        assert(all.take(some.len() as int) =~= more.take(some.len() as int));
        assert(more.take(some.len() as int) =~= some);
    } else {
        assert(cameras.take(n) =~= cameras);
        assert(without(cameras, id).take(without(cameras, id).len() as int) =~= without(
            cameras,
            id,
        ));
    }
}

/// The mode of a configuration file: nobody but the owner may read or write it.
pub const PRIVATE_MODE: u32 = 0o600;

/// The mode to give to a configuration file found with `mode`, if others may use it as it is.
pub open spec fn tightened(mode: u32) -> Option<u32> {
    if mode & 0o077 == 0 {
        None
    } else {
        Some(PRIVATE_MODE)
    }
}

/// The mode to give to a configuration file found with `mode`, if others may use it as it is.
pub fn tightened_mode(mode: u32) -> (res: Option<u32>)
    ensures
        res == tightened(mode),
{
    if mode & 0o077 == 0 {
        None
    } else {
        Some(PRIVATE_MODE)
    }
}

/// What is stored for a slot: the id of its camera, or nothing for an empty one.
pub open spec fn slot_text(slot: Option<CameraId>) -> Seq<char> {
    match slot {
        Some(id) => camera::hyphenated(id.0),
        None => Seq::empty(),
    }
}

/// The slot that a stored text stands for; nothing if it cannot be read.
pub open spec fn slot_of_text(s: Seq<char>) -> Option<Option<CameraId>> {
    let value = text::trimmed(s);
    if value.len() == 0 {
        Some(None)
    } else {
        match camera::uuid_value(value) {
            Some(bits) => Some(Some(CameraId(bits as u128))),
            None => None,
        }
    }
}

/// The slots as they are stored.
pub fn slots_to_text(slots: &Slots) -> (res: Vec<String>)
    ensures
        res@.len() == SLOT_COUNT,
        forall|i: int| 0 <= i < SLOT_COUNT ==> (#[trigger] res@[i])@ == slot_text(slots@[i]),
{
    let mut out: Vec<String> = Vec::new();
    let mut i: usize = 0;
    while i < SLOT_COUNT
        invariant
            i <= SLOT_COUNT,
            out@.len() == i,
            forall|k: int| 0 <= k < i ==> (#[trigger] out@[k])@ == slot_text(slots@[k]),
        decreases SLOT_COUNT - i,
    {
        out.push(
            match slots[i] {
                Some(id) => id.to_text(),
                None => String::new(),
            },
        );
        i = i + 1;
    }
    out
}

/// Reads stored slots. Slots that the list does not reach are empty, and what it holds beyond
/// the last slot is ignored. The first text that cannot be read is handed back.
pub fn slots_from_text(raw: &Vec<String>) -> (res: Result<Slots, String>)
    ensures
        match res {
            Ok(slots) => forall|i: int|
                0 <= i < SLOT_COUNT ==> (#[trigger] slots@[i]) == (if i < raw@.len() {
                    slot_of_text(raw@[i]@)->0
                } else {
                    None
                }) && (i < raw@.len() ==> slot_of_text(raw@[i]@) is Some),
            Err(bad) => exists|i: int|
                0 <= i < SLOT_COUNT && i < raw@.len() && (#[trigger] raw@[i])@ == bad@
                    && slot_of_text(raw@[i]@) is None && forall|j: int|
                    0 <= j < i ==> slot_of_text((#[trigger] raw@[j])@) is Some,
        },
{
    let mut slots: Slots = [None, None, None, None];
    let mut i: usize = 0;
    while i < SLOT_COUNT && i < raw.len()
        invariant
            i <= SLOT_COUNT,
            i <= raw@.len(),
            forall|k: int|
                0 <= k < i ==> slot_of_text((#[trigger] raw@[k])@) == Some(slots@[k]),
            forall|k: int| i <= k < SLOT_COUNT ==> slots@[k] is None,
        decreases SLOT_COUNT - i,
    {
        let value = text::trim(raw[i].as_str());
        assert(value@ == text::trimmed(raw@[i as int]@));
        if !value.as_str().is_empty() {
            match CameraId::parse(value.as_str()) {
                Some(id) => {
                    slots[i] = Some(id);
                },
                None => {
                    return Err(raw[i].clone());
                },
            }
        }
        i = i + 1;
    }
    assert forall|k: int| 0 <= k < SLOT_COUNT implies (#[trigger] slots@[k]) == (if k < raw@.len() {
        slot_of_text(raw@[k]@)->0
    } else {
        None
    }) && (k < raw@.len() ==> slot_of_text(raw@[k]@) is Some) by {
        if k < raw@.len() {
            assert(slot_of_text(raw@[k]@) == Some(slots@[k]));
        }
    }
    Ok(slots)
}

/// Reading a stored slot gives back what was stored.
pub proof fn lemma_stored_slot_reads_back(slot: Option<CameraId>)
    ensures
        slot_of_text(slot_text(slot)) == Some(slot),
{
    match slot {
        Some(id) => {
            camera::lemma_written_id_not_blank(id.0);
            camera::lemma_written_id_reads_back(id.0);
        },
        None => {},
    }
}

/// Whatever the slots were, sanitized ones hold known cameras only, each at most once.
pub proof fn lemma_sanitized_slots(slots: Seq<Option<CameraId>>, cameras: Seq<CameraView>)
    ensures
        known_slots(sanitized(slots, cameras), cameras),
        distinct_slots(sanitized(slots, cameras)),
{
    let res = sanitized(slots, cameras);
    assert forall|i: int, j: int|
        0 <= i < j < res.len() && (#[trigger] res[i]) is Some implies res[i] != (
    #[trigger] res[j]) by {
        if res[i] == res[j] {
            assert(slots.take(j)[i] == slots[j]);
        }
    }
}

/// Slots that are in order stay as they are when sanitized; so sanitizing twice changes nothing
/// more.
pub proof fn lemma_sanitized_keeps_good_slots(
    slots: Seq<Option<CameraId>>,
    cameras: Seq<CameraView>,
)
    requires
        known_slots(slots, cameras),
        distinct_slots(slots),
    ensures
        sanitized(slots, cameras) == slots,
{
    assert forall|i: int| 0 <= i < slots.len() implies sanitized(slots, cameras)[i]
        == #[trigger] slots[i] by {
        if slots[i] is Some && slots.take(i).contains(slots[i]) {
            let j = choose|j: int| 0 <= j < i && slots.take(i)[j] == slots[i];
            assert(slots[j] != slots[i]);
        }
    }
    assert(sanitized(slots, cameras) =~= slots);
}

/// After an assignment the camera is in that slot and in no other, and slots that did not hold
/// it keep what they held.
pub proof fn lemma_assigned_slot_is_the_only_one(
    slots: Seq<Option<CameraId>>,
    slot: int,
    id: CameraId,
)
    requires
        0 <= slot < slots.len(),
    ensures
        forall|i: int|
            0 <= i < slots.len() ==> (assigned(slots, slot, Some(id))[i] == Some(id)) == (i
                == slot),
        forall|i: int|
            0 <= i < slots.len() && i != slot && slots[i] != Some(id) ==> assigned(
                slots,
                slot,
                Some(id),
            )[i] == slots[i],
{
}

/// An assignment of a known camera, or of none, keeps the configuration valid.
pub proof fn lemma_assign_keeps_valid(config: ConfigView, slot: int, camera: Option<CameraId>)
    requires
        config.valid(),
        0 <= slot < config.slots.len(),
        camera is Some ==> known(config.cameras, camera->0),
    ensures
        (ConfigView { slots: assigned(config.slots, slot, camera), ..config }).valid(),
{
    let slots = config.slots;
    let res = assigned(slots, slot, camera);
    assert forall|i: int| 0 <= i < res.len() && (#[trigger] res[i]) is Some implies known(
        config.cameras,
        res[i]->0,
    ) by {
        if i != slot {
            assert(slots[i] is Some);
        }
    }
    assert forall|i: int, j: int|
        0 <= i < j < res.len() && (#[trigger] res[i]) is Some implies res[i] != (
    #[trigger] res[j]) by {
        if i != slot && j != slot {
            assert(slots[i] != slots[j]);
        }
    }
}

/// What is kept without `id`: the cameras with another id, and no others.
proof fn lemma_without_members(cameras: Seq<CameraView>, id: CameraId)
    ensures
        forall|i: int|
            0 <= i < without(cameras, id).len() ==> (#[trigger] without(cameras, id)[i]).id != id
                && cameras.contains(without(cameras, id)[i]),
        forall|i: int|
            0 <= i < cameras.len() && (#[trigger] cameras[i]).id != id ==> without(
                cameras,
                id,
            ).contains(cameras[i]),
    decreases cameras.len(),
{
    reveal(Seq::filter);
    let kept = without(cameras, id);
    if cameras.len() > 0 {
        let fewer = cameras.drop_last();
        let before = without(fewer, id);
        lemma_without_members(fewer, id);
        assert forall|i: int| 0 <= i < kept.len() implies (#[trigger] kept[i]).id != id
            && cameras.contains(kept[i]) by {
            if i < before.len() {
                assert(before[i] == kept[i]);
                let k = choose|k: int| 0 <= k < fewer.len() && fewer[k] == before[i];
                assert(cameras[k] == kept[i]);
            } else {
                assert(kept[i] == cameras[cameras.len() - 1]);
            }
        }
        assert forall|i: int|
            0 <= i < cameras.len() && (#[trigger] cameras[i]).id != id implies kept.contains(
            cameras[i],
        ) by {
            if i < fewer.len() {
                assert(fewer[i] == cameras[i]);
                let k = choose|k: int| 0 <= k < before.len() && before[k] == fewer[i];
                assert(kept[k] == cameras[i]);
            } else {
                assert(kept.last() == cameras[i]);
            }
        }
    }
}

proof fn lemma_without_keeps_order(cameras: Seq<CameraView>, id: CameraId)
    requires
        distinct_ids(cameras),
        distinct_names(cameras),
    ensures
        distinct_ids(without(cameras, id)),
        distinct_names(without(cameras, id)),
    decreases cameras.len(),
{
    reveal(Seq::filter);
    let kept = without(cameras, id);
    if cameras.len() > 0 {
        let fewer = cameras.drop_last();
        let before = without(fewer, id);
        assert forall|i: int, j: int| 0 <= i < j < fewer.len() implies (#[trigger] fewer[i]).id != (
        #[trigger] fewer[j]).id && !camera::names_match(fewer[i].name, fewer[j].name) by {
            assert(cameras[i].id != cameras[j].id);
        }
        lemma_without_keeps_order(fewer, id);
        lemma_without_members(fewer, id);
        assert forall|i: int, j: int| 0 <= i < j < kept.len() implies (#[trigger] kept[i]).id != (
        #[trigger] kept[j]).id && !camera::names_match(kept[i].name, kept[j].name) by {
            assert(before[i] == kept[i]);
            if j < before.len() {
                assert(before[j] == kept[j]);
            } else {
                let k = choose|k: int| 0 <= k < fewer.len() && fewer[k] == before[i];
                assert(cameras[k] == kept[i]);
                assert(kept[j] == cameras[cameras.len() - 1]);
                assert(cameras[k].id != cameras[cameras.len() - 1].id);
            }
        }
    }
}

/// A removed camera is gone from the list and from the slots; the others stay.
pub proof fn lemma_removed_camera_is_gone(config: ConfigView, id: CameraId)
    ensures
        !known(without(config.cameras, id), id),
        !vacated(config.slots, id).contains(Some(id)),
        forall|i: int|
            0 <= i < config.cameras.len() && (#[trigger] config.cameras[i]).id != id ==> without(
                config.cameras,
                id,
            ).contains(config.cameras[i]),
{
    lemma_without_members(config.cameras, id);
}

/// Removing a camera keeps the configuration valid.
pub proof fn lemma_remove_keeps_valid(config: ConfigView, id: CameraId)
    requires
        config.valid(),
    ensures
        (ConfigView {
            cameras: without(config.cameras, id),
            slots: vacated(config.slots, id),
            ..config
        }).valid(),
{
    let cameras = config.cameras;
    let kept = without(cameras, id);
    let slots = config.slots;
    let left = vacated(slots, id);
    lemma_without_members(cameras, id);
    lemma_without_keeps_order(cameras, id);
    assert forall|i: int| 0 <= i < kept.len() implies camera::camera_problem(#[trigger] kept[i]) is None by {
        let k = choose|k: int| 0 <= k < cameras.len() && cameras[k] == kept[i];
        assert(camera::camera_problem(cameras[k]) is None);
    }
    assert forall|i: int| 0 <= i < left.len() && (#[trigger] left[i]) is Some implies known(
        kept,
        left[i]->0,
    ) by {
        assert(slots[i] is Some);
        let k = choose|k: int| 0 <= k < cameras.len() && (#[trigger] cameras[k]).id == slots[i]->0;
        assert(kept.contains(cameras[k]));
        let m = choose|m: int| 0 <= m < kept.len() && kept[m] == cameras[k];
        assert(kept[m].id == left[i]->0);
    }
    assert forall|i: int, j: int|
        0 <= i < j < left.len() && (#[trigger] left[i]) is Some implies left[i] != (
    #[trigger] left[j]) by {
        assert(slots[i] != slots[j]);
    }
}

/// What was put in the list is found there under its id.
pub proof fn lemma_upserted_camera_is_found(cameras: Seq<CameraView>, camera: CameraView)
    ensures
        known(upserted(cameras, camera), camera.id),
        upserted(cameras, camera)[choose|i: int|
            first_at(upserted(cameras, camera), camera.id, i)] == camera,
{
    let res = upserted(cameras, camera);
    let at = if known(cameras, camera.id) {
        lemma_known_has_first(cameras, camera.id);
        choose|i: int| first_at(cameras, camera.id, i)
    } else {
        cameras.len() as int
    };
    assert forall|j: int| 0 <= j < at implies (#[trigger] res[j]).id != camera.id by {
        assert(res[j] == cameras[j]);
    }
    assert(first_at(res, camera.id, at));
    lemma_first_at_unique(res, camera.id, at);
}

/// A known camera has a first position.
pub proof fn lemma_known_has_first(cameras: Seq<CameraView>, id: CameraId)
    requires
        known(cameras, id),
    ensures
        exists|i: int| first_at(cameras, id, i),
    decreases cameras.len(),
{
    let k = choose|k: int| 0 <= k < cameras.len() && (#[trigger] cameras[k]).id == id;
    if !first_at(cameras, id, k) {
        let j = choose|j: int| 0 <= j < k && (#[trigger] cameras[j]).id == id;
        let fewer = cameras.take(k);
        assert(fewer[j].id == id);
        lemma_known_has_first(fewer, id);
        let i = choose|i: int| first_at(fewer, id, i);
        assert forall|m: int| 0 <= m < i implies (#[trigger] cameras[m]).id != id by {
            assert(fewer[m].id != id);
        }
        assert(first_at(cameras, id, i));
    }
}

/// Putting a camera in the list without a complaint keeps the configuration valid.
pub proof fn lemma_upsert_keeps_valid(config: ConfigView, camera: CameraView)
    requires
        config.valid(),
        upsert_problem(config.cameras, camera) is None,
    ensures
        (ConfigView { cameras: upserted(config.cameras, camera), ..config }).valid(),
{
    let cameras = config.cameras;
    let res = upserted(cameras, camera);
    let others = without(cameras, camera.id);
    lemma_without_members(cameras, camera.id);
    lemma_first_named(others, others.len() as int, camera.name);
    let at = if known(cameras, camera.id) {
        lemma_known_has_first(cameras, camera.id);
        choose|i: int| first_at(cameras, camera.id, i)
    } else {
        cameras.len() as int
    };
    assert forall|i: int| 0 <= i < res.len() && i != at implies (#[trigger] res[i]) == cameras[i]
        && res[i].id != camera.id && !camera::names_match(res[i].name, camera.name) by {
        if at < cameras.len() {
            assert(cameras[i].id != cameras[at].id);
        }
        assert(others.contains(cameras[i]));
        let m = choose|m: int| 0 <= m < others.len() && others[m] == cameras[i];
        assert(!camera::names_match(others[m].name, camera.name));
    }
    assert(res[at] == camera);
    assert forall|i: int, j: int| 0 <= i < j < res.len() implies (#[trigger] res[i]).id != (
    #[trigger] res[j]).id && !camera::names_match(res[i].name, res[j].name) by {
        if i != at && j != at {
            assert(cameras[i].id != cameras[j].id);
            assert(!camera::names_match(cameras[i].name, cameras[j].name));
        }
    }
    assert forall|i: int| 0 <= i < res.len() implies camera::camera_problem(#[trigger] res[i]) is None by {
        if i != at {
            assert(camera::camera_problem(cameras[i]) is None);
        }
    }
    let slots = config.slots;
    assert forall|i: int| 0 <= i < slots.len() && (#[trigger] slots[i]) is Some implies known(
        res,
        slots[i]->0,
    ) by {
        let k = choose|k: int| 0 <= k < cameras.len() && (#[trigger] cameras[k]).id == slots[i]->0;
        assert(res[k].id == slots[i]->0);
    }
}

/// A configuration is in order exactly when each camera is, no two have the same name or id, and
/// the slots hold cameras that there are, each at most once.
pub proof fn lemma_when_a_configuration_is_in_order(config: ConfigView)
    ensures
        ({
            let cameras = config.cameras;
            let slots = config.slots;
            config_problem(config) is None <==> {
                &&& forall|i: int|
                    0 <= i < cameras.len() ==> camera::camera_problem(#[trigger] cameras[i]) is None
                &&& forall|i: int, j: int|
                    0 <= i < j < cameras.len() ==> (#[trigger] cameras[i]).id != (
                    #[trigger] cameras[j]).id
                &&& forall|i: int, j: int|
                    0 <= i < j < cameras.len() ==> text::lowercase(
                        text::trimmed((#[trigger] cameras[i]).name),
                    ) != text::lowercase(text::trimmed((#[trigger] cameras[j]).name))
                &&& forall|i: int|
                    0 <= i < slots.len() && (#[trigger] slots[i]) is Some ==> exists|k: int|
                        0 <= k < cameras.len() && (#[trigger] cameras[k]).id == slots[i]->0
                &&& forall|i: int, j: int|
                    0 <= i < j < slots.len() && (#[trigger] slots[i]) is Some ==> slots[i] != (
                    #[trigger] slots[j])
            }
        }),
{
    lemma_no_problem_is_valid(config);
    let cameras = config.cameras;
    let slots = config.slots;
    if config.valid() {
        assert forall|i: int, j: int| 0 <= i < j < cameras.len() implies text::lowercase(
            text::trimmed((#[trigger] cameras[i]).name),
        ) != text::lowercase(text::trimmed((#[trigger] cameras[j]).name)) by {
            assert(!camera::names_match(cameras[i].name, cameras[j].name));
        }
        assert forall|i: int|
            0 <= i < slots.len() && (#[trigger] slots[i]) is Some implies exists|k: int|
            0 <= k < cameras.len() && (#[trigger] cameras[k]).id == slots[i]->0 by {
            assert(known(cameras, slots[i]->0));
        }
    }
}

/// A camera that is put in the list takes the place of the one with its id, or the last place; the
/// others stay where they are, as they are.
pub proof fn lemma_putting_a_camera_in_keeps_the_others(
    cameras: Seq<CameraView>,
    camera: CameraView,
    i: int,
)
    requires
        0 <= i < cameras.len(),
        distinct_ids(cameras),
    ensures
        cameras[i].id != camera.id ==> upserted(cameras, camera)[i] == cameras[i],
        cameras[i].id == camera.id ==> upserted(cameras, camera)[i] == camera,
        known(cameras, camera.id) ==> upserted(cameras, camera).len() == cameras.len(),
        !known(cameras, camera.id) ==> upserted(cameras, camera) == cameras.push(camera),
{
    if known(cameras, camera.id) {
        lemma_known_has_first(cameras, camera.id);
        let at = choose|k: int| first_at(cameras, camera.id, k);
        if cameras[i].id == camera.id && i != at {
            assert(cameras[at].id != cameras[i].id);
        }
    }
}

/// A camera is refused when it is not in order by itself, or another one has its name; its own
/// entry in the list does not count.
pub proof fn lemma_when_a_camera_is_refused(cameras: Seq<CameraView>, camera: CameraView)
    ensures
        upsert_problem(cameras, camera) is None <==> {
            &&& camera::camera_problem(camera) is None
            &&& forall|i: int|
                0 <= i < cameras.len() && (#[trigger] cameras[i]).id != camera.id
                    ==> text::lowercase(text::trimmed(cameras[i].name)) != text::lowercase(
                    text::trimmed(camera.name),
                )
        },
{
    let others = without(cameras, camera.id);
    lemma_without_members(cameras, camera.id);
    lemma_first_named(others, others.len() as int, camera.name);
    if first_named(others, others.len() as int, camera.name) is None {
        assert forall|i: int|
            0 <= i < cameras.len() && (#[trigger] cameras[i]).id != camera.id implies text::lowercase(
            text::trimmed(cameras[i].name),
        ) != text::lowercase(text::trimmed(camera.name)) by {
            assert(others.contains(cameras[i]));
            let k = choose|k: int| 0 <= k < others.len() && others[k] == cameras[i];
            assert(!camera::names_match(others[k].name, camera.name));
        }
    } else {
        let k = choose|k: int|
            0 <= k < others.len() && camera::names_match((#[trigger] others[k]).name, camera.name);
        let i = choose|i: int| 0 <= i < cameras.len() && cameras[i] == others[k];
        assert(cameras[i].id != camera.id);
    }
}

/// An empty slot empties no other one. Taking a camera out of the slots empties exactly those that
/// held it.
pub proof fn lemma_other_slots_stay(
    slots: Seq<Option<CameraId>>,
    slot: int,
    id: CameraId,
    i: int,
)
    requires
        0 <= slot < slots.len(),
        0 <= i < slots.len(),
    ensures
        assigned(slots, slot, None)[slot] is None,
        i != slot ==> assigned(slots, slot, None)[i] == slots[i],
        assigned(slots, slot, Some(id))[slot] == Some(id),
        i != slot && slots[i] == Some(id) ==> assigned(slots, slot, Some(id))[i] is None,
        i != slot && slots[i] != Some(id) ==> assigned(slots, slot, Some(id))[i] == slots[i],
        slots[i] == Some(id) ==> vacated(slots, id)[i] is None,
        slots[i] != Some(id) ==> vacated(slots, id)[i] == slots[i],
        assigned(slots, slot, Some(id)).len() == slots.len(),
        vacated(slots, id).len() == slots.len(),
{
}

/// Slots are only emptied where they have to be: one that holds a camera that there is, which no
/// slot before it holds, keeps it.
pub proof fn lemma_sanitizing_keeps_first_holders(
    slots: Seq<Option<CameraId>>,
    cameras: Seq<CameraView>,
    i: int,
    k: int,
)
    requires
        0 <= i < slots.len(),
        slots[i] is Some,
        0 <= k < cameras.len(),
        cameras[k].id == slots[i]->0,
        forall|j: int| 0 <= j < i ==> slots[j] != slots[i],
    ensures
        sanitized(slots, cameras)[i] == slots[i],
        sanitized(slots, cameras).len() == slots.len(),
{
    assert(known(cameras, slots[i]->0));
    if slots.take(i).contains(slots[i]) {
        let j = choose|j: int| 0 <= j < i && slots.take(i)[j] == slots[i];
        assert(slots[j] == slots[i]);
    }
}

/// The cameras that are shown are those of the slots, in their order: each slot that holds a camera
/// that there is adds it, and an empty one adds nothing.
pub proof fn lemma_shown_cameras_are_those_of_the_slots(config: ConfigView, n: int, k: int)
    requires
        0 <= n < config.slots.len(),
        0 <= k < config.cameras.len(),
        distinct_ids(config.cameras),
    ensures
        config.slots[n] == Some(config.cameras[k].id) ==> in_slots(config, n + 1) == in_slots(
            config,
            n,
        ).push(config.cameras[k]),
        config.slots[n] is None ==> in_slots(config, n + 1) == in_slots(config, n),
        in_slots(config, 0).len() == 0,
{
    if config.slots[n] == Some(config.cameras[k].id) {
        let id = config.cameras[k].id;
        assert forall|j: int| 0 <= j < k implies (#[trigger] config.cameras[j]).id != id by {
            assert(config.cameras[j].id != config.cameras[k].id);
        }
        assert(first_at(config.cameras, id, k));
        lemma_first_at_unique(config.cameras, id, k);
    }
}

/// A file that the group or others may use in any way is made private: only its owner may read and
/// write it then. One that they may not use is left as it is, and so is a private one.
pub proof fn lemma_only_the_owner_uses_the_file(mode: u32)
    ensures
        tightened(mode) is None <==> mode % 64 == 0,
        tightened(mode) is Some ==> tightened(mode) == Some(384u32),
        tightened(384) is None,
{
    assert(mode & 0o077 == mode % 64) by (bit_vector);
    assert(384u32 & 0o077 == 0) by (bit_vector);
}

/// A name that is taken is told with the first camera that has it.
pub proof fn lemma_taken_name_is_told(cameras: Seq<CameraView>, camera: CameraView, k: int)
    requires
        camera::camera_problem(camera) is None,
        ({
            let others = without(cameras, camera.id);
            &&& 0 <= k < others.len()
            &&& text::lowercase(text::trimmed(others[k].name)) == text::lowercase(
                text::trimmed(camera.name),
            )
            &&& forall|j: int|
                0 <= j < k ==> text::lowercase(text::trimmed((#[trigger] others[j]).name))
                    != text::lowercase(text::trimmed(camera.name))
        }),
    ensures
        upsert_problem(cameras, camera) == Some(
            "A camera named \""@ + text::trimmed(without(cameras, camera.id)[k].name)
                + "\" already exists"@,
        ),
{
    let others = without(cameras, camera.id);
    lemma_first_named_is_first(others, others.len() as int, camera.name, k);
}

proof fn lemma_first_named_is_first(cameras: Seq<CameraView>, n: int, name: Seq<char>, k: int)
    requires
        0 <= k < n <= cameras.len(),
        camera::names_match(cameras[k].name, name),
        forall|j: int| 0 <= j < k ==> !camera::names_match((#[trigger] cameras[j]).name, name),
    ensures
        first_named(cameras, n, name) == Some(cameras[k]),
    decreases n,
{
    if k < n - 1 {
        lemma_first_named_is_first(cameras, n - 1, name, k);
    } else {
        lemma_first_named(cameras, k, name);
    }
}

/// The configuration at the very start is in order: no cameras, four empty slots, nothing switched on
/// and no saved window.
pub proof fn lemma_first_configuration_is_blank()
    ensures
        ConfigView::blank().cameras.len() == 0,
        ConfigView::blank().slots == seq![None::<CameraId>, None, None, None],
        !ConfigView::blank().open_at_login,
        !ConfigView::blank().smooth_playback,
        ConfigView::blank().window is None,
        ConfigView::blank().valid(),
{
}

}
