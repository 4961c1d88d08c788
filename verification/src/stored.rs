//! The configuration as it is stored: plain values, of which older or hand-edited files may lack
//! some.
use vstd::prelude::*;
use vstd::string::*;

use crate::camera::{
    self, default_port, CameraConfig, CameraId, CameraView, Secret, StreamKind,
};
use crate::config::{
    self, slots_from_text, slots_to_text, Config, ConfigView, Slots, WindowGeometry, SLOT_COUNT,
};
use crate::dropdown;
use crate::text;

verus! {

/// A stored camera.
pub struct StoredCamera {
    pub id: Option<String>,
    pub name: String,
    pub host: String,
    pub port: Option<u16>,
    pub stream: Option<String>,
    pub username: Option<String>,
    pub password: Option<String>,
}

/// What a [`StoredCamera`] says.
pub struct StoredCameraView {
    pub id: Option<Seq<char>>,
    pub name: Seq<char>,
    pub host: Seq<char>,
    pub port: Option<u16>,
    pub stream: Option<Seq<char>>,
    pub username: Option<Seq<char>>,
    pub password: Option<Seq<char>>,
}

impl View for StoredCamera {
    type V = StoredCameraView;

    open spec fn view(&self) -> StoredCameraView {
        StoredCameraView {
            id: dropdown::said(self.id),
            name: self.name@,
            host: self.host@,
            port: self.port,
            stream: dropdown::said(self.stream),
            username: dropdown::said(self.username),
            password: dropdown::said(self.password),
        }
    }
}

/// A stored configuration.
pub struct StoredConfig {
    pub open_at_login: Option<bool>,
    pub smooth_playback: Option<bool>,
    pub slots: Option<Vec<String>>,
    pub window: Option<WindowGeometry>,
    pub cameras: Vec<StoredCamera>,
}

/// What a [`StoredConfig`] says.
pub struct StoredView {
    pub open_at_login: Option<bool>,
    pub smooth_playback: Option<bool>,
    pub slots: Option<Seq<Seq<char>>>,
    pub window: Option<WindowGeometry>,
    pub cameras: Seq<StoredCameraView>,
}

/// What stored cameras say.
pub open spec fn stored_views(cameras: Seq<StoredCamera>) -> Seq<StoredCameraView> {
    cameras.map_values(|c: StoredCamera| c@)
}

/// What texts say.
pub open spec fn texts(list: Seq<String>) -> Seq<Seq<char>> {
    list.map_values(|s: String| s@)
}

impl View for StoredConfig {
    type V = StoredView;

    open spec fn view(&self) -> StoredView {
        StoredView {
            open_at_login: self.open_at_login,
            smooth_playback: self.smooth_playback,
            slots: match self.slots {
                Some(slots) => Some(texts(slots@)),
                None => None,
            },
            window: self.window,
            cameras: stored_views(self.cameras@),
        }
    }
}

/// What cannot be read of a stored configuration.
#[derive(Debug)]
pub enum StoredError {
    /// No slot.
    Slot(String),
    /// No camera id.
    Id(String),
    /// No kind of stream.
    Stream(String),
}

/// What a [`StoredError`] says.
pub enum StoredErrorView {
    Slot(Seq<char>),
    Id(Seq<char>),
    Stream(Seq<char>),
}

impl View for StoredError {
    type V = StoredErrorView;

    open spec fn view(&self) -> StoredErrorView {
        match self {
            StoredError::Slot(s) => StoredErrorView::Slot(s@),
            StoredError::Id(s) => StoredErrorView::Id(s@),
            StoredError::Stream(s) => StoredErrorView::Stream(s@),
        }
    }
}

/// The stored name of a kind of stream.
pub open spec fn stream_name(stream: StreamKind) -> Seq<char> {
    match stream {
        StreamKind::Main => "main"@,
        StreamKind::Sub => "sub"@,
    }
}

/// The kind of stream with this stored name.
pub open spec fn stream_named(s: Seq<char>) -> Option<StreamKind> {
    if s == "main"@ {
        Some(StreamKind::Main)
    } else if s == "sub"@ {
        Some(StreamKind::Sub)
    } else {
        None
    }
}

/// The stored name of a kind of stream.
pub fn write_stream(stream: StreamKind) -> (res: &'static str)
    ensures
        res@ == stream_name(stream),
{
    match stream {
        StreamKind::Main => "main",
        StreamKind::Sub => "sub",
    }
}

/// The kind of stream with this stored name.
pub fn read_stream(s: &str) -> (res: Option<StreamKind>)
    ensures
        res == stream_named(s@),
{
    if text::same_text(s, "main") {
        Some(StreamKind::Main)
    } else if text::same_text(s, "sub") {
        Some(StreamKind::Sub)
    } else {
        None
    }
}

/// What is stored of a camera.
pub open spec fn camera_stored(camera: CameraView) -> StoredCameraView {
    StoredCameraView {
        id: Some(camera::hyphenated(camera.id.0)),
        name: camera.name,
        host: camera.host,
        port: Some(camera.port),
        stream: Some(stream_name(camera.stream)),
        username: Some(camera.username),
        password: Some(camera.password),
    }
}

/// The id that a stored camera has; `fresh` where none is stored.
pub open spec fn id_read(id: Option<Seq<char>>, fresh: CameraId) -> Option<CameraId> {
    match id {
        Some(s) => match camera::uuid_value(s) {
            Some(bits) => Some(CameraId(bits as u128)),
            None => None,
        },
        None => Some(fresh),
    }
}

/// The kind of stream that a stored camera has.
pub open spec fn stream_read(stream: Option<Seq<char>>) -> Option<StreamKind> {
    match stream {
        Some(s) => stream_named(s),
        None => Some(StreamKind::Main),
    }
}

/// A text that may be missing.
pub open spec fn or_empty(s: Option<Seq<char>>) -> Seq<char> {
    match s {
        Some(s) => s,
        None => Seq::empty(),
    }
}

/// The camera that was stored, or what cannot be read of it.
pub open spec fn camera_read(stored: StoredCameraView, fresh: CameraId) -> Result<
    CameraView,
    StoredErrorView,
> {
    match (id_read(stored.id, fresh), stream_read(stored.stream)) {
        (None, _) => Err(StoredErrorView::Id(stored.id->0)),
        (_, None) => Err(StoredErrorView::Stream(stored.stream->0)),
        (Some(id), Some(stream)) => Ok(
            CameraView {
                id,
                name: stored.name,
                host: stored.host,
                port: match stored.port {
                    Some(port) => port,
                    None => camera::DEFAULT_RTSP_PORT,
                },
                stream,
                username: or_empty(stored.username),
                password: or_empty(stored.password),
            },
        ),
    }
}

/// The first `n` cameras that were stored, or what cannot be read of the first one that cannot.
pub open spec fn cameras_read(
    stored: Seq<StoredCameraView>,
    fresh: Seq<CameraId>,
    n: int,
) -> Result<Seq<CameraView>, StoredErrorView>
    decreases n,
{
    if n <= 0 {
        Ok(Seq::empty())
    } else {
        match cameras_read(stored, fresh, n - 1) {
            Err(e) => Err(e),
            Ok(before) => match camera_read(stored[n - 1], fresh[n - 1]) {
                Err(e) => Err(e),
                Ok(camera) => Ok(before.push(camera)),
            },
        }
    }
}

/// The first of the first `n` stored slots that cannot be read.
pub open spec fn bad_slot(raw: Seq<Seq<char>>, n: int) -> Option<Seq<char>>
    decreases n,
{
    if n <= 0 {
        None
    } else {
        match bad_slot(raw, n - 1) {
            Some(s) => Some(s),
            None => if n <= raw.len() && config::slot_of_text(raw[n - 1]) is None {
                Some(raw[n - 1])
            } else {
                None
            },
        }
    }
}

/// The slots that were stored, or the first text that cannot be read.
pub open spec fn slots_read(raw: Option<Seq<Seq<char>>>) -> Result<
    Seq<Option<CameraId>>,
    StoredErrorView,
> {
    match raw {
        None => Ok(seq![None, None, None, None]),
        Some(raw) => match bad_slot(raw, SLOT_COUNT as int) {
            Some(s) => Err(StoredErrorView::Slot(s)),
            None => Ok(
                Seq::new(
                    SLOT_COUNT as nat,
                    |i: int|
                        if i < raw.len() {
                            config::slot_of_text(raw[i])->0
                        } else {
                            None
                        },
                ),
            ),
        },
    }
}

/// What is stored of a configuration.
pub open spec fn config_stored(config: ConfigView) -> StoredView {
    StoredView {
        open_at_login: Some(config.open_at_login),
        smooth_playback: Some(config.smooth_playback),
        slots: Some(config.slots.map_values(|slot: Option<CameraId>| config::slot_text(slot))),
        window: config.window,
        cameras: config.cameras.map_values(|c: CameraView| camera_stored(c)),
    }
}

/// The configuration that was stored, with its slots sanitized, or what cannot be read of it.
/// `fresh` are the ids of cameras that are stored without one.
pub open spec fn config_read(stored: StoredView, fresh: Seq<CameraId>) -> Result<
    ConfigView,
    StoredErrorView,
> {
    match slots_read(stored.slots) {
        Err(e) => Err(e),
        Ok(slots) => match cameras_read(stored.cameras, fresh, stored.cameras.len() as int) {
            Err(e) => Err(e),
            Ok(cameras) => Ok(
                ConfigView {
                    open_at_login: stored.open_at_login == Some(true),
                    smooth_playback: stored.smooth_playback == Some(true),
                    slots: config::sanitized(slots, cameras),
                    window: stored.window,
                    cameras,
                },
            ),
        },
    }
}

/// Whether `res` is the result `expected`.
pub open spec fn gives(
    res: Result<Config, StoredError>,
    expected: Result<ConfigView, StoredErrorView>,
) -> bool {
    match expected {
        Ok(config) => res is Ok && (res->Ok_0)@ == config,
        Err(e) => res is Err && (res->Err_0)@ == e,
    }
}

impl StoredCamera {
    /// What is stored of a camera.
    pub fn of(camera: &CameraConfig) -> (res: StoredCamera)
        ensures
            res@ == camera_stored(camera@),
    {
        StoredCamera {
            id: Some(camera.id.to_text()),
            name: camera.name.clone(),
            host: camera.host.clone(),
            port: Some(camera.port),
            stream: Some(write_stream(camera.stream).to_owned()),
            username: Some(camera.username.clone()),
            password: Some(camera.password.expose().to_owned()),
        }
    }

    /// The camera that was stored, under the id `fresh` where none is stored.
    pub fn read(&self, fresh: CameraId) -> (res: Result<CameraConfig, StoredError>)
        ensures
            match camera_read(self@, fresh) {
                Ok(camera) => res is Ok && (res->Ok_0)@ == camera,
                Err(e) => res is Err && (res->Err_0)@ == e,
            },
    {
        let id = match &self.id {
            Some(s) => match CameraId::parse(s.as_str()) {
                Some(id) => id,
                None => {
                    return Err(StoredError::Id(s.clone()));
                },
            },
            None => fresh,
        };
        let stream = match &self.stream {
            Some(s) => match read_stream(s.as_str()) {
                Some(stream) => stream,
                None => {
                    return Err(StoredError::Stream(s.clone()));
                },
            },
            None => StreamKind::Main,
        };
        let port: u16 = match self.port {
            Some(port) => port,
            None => default_port(),
        };
        let username = match &self.username {
            Some(s) => s.clone(),
            None => String::new(),
        };
        let password = match &self.password {
            Some(s) => Secret::new(s.as_str()),
            None => Secret::default(),
        };
        Ok(
            CameraConfig {
                id,
                name: self.name.clone(),
                host: self.host.clone(),
                port,
                stream,
                username,
                password,
            },
        )
    }
}

proof fn lemma_bad_slot(raw: Seq<Seq<char>>, n: int, i: int)
    requires
        0 <= n,
    ensures
        0 <= i < n && i < raw.len() && config::slot_of_text(raw[i]) is None && (forall|j: int|
            0 <= j < i ==> config::slot_of_text(#[trigger] raw[j]) is Some) ==> bad_slot(raw, n)
            == Some(raw[i]),
        (forall|j: int|
            0 <= j < n && j < raw.len() ==> config::slot_of_text(#[trigger] raw[j]) is Some)
            ==> bad_slot(raw, n) is None,
    decreases n,
{
    if n > 0 {
        lemma_bad_slot(raw, n - 1, i);
    }
}

/// The slots that were stored.
fn read_slots(raw: &Option<Vec<String>>) -> (res: Result<Slots, StoredError>)
    ensures
        match slots_read(
            match *raw {
                Some(list) => Some(texts(list@)),
                None => None,
            },
        ) {
            Ok(slots) => res is Ok && (res->Ok_0)@ == slots,
            Err(e) => res is Err && (res->Err_0)@ == e,
        },
{
    let list = match raw {
        Some(list) => list,
        None => {
            let none: Slots = [None, None, None, None];
            assert(none@ =~= seq![None, None, None, None]);
            return Ok(none);
        },
    };
    let ghost said = texts(list@);
    let found = slots_from_text(list);
    let ghost outcome = found;
    proof {
        match outcome {
            Ok(slots) => {
                assert forall|j: int|
                    0 <= j < SLOT_COUNT && j < said.len() implies config::slot_of_text(
                    #[trigger] said[j],
                ) is Some by {
                    assert(slots@[j] == slots@[j]);
                }
                lemma_bad_slot(said, SLOT_COUNT as int, 0);
                let read = slots_read(Some(said))->Ok_0;
                assert forall|i: int| 0 <= i < SLOT_COUNT implies slots@[i] == read[i] by {
                    if i < said.len() {
                        assert(said[i] == list@[i]@);
                    }
                }
                assert(slots@ =~= read);
            },
            Err(bad) => {
                let i = choose|i: int|
                    0 <= i < SLOT_COUNT && i < list@.len() && (#[trigger] list@[i])@ == bad@
                        && config::slot_of_text(list@[i]@) is None && forall|j: int|
                        0 <= j < i ==> config::slot_of_text((#[trigger] list@[j])@) is Some;
                assert(said[i] == list@[i]@);
                assert forall|j: int| 0 <= j < i implies config::slot_of_text(
                    #[trigger] said[j],
                ) is Some by {
                    assert(said[j] == list@[j]@);
                }
                lemma_bad_slot(said, SLOT_COUNT as int, i);
            },
        }
    }
    match found {
        Ok(slots) => Ok(slots),
        Err(bad) => Err(StoredError::Slot(bad)),
    }
}

proof fn lemma_cameras_read_fails(
    stored: Seq<StoredCameraView>,
    fresh: Seq<CameraId>,
    n: int,
    m: int,
)
    requires
        0 <= n <= m,
        cameras_read(stored, fresh, n) is Err,
    ensures
        cameras_read(stored, fresh, m) == cameras_read(stored, fresh, n),
    decreases m - n,
{
    if n < m {
        lemma_cameras_read_fails(stored, fresh, n, m - 1);
    }
}

impl StoredConfig {
    /// What is stored of a configuration.
    pub fn of(config: &Config) -> (res: StoredConfig)
        ensures
            res@ == config_stored(config@),
    {
        let ghost goal = config_stored(config@);
        let mut cameras: Vec<StoredCamera> = Vec::new();
        let mut i: usize = 0;
        assert(stored_views(cameras@) =~= goal.cameras.take(0));
        while i < config.cameras.len()
            invariant
                i <= config.cameras@.len(),
                goal == config_stored(config@),
                stored_views(cameras@) == goal.cameras.take(i as int),
            decreases config.cameras@.len() - i,
        {
            assert(goal.cameras[i as int] == camera_stored(config.cameras@[i as int]@));
            let ghost before = cameras@;
            cameras.push(StoredCamera::of(&config.cameras[i]));
            assert(stored_views(cameras@) =~= stored_views(before).push(goal.cameras[i as int]));
            assert(goal.cameras.take(i + 1) =~= goal.cameras.take(i as int).push(
                goal.cameras[i as int],
            ));
            i = i + 1;
        }
        assert(goal.cameras.take(i as int) =~= goal.cameras);
        let slots = slots_to_text(&config.slots);
        assert(texts(slots@) =~= goal.slots->0);
        StoredConfig {
            open_at_login: Some(config.open_at_login),
            smooth_playback: Some(config.smooth_playback),
            slots: Some(slots),
            window: config.window,
            cameras,
        }
    }

    /// The configuration that was stored, with the ids `fresh` for cameras that are stored
    /// without one.
    pub fn read_with(&self, fresh: &Vec<CameraId>) -> (res: Result<Config, StoredError>)
        requires
            fresh@.len() == self@.cameras.len(),
        ensures
            gives(res, config_read(self@, fresh@)),
    {
        let slots = match read_slots(&self.slots) {
            Ok(slots) => slots,
            Err(e) => {
                return Err(e);
            },
        };
        let ghost stored = self@.cameras;
        let mut cameras: Vec<CameraConfig> = Vec::new();
        let mut i: usize = 0;
        assert(config::views(cameras@) =~= Seq::<CameraView>::empty());
        while i < self.cameras.len()
            invariant
                i <= self.cameras@.len(),
                stored == self@.cameras,
                fresh@.len() == stored.len(),
                slots_read(self@.slots) == Ok::<Seq<Option<CameraId>>, StoredErrorView>(slots@),
                cameras_read(stored, fresh@, i as int) == Ok::<Seq<CameraView>, StoredErrorView>(
                    config::views(cameras@),
                ),
            decreases self.cameras@.len() - i,
        {
            assert(stored[i as int] == self.cameras@[i as int]@);
            match self.cameras[i].read(fresh[i]) {
                Ok(camera) => {
                    let ghost before = cameras@;
                    let ghost said = camera@;
                    cameras.push(camera);
                    assert(config::views(cameras@) =~= config::views(before).push(said));
                },
                Err(e) => {
                    proof {
                        lemma_cameras_read_fails(stored, fresh@, i + 1, stored.len() as int);
                    }
                    return Err(e);
                },
            }
            i = i + 1;
        }
        let open_at_login: bool = match self.open_at_login {
            Some(on) => on,
            None => false,
        };
        let smooth_playback: bool = match self.smooth_playback {
            Some(on) => on,
            None => false,
        };
        let mut config = Config {
            open_at_login,
            smooth_playback,
            slots,
            window: self.window,
            cameras,
        };
        config.sanitize();
        Ok(config)
    }

    /// The configuration that was stored, with fresh ids for cameras that are stored without one.
    pub fn read(&self) -> (res: Result<Config, StoredError>)
        ensures
            exists|fresh: Seq<CameraId>|
                fresh.len() == self@.cameras.len() && (forall|i: int|
                    0 <= i < fresh.len() ==> (#[trigger] fresh[i]).is_random()) && gives(
                    res,
                    #[trigger] config_read(self@, fresh),
                ),
    {
        let mut fresh: Vec<CameraId> = Vec::new();
        let mut i: usize = 0;
        while i < self.cameras.len()
            invariant
                i <= self.cameras@.len(),
                fresh@.len() == i,
                forall|k: int| 0 <= k < i ==> (#[trigger] fresh@[k]).is_random(),
            decreases self.cameras@.len() - i,
        {
            fresh.push(CameraId::new());
            i = i + 1;
        }
        let res = self.read_with(&fresh);
        assert(gives(res, config_read(self@, fresh@)));
        res
    }
}

/// A stored camera reads back as it was, whatever fresh id is at hand.
pub proof fn lemma_stored_camera_reads_back(camera: CameraView, fresh: CameraId)
    ensures
        camera_read(camera_stored(camera), fresh) == Ok::<CameraView, StoredErrorView>(camera),
{
    camera::lemma_written_id_reads_back(camera.id.0);
    reveal_strlit("main");
    reveal_strlit("sub");
    assert("main"@.len() != "sub"@.len());
}

proof fn lemma_stored_cameras_read_back(cameras: Seq<CameraView>, fresh: Seq<CameraId>, n: int)
    requires
        0 <= n <= cameras.len(),
        fresh.len() == cameras.len(),
    ensures
        cameras_read(cameras.map_values(|c: CameraView| camera_stored(c)), fresh, n) == Ok::<
            Seq<CameraView>,
            StoredErrorView,
        >(cameras.take(n)),
    decreases n,
{
    if n > 0 {
        lemma_stored_cameras_read_back(cameras, fresh, n - 1);
        lemma_stored_camera_reads_back(cameras[n - 1], fresh[n - 1]);
        assert(cameras.take(n) =~= cameras.take(n - 1).push(cameras[n - 1]));
    } else {
        assert(cameras.take(n) =~= Seq::<CameraView>::empty());
    }
}

/// A valid configuration reads back as it was stored.
pub proof fn lemma_stored_config_reads_back(config: ConfigView, fresh: Seq<CameraId>)
    requires
        config.valid(),
        config.slots.len() == SLOT_COUNT,
        fresh.len() == config.cameras.len(),
    ensures
        config_read(config_stored(config), fresh) == Ok::<ConfigView, StoredErrorView>(config),
{
    let stored = config_stored(config);
    let raw = stored.slots->0;
    assert forall|j: int| 0 <= j < SLOT_COUNT && j < raw.len() implies config::slot_of_text(
        #[trigger] raw[j],
    ) == Some(config.slots[j]) by {
        config::lemma_stored_slot_reads_back(config.slots[j]);
    }
    lemma_bad_slot(raw, SLOT_COUNT as int, 0);
    let slots = slots_read(stored.slots)->Ok_0;
    assert forall|i: int| 0 <= i < SLOT_COUNT implies slots[i] == config.slots[i] by {
        assert(config::slot_of_text(raw[i]) == Some(config.slots[i]));
    }
    assert(slots =~= config.slots);
    lemma_stored_cameras_read_back(config.cameras, fresh, config.cameras.len() as int);
    assert(config.cameras.take(config.cameras.len() as int) =~= config.cameras);
    config::lemma_sanitized_keeps_good_slots(config.slots, config.cameras);
}

/// Whatever was stored, what is read has slots that are in order.
pub proof fn lemma_read_slots_are_in_order(stored: StoredView, fresh: Seq<CameraId>)
    requires
        config_read(stored, fresh) is Ok,
    ensures
        ({
            let config = config_read(stored, fresh)->Ok_0;
            config::known_slots(config.slots, config.cameras) && config::distinct_slots(
                config.slots,
            )
        }),
{
    let config = config_read(stored, fresh)->Ok_0;
    let slots = slots_read(stored.slots)->Ok_0;
    config::lemma_sanitized_slots(slots, config.cameras);
}

/// What is not stored of a camera takes its usual value: port 554, the main stream, no user name
/// and no password, and the fresh id.
pub proof fn lemma_missing_values_are_the_usual_ones(
    stored: StoredCameraView,
    fresh: CameraId,
)
    requires
        stored.id is None,
        stored.stream is None,
    ensures
        ({
            let camera = camera_read(stored, fresh)->Ok_0;
            &&& camera_read(stored, fresh) is Ok
            &&& camera.id == fresh
            &&& camera.name == stored.name
            &&& camera.host == stored.host
            &&& camera.stream == StreamKind::Main
            &&& stored.port is None ==> camera.port == 554
            &&& stored.port is Some ==> camera.port == stored.port->0
            &&& stored.username is None ==> camera.username.len() == 0
            &&& stored.username is Some ==> camera.username == stored.username->0
            &&& stored.password is None ==> camera.password.len() == 0
            &&& stored.password is Some ==> camera.password == stored.password->0
        }),
{
}

/// The kinds of stream have different names, and no other text is one.
pub proof fn lemma_names_of_the_streams(s: Seq<char>, stream: StreamKind)
    ensures
        stream_named(stream_name(stream)) == Some(stream),
        s != seq!['m', 'a', 'i', 'n'] && s != seq!['s', 'u', 'b'] ==> stream_named(s) is None,
        stream_named(seq!['m', 'a', 'i', 'n']) == Some(StreamKind::Main),
        stream_named(seq!['s', 'u', 'b']) == Some(StreamKind::Sub),
{
    reveal_strlit("main");
    reveal_strlit("sub");
    assert("main"@ =~= seq!['m', 'a', 'i', 'n']);
    assert("sub"@ =~= seq!['s', 'u', 'b']);
    assert("main"@.len() != "sub"@.len());
}

/// Without stored slots all four are empty; there are four whatever is stored, those behind the
/// stored ones empty, and stored ones behind the fourth are passed over. One text among the first
/// four that is no slot makes the whole unreadable.
pub proof fn lemma_stored_slots_fill_four(raw: Seq<Seq<char>>, i: int)
    requires
        0 <= i < 4,
    ensures
        slots_read(None) == Ok::<Seq<Option<CameraId>>, StoredErrorView>(
            seq![None, None, None, None],
        ),
        slots_read(Some(raw)) is Ok ==> {
            let slots = slots_read(Some(raw))->Ok_0;
            &&& slots.len() == 4
            &&& i >= raw.len() ==> slots[i] is None
            &&& i < raw.len() ==> config::slot_of_text(raw[i]) == Some(slots[i])
        },
        i < raw.len() && config::slot_of_text(raw[i]) is None ==> slots_read(Some(raw)) is Err,
        raw.len() >= 4 ==> slots_read(Some(raw)) == slots_read(Some(raw.take(4))),
{
    reveal_with_fuel(bad_slot, 5);
    if raw.len() >= 4 {
        let cut = raw.take(4);
        assert(bad_slot(cut, 4) == bad_slot(raw, 4));
        if bad_slot(raw, 4) is None {
            assert(slots_read(Some(raw))->Ok_0 =~= slots_read(Some(cut))->Ok_0);
        }
    }
}

/// The cameras are read in their order, one for each that is stored, and one that cannot be read
/// makes the whole unreadable.
pub proof fn lemma_cameras_are_read_in_order(
    stored: Seq<StoredCameraView>,
    fresh: Seq<CameraId>,
    n: int,
    i: int,
)
    requires
        0 <= i < n <= stored.len(),
        n <= fresh.len(),
    ensures
        cameras_read(stored, fresh, n) is Ok ==> {
            let cameras = cameras_read(stored, fresh, n)->Ok_0;
            &&& cameras.len() == n
            &&& camera_read(stored[i], fresh[i]) == Ok::<CameraView, StoredErrorView>(cameras[i])
        },
        camera_read(stored[i], fresh[i]) is Err ==> cameras_read(stored, fresh, n) is Err,
    decreases n,
{
    if n == 1 {
        reveal_with_fuel(cameras_read, 2);
    } else {
        if i < n - 1 {
            lemma_cameras_are_read_in_order(stored, fresh, n - 1, i);
        } else {
            lemma_cameras_are_read_in_order(stored, fresh, n - 1, 0);
        }
    }
}

/// A switch that is not stored is off; a stored one is what it says. The window is where it was.
pub proof fn lemma_missing_switches_are_off(stored: StoredView, fresh: Seq<CameraId>)
    requires
        config_read(stored, fresh) is Ok,
    ensures
        ({
            let config = config_read(stored, fresh)->Ok_0;
            &&& stored.open_at_login is None ==> !config.open_at_login
            &&& stored.open_at_login is Some ==> config.open_at_login == stored.open_at_login->0
            &&& stored.smooth_playback is None ==> !config.smooth_playback
            &&& stored.smooth_playback is Some ==> config.smooth_playback
                == stored.smooth_playback->0
            &&& config.window == stored.window
        }),
{
}

}
