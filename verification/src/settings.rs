//! The camera settings: the form of one camera, the connection test, the slot assignment and the
//! preferences.
use vstd::prelude::*;
use vstd::string::*;

use crate::camera::{
    self, validate_camera, CameraConfig, CameraId, CameraView, Secret, StreamKind,
    DEFAULT_RTSP_PORT,
};
use crate::config::{self, Config, ConfigView, SLOT_COUNT};
use crate::dropdown::{self, DropdownItem, ItemView};
use crate::listing::{self, sorted_cameras};
use crate::mosaic::{self, find_elsewhere, slot_label};
use crate::rtsp::ProbeInfo;
use crate::single;
use crate::text;
use crate::tile::StatusColor;

verus! {

/// Which camera the form is for.
#[derive(Clone, Copy, Debug, PartialEq, Eq, Structural)]
pub enum Selection {
    /// A camera that does not exist yet; the id is fixed so that test and save agree.
    New(CameraId),
    Existing(CameraId),
}

impl Selection {
    pub open spec fn camera(self) -> CameraId {
        match self {
            Selection::New(id) => id,
            Selection::Existing(id) => id,
        }
    }

    pub fn id(self) -> (res: CameraId)
        ensures
            res == self.camera(),
    {
        match self {
            Selection::New(id) => id,
            Selection::Existing(id) => id,
        }
    }
}

/// What is written in the form.
pub struct FormTexts {
    pub name: String,
    pub host: String,
    pub port: String,
    pub username: String,
    pub password: String,
}

/// What [`FormTexts`] say.
pub struct TextsView {
    pub name: Seq<char>,
    pub host: Seq<char>,
    pub port: Seq<char>,
    pub username: Seq<char>,
    pub password: Seq<char>,
}

impl View for FormTexts {
    type V = TextsView;

    open spec fn view(&self) -> TextsView {
        TextsView {
            name: self.name@,
            host: self.host@,
            port: self.port@,
            username: self.username@,
            password: self.password@,
        }
    }
}

/// The connection test.
pub enum ProbeState {
    Idle,
    Running,
    Done(Result<ProbeInfo, String>),
}

/// What a connection test has found.
pub struct FoundView {
    pub codec: Seq<char>,
    pub width: u32,
    pub height: u32,
    pub fps: Option<u64>,
}

/// What a [`ProbeState`] says.
pub enum ProbeView {
    Idle,
    Running,
    Found(FoundView),
    Failed(Seq<char>),
}

/// What the result of a connection test says.
pub open spec fn probed(result: Result<ProbeInfo, String>) -> ProbeView {
    match result {
        Ok(info) => ProbeView::Found(
            FoundView {
                codec: info.codec@,
                width: info.width,
                height: info.height,
                fps: info.fps,
            },
        ),
        Err(reason) => ProbeView::Failed(reason@),
    }
}

impl View for ProbeState {
    type V = ProbeView;

    open spec fn view(&self) -> ProbeView {
        match self {
            ProbeState::Idle => ProbeView::Idle,
            ProbeState::Running => ProbeView::Running,
            ProbeState::Done(result) => probed(*result),
        }
    }
}

/// The state of the settings window.
pub struct SettingsView {
    selection: Selection,
    /// What the form was last loaded from (or saved as); the form is dirty when it differs.
    loaded: CameraConfig,
    stream: StreamKind,
    /// Camera behind each row of the slot dropdowns (none for "No camera").
    slot_options: Vec<Option<CameraId>>,
    form_error: Option<String>,
    slot_error: Option<String>,
    login_error: Option<String>,
    smooth_error: Option<String>,
    probe: ProbeState,
    confirm_remove: bool,
}

/// What a [`SettingsView`] holds.
pub struct SettingsModel {
    pub selection: Selection,
    pub loaded: CameraView,
    pub stream: StreamKind,
    pub slot_options: Seq<Option<CameraId>>,
    pub form_error: Option<Seq<char>>,
    pub slot_error: Option<Seq<char>>,
    pub login_error: Option<Seq<char>>,
    pub smooth_error: Option<Seq<char>>,
    pub probe: ProbeView,
    pub confirm_remove: bool,
}

impl View for SettingsView {
    type V = SettingsModel;

    closed spec fn view(&self) -> SettingsModel {
        SettingsModel {
            selection: self.selection,
            loaded: self.loaded@,
            stream: self.stream,
            slot_options: self.slot_options@,
            form_error: dropdown::said(self.form_error),
            slot_error: dropdown::said(self.slot_error),
            login_error: dropdown::said(self.login_error),
            smooth_error: dropdown::said(self.smooth_error),
            probe: self.probe@,
            confirm_remove: self.confirm_remove,
        }
    }
}

/// The port that a text stands for: the usual one for no text, and none that is valid for
/// anything that is no port.
pub open spec fn port_of(s: Seq<char>) -> u16 {
    let digits = text::trimmed(s);
    if digits.len() == 0 {
        DEFAULT_RTSP_PORT
    } else if text::is_u16(digits) {
        text::decimal_value(text::unsigned_digits(digits)) as u16
    } else {
        0
    }
}

/// A camera of which nothing is known.
pub open spec fn blank(id: CameraId) -> CameraView {
    CameraView {
        id,
        name: Seq::empty(),
        host: Seq::empty(),
        port: DEFAULT_RTSP_PORT,
        stream: StreamKind::Main,
        username: Seq::empty(),
        password: Seq::empty(),
    }
}

/// The form filled from a camera; an empty one without.
pub open spec fn texts_of(camera: Option<CameraView>) -> TextsView {
    match camera {
        Some(camera) => TextsView {
            name: camera.name,
            host: camera.host,
            port: text::decimal(camera.port as nat),
            username: camera.username,
            password: camera.password,
        },
        None => TextsView {
            name: Seq::empty(),
            host: Seq::empty(),
            port: Seq::empty(),
            username: Seq::empty(),
            password: Seq::empty(),
        },
    }
}

/// The rows of the slot dropdowns: no camera, then the cameras as they are listed.
pub open spec fn options_of(config: ConfigView) -> Seq<Option<CameraId>> {
    seq![None::<CameraId>] + listing::listed(
        config.cameras,
        config.cameras.len() as int,
    ).map_values(|c: CameraView| Some(c.id))
}

/// The camera that is listed first.
pub open spec fn first_listed(config: ConfigView) -> Option<CameraId> {
    let all = listing::listed(config.cameras, config.cameras.len() as int);
    if all.len() > 0 {
        Some(all[0].id)
    } else {
        None
    }
}

/// The camera with this id.
pub open spec fn stored(config: ConfigView, id: CameraId) -> Option<CameraView> {
    if config::known(config.cameras, id) {
        Some(config.cameras[choose|i: int| config::first_at(config.cameras, id, i)])
    } else {
        None
    }
}

impl SettingsModel {
    /// The camera as the form describes it (may be invalid).
    pub open spec fn form_camera(self, texts: TextsView) -> CameraView {
        CameraView {
            id: self.selection.camera(),
            name: text::trimmed(texts.name),
            host: text::trimmed(texts.host),
            port: port_of(texts.port),
            stream: self.stream,
            username: text::trimmed(texts.username),
            password: texts.password,
        }
    }

    /// Whether the form differs from what it was loaded from.
    pub open spec fn dirty(self, texts: TextsView) -> bool {
        self.form_camera(texts) != self.loaded
    }

    /// With the form of a camera, or an empty one, as the clean baseline.
    pub open spec fn loading(self, selection: Selection, camera: Option<CameraView>) -> SettingsModel {
        SettingsModel {
            selection,
            loaded: match camera {
                Some(camera) => camera,
                None => blank(selection.camera()),
            },
            stream: match camera {
                Some(camera) => camera.stream,
                None => StreamKind::Main,
            },
            form_error: None,
            probe: ProbeView::Idle,
            confirm_remove: false,
            ..self
        }
    }

    /// With the camera that is listed first; with a new one, under the id `fresh`, without any.
    pub open spec fn showing_first(self, config: ConfigView, fresh: CameraId) -> (
        SettingsModel,
        TextsView,
    ) {
        match first_listed(config) {
            Some(id) => (
                self.loading(Selection::Existing(id), stored(config, id)),
                texts_of(stored(config, id)),
            ),
            None => (self.loading(Selection::New(fresh), None), texts_of(None)),
        }
    }

    /// After the choice of a stream.
    pub open spec fn choosing(self, stream: StreamKind) -> SettingsModel {
        if self.stream == stream {
            self
        } else {
            SettingsModel { stream, form_error: None, ..self }
        }
    }

    /// After a camera was saved, or refused for a reason.
    pub open spec fn saving(self, camera: CameraView, refusal: Option<Seq<char>>) -> SettingsModel {
        match refusal {
            None => SettingsModel {
                selection: Selection::Existing(camera.id),
                loaded: camera,
                form_error: None,
                confirm_remove: false,
                ..self
            },
            Some(reason) => SettingsModel { form_error: Some(reason), ..self },
        }
    }

    /// After a connection test was asked for, and the camera to test, if it starts.
    pub open spec fn testing(self, texts: TextsView) -> (SettingsModel, Option<CameraView>) {
        let camera = self.form_camera(texts);
        if self.probe is Running {
            (self, None)
        } else {
            match camera::camera_problem(camera) {
                Some(problem) => (SettingsModel { form_error: Some(problem), ..self }, None),
                None => (
                    SettingsModel { form_error: None, probe: ProbeView::Running, ..self },
                    Some(camera),
                ),
            }
        }
    }

    /// What pressing "Remove" means.
    pub open spec fn removal(self) -> RemoveStep {
        match self.selection {
            Selection::New(_) => RemoveStep::Nothing,
            Selection::Existing(id) => if self.confirm_remove {
                RemoveStep::Remove(id)
            } else {
                RemoveStep::Ask
            },
        }
    }

    /// After "Remove" was pressed.
    pub open spec fn removing(self) -> SettingsModel {
        if self.removal() == RemoveStep::Ask {
            SettingsModel { confirm_remove: true, ..self }
        } else {
            self
        }
    }

    /// After a camera could not be removed, for a reason.
    pub open spec fn kept(self, reason: Seq<char>) -> SettingsModel {
        SettingsModel { confirm_remove: false, form_error: Some(reason), ..self }
    }

    /// After the configuration changed: the slot rows follow; the form of a removed camera gives
    /// way to another one, and that of a changed camera is refreshed unless it is being edited.
    /// The form's new texts, if it was filled.
    pub open spec fn following(self, config: ConfigView, texts: TextsView, fresh: CameraId) -> (
        SettingsModel,
        Option<TextsView>,
    ) {
        let rebuilt = SettingsModel { slot_options: options_of(config), ..self };
        match self.selection {
            Selection::New(_) => (rebuilt, None),
            Selection::Existing(id) => match stored(config, id) {
                None => {
                    let (next, filled) = rebuilt.showing_first(config, fresh);
                    (next, Some(filled))
                },
                Some(camera) => if camera != self.loaded && !self.dirty(texts) {
                    (
                        rebuilt.loading(self.selection, Some(camera)),
                        Some(texts_of(Some(camera))),
                    )
                } else {
                    (rebuilt, None)
                },
            },
        }
    }
}

/// Whether the texts are these.
pub open spec fn fills(res: Option<FormTexts>, texts: Option<TextsView>) -> bool {
    match texts {
        Some(texts) => res is Some && (res->0)@ == texts,
        None => res is None,
    }
}

fn parse_port(s: &str) -> (res: u16)
    ensures
        res == port_of(s@),
{
    let digits = text::trim(s);
    if digits.as_str().is_empty() {
        return DEFAULT_RTSP_PORT;
    }
    match text::parse_u16(digits.as_str()) {
        Some(port) => port,
        None => 0,
    }
}

proof fn lemma_first_listed_is_known(config: ConfigView)
    requires
        first_listed(config) is Some,
    ensures
        config::known(config.cameras, first_listed(config)->0),
{
    broadcast use vstd::seq_lib::group_to_multiset_ensures;

    let cameras = config.cameras;
    let all = listing::listed(cameras, cameras.len() as int);
    listing::lemma_listed(cameras, cameras.len() as int);
    assert(cameras.take(cameras.len() as int) =~= cameras);
    assert(all.contains(all[0]));
    assert(all.to_multiset().contains(all[0]));
    assert(cameras.to_multiset().contains(all[0]));
    assert(cameras.contains(all[0]));
    let k = choose|k: int| 0 <= k < cameras.len() && cameras[k] == all[0];
    assert(cameras[k].id == all[0].id);
}

/// The camera that is listed first.
fn find_first(config: &Config) -> (res: Option<CameraId>)
    ensures
        res == first_listed(config@),
{
    let all = sorted_cameras(&config.cameras);
    if all.len() > 0 {
        assert(config::views(all@)[0] == all@[0]@);
        Some(all[0].id)
    } else {
        None
    }
}

/// What an error says, if there is one.
fn reason_of(result: Result<(), String>) -> (res: Option<String>)
    ensures
        dropdown::said(res) == (match result {
            Ok(_) => None,
            Err(reason) => Some(reason@),
        }),
{
    match result {
        Ok(_) => None,
        Err(reason) => Some(reason),
    }
}

/// What pressing "Remove" means.
#[derive(Clone, Copy, Debug, PartialEq, Eq, Structural)]
pub enum RemoveStep {
    /// There is nothing to remove.
    Nothing,
    /// Ask once more.
    Ask,
    Remove(CameraId),
}

impl SettingsView {
    /// Settings for the configuration `config`, with a fresh id for a new camera. What to fill
    /// the form with.
    pub fn new_with(config: &Config, fresh: CameraId) -> (res: (SettingsView, FormTexts))
        ensures
            ({
                let start = SettingsModel {
                    selection: Selection::New(fresh),
                    loaded: blank(fresh),
                    stream: StreamKind::Main,
                    slot_options: options_of(config@),
                    form_error: None,
                    slot_error: None,
                    login_error: None,
                    smooth_error: None,
                    probe: ProbeView::Idle,
                    confirm_remove: false,
                };
                (res.0@, res.1@) == start.showing_first(config@, fresh)
            }),
    {
        let mut settings = SettingsView {
            selection: Selection::New(fresh),
            loaded: blank_camera(fresh),
            stream: StreamKind::Main,
            slot_options: slot_options(config),
            form_error: None,
            slot_error: None,
            login_error: None,
            smooth_error: None,
            probe: ProbeState::Idle,
            confirm_remove: false,
        };
        let texts = settings.show_first(config, fresh);
        (settings, texts)
    }

    /// Settings for the configuration `config`. What to fill the form with.
    pub fn new(config: &Config) -> (res: (SettingsView, FormTexts))
        ensures
            exists|fresh: CameraId|
                fresh.is_random() && (res.0@, res.1@) == (#[trigger] (SettingsModel {
                    selection: Selection::New(fresh),
                    loaded: blank(fresh),
                    stream: StreamKind::Main,
                    slot_options: options_of(config@),
                    form_error: None,
                    slot_error: None,
                    login_error: None,
                    smooth_error: None,
                    probe: ProbeView::Idle,
                    confirm_remove: false,
                }).showing_first(config@, fresh)),
    {
        Self::new_with(config, CameraId::new())
    }

    /// The camera as the form describes it (may be invalid).
    pub fn form_camera(&self, texts: &FormTexts) -> (res: CameraConfig)
        ensures
            res@ == self@.form_camera(texts@),
    {
        CameraConfig {
            id: self.selection.id(),
            name: text::trim(texts.name.as_str()),
            host: text::trim(texts.host.as_str()),
            port: parse_port(texts.port.as_str()),
            stream: self.stream,
            username: text::trim(texts.username.as_str()),
            password: Secret::new(texts.password.as_str()),
        }
    }

    /// Whether the form differs from what it was loaded from.
    pub fn is_dirty(&self, texts: &FormTexts) -> (res: bool)
        ensures
            res == self@.dirty(texts@),
    {
        self.form_camera(texts) != self.loaded
    }

    /// Makes `camera`, or an empty form, the clean baseline. What to fill the form with.
    fn load_form(&mut self, selection: Selection, camera: Option<&CameraConfig>) -> (res: FormTexts)
        ensures
            ({
                let said = match camera {
                    Some(camera) => Some(camera@),
                    None => None,
                };
                &&& final(self)@ == old(self)@.loading(selection, said)
                &&& res@ == texts_of(said)
            }),
    {
        self.selection = selection;
        self.form_error = None;
        self.probe = ProbeState::Idle;
        self.confirm_remove = false;
        match camera {
            Some(camera) => {
                self.loaded = camera.clone();
                self.stream = camera.stream;
                FormTexts {
                    name: camera.name.clone(),
                    host: camera.host.clone(),
                    port: text::to_decimal(camera.port as u64),
                    username: camera.username.clone(),
                    password: camera.password.expose().to_owned(),
                }
            },
            None => {
                self.loaded = blank_camera(selection.id());
                self.stream = StreamKind::Main;
                FormTexts {
                    name: String::new(),
                    host: String::new(),
                    port: String::new(),
                    username: String::new(),
                    password: String::new(),
                }
            },
        }
    }

    /// Shows a camera of the configuration. What to fill the form with; nothing for a camera
    /// that is not there.
    pub fn select(&mut self, config: &Config, id: CameraId) -> (res: Option<FormTexts>)
        ensures
            match stored(config@, id) {
                Some(camera) => {
                    &&& final(self)@ == old(self)@.loading(
                        Selection::Existing(id),
                        Some(camera),
                    )
                    &&& fills(res, Some(texts_of(Some(camera))))
                },
                None => final(self)@ == old(self)@ && res is None,
            },
    {
        match config.camera(id) {
            Some(camera) => Some(self.load_form(Selection::Existing(id), Some(camera))),
            None => None,
        }
    }

    /// Starts a camera with the id `fresh`. What to fill the form with.
    pub fn new_camera_with(&mut self, fresh: CameraId) -> (res: FormTexts)
        ensures
            final(self)@ == old(self)@.loading(Selection::New(fresh), None),
            res@ == texts_of(None),
    {
        self.load_form(Selection::New(fresh), None)
    }

    /// Starts a camera with a fresh id. What to fill the form with.
    pub fn new_camera(&mut self) -> (res: FormTexts)
        ensures
            exists|fresh: CameraId|
                fresh.is_random() && final(self)@ == #[trigger] old(self)@.loading(
                    Selection::New(fresh),
                    None,
                ),
            res@ == texts_of(None),
    {
        self.new_camera_with(CameraId::new())
    }

    /// Shows the camera that is listed first, or a new one without any.
    fn show_first(&mut self, config: &Config, fresh: CameraId) -> (res: FormTexts)
        ensures
            (final(self)@, res@) == old(self)@.showing_first(config@, fresh),
    {
        match find_first(config) {
            Some(id) => {
                proof {
                    lemma_first_listed_is_known(config@);
                    config::lemma_known_has_first(config@.cameras, id);
                }
                match config.camera(id) {
                    Some(camera) => self.load_form(Selection::Existing(id), Some(camera)),
                    None => self.new_camera_with(fresh),
                }
            },
            None => self.new_camera_with(fresh),
        }
    }

    /// Follows a change of the configuration, with a fresh id for a new camera. What to fill the
    /// form with, if it is to be filled.
    pub fn on_state_changed_with(
        &mut self,
        config: &Config,
        texts: &FormTexts,
        fresh: CameraId,
    ) -> (res: Option<FormTexts>)
        ensures
            final(self)@ == old(self)@.following(config@, texts@, fresh).0,
            fills(res, old(self)@.following(config@, texts@, fresh).1),
    {
        let dirty = self.is_dirty(texts);
        self.slot_options = slot_options(config);
        let id = match self.selection {
            Selection::Existing(id) => id,
            Selection::New(_) => {
                return None;
            },
        };
        match config.camera(id) {
            None => Some(self.show_first(config, fresh)),
            Some(camera) => {
                if *camera != self.loaded && !dirty {
                    Some(self.load_form(Selection::Existing(id), Some(camera)))
                } else {
                    None
                }
            },
        }
    }

    /// Follows a change of the configuration. What to fill the form with, if it is to be filled.
    pub fn on_state_changed(&mut self, config: &Config, texts: &FormTexts) -> (res: Option<
        FormTexts,
    >)
        ensures
            exists|fresh: CameraId|
                {
                    let (next, filled) = #[trigger] old(self)@.following(config@, texts@, fresh);
                    fresh.is_random() && final(self)@ == next && fills(res, filled)
                },
    {
        let fresh = CameraId::new();
        let res = self.on_state_changed_with(config, texts, fresh);
        assert({
            let (next, filled) = old(self)@.following(config@, texts@, fresh);
            self@ == next && fills(res, filled)
        });
        res
    }

    /// The form was edited.
    pub fn on_edit(&mut self)
        ensures
            final(self)@ == (SettingsModel { form_error: None, ..old(self)@ }),
    {
        self.form_error = None;
    }

    /// Chooses the stream to pull. Whether that is another one.
    pub fn choose_stream(&mut self, stream: StreamKind) -> (res: bool)
        ensures
            res == (old(self)@.stream != stream),
            final(self)@ == old(self)@.choosing(stream),
    {
        if self.stream == stream {
            return false;
        }
        self.stream = stream;
        self.form_error = None;
        true
    }

    /// The camera to save; none while the form is clean.
    pub fn save(&self, texts: &FormTexts) -> (res: Option<CameraConfig>)
        ensures
            res is Some == self@.dirty(texts@),
            res is Some ==> (res->0)@ == self@.form_camera(texts@),
    {
        let camera = self.form_camera(texts);
        if camera != self.loaded {
            Some(camera)
        } else {
            None
        }
    }

    /// The camera was saved, or refused for this reason.
    pub fn saved(&mut self, camera: CameraConfig, result: Result<(), String>)
        ensures
            final(self)@ == old(self)@.saving(
                camera@,
                match result {
                    Ok(_) => None,
                    Err(reason) => Some(reason@),
                },
            ),
    {
        match result {
            Ok(_) => {
                self.selection = Selection::Existing(camera.id);
                self.loaded = camera;
                self.form_error = None;
                self.confirm_remove = false;
            },
            Err(reason) => {
                self.form_error = Some(reason);
            },
        }
    }

    /// The camera to test the connection of; none while a test runs, or where the form is not
    /// valid, which is then said.
    pub fn test_connection(&mut self, texts: &FormTexts) -> (res: Option<CameraConfig>)
        ensures
            final(self)@ == old(self)@.testing(texts@).0,
            match old(self)@.testing(texts@).1 {
                Some(camera) => res is Some && (res->0)@ == camera,
                None => res is None,
            },
    {
        if matches!(self.probe, ProbeState::Running) {
            return None;
        }
        let camera = self.form_camera(texts);
        match validate_camera(&camera) {
            Err(e) => {
                self.form_error = Some(e.to_text());
                None
            },
            Ok(_) => {
                self.form_error = None;
                self.probe = ProbeState::Running;
                Some(camera)
            },
        }
    }

    /// The connection test ended.
    pub fn tested(&mut self, result: Result<ProbeInfo, String>)
        ensures
            final(self)@ == (SettingsModel { probe: probed(result), ..old(self)@ }),
    {
        self.probe = ProbeState::Done(result);
    }

    /// "Remove" was pressed: the first press asks, the second one removes.
    pub fn remove(&mut self) -> (res: RemoveStep)
        ensures
            res == old(self)@.removal(),
            final(self)@ == old(self)@.removing(),
    {
        match self.selection {
            Selection::New(_) => RemoveStep::Nothing,
            Selection::Existing(id) => {
                if self.confirm_remove {
                    RemoveStep::Remove(id)
                } else {
                    self.confirm_remove = true;
                    RemoveStep::Ask
                }
            },
        }
    }

    /// The camera was removed, which left `config`, or not, for this reason; with a fresh id for
    /// a new camera. What to fill the form with, if it is to be filled.
    pub fn removed_with(
        &mut self,
        result: Result<(), String>,
        config: &Config,
        fresh: CameraId,
    ) -> (res: Option<FormTexts>)
        ensures
            match result {
                Ok(_) => {
                    let (next, filled) = old(self)@.showing_first(config@, fresh);
                    final(self)@ == next && fills(res, Some(filled))
                },
                Err(reason) => res is None && final(self)@ == old(self)@.kept(reason@),
            },
    {
        match result {
            Ok(_) => Some(self.show_first(config, fresh)),
            Err(reason) => {
                self.confirm_remove = false;
                self.form_error = Some(reason);
                None
            },
        }
    }

    /// The camera was removed, which left `config`, or not, for this reason. What to fill the
    /// form with, if it is to be filled.
    pub fn removed(&mut self, result: Result<(), String>, config: &Config) -> (res: Option<
        FormTexts,
    >)
        ensures
            match result {
                Ok(_) => exists|fresh: CameraId|
                    {
                        let (next, filled) = #[trigger] old(self)@.showing_first(config@, fresh);
                        fresh.is_random() && final(self)@ == next && fills(res, Some(filled))
                    },
                Err(reason) => res is None && final(self)@ == old(self)@.kept(reason@),
            },
    {
        let fresh = CameraId::new();
        let res = self.removed_with(result, config, fresh);
        proof {
            if result is Ok {
                assert({
                    let (next, filled) = old(self)@.showing_first(config@, fresh);
                    self@ == next && fills(res, Some(filled))
                });
            }
        }
        res
    }

    /// The camera behind a row of the slot dropdowns.
    pub fn option_at(&self, index: usize) -> (res: Option<CameraId>)
        ensures
            res == (if index < self@.slot_options.len() {
                self@.slot_options[index as int]
            } else {
                None
            }),
    {
        if index < self.slot_options.len() {
            self.slot_options[index]
        } else {
            None
        }
    }

    /// A slot was assigned, or not, for this reason.
    pub fn assigned(&mut self, result: Result<(), String>)
        ensures
            final(self)@ == (SettingsModel {
                slot_error: match result {
                    Ok(_) => None,
                    Err(reason) => Some(reason@),
                },
                ..old(self)@
            }),
    {
        self.slot_error = reason_of(result);
    }

    /// "Open at login" was changed, or not, for this reason.
    pub fn login_changed(&mut self, result: Result<(), String>)
        ensures
            final(self)@ == (SettingsModel {
                login_error: match result {
                    Ok(_) => None,
                    Err(reason) => Some(reason@),
                },
                ..old(self)@
            }),
    {
        self.login_error = reason_of(result);
    }

    /// "Smooth playback" was changed, or not, for this reason.
    pub fn smooth_changed(&mut self, result: Result<(), String>)
        ensures
            final(self)@ == (SettingsModel {
                smooth_error: match result {
                    Ok(_) => None,
                    Err(reason) => Some(reason@),
                },
                ..old(self)@
            }),
    {
        self.smooth_error = reason_of(result);
    }
}

/// A camera of which nothing is known.
fn blank_camera(id: CameraId) -> (res: CameraConfig)
    ensures
        res@ == blank(id),
{
    CameraConfig {
        id,
        name: String::new(),
        host: String::new(),
        port: DEFAULT_RTSP_PORT,
        stream: StreamKind::Main,
        username: String::new(),
        password: Secret::default(),
    }
}

/// The rows of the slot dropdowns: no camera, then the cameras as they are listed.
pub fn slot_options(config: &Config) -> (res: Vec<Option<CameraId>>)
    ensures
        res@ == options_of(config@),
{
    let cameras = sorted_cameras(&config.cameras);
    let ghost listed = config::views(cameras@);
    let ghost ids = listed.map_values(|c: CameraView| Some(c.id));
    let mut out: Vec<Option<CameraId>> = Vec::new();
    out.push(None);
    let mut i: usize = 0;
    assert(out@ =~= seq![None::<CameraId>] + ids.take(0));
    while i < cameras.len()
        invariant
            i <= cameras@.len(),
            listed == config::views(cameras@),
            ids == listed.map_values(|c: CameraView| Some(c.id)),
            out@ == seq![None::<CameraId>] + ids.take(i as int),
        decreases cameras@.len() - i,
    {
        assert(ids[i as int] == Some(cameras@[i as int].id));
        out.push(Some(cameras[i].id));
        assert(out@ =~= seq![None::<CameraId>] + ids.take(i + 1));
        i = i + 1;
    }
    assert(ids.take(i as int) =~= ids);
    out
}

/// The option of a camera in the dropdown of `slot`.
pub open spec fn option_item(config: ConfigView, slot: int, camera: CameraView) -> ItemView {
    ItemView {
        label: camera.name,
        hint: match mosaic::elsewhere(config, camera.id, slot) {
            Some(other) => Some("(in "@ + mosaic::label_of(other) + ")"@),
            None => None,
        },
    }
}

/// The options in the dropdown of `slot`.
pub open spec fn slot_items_of(config: ConfigView, slot: int) -> Seq<ItemView> {
    seq![ItemView { label: "No camera"@, hint: None }] + listing::listed(
        config.cameras,
        config.cameras.len() as int,
    ).map_values(|c: CameraView| option_item(config, slot, c))
}

/// The first of the first `n` rows that stands for `camera`; the first row of all without one.
pub open spec fn row_of(options: Seq<Option<CameraId>>, camera: Option<CameraId>, n: int) -> int
    decreases n,
{
    if n <= 0 || camera is None {
        0
    } else if exists|k: int| 0 <= k < n - 1 && options[k] == camera {
        row_of(options, camera, n - 1)
    } else if options[n - 1] == camera {
        n - 1
    } else {
        0
    }
}

proof fn lemma_row_of(options: Seq<Option<CameraId>>, camera: Option<CameraId>, n: int, i: int)
    requires
        0 <= n <= options.len(),
        camera is Some,
    ensures
        0 <= i < n && options[i] == camera && (forall|k: int| 0 <= k < i ==> options[k] != camera)
            ==> row_of(options, camera, n) == i,
        (forall|k: int| 0 <= k < n ==> options[k] != camera) ==> row_of(options, camera, n) == 0,
    decreases n,
{
    if n > 0 {
        lemma_row_of(options, camera, n - 1, i);
    }
}

/// The options in the dropdown of `slot`, and the row that is chosen.
pub fn slot_items(config: &Config, slot: usize) -> (res: (Vec<DropdownItem>, usize))
    requires
        slot < SLOT_COUNT,
    ensures
        dropdown::items_of(res.0@) == slot_items_of(config@, slot as int),
        res.1 == row_of(
            options_of(config@),
            config@.slots[slot as int],
            options_of(config@).len() as int,
        ),
{
    let cameras = sorted_cameras(&config.cameras);
    let ghost listed = config::views(cameras@);
    let ghost head = seq![ItemView { label: "No camera"@, hint: None }];
    let ghost rest = listed.map_values(|c: CameraView| option_item(config@, slot as int, c));
    let mut out: Vec<DropdownItem> = Vec::new();
    out.push(DropdownItem::new("No camera"));
    let mut i: usize = 0;
    assert(dropdown::items_of(out@) =~= head + rest.take(0));
    while i < cameras.len()
        invariant
            i <= cameras@.len(),
            slot < SLOT_COUNT,
            listed == config::views(cameras@),
            rest == listed.map_values(|c: CameraView| option_item(config@, slot as int, c)),
            dropdown::items_of(out@) == head + rest.take(i as int),
        decreases cameras@.len() - i,
    {
        assert(listed[i as int] == cameras@[i as int]@);
        let item = DropdownItem::new(cameras[i].name.as_str());
        let item = match find_elsewhere(config, cameras[i].id, slot) {
            Some(other) => {
                let mut hint = "(in ".to_owned();
                hint.append(slot_label(other));
                hint.append(")");
                item.hint(hint.as_str())
            },
            None => item,
        };
        assert(item@ == rest[i as int]);
        let ghost before = out@;
        out.push(item);
        assert(dropdown::items_of(out@) =~= dropdown::items_of(before).push(rest[i as int]));
        assert(head + rest.take(i + 1) =~= (head + rest.take(i as int)).push(rest[i as int]));
        i = i + 1;
    }
    assert(rest.take(i as int) =~= rest);
    let options = slot_options(config);
    let chosen: usize = match config.slots[slot] {
        None => 0,
        Some(id) => {
            let mut k: usize = 0;
            let mut found: bool = false;
            while k < options.len() && !found
                invariant
                    k <= options@.len(),
                    forall|j: int| 0 <= j < k ==> options@[j] != Some(id),
                    found ==> k < options@.len() && options@[k as int] == Some(id),
                decreases
                    options@.len() - k,
                    (if found {
                        0int
                    } else {
                        1int
                    }),
            {
                match options[k] {
                    Some(other) if other == id => {
                        found = true;
                    },
                    _ => {
                        k = k + 1;
                    },
                }
            }
            proof {
                lemma_row_of(options@, Some(id), options@.len() as int, k as int);
            }
            if found {
                k
            } else {
                0
            }
        },
    };
    (out, chosen)
}

/// A row of the camera list.
pub struct CameraRow {
    pub id: CameraId,
    pub name: String,
    pub address: String,
    pub selected: bool,
}

/// What a [`CameraRow`] says.
pub struct RowView {
    pub id: CameraId,
    pub name: Seq<char>,
    pub address: Seq<char>,
    pub selected: bool,
}

impl View for CameraRow {
    type V = RowView;

    open spec fn view(&self) -> RowView {
        RowView {
            id: self.id,
            name: self.name@,
            address: self.address@,
            selected: self.selected,
        }
    }
}

/// The row of a camera.
pub open spec fn row(camera: CameraView, selection: Selection) -> RowView {
    RowView {
        id: camera.id,
        name: camera.name,
        address: camera.host + ":"@ + text::decimal(camera.port as nat) + " · "@
            + camera.stream.name(),
        selected: selection == Selection::Existing(camera.id),
    }
}

/// What stands beside the button of the connection test.
pub open spec fn probe_text(probe: ProbeView) -> Option<(StatusColor, Seq<char>)> {
    match probe {
        ProbeView::Idle => None,
        ProbeView::Running => Some((StatusColor::Muted, "Testing…"@)),
        ProbeView::Found(info) => Some(
            (
                StatusColor::Success,
                "✓ "@ + info.codec + " "@ + text::decimal(info.width as nat) + "×"@
                    + text::decimal(info.height as nat) + match info.fps {
                    Some(fps) => " · "@ + text::decimal(single::whole_of_tenths(fps as nat))
                        + " fps"@,
                    None => Seq::empty(),
                },
            ),
        ),
        ProbeView::Failed(reason) => Some((StatusColor::Danger, "✗ "@ + reason)),
    }
}

/// What is drawn around the form.
pub struct FormLook {
    pub title: String,
    pub error: Option<String>,
    pub test_disabled: bool,
    pub probe: Option<(StatusColor, String)>,
    /// The label of the "Remove" button; there is none for a new camera.
    pub remove: Option<String>,
    pub save_disabled: bool,
    /// The label of the button that shows or hides the password.
    pub password_toggle: String,
}

impl SettingsModel {
    /// The heading of the form.
    pub open spec fn title(self, config: ConfigView) -> Seq<char> {
        match self.selection {
            Selection::Existing(id) => match stored(config, id) {
                Some(camera) => camera.name,
                None => "New Camera"@,
            },
            Selection::New(_) => "New Camera"@,
        }
    }

    /// Whether `look` is what is drawn around the form.
    pub open spec fn looks(
        self,
        look: FormLook,
        config: ConfigView,
        texts: TextsView,
        masked: bool,
    ) -> bool {
        &&& look.title@ == self.title(config)
        &&& dropdown::said(look.error) == self.form_error
        &&& look.test_disabled == self.probe is Running
        &&& match probe_text(self.probe) {
            Some((color, said)) => look.probe is Some && (look.probe->0).0 == color && (
            look.probe->0).1@ == said,
            None => look.probe is None,
        }
        &&& match look.remove {
            Some(label) => self.selection is Existing && label@ == if self.confirm_remove {
                "Confirm Removal"@
            } else {
                "Remove"@
            },
            None => self.selection is New,
        }
        &&& look.save_disabled == !self.dirty(texts)
        &&& look.password_toggle@ == if masked {
            "Show"@
        } else {
            "Hide"@
        }
    }
}

/// What is said of the other settings.
pub struct Errors {
    pub slot: Option<String>,
    pub login: Option<String>,
    pub smooth: Option<String>,
}

fn copy_text(s: &Option<String>) -> (res: Option<String>)
    ensures
        dropdown::said(res) == dropdown::said(*s),
{
    match s {
        Some(s) => Some(s.clone()),
        None => None,
    }
}

impl SettingsView {
    /// The rows of the camera list.
    pub fn camera_rows(&self, config: &Config) -> (res: Vec<CameraRow>)
        ensures
            res@.map_values(|r: CameraRow| r@) == listing::listed(
                config@.cameras,
                config@.cameras.len() as int,
            ).map_values(|c: CameraView| row(c, self@.selection)),
    {
        let cameras = sorted_cameras(&config.cameras);
        let ghost listed = config::views(cameras@);
        let ghost goal = listed.map_values(|c: CameraView| row(c, self@.selection));
        let mut out: Vec<CameraRow> = Vec::new();
        let mut i: usize = 0;
        assert(out@.map_values(|r: CameraRow| r@) =~= goal.take(0));
        while i < cameras.len()
            invariant
                i <= cameras@.len(),
                listed == config::views(cameras@),
                goal == listed.map_values(|c: CameraView| row(c, self@.selection)),
                out@.map_values(|r: CameraRow| r@) == goal.take(i as int),
            decreases cameras@.len() - i,
        {
            assert(listed[i as int] == cameras@[i as int]@);
            let camera = &cameras[i];
            let mut address = camera.host.clone();
            address.append(":");
            address.append(text::to_decimal(camera.port as u64).as_str());
            address.append(" · ");
            address.append(camera.stream.label());
            let selected = match self.selection {
                Selection::Existing(id) => id == camera.id,
                Selection::New(_) => false,
            };
            let item = CameraRow { id: camera.id, name: camera.name.clone(), address, selected };
            assert(item@ == goal[i as int]);
            let ghost before = out@;
            out.push(item);
            assert(out@.map_values(|r: CameraRow| r@) =~= before.map_values(
                |r: CameraRow| r@,
            ).push(goal[i as int]));
            assert(goal.take(i + 1) =~= goal.take(i as int).push(goal[i as int]));
            i = i + 1;
        }
        assert(goal.take(i as int) =~= goal);
        out
    }

    /// Whether "New Camera" has nothing to do: the form is an empty new one already.
    pub fn new_disabled(&self, texts: &FormTexts) -> (res: bool)
        ensures
            res == (self@.selection is New && !self@.dirty(texts@)),
    {
        matches!(self.selection, Selection::New(_)) && !self.is_dirty(texts)
    }

    /// Whether `stream` is the one to pull.
    pub fn pulls(&self, stream: StreamKind) -> (res: bool)
        ensures
            res == (self@.stream == stream),
    {
        self.stream == stream
    }

    /// What stands beside the button of the connection test.
    pub fn probe_status(&self) -> (res: Option<(StatusColor, String)>)
        ensures
            match probe_text(self@.probe) {
                Some((color, said)) => res is Some && (res->0).0 == color && (res->0).1@ == said,
                None => res is None,
            },
    {
        match &self.probe {
            ProbeState::Idle => None,
            ProbeState::Running => Some((StatusColor::Muted, "Testing…".to_owned())),
            ProbeState::Done(Ok(info)) => {
                let mut out = "✓ ".to_owned();
                out.append(info.codec.as_str());
                out.append(" ");
                out.append(text::to_decimal(info.width as u64).as_str());
                out.append("×");
                out.append(text::to_decimal(info.height as u64).as_str());
                if let Some(fps) = info.fps {
                    let mut rate = " · ".to_owned();
                    rate.append(text::to_decimal(single::to_whole_of_tenths(fps)).as_str());
                    rate.append(" fps");
                    out.append(rate.as_str());
                }
                assert(out@ =~= (probe_text(self@.probe)->0).1);
                Some((StatusColor::Success, out))
            },
            ProbeState::Done(Err(reason)) => {
                let mut out = "✗ ".to_owned();
                out.append(reason.as_str());
                Some((StatusColor::Danger, out))
            },
        }
    }

    /// What is drawn around the form. `masked` says whether the password is hidden.
    pub fn form_look(&self, config: &Config, texts: &FormTexts, masked: bool) -> (res: FormLook)
        ensures
            self@.looks(res, config@, texts@, masked),
    {
        let title = match self.selection {
            Selection::Existing(id) => match config.camera(id) {
                Some(camera) => camera.name.clone(),
                None => "New Camera".to_owned(),
            },
            Selection::New(_) => "New Camera".to_owned(),
        };
        let remove = match self.selection {
            Selection::New(_) => None,
            Selection::Existing(_) => Some(
                if self.confirm_remove {
                    "Confirm Removal".to_owned()
                } else {
                    "Remove".to_owned()
                },
            ),
        };
        let password_toggle = if masked {
            "Show".to_owned()
        } else {
            "Hide".to_owned()
        };
        FormLook {
            title,
            error: copy_text(&self.form_error),
            test_disabled: matches!(self.probe, ProbeState::Running),
            probe: self.probe_status(),
            remove,
            save_disabled: !self.is_dirty(texts),
            password_toggle,
        }
    }

    /// What is said of the other settings.
    pub fn errors(&self) -> (res: Errors)
        ensures
            dropdown::said(res.slot) == self@.slot_error,
            dropdown::said(res.login) == self@.login_error,
            dropdown::said(res.smooth) == self@.smooth_error,
    {
        Errors {
            slot: copy_text(&self.slot_error),
            login: copy_text(&self.login_error),
            smooth: copy_text(&self.smooth_error),
        }
    }
}

proof fn lemma_digit_chars(n: nat)
    ensures
        forall|i: int|
            0 <= i < text::decimal(n).len() ==> text::ascii_digit(#[trigger] text::decimal(n)[i]),
        text::decimal(n).len() > 0,
        text::decimal_value(text::decimal(n)) == n,
    decreases n,
{
    if n >= 10 {
        lemma_digit_chars(n / 10);
        let before = text::decimal(n / 10);
        let all = text::decimal(n);
        assert(all.drop_last() =~= before);
        assert forall|i: int| 0 <= i < all.len() implies text::ascii_digit(#[trigger] all[i]) by {
            if i < before.len() {
                assert(all[i] == before[i]);
            }
        }
    } else {
        let all = text::decimal(n);
        assert(all.drop_last() =~= Seq::<char>::empty());
        reveal_with_fuel(text::decimal_value, 2);
    }
}

/// The port that a form is filled with is read back as it was.
pub proof fn lemma_written_port_reads_back(port: u16)
    ensures
        port_of(text::decimal(port as nat)) == port,
{
    let digits = text::decimal(port as nat);
    lemma_digit_chars(port as nat);
    assert(text::ascii_digit(digits[0]));
    assert(text::ascii_digit(digits[digits.len() - 1]));
    assert(text::trimmed(digits) == digits);
    assert(text::unsigned_digits(digits) == digits);
}

/// A form that was just filled is clean: nothing is to be saved before something is edited.
pub proof fn lemma_filled_form_is_clean(
    settings: SettingsModel,
    selection: Selection,
    camera: Option<CameraView>,
)
    requires
        camera is Some ==> {
            &&& camera->0.id == selection.camera()
            &&& text::trimmed(camera->0.name) == camera->0.name
            &&& text::trimmed(camera->0.host) == camera->0.host
            &&& text::trimmed(camera->0.username) == camera->0.username
        },
    ensures
        !settings.loading(selection, camera).dirty(texts_of(camera)),
{
    if let Some(camera) = camera {
        lemma_written_port_reads_back(camera.port);
    }
}

/// Edits in progress are never overwritten: while the camera is still there, a change of the
/// configuration fills the form only when it is clean.
pub proof fn lemma_edits_survive_changes(
    settings: SettingsModel,
    config: ConfigView,
    texts: TextsView,
    fresh: CameraId,
)
    requires
        settings.dirty(texts),
        settings.selection is Existing ==> config::known(
            config.cameras,
            settings.selection.camera(),
        ),
    ensures
        settings.following(config, texts, fresh).1 is None,
        settings.following(config, texts, fresh).0.dirty(texts),
{
}

/// No text stands for port 554, the digits of a port for that port, and digits of too large a number
/// or any other text for none. White space around it does not count.
pub proof fn lemma_what_port_is_meant(s: Seq<char>, n: nat)
    ensures
        text::trimmed(s).len() == 0 ==> port_of(s) == 554,
        text::trimmed(s) == text::decimal(n) && n <= 65535 ==> port_of(s) == n,
        text::trimmed(s) == text::decimal(n) && n > 65535 ==> port_of(s) == 0,
        text::trimmed(s).len() > 0 && text::trimmed(s)[0] != '+' && !('0' <= text::trimmed(s)[0]
            <= '9') ==> port_of(s) == 0,
        text::trimmed(s).len() > 1 && !('0' <= text::trimmed(s).last() <= '9') ==> port_of(s) == 0,
{
    text::lemma_written_number_reads_back(n);
    text::lemma_what_is_a_port_number(text::trimmed(s), n);
}

/// The camera of the form has what is written there, without the white space around the name, the
/// host and the user name. The password is taken as it is.
pub proof fn lemma_form_describes_the_camera(settings: SettingsModel, texts: TextsView)
    ensures
        ({
            let camera = settings.form_camera(texts);
            &&& camera.id == settings.selection.camera()
            &&& camera.name == text::trimmed(texts.name)
            &&& camera.host == text::trimmed(texts.host)
            &&& camera.username == text::trimmed(texts.username)
            &&& camera.password == texts.password
            &&& camera.port == port_of(texts.port)
            &&& camera.stream == settings.stream
        }),
{
}

/// The form is to be saved exactly when one of its fields says something else than before.
pub proof fn lemma_any_edit_is_to_be_saved(settings: SettingsModel, texts: TextsView)
    requires
        settings.loaded.id == settings.selection.camera(),
    ensures
        settings.dirty(texts) <==> {
            ||| text::trimmed(texts.name) != settings.loaded.name
            ||| text::trimmed(texts.host) != settings.loaded.host
            ||| port_of(texts.port) != settings.loaded.port
            ||| settings.stream != settings.loaded.stream
            ||| text::trimmed(texts.username) != settings.loaded.username
            ||| texts.password != settings.loaded.password
        },
{
    if !settings.dirty(texts) {
        assert(settings.form_camera(texts).name == settings.loaded.name);
    } else {
        let a = settings.form_camera(texts);
        let b = settings.loaded;
        assert(a.name == b.name && a.host == b.host && a.port == b.port && a.stream == b.stream
            && a.username == b.username && a.password == b.password && a.id == b.id ==> a == b);
    }
}

/// After a camera was saved its form is clean, and it is the camera that is shown; after a refusal
/// the form is as it was, and the reason is told.
pub proof fn lemma_saved_form_is_clean(
    settings: SettingsModel,
    texts: TextsView,
    reason: Seq<char>,
)
    ensures
        ({
            let camera = settings.form_camera(texts);
            let done = settings.saving(camera, None);
            let refused = settings.saving(camera, Some(reason));
            &&& !done.dirty(texts)
            &&& done.selection == Selection::Existing(settings.selection.camera())
            &&& done.form_error is None
            &&& done.removal() == RemoveStep::Ask
            &&& refused.dirty(texts) == settings.dirty(texts)
            &&& refused.selection == settings.selection
            &&& refused.form_error == Some(reason)
        }),
{
}

/// A camera is tested exactly when no test runs and the form is in order; then a test runs, and no
/// other one starts. A form that is not in order is told so.
pub proof fn lemma_one_test_at_a_time(settings: SettingsModel, texts: TextsView)
    ensures
        ({
            let camera = settings.form_camera(texts);
            let (after, tested) = settings.testing(texts);
            &&& tested is Some <==> !(settings.probe is Running) && camera::camera_problem(camera)
                is None
            &&& tested is Some ==> tested->0 == camera && after.probe is Running
                && after.form_error is None && after.testing(texts).1 is None
            &&& settings.probe is Running ==> after == settings
            &&& tested is None ==> after.probe == settings.probe
            &&& !(settings.probe is Running) && camera::camera_problem(camera) is Some
                ==> after.form_error == camera::camera_problem(camera)
            &&& after.selection == settings.selection && after.loaded == settings.loaded
                && after.stream == settings.stream
        }),
{
}

/// A camera is removed by the second press in a row, not by the first; another form, or a removal
/// that failed, starts over. A new camera cannot be removed.
pub proof fn lemma_removal_is_confirmed(
    settings: SettingsModel,
    id: CameraId,
    selection: Selection,
    camera: Option<CameraView>,
    reason: Seq<char>,
)
    ensures
        settings.selection == Selection::Existing(id) ==> {
            &&& !settings.confirm_remove ==> settings.removal() == RemoveStep::Ask
            &&& settings.removing().removal() == RemoveStep::Remove(id)
            &&& settings.confirm_remove ==> settings.removal() == RemoveStep::Remove(id)
            &&& settings.kept(reason).removal() == RemoveStep::Ask
        },
        settings.selection is New ==> settings.removal() == RemoveStep::Nothing,
        selection is Existing ==> settings.loading(selection, camera).removal() == RemoveStep::Ask,
        settings.kept(reason).form_error == Some(reason),
{
}

/// Another stream is an edit like any other: it takes away what was wrong, and choosing the same one
/// changes nothing.
pub proof fn lemma_choice_of_a_stream(settings: SettingsModel, stream: StreamKind)
    ensures
        settings.choosing(stream).stream == stream,
        settings.choosing(settings.stream) == settings,
        stream != settings.stream ==> settings.choosing(stream).form_error is None,
        settings.choosing(stream).selection == settings.selection,
        settings.choosing(stream).loaded == settings.loaded,
{
}

/// A form that is filled starts clean of what was said of the one before: no error, no test and no
/// removal asked for. What is said of other settings stays.
pub proof fn lemma_filled_form_starts_over(
    settings: SettingsModel,
    selection: Selection,
    camera: CameraView,
)
    ensures
        ({
            let shown = settings.loading(selection, Some(camera));
            let empty = settings.loading(selection, None);
            &&& shown.selection == selection && empty.selection == selection
            &&& shown.loaded == camera && shown.stream == camera.stream
            &&& empty.stream == StreamKind::Main && empty.loaded.port == 554
            &&& empty.loaded.name.len() == 0 && empty.loaded.host.len() == 0
            &&& shown.form_error is None && empty.form_error is None
            &&& shown.probe is Idle && empty.probe is Idle
            &&& !shown.confirm_remove && !empty.confirm_remove
            &&& shown.slot_error == settings.slot_error
            &&& shown.login_error == settings.login_error
            &&& shown.smooth_error == settings.smooth_error
        }),
{
}

/// The camera with an id is the one in the list that has it.
pub proof fn lemma_stored_camera_has_the_id(config: ConfigView, id: CameraId, k: int)
    requires
        config::distinct_ids(config.cameras),
    ensures
        0 <= k < config.cameras.len() && config.cameras[k].id == id ==> stored(config, id) == Some(
            config.cameras[k],
        ),
        (forall|i: int| 0 <= i < config.cameras.len() ==> (#[trigger] config.cameras[i]).id != id)
            ==> stored(config, id) is None,
{
    if 0 <= k < config.cameras.len() && config.cameras[k].id == id {
        assert forall|j: int| 0 <= j < k implies (#[trigger] config.cameras[j]).id != id by {
            assert(config.cameras[j].id != config.cameras[k].id);
        }
        assert(config::first_at(config.cameras, id, k));
        config::lemma_first_at_unique(config.cameras, id, k);
    }
}

/// The form of a camera that changed elsewhere is filled again while it is not being edited. One
/// whose camera was removed gives way to the first one of the list, and without any to a new camera.
/// A new camera's form, and one whose camera did not change, stay.
pub proof fn lemma_form_follows_the_configuration(
    settings: SettingsModel,
    config: ConfigView,
    texts: TextsView,
    fresh: CameraId,
    k: int,
)
    requires
        config::distinct_ids(config.cameras),
    ensures
        ({
            let (after, filled) = settings.following(config, texts, fresh);
            let id = settings.selection.camera();
            &&& after.slot_options == options_of(config)
            &&& settings.selection is New ==> filled is None && after.selection
                == settings.selection && after.loaded == settings.loaded
            &&& settings.selection is Existing && 0 <= k < config.cameras.len()
                && config.cameras[k].id == id ==> {
                &&& config.cameras[k] == settings.loaded ==> filled is None && after.loaded
                    == settings.loaded
                &&& config.cameras[k] != settings.loaded && !settings.dirty(texts) ==> filled
                    == Some(texts_of(Some(config.cameras[k]))) && after.loaded == config.cameras[k]
                &&& settings.dirty(texts) ==> filled is None && after.loaded == settings.loaded
                &&& after.selection == settings.selection
            }
            &&& settings.selection is Existing && (forall|i: int|
                0 <= i < config.cameras.len() ==> (#[trigger] config.cameras[i]).id != id) ==> {
                &&& filled is Some
                &&& config.cameras.len() == 0 ==> after.selection == Selection::New(fresh)
                    && filled == Some(texts_of(None))
                &&& config.cameras.len() > 0 ==> after.selection == Selection::Existing(
                    listing::listed(config.cameras, config.cameras.len() as int)[0].id,
                )
            }
        }),
{
    lemma_stored_camera_has_the_id(config, settings.selection.camera(), k);
    listing::lemma_listed(config.cameras, config.cameras.len() as int);
}

/// The rows of a slot's dropdown are those of its options: first none, then the cameras in the order
/// of the list, each under its name. The chosen row stands for the camera in the slot.
pub proof fn lemma_rows_of_a_slot(config: ConfigView, slot: int, i: int)
    requires
        0 <= slot < config.slots.len(),
        0 <= i < config.cameras.len(),
    ensures
        ({
            let options = options_of(config);
            let items = slot_items_of(config, slot);
            let listed = listing::listed(config.cameras, config.cameras.len() as int);
            let chosen = row_of(options, config.slots[slot], options.len() as int);
            &&& options.len() == config.cameras.len() + 1
            &&& items.len() == options.len()
            &&& options[0] is None
            &&& items[0].label == "No camera"@
            &&& options[i + 1] == Some(listed[i].id)
            &&& items[i + 1].label == listed[i].name
            &&& config.slots[slot] is None ==> chosen == 0
            &&& config.slots[slot] == Some(listed[i].id) ==> 0 < chosen < options.len()
                && options[chosen] == config.slots[slot]
        }),
{
    let cameras = config.cameras;
    let options = options_of(config);
    let listed = listing::listed(cameras, cameras.len() as int);
    listing::lemma_listed(cameras, cameras.len() as int);
    let camera = config.slots[slot];
    if camera == Some(listed[i].id) {
        assert(options[i + 1] == camera);
        lemma_row_is_found(options, camera, options.len() as int, i + 1);
    }
}

proof fn lemma_row_is_found(
    options: Seq<Option<CameraId>>,
    camera: Option<CameraId>,
    n: int,
    i: int,
)
    requires
        camera is Some,
        0 <= i < n <= options.len(),
        options[i] == camera,
        options[0] is None,
    ensures
        0 < row_of(options, camera, n) < n,
        options[row_of(options, camera, n)] == camera,
    decreases n,
{
    if exists|k: int| 0 <= k < n - 1 && options[k] == camera {
        let k = choose|k: int| 0 <= k < n - 1 && options[k] == camera;
        lemma_row_is_found(options, camera, n - 1, k);
    }
}

/// The option of a camera in a slot's dropdown tells in which other slot the camera is.
pub proof fn lemma_option_tells_where_a_camera_is(
    config: ConfigView,
    slot: int,
    camera: CameraView,
    other: int,
)
    requires
        config.slots.len() == 4,
        0 <= slot < 4,
        0 <= other < 4,
        other != slot,
        forall|i: int, j: int|
            0 <= i < j < 4 && (#[trigger] config.slots[i]) is Some ==> config.slots[i] != (
            #[trigger] config.slots[j]),
    ensures
        config.slots[other] == Some(camera.id) ==> option_item(config, slot, camera).hint == Some(
            "(in "@ + mosaic::label_of(other) + ")"@,
        ),
        config.slots[slot] == Some(camera.id) ==> option_item(config, slot, camera).hint is None,
        (forall|i: int| 0 <= i < 4 ==> config.slots[i] != Some(camera.id)) ==> option_item(
            config,
            slot,
            camera,
        ).hint is None,
{
    mosaic::lemma_where_a_camera_is_found(config, camera.id, slot, other);
}

/// A row of the camera list shows its name and address, and is marked when its form is shown.
pub proof fn lemma_row_of_the_list(camera: CameraView, selection: Selection)
    ensures
        row(camera, selection).id == camera.id,
        row(camera, selection).name == camera.name,
        row(camera, selection).address == camera.host + ":"@ + text::decimal(camera.port as nat)
            + " · "@ + camera.stream.name(),
        row(camera, Selection::Existing(camera.id)).selected,
        selection is New ==> !row(camera, selection).selected,
        selection is Existing && selection.camera() != camera.id ==> !row(
            camera,
            selection,
        ).selected,
{
}

/// What is told of a test: nothing before it, that it runs, what it found in green, and why it
/// failed in red. The rate is shown in whole frames, where there is one.
pub proof fn lemma_what_is_told_of_a_test(info: FoundView, reason: Seq<char>)
    ensures
        probe_text(ProbeView::Idle) is None,
        probe_text(ProbeView::Running) is Some && (probe_text(ProbeView::Running)->0).0
            == StatusColor::Muted,
        probe_text(ProbeView::Failed(reason)) == Some((StatusColor::Danger, "✗ "@ + reason)),
        (probe_text(ProbeView::Found(info))->0).0 == StatusColor::Success,
        ({
            let size = "✓ "@ + info.codec + " "@ + text::decimal(info.width as nat) + "×"@
                + text::decimal(info.height as nat);
            &&& info.fps is None ==> (probe_text(ProbeView::Found(info))->0).1 == size
            &&& info.fps is Some ==> exists|n: nat|
                -(info.fps->0) <= 0x40_0000 * (10 * n - info.fps->0 + 5) && 0x40_0000 * (10 * n
                    - info.fps->0 - 5) <= info.fps->0 && (probe_text(ProbeView::Found(info))->0).1
                    == size + " · "@ + (#[trigger] text::decimal(n)) + " fps"@
        }),
{
    let size = "✓ "@ + info.codec + " "@ + text::decimal(info.width as nat) + "×"@ + text::decimal(
        info.height as nat,
    );
    match info.fps {
        None => {
            assert((probe_text(ProbeView::Found(info))->0).1 =~= size);
        },
        Some(fps) => {
            let n = single::whole_of_tenths(fps as nat);
            single::lemma_tenths_are_near(fps as nat);
            assert((probe_text(ProbeView::Found(info))->0).1 =~= size + " · "@ + text::decimal(n)
                + " fps"@);
        },
    }
}

/// The form is headed by the name of its camera, or as that of a new one. It can be saved exactly
/// when it was edited and tested while no test runs, and only a camera that exists can be removed,
/// by a button that tells when it is the last press.
pub proof fn lemma_what_the_form_shows(
    settings: SettingsModel,
    look: FormLook,
    config: ConfigView,
    texts: TextsView,
    masked: bool,
    k: int,
)
    requires
        settings.looks(look, config, texts, masked),
        config::distinct_ids(config.cameras),
    ensures
        settings.selection is New ==> look.title@ == "New Camera"@ && look.remove is None,
        settings.selection is Existing && 0 <= k < config.cameras.len() && config.cameras[k].id
            == settings.selection.camera() ==> look.title@ == config.cameras[k].name,
        settings.selection is Existing ==> look.remove is Some,
        settings.selection is Existing && settings.confirm_remove ==> (look.remove->0)@
            == "Confirm Removal"@,
        settings.selection is Existing && !settings.confirm_remove ==> (look.remove->0)@
            == "Remove"@,
        look.save_disabled <==> !settings.dirty(texts),
        look.test_disabled <==> settings.probe is Running,
        settings.form_error is Some <==> look.error is Some,
        look.probe is None <==> settings.probe is Idle,
        settings.probe is Failed ==> (look.probe->0).0 == StatusColor::Danger && (look.probe->0).1@
            == "✗ "@ + settings.probe->Failed_0,
        settings.probe is Found ==> (look.probe->0).0 == StatusColor::Success,
        settings.form_error is Some ==> (look.error->0)@ == settings.form_error->0,
        masked ==> look.password_toggle@ == "Show"@,
        !masked ==> look.password_toggle@ == "Hide"@,
{
    lemma_stored_camera_has_the_id(config, settings.selection.camera(), k);
}

}
