//! The mosaic: its tiles, its title, and the menu of a tile.
use vstd::prelude::*;
use vstd::string::*;

use crate::camera::{CameraConfig, CameraId, CameraView};
use crate::config::{self, Config, ConfigView, SLOT_COUNT};
use crate::dropdown;
use crate::listing::{self, sorted_cameras};
use crate::shared::{StatusView, StreamStatus};
use crate::text;

verus! {

/// Human-readable position of a mosaic slot.
pub open spec fn label_of(slot: int) -> Seq<char> {
    if slot == 0 {
        "Top left"@
    } else if slot == 1 {
        "Top right"@
    } else if slot == 2 {
        "Bottom left"@
    } else {
        "Bottom right"@
    }
}

/// Human-readable position of a mosaic slot.
pub fn slot_label(slot: usize) -> (res: &'static str)
    ensures
        res@ == label_of(slot as int),
{
    if slot == 0 {
        "Top left"
    } else if slot == 1 {
        "Top right"
    } else if slot == 2 {
        "Bottom left"
    } else {
        "Bottom right"
    }
}

/// An entry of a tile's menu.
pub enum MenuEntry {
    /// Puts the camera, or none, in the slot.
    Assign { camera: Option<CameraId>, label: String, checked: bool, detail: Option<String> },
    Separator,
    /// A remark that cannot be chosen.
    Note(String),
    /// Reconnects the camera now.
    Retry { id: CameraId, label: String },
    /// Opens the camera settings.
    Settings { label: String },
}

/// What a [`MenuEntry`] says.
pub enum EntryView {
    Assign {
        camera: Option<CameraId>,
        label: Seq<char>,
        checked: bool,
        detail: Option<Seq<char>>,
    },
    Separator,
    Note(Seq<char>),
    Retry { id: CameraId, label: Seq<char> },
    Settings { label: Seq<char> },
}

impl View for MenuEntry {
    type V = EntryView;

    open spec fn view(&self) -> EntryView {
        match self {
            MenuEntry::Assign { camera, label, checked, detail } => EntryView::Assign {
                camera: *camera,
                label: label@,
                checked: *checked,
                detail: dropdown::said(*detail),
            },
            MenuEntry::Separator => EntryView::Separator,
            MenuEntry::Note(note) => EntryView::Note(note@),
            MenuEntry::Retry { id, label } => EntryView::Retry {
                id: *id,
                label: label@,
            },
            MenuEntry::Settings { label } => EntryView::Settings { label: label@ },
        }
    }
}

/// The first slot that holds the camera.
pub open spec fn first_slot(slots: Seq<Option<CameraId>>, id: CameraId, n: int) -> Option<int>
    decreases n,
{
    if n <= 0 {
        None
    } else {
        match first_slot(slots, id, n - 1) {
            Some(i) => Some(i),
            None => if slots[n - 1] == Some(id) {
                Some(n - 1)
            } else {
                None
            },
        }
    }
}

/// Where a camera is, when that is another slot than `slot`.
pub open spec fn elsewhere(config: ConfigView, id: CameraId, slot: int) -> Option<int> {
    match first_slot(config.slots, id, SLOT_COUNT as int) {
        Some(other) if other != slot => Some(other),
        _ => None,
    }
}

proof fn lemma_first_slot(slots: Seq<Option<CameraId>>, id: CameraId, n: int, i: int)
    requires
        0 <= n <= slots.len(),
    ensures
        0 <= i < n && slots[i] == Some(id) && (forall|j: int| 0 <= j < i ==> slots[j] != Some(id))
            ==> first_slot(slots, id, n) == Some(i),
        (forall|j: int| 0 <= j < n ==> slots[j] != Some(id)) ==> first_slot(slots, id, n) is None,
    decreases n,
{
    if n > 0 {
        lemma_first_slot(slots, id, n - 1, i);
    }
}

/// Where a camera is, when that is another slot than `slot`.
pub fn find_elsewhere(config: &Config, id: CameraId, slot: usize) -> (res: Option<usize>)
    ensures
        match elsewhere(config@, id, slot as int) {
            Some(other) => res is Some && res->0 == other && 0 <= other < SLOT_COUNT,
            None => res is None,
        },
{
    let found = config.slot_of(id);
    proof {
        match found {
            Some(i) => {
                lemma_first_slot(config@.slots, id, SLOT_COUNT as int, i as int);
            },
            None => {
                assert forall|j: int| 0 <= j < SLOT_COUNT implies config@.slots[j] != Some(id) by {
                    if config@.slots[j] == Some(id) {
                        assert(config@.slots.contains(Some(id)));
                    }
                }
                lemma_first_slot(config@.slots, id, SLOT_COUNT as int, 0);
            },
        }
    }
    match found {
        Some(other) if other != slot => Some(other),
        _ => None,
    }
}

/// The menu entry of a camera for the tile in `slot`.
pub open spec fn camera_entry(config: ConfigView, slot: int, camera: CameraView) -> EntryView {
    EntryView::Assign {
        camera: Some(camera.id),
        label: camera.name,
        checked: config.slots[slot] == Some(camera.id),
        detail: match elsewhere(config, camera.id, slot) {
            Some(other) => Some("(in "@ + text::ascii_lower(label_of(other)) + ")"@),
            None => None,
        },
    }
}

/// Whether a camera can be told to try again now.
pub open spec fn retryable(status: Option<StatusView>) -> bool {
    status is Some && (status->0 is Reconnecting || status->0 is AuthFailed || status->0 is Error)
}

/// The entries in front of the cameras.
pub open spec fn head_entries(config: ConfigView, slot: int) -> Seq<EntryView> {
    let head = seq![
        EntryView::Assign {
            camera: None,
            label: "No camera"@,
            checked: config.slots[slot] is None,
            detail: None,
        },
        EntryView::Separator,
    ];
    if config.cameras.len() == 0 {
        head.push(EntryView::Note("No cameras added yet"@))
    } else {
        head
    }
}

/// The entries behind the cameras.
pub open spec fn tail_entries(
    config: ConfigView,
    slot: int,
    status: Option<StatusView>,
) -> Seq<EntryView> {
    let settings = EntryView::Settings { label: "Configure Cameras…"@ };
    match config.slots[slot] {
        Some(id) if retryable(status) => seq![
            EntryView::Separator,
            EntryView::Retry { id, label: "Reconnect Now"@ },
            settings,
        ],
        _ => seq![EntryView::Separator, settings],
    }
}

/// The menu of the tile in `slot`, whose camera has this status.
pub open spec fn menu(config: ConfigView, slot: int, status: Option<StatusView>) -> Seq<EntryView> {
    head_entries(config, slot) + listing::listed(
        config.cameras,
        config.cameras.len() as int,
    ).map_values(|camera: CameraView| camera_entry(config, slot, camera)) + tail_entries(
        config,
        slot,
        status,
    )
}

/// What menu entries say.
pub open spec fn entries_of(entries: Seq<MenuEntry>) -> Seq<EntryView> {
    entries.map_values(|entry: MenuEntry| entry@)
}

/// Whether a slot holds this camera.
fn is_in(slot: Option<CameraId>, id: CameraId) -> (res: bool)
    ensures
        res == (slot == Some(id)),
{
    match slot {
        Some(other) => other == id,
        None => false,
    }
}

/// The menu of the tile in `slot`, whose camera has this status.
pub fn menu_entries(config: &Config, slot: usize, status: Option<&StreamStatus>) -> (res: Vec<
    MenuEntry,
>)
    requires
        slot < SLOT_COUNT,
    ensures
        entries_of(res@) == menu(
            config@,
            slot as int,
            match status {
                Some(status) => Some(status@),
                None => None,
            },
        ),
{
    let ghost said = match status {
        Some(status) => Some(status@),
        None => None,
    };
    let ghost head = head_entries(config@, slot as int);
    let mut out: Vec<MenuEntry> = Vec::new();
    out.push(
        MenuEntry::Assign {
            camera: None,
            label: "No camera".to_owned(),
            checked: config.slots[slot].is_none(),
            detail: None,
        },
    );
    out.push(MenuEntry::Separator);
    if config.cameras.len() == 0 {
        out.push(MenuEntry::Note("No cameras added yet".to_owned()));
    }
    assert(entries_of(out@) =~= head);
    let cameras = sorted_cameras(&config.cameras);
    let ghost listed = config::views(cameras@);
    let ghost middle = listed.map_values(
        |camera: CameraView| camera_entry(config@, slot as int, camera),
    );
    let mut i: usize = 0;
    assert(head + middle.take(0) =~= head);
    while i < cameras.len()
        invariant
            i <= cameras@.len(),
            slot < SLOT_COUNT,
            listed == config::views(cameras@),
            middle == listed.map_values(
                |camera: CameraView| camera_entry(config@, slot as int, camera),
            ),
            entries_of(out@) == head + middle.take(i as int),
        decreases cameras@.len() - i,
    {
        let camera: &CameraConfig = &cameras[i];
        assert(listed[i as int] == camera@);
        let detail = match find_elsewhere(config, camera.id, slot) {
            Some(other) => {
                let mut detail = "(in ".to_owned();
                detail.append(text::to_ascii_lowercase(slot_label(other)).as_str());
                detail.append(")");
                Some(detail)
            },
            None => None,
        };
        let entry = MenuEntry::Assign {
            camera: Some(camera.id),
            label: camera.name.clone(),
            checked: is_in(config.slots[slot], camera.id),
            detail,
        };
        assert(entry@ == middle[i as int]);
        let ghost before = out@;
        out.push(entry);
        assert(entries_of(out@) =~= entries_of(before).push(middle[i as int]));
        assert(middle.take(i + 1) =~= middle.take(i as int).push(middle[i as int]));
        assert(head + middle.take(i + 1) =~= (head + middle.take(i as int)).push(
            middle[i as int],
        ));
        i = i + 1;
    }
    assert(middle.take(i as int) =~= middle);
    let ghost before = out@;
    out.push(MenuEntry::Separator);
    let retry = match status {
        Some(StreamStatus::Reconnecting { .. }) => true,
        Some(StreamStatus::AuthFailed) => true,
        Some(StreamStatus::Error(_)) => true,
        _ => false,
    };
    if retry {
        if let Some(id) = config.slots[slot] {
            out.push(MenuEntry::Retry { id, label: "Reconnect Now".to_owned() });
        }
    }
    out.push(MenuEntry::Settings { label: "Configure Cameras…".to_owned() });
    assert(entries_of(out@) =~= entries_of(before) + tail_entries(config@, slot as int, said));
    out
}

/// Every camera has one entry in the menu of every tile: the entries of the cameras are as many
/// as the cameras, in the order of the list.
pub proof fn lemma_menu_offers_every_camera(
    config: ConfigView,
    slot: int,
    status: Option<StatusView>,
)
    ensures
        ({
            let head = head_entries(config, slot).len() as int;
            let entries = menu(config, slot, status);
            forall|i: int|
                0 <= i < config.cameras.len() ==> #[trigger] entries[head + i] == camera_entry(
                    config,
                    slot,
                    listing::listed(config.cameras, config.cameras.len() as int)[i],
                )
        }),
        listing::listed(config.cameras, config.cameras.len() as int).to_multiset()
            == config.cameras.to_multiset(),
{
    listing::lemma_listed(config.cameras, config.cameras.len() as int);
    assert(config.cameras.take(config.cameras.len() as int) =~= config.cameras);
}

/// The camera of a slot, with its name.
pub open spec fn tile_camera(config: ConfigView, slot: int) -> Option<(CameraId, Seq<char>)> {
    match config.slots[slot] {
        Some(id) if config::known(config.cameras, id) => Some(
            (
                id,
                config.cameras[choose|i: int| config::first_at(config.cameras, id, i)].name,
            ),
        ),
        _ => None,
    }
}

/// The camera that the tile in `slot` shows, with its name.
pub fn camera_in(config: &Config, slot: usize) -> (res: Option<(CameraId, String)>)
    requires
        slot < SLOT_COUNT,
    ensures
        match tile_camera(config@, slot as int) {
            Some((id, name)) => res is Some && (res->0).0 == id && (res->0).1@ == name,
            None => res is None,
        },
{
    match config.slots[slot] {
        Some(id) => match config.camera(id) {
            Some(camera) => Some((id, camera.name.clone())),
            None => None,
        },
        None => None,
    }
}

/// What Escape did.
#[derive(Clone, Copy, Debug, PartialEq, Eq, Structural)]
pub enum Exit {
    /// Closed the menu.
    Menu,
    /// Left the expanded tile.
    Focus,
    Nothing,
}

/// The state of the mosaic window.
pub struct Mosaic {
    /// Tile expanded to the whole window, if any.
    focused: Option<usize>,
    /// Slot whose menu is open.
    menu: Option<usize>,
    show_stats: bool,
    title: String,
}

/// What a [`Mosaic`] holds.
pub struct MosaicView {
    pub focused: Option<usize>,
    pub menu: Option<usize>,
    pub show_stats: bool,
    pub title: Seq<char>,
}

impl View for Mosaic {
    type V = MosaicView;

    closed spec fn view(&self) -> MosaicView {
        MosaicView {
            focused: self.focused,
            menu: self.menu,
            show_stats: self.show_stats,
            title: self.title@,
        }
    }
}

/// The window title: that of the expanded camera.
pub open spec fn title_of(name: Option<Seq<char>>) -> Seq<char> {
    match name {
        Some(name) => "CamFast — "@ + name,
        None => "CamFast"@,
    }
}

impl MosaicView {
    /// With another tile expanded, or none: the menu closes, and the title follows.
    pub open spec fn focusing(self, focused: Option<usize>, name: Option<Seq<char>>) -> MosaicView {
        MosaicView {
            focused,
            menu: None,
            title: title_of(
                if focused is Some {
                    name
                } else {
                    None
                },
            ),
            ..self
        }
    }

    /// After a double click on a tile.
    pub open spec fn toggling(self, slot: usize, name: Option<Seq<char>>) -> MosaicView {
        self.focusing(
            if self.focused == Some(slot) {
                None
            } else {
                Some(slot)
            },
            name,
        )
    }

    /// What Escape does.
    pub open spec fn exit(self) -> Exit {
        if self.menu is Some {
            Exit::Menu
        } else if self.focused is Some {
            Exit::Focus
        } else {
            Exit::Nothing
        }
    }

    /// After Escape.
    pub open spec fn exited(self) -> MosaicView {
        match self.exit() {
            Exit::Menu => MosaicView { menu: None, ..self },
            Exit::Focus => self.focusing(None, None),
            Exit::Nothing => self,
        }
    }
}

impl Mosaic {
    pub fn new() -> (res: Mosaic)
        ensures
            res@ == (MosaicView { focused: None, menu: None, show_stats: false, title: "CamFast"@ }),
    {
        Mosaic { focused: None, menu: None, show_stats: false, title: "CamFast".to_owned() }
    }

    pub fn show_stats(&self) -> (res: bool)
        ensures
            res == self@.show_stats,
    {
        self.show_stats
    }

    /// Shows or hides the statistics of every tile.
    pub fn toggle_stats(&mut self) -> (res: bool)
        ensures
            res == !old(self)@.show_stats,
            final(self)@ == (MosaicView { show_stats: res, ..old(self)@ }),
    {
        self.show_stats = !self.show_stats;
        self.show_stats
    }

    pub fn focused(&self) -> (res: Option<usize>)
        ensures
            res == self@.focused,
    {
        self.focused
    }

    pub fn menu(&self) -> (res: Option<usize>)
        ensures
            res == self@.menu,
    {
        self.menu
    }

    pub fn title(&self) -> (res: String)
        ensures
            res@ == self@.title,
    {
        self.title.clone()
    }

    /// Expands a tile, or none. `name` is the name of its camera, if it has one.
    fn set_focused(&mut self, focused: Option<usize>, name: Option<String>)
        ensures
            final(self)@ == old(self)@.focusing(focused, dropdown::said(name)),
    {
        self.focused = focused;
        self.menu = None;
        self.title = match name {
            Some(name) if focused.is_some() => {
                let mut title = "CamFast — ".to_owned();
                title.append(name.as_str());
                title
            },
            _ => "CamFast".to_owned(),
        };
    }

    /// A tile was double-clicked: expands it, or leaves it when it is expanded. `name` is the
    /// name of its camera, if it has one.
    pub fn double_clicked(&mut self, slot: usize, name: Option<String>)
        ensures
            final(self)@ == old(self)@.toggling(slot, dropdown::said(name)),
    {
        let next = match self.focused {
            Some(current) if current == slot => None,
            _ => Some(slot),
        };
        self.set_focused(next, name);
    }

    /// Opens the menu of a tile.
    pub fn open_menu(&mut self, slot: usize)
        ensures
            final(self)@ == (MosaicView { menu: Some(slot), ..old(self)@ }),
    {
        self.menu = Some(slot);
    }

    /// Closes the menu.
    pub fn close_menu(&mut self)
        ensures
            final(self)@ == (MosaicView { menu: None, ..old(self)@ }),
    {
        self.menu = None;
    }

    /// Escape: closes the menu, or else leaves the expanded tile.
    pub fn exit_focus(&mut self) -> (res: Exit)
        ensures
            res == old(self)@.exit(),
            final(self)@ == old(self)@.exited(),
    {
        if self.menu.is_some() {
            self.menu = None;
            Exit::Menu
        } else if self.focused.is_some() {
            self.set_focused(None, None);
            Exit::Focus
        } else {
            Exit::Nothing
        }
    }
}

/// A second double click on a tile takes back the first one.
pub proof fn lemma_double_click_toggles(mosaic: MosaicView, slot: usize, name: Option<Seq<char>>)
    requires
        mosaic.focused is None,
    ensures
        ({
            let first = mosaic.focusing(Some(slot), name);
            let second = first.focusing(
                if first.focused == Some(slot) {
                    None
                } else {
                    Some(slot)
                },
                name,
            );
            second.focused is None && second.title == "CamFast"@
        }),
{
}

/// The slots go row by row, two in a row.
pub proof fn lemma_labels_go_row_by_row(row: int, column: int)
    requires
        0 <= row < 2,
        0 <= column < 2,
    ensures
        label_of(2 * row + column) == (if row == 0 {
            "Top "@
        } else {
            "Bottom "@
        }) + (if column == 0 {
            "left"@
        } else {
            "right"@
        }),
{
    reveal_strlit("Top left");
    reveal_strlit("Top right");
    reveal_strlit("Bottom left");
    reveal_strlit("Bottom right");
    reveal_strlit("Top ");
    reveal_strlit("Bottom ");
    reveal_strlit("left");
    reveal_strlit("right");
    assert(label_of(0) =~= "Top "@ + "left"@);
    assert(label_of(1) =~= "Top "@ + "right"@);
    assert(label_of(2) =~= "Bottom "@ + "left"@);
    assert(label_of(3) =~= "Bottom "@ + "right"@);
}

/// A camera that no slot holds is nowhere else, nor is one that only this slot holds; one in another
/// slot is found there.
pub proof fn lemma_where_a_camera_is_found(config: ConfigView, id: CameraId, slot: int, other: int)
    requires
        config.slots.len() == 4,
        0 <= slot < 4,
        0 <= other < 4,
        forall|i: int, j: int|
            0 <= i < j < 4 && (#[trigger] config.slots[i]) is Some ==> config.slots[i] != (
            #[trigger] config.slots[j]),
    ensures
        config.slots[other] == Some(id) && other != slot ==> elsewhere(config, id, slot) == Some(
            other,
        ),
        config.slots[slot] == Some(id) ==> elsewhere(config, id, slot) is None,
        (forall|i: int| 0 <= i < 4 ==> config.slots[i] != Some(id)) ==> elsewhere(config, id, slot)
            is None,
{
    if config.slots[other] == Some(id) {
        assert forall|j: int| 0 <= j < other implies config.slots[j] != Some(id) by {
            assert(config.slots[j] is Some ==> config.slots[j] != config.slots[other]);
        }
    }
    if config.slots[slot] == Some(id) {
        assert forall|j: int| 0 <= j < slot implies config.slots[j] != Some(id) by {
            assert(config.slots[j] is Some ==> config.slots[j] != config.slots[slot]);
        }
    }
    lemma_first_slot(config.slots, id, 4, other);
    lemma_first_slot(config.slots, id, 4, slot);
}

/// The entry of a camera puts that camera in the slot, bears its name, is checked exactly when the
/// slot holds it, and tells where else it is.
pub proof fn lemma_entry_of_a_camera(
    config: ConfigView,
    slot: int,
    camera: CameraView,
    other: int,
)
    requires
        config.slots.len() == 4,
        0 <= slot < 4,
        0 <= other < 4,
        other != slot,
        forall|i: int, j: int|
            0 <= i < j < 4 && (#[trigger] config.slots[i]) is Some ==> config.slots[i] != (
            #[trigger] config.slots[j]),
    ensures
        ({
            let entry = camera_entry(config, slot, camera);
            &&& entry is Assign
            &&& entry->camera == Some(camera.id)
            &&& entry->Assign_label == camera.name
            &&& entry->checked <==> config.slots[slot] == Some(camera.id)
            &&& entry->checked ==> entry->detail is None
            &&& config.slots[other] == Some(camera.id) ==> entry->detail == Some(
                "(in "@ + text::ascii_lower(label_of(other)) + ")"@,
            )
            &&& (forall|i: int| 0 <= i < 4 ==> config.slots[i] != Some(camera.id))
                ==> entry->detail is None
        }),
{
    lemma_where_a_camera_is_found(config, camera.id, slot, other);
    lemma_where_a_camera_is_found(config, camera.id, slot, slot);
}

/// The menu starts with the entry that empties the slot, checked when it is empty, and ends with
/// that of the settings. It offers to reconnect exactly for a camera that failed: one that waits for
/// its next attempt, was refused, or is in error.
pub proof fn lemma_menu_around_the_cameras(
    config: ConfigView,
    slot: int,
    status: Option<StatusView>,
)
    ensures
        ({
            let entries = menu(config, slot, status);
            let head = head_entries(config, slot);
            let tail = tail_entries(config, slot, status);
            let failed = match status {
                Some(StatusView::Reconnecting { .. }) => true,
                Some(StatusView::AuthFailed) => true,
                Some(StatusView::Error(_)) => true,
                Some(StatusView::Live) => false,
                Some(StatusView::Connecting) => false,
                Some(StatusView::WaitingKeyframe) => false,
                Some(StatusView::Paused) => false,
                None => false,
            };
            &&& entries.len() == head.len() + config.cameras.len() + tail.len()
            &&& entries[0] is Assign && entries[0]->camera is None
            &&& entries[0]->checked <==> config.slots[slot] is None
            &&& entries[1] is Separator
            &&& config.cameras.len() == 0 ==> head.len() == 3 && entries[2] is Note
            &&& config.cameras.len() > 0 ==> head.len() == 2
            &&& entries.last() is Settings
            &&& entries[entries.len() - tail.len()] is Separator
            &&& failed && config.slots[slot] is Some ==> {
                &&& tail.len() == 3
                &&& entries[entries.len() - 2] is Retry
                &&& entries[entries.len() - 2]->id == config.slots[slot]->0
            }
            &&& !(failed && config.slots[slot] is Some) ==> tail.len() == 2
        }),
{
    listing::lemma_listed(config.cameras, config.cameras.len() as int);
}

/// A tile shows the camera that its slot holds, under its name; an empty slot, and one whose camera
/// there is no more, shows none.
pub proof fn lemma_tile_shows_the_camera_of_its_slot(config: ConfigView, slot: int, k: int)
    requires
        0 <= slot < config.slots.len(),
        config::distinct_ids(config.cameras),
    ensures
        0 <= k < config.cameras.len() && config.slots[slot] == Some(config.cameras[k].id)
            ==> tile_camera(config, slot) == Some(
            (config.cameras[k].id, config.cameras[k].name),
        ),
        config.slots[slot] is None ==> tile_camera(config, slot) is None,
        config.slots[slot] is Some && (forall|i: int|
            0 <= i < config.cameras.len() ==> (#[trigger] config.cameras[i]).id
                != config.slots[slot]->0) ==> tile_camera(config, slot) is None,
{
    if 0 <= k < config.cameras.len() && config.slots[slot] == Some(config.cameras[k].id) {
        let id = config.cameras[k].id;
        assert forall|j: int| 0 <= j < k implies (#[trigger] config.cameras[j]).id != id by {
            assert(config.cameras[j].id != config.cameras[k].id);
        }
        assert(config::first_at(config.cameras, id, k));
        config::lemma_first_at_unique(config.cameras, id, k);
    }
}

/// A double click expands a tile, whichever was expanded before, and a second one on it leaves it;
/// the menu is closed and the statistics stay as they are. The title bears the name of the expanded
/// camera.
pub proof fn lemma_double_click_expands(
    mosaic: MosaicView,
    slot: usize,
    name: Option<Seq<char>>,
)
    ensures
        mosaic.focused != Some(slot) ==> {
            &&& mosaic.toggling(slot, name).focused == Some(slot)
            &&& name is Some ==> mosaic.toggling(slot, name).title == "CamFast — "@ + name->0
            &&& mosaic.toggling(slot, name).toggling(slot, name).focused is None
        },
        mosaic.focused == Some(slot) ==> mosaic.toggling(slot, name).focused is None
            && mosaic.toggling(slot, name).title == "CamFast"@,
        name is None ==> mosaic.toggling(slot, name).title == "CamFast"@,
        mosaic.toggling(slot, name).menu is None,
        mosaic.toggling(slot, name).show_stats == mosaic.show_stats,
{
}

/// Escape closes an open menu and leaves the rest; the next one leaves the expanded tile, and
/// after that it does nothing.
pub proof fn lemma_escape_goes_one_step_back(mosaic: MosaicView)
    ensures
        mosaic.menu is Some ==> mosaic.exit() == Exit::Menu && mosaic.exited().menu is None
            && mosaic.exited().focused == mosaic.focused && mosaic.exited().title == mosaic.title,
        mosaic.menu is None && mosaic.focused is Some ==> mosaic.exit() == Exit::Focus
            && mosaic.exited().focused is None && mosaic.exited().title == "CamFast"@,
        mosaic.menu is None && mosaic.focused is None ==> mosaic.exit() == Exit::Nothing
            && mosaic.exited() == mosaic,
        mosaic.exited().exited().exit() == Exit::Nothing,
        mosaic.exited().show_stats == mosaic.show_stats,
{
}

}
