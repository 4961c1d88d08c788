use camfast::camera::{CameraConfig, CameraId, Secret, StreamKind};
use camfast::clock::{Moment, MILLISECOND, SECOND};
use camfast::config::{Config, WindowGeometry, POINT};
use camfast::dropdown::{Dropdown, DropdownEvent, DropdownItem, MenuItem};
use camfast::error::ConfigError;
use camfast::listing::sorted_cameras;
use camfast::mosaic::{camera_in, find_elsewhere, menu_entries, slot_label, Exit, MenuEntry, Mosaic};
use camfast::platform::{
    is_app_bundle, login_error, open_at_login_enabled, open_at_login_requires_approval,
    set_open_at_login, LoginItem, LoginStep, PowerCallbacks, PowerEvent, NOT_IN_BUNDLE_MESSAGE,
};
use camfast::rtsp::ProbeInfo;
use camfast::settings::{slot_items, slot_options, FormTexts, RemoveStep, SettingsView};
use camfast::shared::{StatsSnapshot, StreamShared, StreamStatus};
use camfast::single::ONE;
use camfast::state::{backup_name, broken_config_notice, unsaved_notice, AppState, Update};
use camfast::text_input::{scroll_for, Edit, Look, MouseAt, TextInput, TextInputEvent, CURSOR_ROOM};
use camfast::tile::{
    stats_lines, status_color, status_message, CameraTile, Countdown, Pointed, StatusColor, TileLook,
};
use camfast::window::{initial_bounds, saved_geometry, Display, Placement, Rect};

fn camera(id: u128, name: &str) -> CameraConfig {
    let mut c = CameraConfig::new(name, "10.0.0.1");
    c.id = CameraId(id);
    c
}

fn config(names: &[&str]) -> Config {
    let mut config = Config::default();
    for (i, name) in names.iter().enumerate() {
        config.cameras.push(camera(i as u128 + 1, name));
    }
    config
}

// --- text input ---------------------------------------------------------------------------

fn input(text: &str) -> TextInput {
    let mut input = TextInput::new("Name");
    input.set_text(text);
    input.end();
    input
}

#[test]
fn typing_moves_the_cursor() {
    let mut t = TextInput::new("Name");
    assert_eq!(t.replace_text_in_range(None, "héllo"), Edit::Changed);
    t.left();
    t.left();
    assert_eq!(t.replace_text_in_range(None, "😀"), Edit::Changed);
    assert_eq!(t.text(), "hél😀lo");
    assert_eq!(t.selected_text_range(), ((5, 5), false));
    t.right();
    assert_eq!(t.backspace(), Edit::Changed);
    assert_eq!(t.backspace(), Edit::Changed);
    assert_eq!(t.text(), "hélo");
    assert_eq!(t.delete(), Edit::Changed);
    assert_eq!(t.delete(), Edit::Bell);
    t.home();
    assert_eq!(t.backspace(), Edit::Bell);
    assert_eq!(t.replace_text_in_range(None, ""), Edit::Same);
    assert_eq!(t.text(), "hél");
    assert_eq!(t.submit(), TextInputEvent::Submit);
}

#[test]
fn a_new_text_puts_the_cursor_at_its_end() {
    for text in ["abc", "é😀", ""] {
        let mut t = input("abc");
        t.home();
        t.select_right();
        t.replace_and_mark_text_in_range(Some((1, 1)), "x", None);
        t.set_text("abc");
        t.select_all();
        t.set_text(text);
        let end = text.encode_utf16().count();
        assert_eq!((t.text().as_str(), t.selected_text_range()), (text, ((end, end), false)));
    }
    // The text that is there already is no exception.
    let mut t = TextInput::new("Name");
    t.replace_and_mark_text_in_range(None, "abc", None);
    t.select_all();
    t.set_text("abc");
    assert_eq!(t.selected_text_range(), ((3, 3), false));
    assert_eq!(t.marked_text_range(), None);
}

#[test]
fn words_are_runs_of_letters_and_digits() {
    let mut t = input("foo, bär9 --");
    t.word_left();
    assert_eq!(t.selected_text_range().0, (5, 5));
    t.word_left();
    assert_eq!(t.selected_text_range().0, (0, 0));
    t.word_right();
    assert_eq!(t.selected_text_range().0, (3, 3));
    t.select_word_right();
    assert_eq!(t.selected_text_range(), ((3, 9), false));
    t.select_word_left();
    assert_eq!(t.selected_text_range(), ((3, 5), false));
    t.end();
    assert_eq!(t.delete_word_left(), Edit::Changed);
    assert_eq!(t.text(), "foo, ");
    t.home();
    assert_eq!(t.delete_word_right(), Edit::Changed);
    assert_eq!(t.text(), ", ");
    t.end();
    assert_eq!(t.delete_to_start(), Edit::Changed);
    assert_eq!(t.text(), "");
}

#[test]
fn selections_turn_around() {
    let mut t = input("abcd");
    t.left();
    t.left();
    t.select_left();
    assert_eq!(t.selected_text_range(), ((1, 2), true));
    t.select_right();
    t.select_right();
    assert_eq!(t.selected_text_range(), ((2, 3), false));
    t.select_to_home();
    assert_eq!(t.selected_text_range(), ((0, 2), true));
    t.right();
    assert_eq!(t.selected_text_range(), ((2, 2), false));
    t.select_to_end();
    assert_eq!(t.copy().unwrap(), "cd");
    t.select_all();
    t.left();
    assert_eq!(t.selected_text_range(), ((0, 0), false));
    t.select_all();
    let (clip, edit) = t.cut();
    assert_eq!((clip.as_deref(), edit), (Some("abcd"), Edit::Changed));
    assert_eq!(t.text(), "");
    assert_eq!(t.paste("a\nb"), Edit::Changed);
    assert_eq!(t.text(), "a b");
    assert_eq!(t.copy(), None);
}

#[test]
fn filters_and_limits() {
    let mut port = TextInput::new("554").digits_only(true).max_len(5);
    assert_eq!(port.replace_text_in_range(None, "8a5b5c4d1e2"), Edit::Changed);
    assert_eq!(port.text(), "85541");
    assert_eq!(port.replace_text_in_range(None, "9"), Edit::Same);
    port.select_all();
    assert_eq!(port.replace_text_in_range(None, "x"), Edit::Changed);
    assert_eq!(port.text(), "");
    let mut t = TextInput::new("");
    t.replace_text_in_range(None, "a b\r\nc");
    assert_eq!(t.text(), "a bc");
}

#[test]
fn masked_text_is_not_shown() {
    let mut t = input("sécret").masked(true);
    assert!(t.is_masked());
    assert_eq!(t.display_text(), "••••••");
    t.select_all();
    assert_eq!(t.copy(), None);
    let (clip, edit) = t.cut();
    assert_eq!((clip, edit), (None, Edit::Changed));
    t.set_text("x");
    t.set_masked(false);
    assert_eq!(t.display_text(), "x");
}

#[test]
fn composition_is_marked() {
    let mut t = input("ab");
    t.left();
    assert_eq!(t.replace_and_mark_text_in_range(None, "にほ", Some((1, 1))), Edit::Changed);
    assert_eq!(t.text(), "aにほb");
    assert_eq!(t.marked_text_range(), Some((1, 3)));
    assert_eq!(t.selected_text_range().0, (2, 2));
    match t.look() {
        Look::Text { text, runs, selection, cursor } => {
            let runs: Vec<(usize, bool)> = runs.iter().map(|r| (r.len, r.underlined)).collect();
            assert_eq!((text.as_str(), selection, cursor), ("aにほb", None, 4));
            assert_eq!(runs, [(1, false), (6, true), (1, false)]);
        }
        Look::Placeholder(_) => panic!("placeholder"),
    }
    assert_eq!(t.replace_text_in_range(None, "日本"), Edit::Changed);
    assert_eq!((t.text().as_str(), t.marked_text_range()), ("a日本b", None));
    t.replace_and_mark_text_in_range(Some((1, 2)), "x", None);
    t.unmark_text();
    assert_eq!((t.text().as_str(), t.marked_text_range()), ("ax本b", None));
}

#[test]
fn the_mouse_selects() {
    let mut t = input("aéb");
    t.on_mouse_down(MouseAt::Byte(1), 1, false);
    t.on_mouse_move(MouseAt::Byte(3));
    assert_eq!(t.selected_text_range(), ((1, 2), false));
    t.on_mouse_up();
    t.on_mouse_move(MouseAt::Below);
    assert_eq!(t.selected_text_range(), ((1, 2), false));
    t.on_mouse_down(MouseAt::Above, 1, true);
    assert_eq!(t.selected_text_range(), ((0, 1), true));
    t.on_mouse_down(MouseAt::Nowhere, 2, false);
    assert_eq!(t.selected_text_range(), ((0, 3), false));
    t.on_mouse_move(MouseAt::Above);
    assert_eq!(t.selected_text_range(), ((0, 3), false));
    t.set_masked(true);
    t.on_mouse_down(MouseAt::Byte(7), 1, false);
    assert_eq!(t.selected_text_range().0, (2, 2));
}

#[test]
fn input_methods_ask_for_ranges() {
    let t = input("a😀é");
    assert_eq!(t.text_for_range(1, 3), ("😀".to_owned(), (1, 3)));
    assert_eq!(t.text_for_range(2, 9), ("é".to_owned(), (3, 4)));
    assert_eq!(t.bounds_for_range(1, 3), (1, 5));
    assert_eq!(t.character_index_for_byte(5), 3);
    assert_eq!(t.character_index_for_byte(4), 1);
}

#[test]
fn an_empty_input_shows_its_placeholder() {
    assert!(matches!(TextInput::new("Name").look(), Look::Placeholder(text) if text == "Name"));
}

#[test]
fn the_cursor_stays_in_view() {
    let scroll = |cursor, scroll, width, line| {
        scroll_for(cursor * POINT, scroll * POINT, width * POINT, line * POINT)
    };
    assert_eq!(scroll(50, 0, 100, 60), 0);
    assert_eq!(scroll(150, 0, 100, 200), 50 * POINT + CURSOR_ROOM);
    assert_eq!(scroll(10, 60, 100, 200), 10 * POINT);
    assert_eq!(scroll(90, 60, 200, 100), 0);
}

// --- dropdown -----------------------------------------------------------------------------

fn options() -> Vec<DropdownItem> {
    vec![DropdownItem::new("No camera"), DropdownItem::new("A").hint("(in Top left)"), DropdownItem::new("B")]
}

#[test]
fn a_dropdown_is_driven_by_keys() {
    let mut d = Dropdown::new(options(), 1);
    assert_eq!(d.current(), "A");
    assert!(!d.prev() && !d.close());
    d.next();
    assert!(d.is_open());
    assert_eq!(d.highlighted(), Some(1));
    d.next();
    d.next();
    assert_eq!(d.highlighted(), Some(2));
    assert_eq!(d.confirm(), Some(DropdownEvent::Selected(2)));
    assert!(!d.is_open());
    assert_eq!((d.current().as_str(), d.highlighted()), ("B", None));
    assert_eq!(d.confirm(), None);
    assert_eq!(d.confirm(), Some(DropdownEvent::Selected(2)));
    d.set_open(true);
    assert!(d.prev() && d.prev() && d.prev());
    assert_eq!(d.highlighted(), Some(0));
    assert!(d.close());
    let rows = d.rows();
    let marked: Vec<bool> = rows.iter().map(|r| r.selected).collect();
    assert_eq!(marked, [false, false, true]);
    assert_eq!(rows[1].hint.as_deref(), Some("(in Top left)"));
    assert_eq!(d.choose_item(3), None);
    assert_eq!(d.choose_item(0), Some(DropdownEvent::Selected(0)));
}

#[test]
fn a_press_outside_closes_and_does_not_reopen() {
    let mut d = Dropdown::new(options(), 0);
    d.on_trigger_click(true);
    assert!(!d.is_open());
    d.on_trigger_click(false);
    assert!(d.is_open());
    d.on_mouse_down_out();
    d.on_trigger_click(false);
    assert!(!d.is_open());
    d.on_trigger_click(false);
    d.on_mouse_down_out();
    d.on_mouse_up_out();
    d.on_trigger_click(false);
    assert!(d.is_open());
    d.settle(true);
    assert!(d.is_open());
    d.settle(false);
    assert!(!d.is_open());
}

#[test]
fn an_empty_dropdown_does_not_open() {
    let mut d = Dropdown::new(vec![], 7);
    d.set_open(true);
    assert!(!d.is_open());
    assert_eq!(d.current(), "—");
    assert!(d.set_items(options(), 9));
    assert!(!d.set_items(options(), 2));
    assert_eq!(d.current(), "B");
    let item = MenuItem::new("x").hint("y").selected(true);
    assert_eq!((item.label.as_str(), item.hint.as_deref(), item.selected), ("x", Some("y"), true));
}

// --- tiles --------------------------------------------------------------------------------

fn at(ms: u64) -> Moment {
    Moment { nanos: 100 * SECOND + ms * MILLISECOND }
}

fn waiting(reason: &str) -> StreamStatus {
    StreamStatus::Reconnecting { attempt: 2, retry_at: at(1500), reason: reason.into() }
}

#[test]
fn statuses_have_messages_and_colours() {
    let said = |s: &StreamStatus, ms| status_message(s, at(ms));
    assert_eq!(said(&waiting("lost"), 0), ("Reconnecting in 2s (attempt 2)".into(), Some("lost".into())));
    assert_eq!(said(&waiting(""), 500), ("Reconnecting in 1s (attempt 2)".into(), None));
    assert_eq!(said(&waiting("x"), 1500).0, "Reconnecting… (attempt 2)");
    assert_eq!(said(&waiting("x"), 9000).0, "Reconnecting… (attempt 2)");
    assert_eq!(said(&StreamStatus::Connecting, 0), ("Connecting…".into(), None));
    assert_eq!(said(&StreamStatus::WaitingKeyframe, 0).0, "Waiting for video…");
    assert_eq!(said(&StreamStatus::Paused, 0).0, "Paused");
    assert_eq!(said(&StreamStatus::AuthFailed, 0).0, "Invalid username or password");
    assert_eq!(said(&StreamStatus::Error("bad".into()), 0), ("Error".into(), Some("bad".into())));
    assert_eq!(said(&StreamStatus::Live, 0), (String::new(), None));
    assert_eq!(status_color(&StreamStatus::Live), StatusColor::Success);
    assert_eq!(status_color(&waiting("")), StatusColor::Warning);
    assert_eq!(status_color(&StreamStatus::Connecting), StatusColor::Warning);
    assert_eq!(status_color(&StreamStatus::WaitingKeyframe), StatusColor::Warning);
    assert_eq!(status_color(&StreamStatus::Paused), StatusColor::Muted);
    assert_eq!(status_color(&StreamStatus::AuthFailed), StatusColor::Danger);
    assert_eq!(status_color(&StreamStatus::Error(String::new())), StatusColor::Danger);
}

#[test]
fn a_tile_counts_down_while_reconnecting() {
    let mut tile = CameraTile::new();
    assert!(matches!(tile.look(None, false, at(0)), TileLook::Empty { .. }));
    let (a, b) = (Some((CameraId(1), "A".to_owned())), Some((CameraId(1), "B".to_owned())));
    assert_eq!(tile.set_camera(a.clone(), Some(7)), Pointed::OtherStream);
    assert_eq!(tile.set_camera(a, Some(7)), Pointed::Unchanged);
    assert_eq!(tile.camera_name().as_deref(), Some("A"));
    assert_eq!(tile.stream_changed(Some(&StreamStatus::Live)), Countdown::Keep);
    assert_eq!(tile.stream_changed(Some(&waiting(""))), Countdown::Start);
    assert_eq!(tile.stream_changed(Some(&waiting(""))), Countdown::Keep);
    assert_eq!(tile.stream_changed(Some(&StreamStatus::Paused)), Countdown::Stop);
    tile.stream_changed(Some(&waiting("")));
    assert_eq!(tile.set_camera(b.clone(), Some(7)), Pointed::SameStream);
    assert_eq!(tile.stream_changed(None), Countdown::Stop);
    // The countdown is that of a stream: another one starts its own.
    tile.stream_changed(Some(&waiting("")));
    assert_eq!(tile.set_camera(b.clone(), Some(8)), Pointed::OtherStream);
    assert_eq!(tile.stream_changed(Some(&waiting(""))), Countdown::Start);
    assert_eq!(tile.set_camera(b.clone(), None), Pointed::OtherStream);
    assert_eq!(tile.set_camera(b, None), Pointed::Unchanged);
    assert!(tile.set_show_stats(true) && !tile.set_show_stats(true));
    match tile.look(Some(&StreamStatus::Paused), true, at(0)) {
        TileLook::Camera { name, color, message, scrim, stats } => {
            assert_eq!((name.as_str(), color, scrim, stats), ("B", StatusColor::Muted, true, true));
            assert_eq!(message, Some(("Paused".into(), None)));
        }
        TileLook::Empty { .. } => panic!("empty"),
    }
    match tile.look(Some(&StreamStatus::Live), true, at(0)) {
        TileLook::Camera { message, scrim, .. } => assert!(message.is_none() && !scrim),
        TileLook::Empty { .. } => panic!("empty"),
    }
}

fn stats() -> StatsSnapshot {
    StreamShared::<u32>::new(CameraId(1)).stats()
}

/// A number of single precision in the units of the library.
fn units(x: f32) -> u128 {
    (f64::from(x) * ONE as f64) as u128
}

#[test]
fn statistics_are_written_out() {
    let mut s = stats();
    assert_eq!(
        stats_lines(&s, false),
        ["0 fps · 0.0 Mbps", "network jitter ±0 ms", "0 reconnects · 0 dropped"]
    );
    s.kbps = 3200;
    s.camera_fps = units(29.97);
    s.jitter_ms = units(2.5);
    s.width = 2560;
    s.height = 1440;
    s.codec = "H.265".into();
    s.reconnects = 1;
    s.dropped_frames = 3;
    s.last_error = Some("lost".into());
    assert_eq!(
        stats_lines(&s, true),
        [
            "30 fps · 3.2 Mbps",
            "2560×1440 · H.265",
            "network jitter ±2 ms · smoothed",
            "1 reconnect · 3 dropped",
            "Last error: lost",
        ]
    );
    // Halfway values go to the even neighbour, and anything above them up.
    s.camera_fps = units(12.5);
    assert_eq!(stats_lines(&s, true)[0], "12 fps · 3.2 Mbps");
    s.camera_fps = units(12.500001);
    assert_eq!(stats_lines(&s, true)[0], "13 fps · 3.2 Mbps");
    s.jitter_ms = units(2.5000002);
    assert_eq!(stats_lines(&s, false)[2], "network jitter ±3 ms");
}

/// Numbers of all sizes, spread by a fixed multiplier.
fn spread(count: u64) -> impl Iterator<Item = u64> {
    (1..=count).map(|i| i.wrapping_mul(0x9e37_79b9_7f4a_7c15) >> (i % 60))
}

#[test]
fn the_bitrate_is_divided_in_single_precision() {
    let mut s = stats();
    let mut check = |kbps: u32| {
        s.kbps = kbps;
        let expected = format!("0 fps · {:.1} Mbps", kbps as f32 / 1000.0);
        assert_eq!(stats_lines(&s, false)[0], expected, "{kbps}");
    };
    for kbps in (0..60_000).chain((0..100_000).map(|i| 100 * i + 50)) {
        check(kbps);
    }
    for n in spread(100_000) {
        check(n as u32);
    }
    check(u32::MAX);
    s.kbps = 2450;
    assert_eq!(stats_lines(&s, false)[0], "0 fps · 2.5 Mbps");
    s.kbps = 16_250;
    assert_eq!(stats_lines(&s, false)[0], "0 fps · 16.2 Mbps");
}

#[test]
fn the_countdown_is_rounded_up_from_single_precision() {
    let shown = |nanos: u64| {
        let status = StreamStatus::Reconnecting {
            attempt: 1,
            retry_at: Moment { nanos },
            reason: String::new(),
        };
        status_message(&status, Moment { nanos: 0 }).0
    };
    let check = |nanos: u64| {
        let secs = std::time::Duration::from_nanos(nanos).as_secs_f32().ceil() as u64;
        let expected = if secs > 0 {
            format!("Reconnecting in {secs}s (attempt 1)")
        } else {
            "Reconnecting… (attempt 1)".to_owned()
        };
        assert_eq!(shown(nanos), expected, "{nanos}");
    };
    for secs in (0..200).chain([16_777_215, 16_777_216, 16_777_217, 18_446_744_072]) {
        for over in [0, 1, 29, 30, 31, 59, 60, 238, 477, 953, 954, 1907, 3814, 7629, 7630] {
            check(secs * SECOND + over);
            check((secs + 1) * SECOND - over);
        }
        check(secs * SECOND + SECOND / 2);
    }
    for n in spread(200_000) {
        check(n);
        check(n % (100 * SECOND));
    }
    check(u64::MAX);
    assert_eq!(shown(16 * SECOND + 300), "Reconnecting in 16s (attempt 1)");
    assert_eq!(shown(16 * SECOND + 2000), "Reconnecting in 17s (attempt 1)");
    assert_eq!(shown(1), "Reconnecting in 1s (attempt 1)");
}

// --- mosaic -------------------------------------------------------------------------------

#[test]
fn cameras_are_listed_by_name() {
    let names: Vec<String> = sorted_cameras(&config(&["yard", " Attic", "ÉCLAIR", "Garage", "garage", "éa"]).cameras)
        .into_iter()
        .map(|c| c.name)
        .collect();
    assert_eq!(names, [" Attic", "Garage", "garage", "yard", "éa", "ÉCLAIR"]);
}

fn entry(e: &MenuEntry) -> String {
    match e {
        MenuEntry::Assign { camera, label, checked, detail } => {
            format!("{:?} {label} {checked} {}", camera.map(|c| c.0), detail.as_deref().unwrap_or("-"))
        }
        MenuEntry::Separator => "---".into(),
        MenuEntry::Note(s) => s.clone(),
        MenuEntry::Retry { id, label } => format!("{} {label}", id.0),
        MenuEntry::Settings { label } => label.clone(),
    }
}

#[test]
fn the_menu_offers_every_camera() {
    let mut c = config(&["B", "A"]);
    c.assign(1, Some(CameraId(1)));
    c.assign(3, Some(CameraId(2)));
    let entries: Vec<String> = menu_entries(&c, 1, Some(&waiting(""))).iter().map(entry).collect();
    assert_eq!(
        entries,
        [
            "None No camera false -",
            "---",
            "Some(2) A false (in bottom right)",
            "Some(1) B true -",
            "---",
            "1 Reconnect Now",
            "Configure Cameras…",
        ]
    );
    let entries: Vec<String> = menu_entries(&config(&[]), 0, None).iter().map(entry).collect();
    assert_eq!(entries, ["None No camera true -", "---", "No cameras added yet", "---", "Configure Cameras…"]);
    assert_eq!(menu_entries(&c, 1, Some(&StreamStatus::Live)).len(), 6);
    assert_eq!(find_elsewhere(&c, CameraId(1), 1), None);
    assert_eq!(find_elsewhere(&c, CameraId(1), 0), Some(1));
    assert_eq!(camera_in(&c, 3).map(|(id, name)| (id.0, name)), Some((2, "A".into())));
    assert!(camera_in(&c, 0).is_none());
    assert_eq!([0, 1, 2, 3].map(slot_label), ["Top left", "Top right", "Bottom left", "Bottom right"]);
}

#[test]
fn a_double_click_expands_a_tile() {
    let mut m = Mosaic::new();
    assert_eq!(m.title(), "CamFast");
    m.open_menu(2);
    m.double_clicked(2, Some("Yard".into()));
    assert_eq!((m.focused(), m.menu(), m.title().as_str()), (Some(2), None, "CamFast — Yard"));
    m.open_menu(2);
    assert_eq!(m.exit_focus(), Exit::Menu);
    assert_eq!(m.exit_focus(), Exit::Focus);
    assert_eq!(m.exit_focus(), Exit::Nothing);
    m.double_clicked(1, None);
    assert_eq!(m.title(), "CamFast");
    m.double_clicked(1, None);
    assert_eq!(m.focused(), None);
    assert!(m.toggle_stats() && m.show_stats() && !m.toggle_stats());
    m.open_menu(0);
    m.close_menu();
    assert_eq!(m.menu(), None);
}

// --- settings -----------------------------------------------------------------------------

fn texts(name: &str, host: &str, port: &str) -> FormTexts {
    FormTexts {
        name: name.into(),
        host: host.into(),
        port: port.into(),
        username: " admin ".into(),
        password: " pw ".into(),
    }
}

#[test]
fn the_form_describes_a_camera() {
    let c = config(&[]);
    let (mut s, filled) = SettingsView::new_with(&c, CameraId(9));
    assert!(!s.is_dirty(&filled) && s.save(&filled).is_none());
    assert_eq!((filled.name.as_str(), filled.port.as_str()), ("", ""));
    let form = texts(" Yard ", " cam ", "8554");
    let camera = s.form_camera(&form);
    assert_eq!((camera.id, camera.name.as_str(), camera.host.as_str()), (CameraId(9), "Yard", "cam"));
    assert_eq!((camera.port, camera.username.as_str(), camera.password.expose()), (8554, "admin", " pw "));
    assert_eq!(s.form_camera(&texts("", "", "")).port, 554);
    assert_eq!(s.form_camera(&texts("", "", "99999")).port, 0);
    assert!(s.choose_stream(StreamKind::Sub) && !s.choose_stream(StreamKind::Sub));
    assert!(s.pulls(StreamKind::Sub) && !s.pulls(StreamKind::Main));
    let saved = s.save(&form).unwrap();
    assert!(saved == s.form_camera(&form));
    s.saved(saved.clone(), Err("no".into()));
    assert_eq!(s.form_look(&c, &form, true).error.as_deref(), Some("no"));
    s.on_edit();
    assert_eq!(s.form_look(&c, &form, true).error, None);
    s.saved(saved, Ok(()));
    assert!(!s.is_dirty(&form));
}

#[test]
fn new_cameras_have_random_ids() {
    let c = config(&[]);
    let version = |s: &SettingsView| {
        let id = s.form_camera(&texts("", "", "")).id;
        (uuid::Uuid::from_u128(id.0).get_version_num(), id)
    };
    let (mut s, _) = SettingsView::new(&c);
    let first = version(&s);
    s.new_camera();
    let second = version(&s);
    assert_eq!((first.0, second.0), (4, 4));
    assert!(first.1 != second.1);
}

#[test]
fn the_form_looks() {
    let mut c = config(&["A"]);
    c.cameras[0].password = Secret::new("pw");
    let (mut s, filled) = SettingsView::new(&c);
    assert_eq!((filled.name.as_str(), filled.port.as_str(), filled.password.as_str()), ("A", "554", "pw"));
    let look = s.form_look(&c, &filled, true);
    assert_eq!((look.title.as_str(), look.remove.as_deref(), look.save_disabled), ("A", Some("Remove"), true));
    assert_eq!((look.password_toggle.as_str(), look.test_disabled), ("Show", false));
    assert!(!s.new_disabled(&filled));
    let rows = s.camera_rows(&c);
    assert_eq!((rows[0].name.as_str(), rows[0].address.as_str(), rows[0].selected), ("A", "10.0.0.1:554 · Main", true));
    let blank = s.new_camera();
    assert!(s.new_disabled(&blank));
    assert!(!s.new_disabled(&texts("x", "", "")));
    let look = s.form_look(&c, &blank, false);
    assert_eq!((look.title.as_str(), look.remove, look.password_toggle.as_str()), ("New Camera", None, "Hide"));
    assert!(s.select(&c, CameraId(7)).is_none());
    assert_eq!(s.select(&c, CameraId(1)).unwrap().name, "A");
}

#[test]
fn connections_are_tested() {
    let c = config(&[]);
    let (mut s, _) = SettingsView::new(&c);
    assert!(s.probe_status().is_none());
    assert!(s.test_connection(&texts("", "h", "1")).is_none());
    assert_eq!(s.form_look(&c, &texts("", "", ""), true).error.as_deref(), Some("Camera name is required"));
    assert_eq!(s.test_connection(&texts("A", "h", "1")).unwrap().host, "h");
    assert_eq!(s.probe_status(), Some((StatusColor::Muted, "Testing…".into())));
    assert!(s.test_connection(&texts("A", "h", "1")).is_none());
    s.tested(Ok(ProbeInfo { codec: "H.264".into(), width: 640, height: 480, fps: Some(245) }));
    assert_eq!(s.probe_status(), Some((StatusColor::Success, "✓ H.264 640×480 · 24 fps".into())));
    for fps in (0..2000).chain(spread(20_000).map(|n| (n >> 14) as f32 as u64)) {
        s.tested(Ok(ProbeInfo { codec: String::new(), width: 0, height: 0, fps: Some(fps) }));
        let expected = format!("✓  0×0 · {:.0} fps", fps as f32 / 10.0);
        assert_eq!(s.probe_status(), Some((StatusColor::Success, expected)));
    }
    s.tested(Ok(ProbeInfo { codec: "H.265".into(), width: 1, height: 2, fps: None }));
    assert_eq!(s.probe_status().unwrap().1, "✓ H.265 1×2");
    s.tested(Err("Timed out".into()));
    assert_eq!(s.probe_status(), Some((StatusColor::Danger, "✗ Timed out".into())));
}

#[test]
fn removal_asks_first() {
    let mut c = config(&["B", "A"]);
    let (mut s, _) = SettingsView::new(&c);
    assert_eq!(s.remove(), RemoveStep::Ask);
    assert_eq!(s.remove(), RemoveStep::Remove(CameraId(2)));
    assert!(s.removed(Err("no".into()), &c).is_none());
    assert_eq!(s.remove(), RemoveStep::Ask);
    c.remove_camera(CameraId(2));
    assert_eq!(s.removed(Ok(()), &c).unwrap().name, "B");
    s.new_camera_with(CameraId(3));
    assert_eq!(s.remove(), RemoveStep::Nothing);
}

#[test]
fn edits_survive_other_changes() {
    let mut c = config(&["A", "B"]);
    let (mut s, filled) = SettingsView::new(&c);
    c.cameras[0].host = "new".into();
    let edited = FormTexts { name: "mine".into(), ..copy(&filled) };
    assert!(s.on_state_changed(&c, &edited).is_none());
    assert_eq!(s.on_state_changed(&c, &filled).unwrap().host, "new");
    c.remove_camera(CameraId(1));
    assert_eq!(s.on_state_changed_with(&c, &edited, CameraId(5)).unwrap().name, "B");
    s.new_camera();
    assert!(s.on_state_changed(&c, &edited).is_none());
}

fn copy(t: &FormTexts) -> FormTexts {
    FormTexts {
        name: t.name.clone(),
        host: t.host.clone(),
        port: t.port.clone(),
        username: t.username.clone(),
        password: t.password.clone(),
    }
}

#[test]
fn slots_are_assigned_from_dropdowns() {
    let mut c = config(&["B", "A"]);
    c.assign(2, Some(CameraId(1)));
    assert_eq!(slot_options(&c), [None, Some(CameraId(2)), Some(CameraId(1))]);
    let (items, chosen) = slot_items(&c, 2);
    assert_eq!((items.len(), chosen), (3, 2));
    assert_eq!((items[2].label.as_str(), items[2].hint.as_deref()), ("B", None));
    let (items, chosen) = slot_items(&c, 0);
    assert_eq!((items[2].hint.as_deref(), chosen), (Some("(in Bottom left)"), 0));
    let (mut s, _) = SettingsView::new(&c);
    assert_eq!((s.option_at(1), s.option_at(0), s.option_at(3)), (Some(CameraId(2)), None, None));
    s.assigned(Err("a".into()));
    s.login_changed(Err("b".into()));
    s.smooth_changed(Err("c".into()));
    let e = s.errors();
    assert_eq!((e.slot.as_deref(), e.login.as_deref(), e.smooth.as_deref()), (Some("a"), Some("b"), Some("c")));
    s.assigned(Ok(()));
    assert_eq!(s.errors().slot, None);
}

// --- application state --------------------------------------------------------------------

#[test]
fn changes_are_weighed() {
    let mut state = AppState::new(config(&["A"]));
    let mut next = state.config().clone();
    assert_eq!(state.update_config(&next).ok(), Some(None));
    next.smooth_playback = true;
    assert_eq!(state.update_config(&next).ok().unwrap(), Some(Update { streams_changed: false, smooth: Some(true) }));
    next.assign(0, Some(CameraId(1)));
    assert_eq!(state.update_config(&next).ok().unwrap(), Some(Update { streams_changed: true, smooth: Some(true) }));
    state.commit(next.clone());
    assert_eq!(state.wanted_cameras().len(), 1);
    next.cameras[0].name = " ".into();
    assert_eq!(state.update_config(&next).err().unwrap().to_text(), "Camera name is required");
    next.cameras[0].name = "A2".into();
    next.window = Some(WindowGeometry { x: 0, y: 0, width: POINT, height: POINT });
    assert_eq!(state.update_config(&next).ok().unwrap(), Some(Update { streams_changed: true, smooth: None }));
}

#[test]
fn notices_come_and_go() {
    let mut state = AppState::new(Config::default());
    assert!(!state.dismiss_notice());
    state.set_notice("x");
    assert_eq!(state.notice(), Some("x"));
    assert!(state.dismiss_notice() && state.notice().is_none());
    let broken = ConfigError::Parse("line 1\r\nmore".into());
    assert_eq!(
        broken_config_notice(&broken, Some("/tmp/x")),
        "Invalid config.toml: line 1. The file was kept as /tmp/x and a new configuration was created."
    );
    assert_eq!(
        broken_config_notice(&ConfigError::Invalid("bad".into()), None),
        "bad. Using the default configuration; changes may not be saved."
    );
    assert_eq!(backup_name(17), "config.toml.broken-17");
    assert_eq!(unsaved_notice(&ConfigError::Invalid("bad".into())), "Could not save the configuration: bad");
}

// --- window -------------------------------------------------------------------------------

fn rect(x: i64, y: i64, width: i64, height: i64) -> Rect {
    Rect { x: x * POINT, y: y * POINT, width: width * POINT, height: height * POINT }
}

fn frame(x: i64, y: i64, width: i64, height: i64) -> Option<WindowGeometry> {
    Some(WindowGeometry { x: x * POINT, y: y * POINT, width: width * POINT, height: height * POINT })
}

fn display() -> Option<Display> {
    Some(Display {
        bounds: rect(0, 0, 1440, 900),
        usable_width: 1440 * POINT,
        usable_height: 875 * POINT,
    })
}

#[test]
fn frames_are_saved_in_whole_points() {
    let half = POINT / 2;
    let saved = saved_geometry(Rect { x: half, y: -half, width: 100 * POINT + half - 1, height: 50 * POINT });
    assert_eq!(saved, frame(1, -1, 100, 50));
    assert_eq!(saved_geometry(rect(0, 0, 0, 50)), None);
    assert_eq!(saved_geometry(Rect { height: half - 1, ..rect(0, 0, 9, 9) }), None);
}

#[test]
fn frames_are_restored_where_they_can_be_reached() {
    assert_eq!(initial_bounds(frame(10, 20, 800, 600), display()), Placement::At(rect(10, 20, 800, 600)));
    let centered = |width, height| Placement::Centered { width: width * POINT, height: height * POINT };
    assert_eq!(initial_bounds(None, display()), centered(1280, 760));
    assert_eq!(initial_bounds(frame(0, 0, 800, 600), None), centered(1280, 760));
    assert_eq!(initial_bounds(frame(5000, 0, 800, 600), display()), centered(800, 600));
    assert_eq!(initial_bounds(frame(0, -14, 9999, 100), display()), Placement::At(rect(0, -14, 1440, 400)));
    assert_eq!(initial_bounds(frame(0, -15, 9999, 100), display()), centered(1440, 400));
    assert_eq!(initial_bounds(frame(1320, 0, 800, 600), display()), Placement::At(rect(1320, 0, 800, 600)));
    assert_eq!(initial_bounds(frame(1321, 0, 800, 600), display()), centered(800, 600));
}

// --- platform -----------------------------------------------------------------------------

#[test]
fn cargo_test_binary_is_not_a_bundle() {
    assert!(!is_app_bundle("/target/debug/deps", false));
    assert!(!is_app_bundle("/Applications/CamFast.app", false));
    assert!(!is_app_bundle("/target/debug/deps", true));
    assert!(is_app_bundle("/Applications/CamFast.app", true));
}

#[test]
fn login_item_outside_bundle_errors() {
    assert!(!open_at_login_enabled(None));
    assert!(!open_at_login_requires_approval(None));
    assert_eq!(set_open_at_login(true, None).unwrap_err(), NOT_IN_BUNDLE_MESSAGE);
    assert_eq!(set_open_at_login(false, None).unwrap_err(), NOT_IN_BUNDLE_MESSAGE);
}

#[test]
fn the_login_item_is_changed_only_if_needed() {
    let step = |enabled, item| set_open_at_login(enabled, Some(item)).unwrap();
    assert_eq!(step(true, LoginItem::Enabled), LoginStep::Nothing);
    assert_eq!(step(true, LoginItem::RequiresApproval), LoginStep::Nothing);
    assert_eq!(step(true, LoginItem::NotRegistered), LoginStep::Register);
    assert_eq!(step(true, LoginItem::NotFound), LoginStep::Register);
    assert_eq!(step(false, LoginItem::NotRegistered), LoginStep::Nothing);
    assert_eq!(step(false, LoginItem::Enabled), LoginStep::Unregister);
    assert!(open_at_login_enabled(Some(LoginItem::Enabled)));
    assert!(open_at_login_requires_approval(Some(LoginItem::RequiresApproval)));
    assert_eq!(login_error(true), "Could not enable 'Open at login'");
    assert_eq!(login_error(false), "Could not disable 'Open at login'");
}

#[test]
fn power_events_reach_their_callback() {
    let log = std::cell::RefCell::new(Vec::new());
    let callbacks = PowerCallbacks {
        will_sleep: || log.borrow_mut().push("sleep"),
        did_wake: || log.borrow_mut().push("wake"),
    };
    callbacks.deliver(PowerEvent::Wake);
    callbacks.deliver(PowerEvent::Sleep);
    assert_eq!(*log.borrow(), ["wake", "sleep"]);
}
