use camfast::camera::{validate_camera, CameraConfig, CameraId, Secret, StreamKind};
use camfast::config::{
    slots_from_text, slots_to_text, tightened_mode, Config, WindowGeometry, POINT, PRIVATE_MODE,
    SLOT_COUNT,
};
use camfast::error::ConfigError;
use camfast::stored::{StoredCamera, StoredConfig, StoredError};

fn camera(name: &str, host: &str) -> CameraConfig {
    let mut c = CameraConfig::new(name, host);
    c.username = "demo".into();
    c.password = Secret::new("s3cret");
    c
}

fn reason(result: Result<(), ConfigError>) -> String {
    match result {
        Ok(()) => panic!("accepted"),
        Err(e) => e.to_text(),
    }
}

#[test]
fn assign_moves_camera_between_slots() {
    let mut config = Config::default();
    let a = camera("A", "10.0.0.1");
    let id = a.id;
    config.cameras.push(a);
    config.assign(0, Some(id));
    config.assign(2, Some(id));
    assert_eq!(config.slots, [None, None, Some(id), None]);
    config.remove_camera(id);
    assert_eq!(config.slots, [None; SLOT_COUNT]);
}

#[test]
fn duplicate_names_rejected() {
    let mut config = Config::default();
    config.upsert_camera(camera("Garage", "10.0.0.1")).unwrap();
    assert!(config.upsert_camera(camera(" garage ", "10.0.0.2")).is_err());
}

#[test]
fn secrets_do_not_leak_into_debug() {
    let c = camera("A", "10.0.0.1");
    assert!(!c.describe().contains("s3cret"));
    assert!(!c.rtsp_url().contains("demo"));
    assert_eq!(c.rtsp_url(), "rtsp://10.0.0.1:554/cam/realmonitor?channel=1&subtype=0");
}

#[test]
fn description_shows_everything_else() {
    let mut c = camera("A \"b\"", "10.0.0.1");
    c.id = CameraId(0x0123_4567_89ab_cdef_0000_0000_0000_0000);
    c.stream = StreamKind::Sub;
    assert_eq!(
        c.describe(),
        "CameraConfig { id: 01234567, name: \"A \\\"b\\\"\", host: \"10.0.0.1\", port: 554, \
         stream: Sub, username: \"demo\", password: *** }"
    );
    assert_eq!(c.password.describe(), "***");
    assert_eq!(c.password.expose(), "s3cret");
    assert!(!c.password.is_empty() && Secret::default().is_empty());
}

#[test]
fn a_stored_config_reads_back() {
    let mut config = Config::default();
    let a = camera("Garage", "192.168.1.150");
    let mut b = camera("Backyard", "192.168.1.151");
    b.stream = StreamKind::Sub;
    b.port = 8554;
    config.assign(0, Some(a.id));
    config.assign(3, Some(b.id));
    config.cameras = vec![a, b];
    config.open_at_login = true;
    config.smooth_playback = true;
    config.window = Some(WindowGeometry {
        x: 10 * POINT,
        y: 20 * POINT,
        width: 1280 * POINT,
        height: 720 * POINT,
    });
    config.validate().unwrap();
    let stored = StoredConfig::of(&config);
    assert_eq!(stored.cameras[1].stream.as_deref(), Some("sub"));
    let loaded = stored.read().unwrap();
    assert!(loaded == config);
}

fn text_of(table: &toml::Table, key: &str) -> Option<String> {
    table.get(key).and_then(|v| v.as_str()).map(str::to_owned)
}

/// The stored configuration in a configuration file.
fn from_toml(text: &str) -> StoredConfig {
    let table: toml::Table = toml::from_str(text).unwrap();
    let cameras = match table.get("camera").and_then(|v| v.as_array()) {
        None => Vec::new(),
        Some(list) => list
            .iter()
            .map(|v| {
                let c = v.as_table().unwrap();
                StoredCamera {
                    id: text_of(c, "id"),
                    name: text_of(c, "name").unwrap(),
                    host: text_of(c, "host").unwrap(),
                    port: c.get("port").and_then(|v| v.as_integer()).map(|p| p as u16),
                    stream: text_of(c, "stream"),
                    username: text_of(c, "username"),
                    password: text_of(c, "password"),
                }
            })
            .collect(),
    };
    StoredConfig {
        open_at_login: table.get("open_at_login").and_then(|v| v.as_bool()),
        smooth_playback: table.get("smooth_playback").and_then(|v| v.as_bool()),
        slots: table
            .get("slots")
            .and_then(|v| v.as_array())
            .map(|list| list.iter().map(|v| v.as_str().unwrap().to_owned()).collect()),
        window: None,
        cameras,
    }
}

#[test]
fn hand_edited_bad_slots_are_sanitized() {
    let text = r#"
slots = ["00000000-0000-0000-0000-000000000001", ""]

[[camera]]
id = "00000000-0000-0000-0000-000000000002"
name = "B"
host = "10.0.0.2"
"#;
    let config = from_toml(text).read().unwrap();
    assert_eq!(config.slots, [None; SLOT_COUNT]);
    assert_eq!(config.cameras[0].port, 554);
    assert_eq!(config.cameras[0].id, CameraId(2));
    assert!(config.cameras[0].password.is_empty() && config.cameras[0].username.is_empty());
}

#[test]
fn old_file_without_smooth_playback_loads_disabled() {
    let config = from_toml("open_at_login = true\nslots = [\"\", \"\", \"\", \"\"]\n").read().unwrap();
    assert!(config.open_at_login);
    assert!(!config.smooth_playback);
}

#[test]
fn an_empty_file_is_the_default() {
    assert!(from_toml("").read().unwrap() == Config::default());
}

#[test]
fn unreadable_parts_of_a_file_are_told() {
    let camera = |extra: &str| format!("[[camera]]\nname = \"A\"\nhost = \"h\"\n{extra}\n");
    match from_toml(&camera("id = \"nope\"")).read() {
        Err(StoredError::Id(s)) => assert_eq!(s, "nope"),
        _ => panic!("read"),
    }
    match from_toml(&camera("stream = \"Main\"")).read() {
        Err(StoredError::Stream(s)) => assert_eq!(s, "Main"),
        _ => panic!("read"),
    }
    match from_toml("slots = [\"\", \"x\", \"y\"]").read() {
        Err(StoredError::Slot(s)) => assert_eq!(s, "x"),
        _ => panic!("read"),
    }
    // A camera without an id gets a fresh one.
    let a = from_toml(&camera("")).read().unwrap().cameras[0].id;
    let b = from_toml(&camera("")).read().unwrap().cameras[0].id;
    assert!(a != b);
    assert_eq!(uuid::Uuid::from_u128(a.0).get_version_num(), 4);
}

#[test]
fn ids_are_written_and_read() {
    for _ in 0..20 {
        let id = CameraId::new();
        let uuid = uuid::Uuid::from_u128(id.0);
        assert_eq!(uuid.get_version_num(), 4);
        assert_eq!(id.to_text(), uuid.to_string());
        assert_eq!(id.short(), uuid.simple().to_string()[..8]);
        for form in [
            uuid.to_string(),
            uuid.simple().to_string(),
            uuid.braced().to_string(),
            uuid.urn().to_string(),
            uuid.to_string().to_uppercase(),
            uuid.urn().to_string().to_uppercase(),
        ] {
            assert_eq!(CameraId::parse(&form), Some(id), "{form}");
        }
    }
    let digits = "0123456789abcdef0123456789abcdef";
    let braced = "{01234567-89ab-cdef-0123-456789abcdef}";
    for s in [
        "", "x", &digits[..31], &format!("{digits}0"), &format!(" {digits}"), &braced[1..],
        &braced[..37], &format!("{{{digits}}}"), "urn:uuid:", &format!("urn:uuid:{digits}"),
        "01234567-89ab-cdef-0123456789abcdef", "g1234567-89ab-cdef-0123-456789abcdef",
        "+1234567-89ab-cdef-0123-456789abcdef", "0123456789ab-cdef-0123-456789abcdef-",
    ] {
        assert_eq!(CameraId::parse(s).map(|id| id.0), uuid::Uuid::parse_str(s).ok().map(|u| u.as_u128()), "{s}");
        assert_eq!(CameraId::parse(s), None, "{s}");
    }
}

#[test]
fn slots_are_written_and_read() {
    let id = CameraId(7);
    let slots = [None, Some(id), None, Some(CameraId(u128::MAX))];
    let text = slots_to_text(&slots);
    assert_eq!(text[0], "");
    assert_eq!(text[1], "00000000-0000-0000-0000-000000000007");
    assert_eq!(slots_from_text(&text).unwrap(), slots);
    assert_eq!(slots_from_text(&vec![]).unwrap(), [None; SLOT_COUNT]);
    let padded = vec!["  ".to_owned(), format!(" {} ", text[1]), String::new(), String::new(), "junk".to_owned()];
    assert_eq!(slots_from_text(&padded).unwrap(), [None, Some(id), None, None]);
    assert_eq!(slots_from_text(&vec![String::new(), "junk".to_owned()]).unwrap_err(), "junk");
}

#[test]
fn every_complaint_about_a_camera() {
    let check = |name: &str, host: &str, port: u16| {
        let mut c = camera(name, host);
        c.port = port;
        validate_camera(&c)
    };
    assert!(check("A", " host ", 1).is_ok());
    assert_eq!(reason(check("  ", "h", 1)), "Camera name is required");
    assert_eq!(reason(check(" A ", " ", 1)), "\"A\": address (IP or hostname) is required");
    for host in ["rtsp://h", "a b", "user@h"] {
        assert_eq!(
            reason(check("A", host, 1)),
            "\"A\": enter only the IP or hostname, without rtsp:// or a username"
        );
    }
    assert_eq!(reason(check("A", "h", 0)), "\"A\": invalid port");
}

#[test]
fn every_complaint_about_a_config() {
    let a = camera("A", "h");
    let mut config = Config::default();
    config.cameras = vec![a.clone(), camera(" a", "h")];
    assert_eq!(reason(config.validate()), "A camera named \"A\" already exists");
    let mut twin = camera("B", "h");
    twin.id = CameraId(0xabcd_ef01_0000_0000_0000_0000_0000_0000);
    let mut other = camera("C", "h");
    other.id = twin.id;
    config.cameras = vec![twin.clone(), other];
    assert_eq!(reason(config.validate()), "Duplicate camera id: abcdef01");
    config.cameras = vec![a.clone()];
    config.slots[1] = Some(twin.id);
    assert_eq!(reason(config.validate()), "Layout slot points to unknown camera abcdef01");
    config.slots = [Some(a.id), None, None, Some(a.id)];
    assert_eq!(reason(config.validate()), "The same camera is in two layout slots");
    config.sanitize();
    assert_eq!(config.slots, [Some(a.id), None, None, None]);
    assert!(config.validate().is_ok());
    config.cameras[0].port = 0;
    assert_eq!(reason(config.validate()), "\"A\": invalid port");
}

#[test]
fn upsert_replaces_by_id_and_keeps_the_rest_on_error() {
    let mut config = Config::default();
    let mut a = camera("A", "h");
    config.upsert_camera(a.clone()).unwrap();
    config.upsert_camera(camera("B", "h")).unwrap();
    a.name = "a ".into();
    config.upsert_camera(a.clone()).unwrap();
    assert_eq!(config.cameras.len(), 2);
    assert_eq!(config.cameras[0].name, "a ");
    assert!(config.camera(a.id).is_some() && config.camera(CameraId(1)).is_none());
    let before = config.clone();
    a.name = "b".into();
    assert_eq!(reason(config.upsert_camera(a.clone())), "A camera named \"B\" already exists");
    assert!(config == before);
    config.camera_mut(a.id).unwrap().port = 1;
    assert!(config != before);
    assert_eq!(config.camera(a.id).unwrap().port, 1);
}

#[test]
fn assigned_cameras_come_in_slot_order() {
    let mut config = Config::default();
    let (a, b) = (camera("A", "h"), camera("B", "h"));
    config.cameras = vec![a.clone(), b.clone()];
    config.assign(3, Some(a.id));
    config.assign(1, Some(b.id));
    config.assign(SLOT_COUNT, Some(a.id));
    let names: Vec<&str> = config.assigned_cameras().iter().map(|c| c.name.as_str()).collect();
    assert_eq!(names, ["B", "A"]);
    assert_eq!((config.slot_of(a.id), config.slot_of(b.id)), (Some(3), Some(1)));
    config.assign(1, None);
    assert_eq!(config.slot_of(b.id), None);
}

#[test]
fn only_connection_settings_restart_a_stream() {
    let a = camera("A", "h");
    let mut b = a.clone();
    b.name = "B".into();
    b.id = CameraId(1);
    assert!(!a.connection_differs(&b));
    let change = |f: fn(&mut CameraConfig)| {
        let mut c = camera("A", "h");
        c.id = CameraId(9);
        f(&mut c);
        a.connection_differs(&c)
    };
    assert!(!change(|_| ()));
    assert!(change(|c| c.host.push('x')));
    assert!(change(|c| c.port = 1));
    assert!(change(|c| c.stream = StreamKind::Sub));
    assert!(change(|c| c.username.clear()));
    assert!(change(|c| c.password = Secret::new("")));
}

#[test]
fn streams_have_numbers_and_names() {
    assert_eq!((StreamKind::Main.subtype(), StreamKind::Main.label()), (0, "Main"));
    assert_eq!((StreamKind::Sub.subtype(), StreamKind::Sub.label()), (1, "Sub"));
    assert_eq!(StreamKind::default(), StreamKind::Main);
    let mut c = camera("A", " cam.local ");
    c.stream = StreamKind::Sub;
    c.port = 8554;
    assert_eq!(c.rtsp_url(), "rtsp://cam.local:8554/cam/realmonitor?channel=1&subtype=1");
}

#[test]
fn loose_modes_are_tightened() {
    assert_eq!(tightened_mode(0o100644), Some(PRIVATE_MODE));
    assert_eq!(tightened_mode(0o100660), Some(0o600));
    assert_eq!(tightened_mode(0o100600), None);
    assert_eq!(tightened_mode(0o100700), None);
}

#[test]
fn errors_have_texts() {
    let io = ConfigError::Io { path: "/x".into(), source: "denied".into() };
    assert_eq!(io.to_text(), "I/O error at /x: denied");
    assert_eq!(ConfigError::Parse("bad".into()).to_text(), "Invalid config.toml: bad");
    assert_eq!(
        ConfigError::Serialize("bad".into()).to_text(),
        "Failed to serialize the configuration: bad"
    );
    assert_eq!(ConfigError::Invalid("x".into()).to_text(), "x");
}
