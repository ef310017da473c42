use quest_scrcpy::adb::{Device, DisplayInfo};
use quest_scrcpy::app;
use quest_scrcpy::app::{App, RecordToggle, Settings, Source, StartupConfig, StatusLine, Target};
use quest_scrcpy::config;
use quest_scrcpy::config::{Config, CropPreset};
use quest_scrcpy::displays;
use quest_scrcpy::stream::Status;

fn device(serial: &str, model: &str, state: &str) -> Device {
    Device {
        serial: serial.to_string(),
        model: model.to_string(),
        state: state.to_string(),
        usb: !serial.contains(':'),
    }
}

fn quest() -> Device {
    device("1WMH", "Quest_3", "device")
}

fn open(devices: Vec<Device>) -> App {
    App::new(StartupConfig::default(), None, devices)
}

fn display(id: u32, width: u32, height: u32) -> DisplayInfo {
    DisplayInfo { id, width, height }
}

#[test]
fn opens_with_saved_settings_and_flags() {
    let saved = Config { max_size: 1280, max_fps: 90, ..Config::default() };
    let startup = StartupConfig {
        serial: Some("b:1".to_string()),
        max_fps: Some(30),
        audio: Some(true),
        ..StartupConfig::default()
    };
    let mut a = App::new(startup, Some(saved), vec![quest(), device("b:1", "", "offline")]);
    let s = a.settings();
    assert_eq!((s.max_size, s.max_fps, s.audio, s.bitrate_mbps), (1280, 30, true, 16));
    assert!(a.is_selected("b:1"));
    assert!(a.autosave(0).is_none());
    assert!(a.autosave(10_000).is_none());
    assert_eq!(Settings::default().max_size, 1920);
}

#[test]
fn keeps_selection_while_online() {
    let mut a = open(vec![device("b:1", "x", "device"), quest()]);
    assert!(a.is_selected("1WMH"));
    assert_eq!(a.device_label(), "Quest_3 (USB)");
    a.select_device("b:1");
    a.refresh_devices(vec![quest(), device("b:1", "x", "device")]);
    assert!(a.is_selected("b:1"));
    a.refresh_devices(vec![quest(), device("b:1", "x", "offline")]);
    assert!(a.is_selected("1WMH"));
    a.refresh_devices(vec![]);
    assert!(!a.has_selection());
    assert_eq!(a.device_label(), "No device");
}

#[test]
fn asks_for_displays_when_safe() {
    let mut a = open(vec![quest()]);
    assert!(app::fetch_safe(&None));
    assert!(!app::fetch_safe(&Some(Status::Connecting)));
    assert!(app::fetch_safe(&Some(Status::Stopped)));
    assert_eq!(a.drive_display_fetch(false), None);
    assert_eq!(a.drive_display_fetch(true), Some("1WMH".to_string()));
    assert_eq!(a.drive_display_fetch(true), None);
    a.select_device("1WMH");
    assert_eq!(a.drive_display_fetch(true), None);
    a.on_displays(None);
    assert_eq!(a.drive_display_fetch(true), Some("1WMH".to_string()));
    let mut a = open(vec![]);
    assert_eq!(a.drive_display_fetch(true), None);
    a.refresh_devices(vec![quest()]);
    assert!(a.drive_display_fetch(true).is_some());
}

#[test]
fn sorts_displays_by_area() {
    let found = vec![
        display(5, 1, 1),
        display(11, 1020, 125),
        display(9, 4128, 2208),
        display(0, 2208, 4128),
        display(7, u32::MAX, u32::MAX),
    ];
    let ids: Vec<u32> = displays::choices(&found).iter().map(|d| d.id).collect();
    assert_eq!(ids, vec![7, 9, 0, 11]);
    let mut a = open(vec![quest()]);
    a.set_settings(Settings { display_id: 9, ..a.settings() });
    a.on_displays(Some(found.clone()));
    assert_eq!(a.settings().display_id, 9);
    assert_eq!(a.display_label(), "Display 9 — 4128x2208");
    a.set_settings(Settings { display_id: 5, ..a.settings() });
    assert_eq!(a.display_label(), "Display 5");
    a.on_displays(Some(found));
    assert_eq!(a.settings().display_id, 0);
    a.on_displays(Some(vec![display(3, 10, 10), display(4, 20, 20)]));
    assert_eq!(a.settings().display_id, 4);
    a.on_displays(Some(vec![]));
    assert_eq!(a.settings().display_id, 4);
}

#[test]
fn connects_panel() {
    let mut a = open(vec![device("p", "Pixel", "device")]);
    assert_eq!(a.default_source(), Source::Panel);
    assert_eq!(a.placeholder(), "Pick your Quest and hit Connect.");
    let c = a.connect().unwrap();
    assert_eq!((c.serial.as_str(), c.video_bit_rate, c.audio_bit_rate), ("p", 16_000_000, 128_000));
    assert_eq!(a.shown_source(), Some(Source::Panel));
    assert_eq!(a.placeholder(), "Waiting for first frame…");
    assert_eq!(a.apply_source(), None);
    a.on_frame_shown(3);
    assert!(a.has_texture() && a.last_generation() == 3);
    a.set_settings(Settings { bitrate_mbps: 20, ..a.settings() });
    assert_eq!(a.apply_source(), Some(Source::Panel));
    a.connect();
    assert!(!a.has_texture() && a.last_generation() == 0);
    a.disconnect();
    assert_eq!(a.shown_source(), None);
    assert!(open(vec![]).connect().is_none());
}

#[test]
fn connects_flat_view() {
    let mut a = open(vec![quest()]);
    assert_eq!(a.default_source(), Source::Flat);
    a.set_settings(Settings { max_size: 639, bitrate_mbps: 1, ..a.settings() });
    let (serial, c) = a.connect_flat().unwrap();
    assert_eq!((serial.as_str(), c.max_size, c.bitrate, c.fps), ("1WMH", 1920, 2_000_000, 72));
    let v = a.view_params();
    assert_eq!(v.uv, CropPreset::FullPanel.crop());
    assert!(!v.lens_correct && v.rotation_deg == config::ZERO);
    assert_eq!(v.lens_k1, config::QUEST3_K1);
    assert!(!a.show_tools());
    assert_eq!(a.apply_source(), None);
    a.set_settings(Settings { max_size: 640, max_fps: 30, ..a.settings() });
    assert_eq!(a.apply_source(), Some(Source::Flat));
    assert_eq!((a.flat_config().max_size, a.flat_config().fps), (640, 30));
}

#[test]
fn knows_quests_by_model() {
    for (model, quest) in
        [("Quest_3", true), ("OCULUS", true), ("Eureka", true), ("MetaX", true), ("Pixel", false)]
    {
        let a = open(vec![device("d", model, "device")]);
        assert_eq!(a.selected_is_quest(), quest);
        assert_eq!(a.show_tools(), !quest);
    }
    assert!(!open(vec![]).selected_is_quest());
    assert_eq!(app::connect_hint(false), "Mirror this device");
}

#[test]
fn applies_presets() {
    let mut a = open(vec![]);
    a.set_crop(CropPreset::RightEye);
    assert_eq!(f32::from_bits(a.view_params().uv.min_x), 0.5);
    let mut v = a.view_params();
    v.lens_correct = false;
    v.lens_k1 = config::ONE;
    a.set_view_params(v);
    a.reset_lens();
    assert_eq!(a.view_params().lens_k1, config::QUEST3_K1);
    assert!(!a.view_params().lens_correct);
    a.apply_quest3_preset();
    assert_eq!(a.view_params().uv, CropPreset::LeftEye.crop());
    assert!(a.view_params().lens_correct);
}

#[test]
fn saves_settings_when_quiet() {
    let mut a = open(vec![]);
    assert!(a.autosave(1_000).is_none());
    a.set_crop(CropPreset::Center);
    assert!(a.autosave(2_000).is_none());
    assert!(a.autosave(2_400).is_none());
    // Another change starts the time anew.
    a.set_crop(CropPreset::FullPanel);
    assert!(a.autosave(2_450).is_none());
    assert!(a.autosave(2_949).is_none());
    let saved = a.autosave(2_950).unwrap();
    assert_eq!(saved.uv, CropPreset::FullPanel.crop());
    assert!(a.autosave(9_000).is_none());
}

#[test]
fn remembers_addresses_once() {
    let mut a = open(vec![]);
    assert_eq!(a.start_remote_connect(" 10.0.0.1 "), Some("10.0.0.1:5555".to_string()));
    assert_eq!(a.message(), &Some("🔗 Connecting to 10.0.0.1:5555…".to_string()));
    assert!(a.is_connecting());
    assert_eq!(a.start_remote_connect("x"), None);
    assert!(a.start_connect_all().is_none());
    let remote = device("10.0.0.1:5555", "Quest_3", "device");
    a.on_connected(
        Target::One("10.0.0.1:5555".to_string()),
        "connected",
        vec![quest(), remote.clone()],
    );
    assert!(!a.is_connecting());
    assert_eq!(a.message(), &Some("🔗 connected".to_string()));
    assert!(a.is_selected("10.0.0.1:5555"));
    a.on_connected(Target::One("10.0.0.1:5555".to_string()), "again", vec![remote.clone()]);
    assert_eq!(a.remotes(), &vec!["10.0.0.1:5555".to_string()]);
    assert_eq!(a.start_connect_all(), Some(vec!["10.0.0.1:5555".to_string()]));
    a.on_connected(Target::All, &app::connect_all_reply(1, 1), vec![remote]);
    assert_eq!(a.message(), &Some("🔗 connected 1/1".to_string()));
    assert_eq!(a.remotes().len(), 1);
    a.start_remote_connect("h");
    a.on_connect_failed("no route");
    assert_eq!(a.message(), &Some("Connect failed: no route".to_string()));
    a.forget("other");
    assert_eq!(a.remotes().len(), 1);
    a.forget("10.0.0.1:5555");
    assert!(a.remotes().is_empty());
    assert!(a.start_connect_all().is_none());
}

#[test]
fn toggles_recordings() {
    let mut a = open(vec![quest()]);
    assert_eq!(a.toggle_recording(true), RecordToggle::Nothing);
    a.connect();
    a.set_crop(CropPreset::RightEye);
    let view = a.view_params();
    assert_eq!(view.uv, CropPreset::RightEye.crop());
    assert_eq!(a.toggle_recording(false), RecordToggle::StartPanel(view));
    assert_eq!(a.toggle_recording(true), RecordToggle::Stop);
    a.connect_flat();
    assert_eq!(a.toggle_recording(false), RecordToggle::StartFlat);
    a.on_recording_started(Ok("c.mp4"));
    assert_eq!(a.message(), &Some("⏺ Recording to c.mp4".to_string()));
    a.on_recording_started(Err("full"));
    assert_eq!(a.message(), &Some("Record failed: full".to_string()));
    a.on_recording_stopped();
    assert_eq!(a.message(), &Some("⏹ Recording saved.".to_string()));
    assert_eq!((app::record_label(true), app::record_label(false)), ("⏹ Stop", "⏺ Record"));
}

#[test]
fn tells_of_screenshots() {
    let mut a = open(vec![]);
    a.on_screenshot(None);
    assert_eq!(a.message(), &Some("No frame to capture yet.".to_string()));
    a.on_screenshot(Some(Ok("p.png")));
    assert_eq!(a.message(), &Some("📷 Saved p.png".to_string()));
    a.on_screenshot(Some(Err("full")));
    assert_eq!(a.message(), &Some("Screenshot failed: full".to_string()));
    assert_eq!(app::capture_path("clip", "mp4", 1_718_000_000), "clip_1718000000.mp4");
}

#[test]
fn starts_by_itself_once() {
    let startup = StartupConfig { autostart: true, ..StartupConfig::default() };
    let mut a = App::new(startup, None, vec![]);
    assert!(!a.autostart());
    a.refresh_devices(vec![quest()]);
    assert!(a.autostart());
    a.connect();
    a.disconnect();
    assert!(!a.autostart());
}

#[test]
fn writes_labels() {
    assert_eq!((app::size_label(0), app::size_label(1920)), ("Full panel".into(), "1920px".into()));
    assert_eq!((app::fps_label(0), app::fps_label(72)), ("Max".into(), "72".into()));
    assert_eq!(app::size_options(), vec![0, 1280, 1600, 1920, 2560, 3840]);
    assert_eq!(app::fps_options(), vec![0, 30, 60, 72, 90, 120]);
    assert_eq!(app::typed_address("  "), None);
    assert_eq!(app::typed_address(" a "), Some("a".to_string()));
}

#[test]
fn shows_status() {
    assert!(matches!(app::status_line(&None), StatusLine::Idle));
    assert!(matches!(app::status_line(&Some(Status::Connecting)), StatusLine::Connecting));
    assert!(matches!(app::status_line(&Some(Status::Stopped)), StatusLine::Stopped));
    match app::status_line(&Some(Status::Streaming { width: 4, height: 2, rate: None })) {
        StatusLine::Streaming(s) => assert_eq!(s, "● 4×2  ·  "),
        _ => panic!("no size"),
    }
    match app::status_line(&Some(Status::Error("boom".to_string()))) {
        StatusLine::Error(s) => assert_eq!(s, "⚠ boom"),
        _ => panic!("no error"),
    }
}

#[test]
fn notices_bitrates_that_do_not_fit() {
    let mut a = open(vec![quest()]);
    a.set_settings(Settings { bitrate_mbps: 4294, ..a.settings() });
    assert!(a.bitrate_fits());
    a.set_settings(Settings { bitrate_mbps: 4295, ..a.settings() });
    assert!(!a.bitrate_fits());
}

#[test]
fn restores_settings() {
    let saved = Config {
        rotation_deg: 12.5f32.to_bits(),
        display_id: 9,
        audio: true,
        remotes: vec!["10.0.0.1:5555".to_string()],
        ..Config::default()
    };
    let a = App::new(StartupConfig::default(), Some(saved.clone()), vec![quest()]);
    assert!(a.current_config().same(&saved));
    let startup = StartupConfig { display_id: Some(0), ..StartupConfig::default() };
    let c = App::new(startup, Some(saved), vec![]).current_config();
    assert_eq!((c.display_id, c.rotation_deg), (0, 12.5f32.to_bits()));
    assert_eq!(c.remotes, vec!["10.0.0.1:5555"]);
}

#[test]
fn saves_by_the_value_of_numbers() {
    let saved = Config { rotation_deg: 0.0f32.to_bits(), ..Config::default() };
    let mut a = App::new(StartupConfig::default(), Some(saved), vec![]);
    let mut view = a.view_params();
    view.rotation_deg = (-0.0f32).to_bits();
    a.set_view_params(view);
    assert!(a.autosave(0).is_none() && a.autosave(10_000).is_none());
    view.rotation_deg = f32::NAN.to_bits();
    a.set_view_params(view);
    assert!(a.autosave(20_000).is_none());
    assert!(a.autosave(20_500).is_some());
    assert!(a.autosave(20_501).is_none());
    assert!(a.autosave(21_001).is_some());
}
