use quest_scrcpy::adb::Device;
use quest_scrcpy::cli;
use quest_scrcpy::cli::{MirrorArgs, RecordLoop, ShotLoop};
use quest_scrcpy::config::CropPreset;
use quest_scrcpy::decoder::Frame;
use quest_scrcpy::server::Packet;

fn args() -> MirrorArgs {
    MirrorArgs { serial: None, display: None, max_size: None, bitrate: None, fps: None, audio: false }
}

fn device(serial: &str, usb: bool) -> Device {
    Device {
        serial: serial.to_string(),
        model: String::new(),
        state: "device".to_string(),
        usb,
    }
}

#[test]
fn picks_devices() {
    let list = vec![device("a:1", false), device("usb", true)];
    assert_eq!(cli::pick_serial(None, &list), Ok("usb".to_string()));
    assert_eq!(cli::pick_serial(Some("named".to_string()), &list), Ok("named".to_string()));
    assert_eq!(cli::pick_serial(None, &Vec::new()), Err("no online adb devices"));
}

#[test]
fn asks_server_for_headless_stream() {
    let o = args().server_options();
    assert_eq!(
        (o.display_id, o.max_size, o.video_bit_rate, o.max_fps, o.audio),
        (0, 0, 16_000_000, 0, false)
    );
    let a = MirrorArgs {
        display: Some(9),
        max_size: Some(1280),
        bitrate: Some(8),
        fps: Some(72),
        audio: true,
        ..args()
    };
    let o = a.server_options();
    assert_eq!(
        (o.display_id, o.max_size, o.video_bit_rate, o.max_fps, o.audio),
        (9, 1280, 8_000_000, 72, false)
    );
}

#[test]
fn starts_window_with_arguments() {
    let s = MirrorArgs { serial: Some("S".to_string()), audio: true, ..args() }.startup(true);
    assert_eq!(s.serial, Some("S".to_string()));
    assert_eq!((s.audio, s.autostart, s.display_id), (Some(true), true, None));
    assert_eq!(args().startup(false).audio, None);
}

#[test]
fn waits_for_a_shot() {
    let mut s = ShotLoop::new();
    assert_eq!(s.on_packet(), Some((1920, 1088)));
    assert_eq!(s.on_packet(), None);
    assert_eq!(s.on_resolution(0, 7), (1, 7));
    assert_eq!(s.on_resolution(0, 7), (1, 7));
    let f = |b| Frame { width: 1, height: 1, rgba: vec![b; 4] };
    assert_eq!(cli::newest(vec![f(1), f(2)]).unwrap().rgba, vec![2; 4]);
    assert!(cli::newest(vec![]).is_none());
}

fn packet(is_config: bool, is_key: bool, byte: u8) -> Packet {
    Packet { is_config, is_key, pts: 0, data: vec![byte] }
}

#[test]
fn records_what_follows_configuration() {
    let mut r = RecordLoop::new();
    let mut written = Vec::new();
    let mut opened = Vec::new();
    let mut feed = |r: &mut RecordLoop, p: Packet| {
        if let Some(size) = r.on_packet(&p) {
            opened.push(size);
        }
        if r.offer(&p) {
            written.push(p.data[0]);
        }
    };
    feed(&mut r, packet(true, false, 1));
    r.on_resolution(4, 2);
    feed(&mut r, packet(false, true, 2));
    feed(&mut r, packet(true, false, 3));
    feed(&mut r, packet(false, false, 4));
    feed(&mut r, packet(false, true, 5));
    r.on_resolution(8, 6);
    feed(&mut r, packet(true, false, 6));
    feed(&mut r, packet(false, false, 7));
    assert_eq!(opened, vec![(4, 2)]);
    assert_eq!(written, vec![5, 7]);
}

#[test]
fn reads_the_view_of_a_clip() {
    assert_eq!(cli::record_view(None, false), None);
    let eye = cli::record_view(Some(CropPreset::LeftEye), true).unwrap();
    assert_eq!(eye.uv, CropPreset::LeftEye.crop());
    assert!(eye.lens_correct);
    assert_eq!(f32::from_bits(eye.lens_k1), 0.02);
    assert_eq!(f32::from_bits(eye.lens_k2), -0.20);
    assert_eq!(f32::from_bits(eye.rotation_deg), -1.0);
    let whole = cli::record_view(None, true).unwrap();
    assert_eq!(whole.uv, CropPreset::FullPanel.crop());
    let plain = cli::record_view(Some(CropPreset::Center), false).unwrap();
    assert!(!plain.lens_correct);
    assert_eq!(f32::from_bits(plain.rotation_deg), 0.0);
}
