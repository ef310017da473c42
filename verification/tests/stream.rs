use quest_scrcpy::decoder::Frame;
use quest_scrcpy::server::Packet;
use quest_scrcpy::stream;
use quest_scrcpy::stream::{FrameSlot, Rate, RecordCmd, Status, StreamConfig, StreamLoop};

fn packet(is_config: bool, is_key: bool, byte: u8) -> Packet {
    Packet { is_config, is_key, pts: 0, data: vec![byte] }
}

#[test]
fn asks_server_for_configured_stream() {
    let c = StreamConfig {
        serial: "S".to_string(),
        display_id: 1,
        max_size: 2,
        video_bit_rate: 3,
        max_fps: 4,
        audio: true,
        audio_bit_rate: 5,
    };
    let o = c.server_options();
    assert_eq!(
        (o.display_id, o.max_size, o.video_bit_rate, o.max_fps, o.audio, o.audio_bit_rate),
        (1, 2, 3, 4, true, 5)
    );
}

#[test]
fn falls_back_to_default_port() {
    assert_eq!(stream::free_port(Some(4)), 4);
    assert_eq!(stream::free_port(None), 27183);
}

#[test]
fn hands_out_newest_frame_once() {
    let mut slot = FrameSlot::default();
    assert!(slot.take_newer(0).is_none());
    slot.publish(Frame { width: 1, height: 1, rgba: vec![1; 4] });
    slot.publish(Frame { width: 1, height: 1, rgba: vec![2; 4] });
    assert!(slot.take_newer(2).is_none());
    let (frame, generation) = slot.take_newer(0).unwrap();
    assert_eq!((frame.rgba, generation), (vec![2; 4], 2));
    assert!(slot.take_newer(0).is_none());
    let mut slot = FrameSlot { frame: None, generation: u64::MAX };
    slot.publish(Frame { width: 1, height: 1, rgba: vec![3; 4] });
    assert_eq!(slot.generation, 0);
}

#[test]
fn makes_decoders_for_announced_sizes() {
    let mut l: StreamLoop<u8> = StreamLoop::new();
    assert_eq!(l.on_resolution(0, 5), Some((1, 5)));
    assert_eq!(l.on_resolution(0, 5), None);
    assert_eq!(l.on_resolution(7, 5), Some((7, 5)));
    assert_eq!(l.session_size(), (7, 5));
    assert_eq!(l.on_decode(), None);
}

#[test]
fn makes_decoder_without_announcement() {
    let mut l: StreamLoop<u8> = StreamLoop::new();
    assert_eq!(l.on_decode(), Some((1920, 1088)));
    assert_eq!(l.session_size(), (1920, 1088));
    assert_eq!(l.on_decode(), None);
    assert_eq!(l.on_resolution(1920, 1088), None);
}

#[test]
fn records_from_first_key_frame() {
    let mut l: StreamLoop<&str> = StreamLoop::new();
    // Too early: the size and the configuration are missing.
    let a = l.on_command(RecordCmd::Start("clip"));
    assert!(!a.close && a.open.is_none());
    assert!(!l.is_recording());
    assert_eq!(l.on_packet(&packet(true, false, 1)), None);
    l.on_resolution(4, 2);
    assert_eq!(l.on_packet(&packet(false, true, 2)), None);
    assert_eq!(l.on_packet(&packet(true, false, 3)), Some("clip"));
    assert_eq!(l.config(), &vec![3]);
    l.on_opened(true);
    assert!(l.is_recording());
    let offered = [
        packet(true, false, 3),
        packet(false, false, 4),
        packet(true, true, 5),
        packet(false, true, 6),
        packet(false, false, 7),
        packet(true, false, 8),
        packet(false, false, 9),
    ];
    let written: Vec<u8> =
        offered.iter().filter(|p| l.offer(p)).map(|p| p.data[0]).collect();
    assert_eq!(written, vec![6, 7, 9]);
}

#[test]
fn records_through_all_that_a_session_does() {
    let mut l: StreamLoop<&str> = StreamLoop::new();
    l.on_resolution(4, 2);
    l.on_packet(&packet(true, false, 1));
    assert_eq!(l.on_command(RecordCmd::Start("clip")).open, Some("clip"));
    l.on_opened(true);
    let mut written = Vec::new();
    for (i, key) in [false, true, false, false].into_iter().enumerate() {
        for p in [packet(true, false, 10), packet(false, key, i as u8)] {
            assert_eq!(l.on_packet(&p), None);
            if l.offer(&p) {
                written.push(p.data[0]);
            }
            assert_eq!(l.on_decode(), None);
            l.on_frame(4, 2);
            l.on_tick(600_000_000);
            l.on_resolution(4 + i as u32, 2);
        }
    }
    assert_eq!(written, vec![1, 2, 3]);
    assert!(l.is_recording());
}

#[test]
fn restarts_and_ends_recordings() {
    let mut l: StreamLoop<&str> = StreamLoop::new();
    l.on_resolution(4, 2);
    l.on_packet(&packet(true, false, 1));
    assert_eq!(l.on_command(RecordCmd::Start("a")).open, Some("a"));
    l.on_opened(true);
    assert!(l.offer(&packet(false, true, 2)));
    let a = l.on_command(RecordCmd::Start("b"));
    assert!(a.close && !a.report);
    assert_eq!(a.open, Some("b"));
    // The new one cannot be opened: nothing is written, though the light stays on.
    l.on_opened(false);
    assert!(!l.offer(&packet(false, true, 3)));
    assert!(l.is_recording());
    let a = l.on_command(RecordCmd::Stop);
    assert!(!a.close && a.report && a.open.is_none());
    assert!(!l.is_recording());
    assert_eq!(l.on_command(RecordCmd::Start("c")).open, Some("c"));
    l.on_opened(true);
    assert!(!l.offer(&packet(false, false, 4)));
    assert!(l.offer(&packet(false, true, 5)));
    l.on_write_failed();
    assert!(!l.is_recording());
    assert!(!l.on_finish());
    assert_eq!(l.on_command(RecordCmd::Start("d")).open, Some("d"));
    l.on_opened(true);
    assert!(l.on_finish());
}

#[test]
fn calls_off_waiting_recordings() {
    let mut l: StreamLoop<&str> = StreamLoop::new();
    l.on_command(RecordCmd::Start("a"));
    l.on_command(RecordCmd::Stop);
    l.on_resolution(4, 2);
    assert_eq!(l.on_packet(&packet(true, false, 1)), None);
}

#[test]
fn reports_rate_twice_a_second() {
    let mut l: StreamLoop<u8> = StreamLoop::new();
    l.on_resolution(8, 2);
    l.on_frame(4, 6);
    l.on_frame(4, 6);
    assert!(l.on_tick(499_999_999).is_none());
    match l.on_tick(1_000_000_000) {
        Some(Status::Streaming { width, height, rate }) => {
            assert_eq!((width, height), (8, 6));
            assert_eq!(rate, Some(Rate { frames: 2, nanos: 1_000_000_000 }));
        }
        _ => panic!("no report"),
    }
    assert_eq!(l.frames_since(), 0);
}

#[test]
fn ends_sessions() {
    let e = || Some("boom".to_string());
    assert!(matches!(
        stream::status_after_run(Status::Connecting, true, e(), false),
        Status::Error(m) if m == "boom"
    ));
    assert!(matches!(
        stream::status_after_run(Status::Connecting, true, e(), true),
        Status::Stopped
    ));
    assert!(matches!(
        stream::status_after_run(Status::Connecting, false, e(), true),
        Status::Connecting
    ));
    assert!(matches!(
        stream::status_after_run(Status::Connecting, true, None, false),
        Status::Stopped
    ));
}
