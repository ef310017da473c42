use quest_scrcpy::decoder::Frame;
use quest_scrcpy::flat;
use quest_scrcpy::flat::{DimsRead, FlatMeter, FlatRead, FlatRecord, FlatShot, Route};
use quest_scrcpy::stream::{Rate, RecordCmd, Status};

fn header(preamble: &[u8], w: u32, h: u32) -> Vec<u8> {
    let mut b = preamble.to_vec();
    b.extend_from_slice(b"QFLT");
    b.extend_from_slice(&w.to_be_bytes());
    b.extend_from_slice(&h.to_be_bytes());
    b
}

#[test]
fn finds_header_behind_preamble() {
    let b = header(b"WARNING: linker: QFL QFLQFL\n", 1920, 1080);
    assert_eq!(
        flat::read_dims(&b),
        DimsRead::Dims { width: 1920, height: 1080, used: b.len() }
    );
    assert_eq!(flat::read_dims(&b[..b.len() - 1]), DimsRead::NeedMore(b.len()));
    assert_eq!(flat::read_dims(&b[..3]), DimsRead::NeedMore(4));
    assert_eq!(flat::read_dims(&b[..20]), DimsRead::NeedMore(21));
    assert_eq!(flat::dims_cut_off(&b[..20]), "scanning for flat stream magic");
    assert_eq!(flat::dims_cut_off(&b[..b.len() - 1]), "reading flat stream header");
}

#[test]
fn bounds_preamble() {
    let longest = vec![b'x'; 65533];
    let b = header(&longest, 1, 1);
    assert!(matches!(flat::read_dims(&b), DimsRead::Dims { width: 1, height: 1, .. }));
    let too_long = vec![b'x'; 65534];
    assert_eq!(flat::read_dims(&header(&too_long, 1, 1)), DimsRead::NoMagic);
}

#[test]
fn refuses_implausible_dims() {
    for (w, h) in [(0, 1), (1, 0), (8193, 1), (1, 8193)] {
        assert_eq!(
            flat::read_dims(&header(b"", w, h)),
            DimsRead::BadDims { width: w, height: h }
        );
    }
    assert!(matches!(flat::read_dims(&header(b"", 8192, 8192)), DimsRead::Dims { .. }));
    assert_eq!(flat::bad_dims_message(0, 9), "implausible flat stream dims 0x9");
}

fn packet(kind: u8, data: &[u8]) -> Vec<u8> {
    let mut b = vec![kind];
    b.extend_from_slice(&(data.len() as u32).to_be_bytes());
    b.extend_from_slice(data);
    b
}

#[test]
fn reads_flat_packets_back() {
    let mut b = packet(0, &[1, 2, 3]);
    b.extend(packet(2, &[0x12, 0x10]));
    b.extend(packet(1, &[9]));
    let mut found = Vec::new();
    let mut at = 0;
    while let FlatRead::Packet { packet, used } = flat::read_packet(&b[at..]) {
        found.push((packet.kind, packet.data));
        at += used;
    }
    assert_eq!(at, b.len());
    assert_eq!(found, vec![(0, vec![1, 2, 3]), (2, vec![0x12, 0x10]), (1, vec![9])]);
}

#[test]
fn refuses_bad_lengths() {
    assert!(matches!(flat::read_packet(&[0, 0, 0, 0]), FlatRead::NeedMore(5)));
    assert!(matches!(flat::read_packet(&[0, 0, 0, 0, 0]), FlatRead::BadLength(0)));
    let mut b = vec![0];
    b.extend_from_slice(&64_000_001u32.to_be_bytes());
    assert!(matches!(flat::read_packet(&b), FlatRead::BadLength(64_000_001)));
    b[1..].copy_from_slice(&64_000_000u32.to_be_bytes());
    assert!(matches!(flat::read_packet(&b), FlatRead::NeedMore(64_000_005)));
    assert_eq!(flat::bad_length_message(0), "bad packet length 0");
    assert_eq!(flat::packet_cut_off(0), None);
    assert_eq!(flat::packet_cut_off(4), Some("reading packet length"));
    assert_eq!(flat::packet_cut_off(5), Some("reading packet"));
}

#[test]
fn routes_packets() {
    assert_eq!(flat::route(0), Route::Video);
    assert_eq!(flat::route(1), Route::Audio { config: false });
    assert_eq!(flat::route(2), Route::Audio { config: true });
    assert_eq!(flat::route(9), Route::Audio { config: false });
    assert!(flat::wanted(Route::Video, false) && flat::wanted(Route::Video, true));
    assert!(flat::wanted(Route::Audio { config: true }, true));
    assert!(!flat::wanted(Route::Audio { config: true }, false));
    assert!(!flat::wanted(Route::Audio { config: false }, false));
}

#[test]
fn writes_agent_arguments() {
    assert_eq!(
        flat::push_agent_args("S", "j"),
        vec!["-s", "S", "push", "j", "/data/local/tmp/quest-flat-agent.jar"]
    );
    assert_eq!(
        flat::spawn_agent_args("S", 1920, 1080, 8_000_000, 72),
        vec![
            "-s",
            "S",
            "exec-out",
            "CLASSPATH=/data/local/tmp/quest-flat-agent.jar app_process /system/bin com.questflat.FlatStream -w 1920 -h 1080 -b 8000000 -f 72"
        ]
    );
}

#[test]
fn reports_flat_rate_twice_a_second() {
    let mut m = FlatMeter::new();
    assert!(m.on_frame(4, 2, 499_999_999).is_none());
    assert_eq!(m.frames_since(), 1);
    match m.on_frame(4, 2, 500_000_000) {
        Some(Status::Streaming { width: 4, height: 2, rate: Some(r) }) => {
            assert_eq!(r, Rate { frames: 2, nanos: 500_000_000 });
        }
        _ => panic!("no report"),
    }
    assert_eq!(m.frames_since(), 0);
}

fn frame(byte: u8) -> Frame {
    Frame { width: 1, height: 1, rgba: vec![byte; 4] }
}

#[test]
fn keeps_newest_flat_frame() {
    let mut s = FlatShot::new();
    s.on_frame(frame(1));
    s.on_frame(frame(2));
    assert_eq!(s.count(), 2);
    assert_eq!(s.into_frame().unwrap().rgba, vec![2; 4]);
    assert_eq!(FlatShot::new().into_frame().unwrap_err(), "no frames decoded");
}

#[test]
fn ends_flat_sessions() {
    assert!(matches!(
        flat::flat_status_after_run(Status::Connecting, false),
        Status::Stopped
    ));
    assert!(matches!(
        flat::flat_status_after_run(Status::Connecting, true),
        Status::Connecting
    ));
}

#[test]
fn records_flat_view_from_next_frame() {
    let mut r: FlatRecord<&str> = FlatRecord::new();
    assert_eq!(r.on_frame(), None);
    assert!(!r.on_command(RecordCmd::Start("a")));
    assert!(r.is_recording());
    r.on_audio_config(&[1, 2]);
    assert_eq!(r.audio_config(), &Some(vec![1, 2]));
    assert_eq!(r.on_frame(), Some("a"));
    r.on_opened(true);
    assert_eq!(r.on_frame(), None);
    assert!(r.is_recording());
    assert!(r.on_command(RecordCmd::Stop));
    assert!(!r.is_recording());
    assert!(!r.on_command(RecordCmd::Start("b")));
    assert_eq!(r.on_frame(), Some("b"));
    r.on_opened(true);
    r.on_write_failed();
    assert!(!r.is_recording());
}
