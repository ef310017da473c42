use quest_scrcpy::server;
use quest_scrcpy::server::{
    EventRead, Handshake, HandshakeAction, HandshakeError, HandshakeEvent, StreamEvent,
};

fn packet(flags: u8, pts: u64, data: &[u8]) -> Vec<u8> {
    let mut header = pts.to_be_bytes();
    header[0] |= flags;
    let mut b = header.to_vec();
    b.extend_from_slice(&(data.len() as u32).to_be_bytes());
    b.extend_from_slice(data);
    b
}

#[test]
fn reads_resolution_events() {
    let b = [0x80, 0, 0, 0, 0, 0, 0x10, 0x20, 0, 0, 0x08, 0xa0, 9];
    match server::read_event(&b) {
        EventRead::Event { event: StreamEvent::Resolution { width, height }, used } => {
            assert_eq!((width, height, used), (4128, 2208, 12));
        }
        _ => panic!("no resolution"),
    }
}

#[test]
fn reads_packets_back() {
    let mut b = packet(0x40, 0, &[1, 2, 3]);
    b.extend(packet(0x20, 123_456, &[4]));
    b.extend(packet(0, (1 << 61) - 1, &[5, 6]));
    let mut found = Vec::new();
    let mut at = 0;
    while let EventRead::Event { event: StreamEvent::Packet(p), used } =
        server::read_event(&b[at..])
    {
        found.push((p.is_config, p.is_key, p.pts, p.data));
        at += used;
    }
    assert_eq!(at, b.len());
    assert_eq!(
        found,
        vec![
            (true, false, 0, vec![1, 2, 3]),
            (false, true, 123_456, vec![4]),
            (false, false, (1 << 61) - 1, vec![5, 6]),
        ]
    );
}

#[test]
fn waits_for_whole_events() {
    let b = packet(0, 7, &[1, 2, 3]);
    assert!(matches!(server::read_event(&b[..11]), EventRead::NeedMore(12)));
    assert!(matches!(server::read_event(&b[..14]), EventRead::NeedMore(15)));
    assert!(matches!(server::read_event(&b), EventRead::Event { used: 15, .. }));
}

#[test]
fn refuses_implausible_sizes() {
    let mut b = vec![0; 12];
    assert!(matches!(server::read_event(&b), EventRead::BadSize(0)));
    b[8..12].copy_from_slice(&(64 * 1024 * 1024 + 1u32).to_be_bytes());
    assert!(matches!(server::read_event(&b), EventRead::BadSize(67_108_865)));
    b[8..12].copy_from_slice(&(64 * 1024 * 1024u32).to_be_bytes());
    assert!(matches!(server::read_event(&b), EventRead::NeedMore(67_108_876)));
    assert_eq!(server::bad_size_message(0), "implausible packet size 0");
}

#[test]
fn names_codecs() {
    assert_eq!(server::CODEC_ID_H264, u32::from_be_bytes(*b"h264"));
    assert_eq!(server::CODEC_ID_AAC, u32::from_be_bytes([0, b'a', b'a', b'c']));
    assert_eq!(server::CODEC_ID_OPUS, u32::from_be_bytes(*b"opus"));
    assert_eq!(server::codec_name(server::CODEC_ID_H264), "h264");
    assert_eq!(server::codec_name(server::CODEC_ID_AAC), "aac");
    assert_eq!(server::codec_name(server::CODEC_ID_OPUS), "opus");
    assert_eq!(server::codec_name(0), "disabled");
    assert_eq!(server::codec_name(1), "config-error");
    assert_eq!(server::codec_name(0x00ab_cdef), "0x00abcdef");
}

#[test]
fn reads_device_names() {
    let mut name = [0u8; 64];
    name[..7].copy_from_slice(b"Quest 3");
    name[10] = b'x';
    assert_eq!(server::parse_device_name(&name), "Quest 3");
    assert_eq!(server::parse_device_name(&[b'a'; 64]).len(), 64);
    assert_eq!(server::parse_device_name(&[0, b'a']), "");
}

#[test]
fn connects_all_sockets_before_metadata() {
    let mut h = Handshake::new(true);
    assert_eq!(h.action(false), HandshakeAction::Connect);
    h.step(HandshakeEvent::Connected);
    assert_eq!(h.action(false), HandshakeAction::ReadDummy);
    h.step(HandshakeEvent::Dummy(false));
    assert_eq!(h.action(false), HandshakeAction::Retry);
    assert_eq!(h.action(true), HandshakeAction::Fail(HandshakeError::NoHandshakeByte));
    h.step(HandshakeEvent::Waited);
    h.step(HandshakeEvent::Connected);
    h.step(HandshakeEvent::Dummy(true));
    assert_eq!(h.action(false), HandshakeAction::Connect);
    // A name that comes too early changes nothing.
    h.step(HandshakeEvent::Name(b"early".to_vec()));
    assert_eq!(h.action(false), HandshakeAction::Connect);
    h.step(HandshakeEvent::Connected);
    assert_eq!(h.action(true), HandshakeAction::ReadName);
    h.step(HandshakeEvent::Name(b"Quest\0\0".to_vec()));
    assert_eq!(h.action(false), HandshakeAction::ReadVideoCodec);
    h.step(HandshakeEvent::Codec(server::CODEC_ID_H264));
    assert_eq!(h.action(false), HandshakeAction::ReadAudioCodec);
    h.step(HandshakeEvent::Codec(server::CODEC_ID_AAC));
    assert_eq!(h.action(false), HandshakeAction::Finish);
    assert_eq!(h.video_meta().device_name, "Quest");
    assert_eq!(h.video_meta().codec_id, server::CODEC_ID_H264);
    assert_eq!(h.audio_meta().unwrap().codec_id, server::CODEC_ID_AAC);
}

fn with_audio_code(code: u32) -> Handshake {
    let mut h = Handshake::new(true);
    h.step(HandshakeEvent::Connected);
    h.step(HandshakeEvent::Dummy(true));
    h.step(HandshakeEvent::Connected);
    let mut name = b"Quest 3".to_vec();
    name.resize(server::DEVICE_NAME_LEN, 0);
    h.step(HandshakeEvent::Name(name));
    h.step(HandshakeEvent::Codec(0x6832_3634));
    h.step(HandshakeEvent::Codec(code));
    assert_eq!(h.action(false), HandshakeAction::Finish);
    h
}

#[test]
fn has_no_audio_that_the_device_refused() {
    let h = with_audio_code(server::AUDIO_DISABLED);
    assert_eq!(h.video_meta().device_name, "Quest 3");
    assert_eq!(h.video_meta().codec_id, server::CODEC_ID_H264);
    assert!(h.audio_meta().is_none());
    // An error on the device is told to whoever starts the audio.
    let h = with_audio_code(server::AUDIO_CONFIG_ERROR);
    assert_eq!(h.audio_meta().unwrap().codec_id, server::AUDIO_CONFIG_ERROR);
}

#[test]
fn gives_up_on_silent_ports() {
    let mut h = Handshake::new(false);
    assert_eq!(h.action(true), HandshakeAction::Fail(HandshakeError::TimedOut));
    h.step(HandshakeEvent::Refused);
    assert_eq!(h.action(false), HandshakeAction::Connect);
    assert_eq!(h.action(true), HandshakeAction::Fail(HandshakeError::Refused));
    assert_eq!(HandshakeError::Refused.message(), "could not connect to forwarded scrcpy port");
    assert_eq!(HandshakeError::TimedOut.message(), "timed out connecting to scrcpy port");
    assert_eq!(
        HandshakeError::NoHandshakeByte.message(),
        "scrcpy server never delivered the handshake byte"
    );
    h.step(HandshakeEvent::Connected);
    h.step(HandshakeEvent::Dummy(true));
    h.step(HandshakeEvent::Name(Vec::new()));
    h.step(HandshakeEvent::Codec(5));
    assert_eq!(h.action(true), HandshakeAction::Finish);
    assert!(h.audio_meta().is_none());
}
