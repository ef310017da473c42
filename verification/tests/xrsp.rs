use quest_scrcpy::xrsp::frame::{word0, PacketHeader};

#[test]
fn parses_length_and_topic() {
    // total = 16 bytes -> length field = 16/4 - 1 = 3; topic = 42; flags set.
    let w0 = word0::SIZED | word0::INTERNAL;
    let buf = [w0 as u8, (w0 >> 8) as u8, 3, 0, 42, 0, 0, 0];
    let h = PacketHeader::parse(&buf).unwrap();
    assert_eq!(h.total_len, 16);
    assert_eq!(h.topic, 42);
    assert!(h.is_sized() && h.is_internal());
    assert_eq!(h.payload_len(0), 8);
    assert_eq!(h.payload_len(2), 6);
}

#[test]
fn roundtrips_header_bytes() {
    let h = PacketHeader { word0: word0::SIZED, total_len: 256, topic: 7 };
    let again = PacketHeader::parse(&h.to_bytes()).unwrap();
    assert_eq!(h, again);
}

#[test]
fn rejects_short_buffer() {
    assert!(PacketHeader::parse(&[0, 0, 0]).is_none());
}

#[test]
fn encodes_low_bytes_first() {
    let h = PacketHeader { word0: 0x1234, total_len: 0x4_0000, topic: 0x5678 };
    assert_eq!(h.to_bytes(), [0x34, 0x12, 0xff, 0xff, 0x78, 0x56, 0, 0]);
    let tiny = PacketHeader { word0: 0, total_len: 0, topic: 0 };
    assert_eq!(tiny.to_bytes(), [0; 8]);
    assert_eq!(tiny.payload_len(255), 0);
    assert!(!tiny.is_sized() && !tiny.is_internal());
}

#[test]
fn parsed_headers_encode_back() {
    let buf = [1, 2, 3, 4, 5, 6, 0, 0];
    assert_eq!(PacketHeader::parse(&buf).unwrap().to_bytes(), buf);
}
