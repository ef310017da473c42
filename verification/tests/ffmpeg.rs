use quest_scrcpy::ffmpeg;
use quest_scrcpy::ffmpeg::Adts;

#[test]
fn chooses_ffmpeg() {
    assert_eq!(ffmpeg::path(Some("/x"), true, true), Some("/x".to_string()));
    assert_eq!(ffmpeg::path(Some("/x"), false, true), Some("ffmpeg".to_string()));
    assert_eq!(ffmpeg::path(None, true, true), Some("ffmpeg".to_string()));
    assert_eq!(ffmpeg::path(Some("/x"), false, false), None);
    assert!(ffmpeg::available(&Some("ffmpeg".to_string())));
    assert!(!ffmpeg::available(&None));
    assert_eq!(ffmpeg::base_args(), vec!["-hide_banner", "-loglevel", "error"]);
}

#[test]
fn logs_complaints() {
    assert_eq!(ffmpeg::log_path(Some("/l")), Some("/l".to_string()));
    assert_eq!(ffmpeg::log_path(None), None);
    assert_eq!(
        ffmpeg::log_line("mux", " oh no"),
        Some(("[ffmpeg/mux]  oh no".to_string(), "[mux]  oh no".to_string()))
    );
    assert_eq!(ffmpeg::log_line("mux", " \t "), None);
}

#[test]
fn writes_adts_headers() {
    // AAC-LC, 48 kHz, stereo.
    let a = Adts::from_asc(&[0x11, 0x90]);
    assert_eq!(a.header(100), [0xff, 0xf1, 0x4c, 0x80, 0x0d, 0x7f, 0xfc]);
    // Too short: AAC-LC, 44.1 kHz, stereo.
    assert_eq!(Adts::from_asc(&[0x11]).header(0), [0xff, 0xf1, 0x50, 0x80, 0x00, 0xff, 0xfc]);
    // Object type 0, and more channels than the header can name.
    assert_eq!(Adts::from_asc(&[0x00, 0x78]).header(1)[2..4], [0x01, 0xc0]);
    assert_eq!(Adts::from_asc(&[0x11, 0x80]).header(1)[3], 0x40);
}

#[test]
fn reads_adts_headers_back() {
    let a = Adts::from_asc(&[0x12, 0x10]);
    let data = a.frame(&[7; 3000]);
    let profile = (data[2] >> 6) & 0x3;
    let freq = (data[2] >> 2) & 0xf;
    let chan = ((data[2] & 0x1) << 2) | ((data[3] >> 6) & 0x3);
    let len = (((data[3] & 0x3) as usize) << 11)
        | ((data[4] as usize) << 3)
        | ((data[5] as usize) >> 5);
    assert_eq!((profile, freq, chan, len), (1, 4, 2, 3007));
    assert_eq!(data.len(), 3007);
    assert_eq!(data[7..], [7; 3000]);
}
