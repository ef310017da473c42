use quest_scrcpy::adb;
use quest_scrcpy::adb::{parse_displays, Device, DisplayInfo, ServerOptions};

#[test]
fn parses_display_lines() {
    let sample = "\
[server] INFO: List of displays:
    --display-id=0    (4128x2208)
    --display-id=9    (4128x2208)
    --display-id=11    (1020x125)
";
    let d = parse_displays(sample);
    assert_eq!(d.len(), 3);
    assert_eq!(d[0], DisplayInfo { id: 0, width: 4128, height: 2208 });
    assert_eq!(d[1].id, 9);
    assert_eq!(d[2], DisplayInfo { id: 11, width: 1020, height: 125 });
}

#[test]
fn parses_old_and_broken_display_lines() {
    let sample = "--display=3 (10x20)\r\n--display-id=x (1x2)\n--display-id=4\n--display-id=5 (7)\n\t--display-id=+6 (8x9)  ";
    let d = parse_displays(sample);
    assert_eq!(
        d,
        vec![
            DisplayInfo { id: 3, width: 10, height: 20 },
            DisplayInfo { id: 6, width: 8, height: 9 },
        ]
    );
}

#[test]
fn rejects_numbers_that_do_not_fit() {
    assert!(parse_displays("--display-id=4294967296 (1x1)").is_empty());
    assert_eq!(parse_displays("--display-id=4294967295 (1x1)").len(), 1);
    assert!(parse_displays("--display-id=0 (-1x1)").is_empty());
}

fn device(serial: &str, model: &str, state: &str, usb: bool) -> Device {
    Device { serial: serial.to_string(), model: model.to_string(), state: state.to_string(), usb }
}

#[test]
fn labels_devices() {
    assert_eq!(device("1WMH", "Quest_3", "device", true).label(), "Quest_3 (USB)");
    assert_eq!(
        device("192.168.1.35:5555", "Quest_3", "device", false).label(),
        "Quest_3 (192.168.1.35:5555)"
    );
    assert_eq!(device("a:1", "", "offline", false).label(), "device (a:1)");
}

#[test]
fn labels_displays() {
    assert_eq!(
        DisplayInfo { id: 9, width: 4128, height: 2208 }.label(),
        "Display 9 — 4128x2208"
    );
}

#[test]
fn lists_devices() {
    let out = b"List of devices attached\n\
        1WMHH000X00000         device usb:1-2 product:eureka model:Quest_3 device:eureka transport_id:4\n\
        192.168.1.35:5555      unauthorized transport_id:5\n\
        \n\
        lonely\n";
    let d = adb::list_devices(out);
    assert_eq!(
        d,
        vec![
            device("1WMHH000X00000", "Quest_3", "device", true),
            device("192.168.1.35:5555", "", "unauthorized", false),
            device("lonely", "", "", true),
        ]
    );
    assert!(d[0].is_online());
    assert!(!d[1].is_online());
    assert!(adb::list_devices(b"").is_empty());
}

#[test]
fn reads_output_that_is_not_utf8() {
    let d = adb::list_devices(b"heading\n\xff\xfe device\n");
    assert_eq!(d[0].serial, "\u{fffd}\u{fffd}");
}

#[test]
fn prefers_usb_devices() {
    let list = vec![
        device("off", "", "offline", true),
        device("a:1", "", "device", false),
        device("usb", "", "device", true),
    ];
    assert_eq!(adb::preferred_device(&list), Some(2));
    let list = vec![device("off", "", "offline", true), device("a:1", "", "device", false)];
    assert_eq!(adb::preferred_device(&list), Some(1));
    assert_eq!(adb::preferred_device(&vec![device("off", "", "offline", true)]), None);
}

#[test]
fn normalizes_addresses() {
    assert_eq!(adb::normalize_addr(" 192.168.1.40 "), "192.168.1.40:5555");
    assert_eq!(adb::normalize_addr("192.168.1.40:4444\n"), "192.168.1.40:4444");
    let once = adb::normalize_addr("\t10.0.0.1");
    assert_eq!(adb::normalize_addr(&once), once);
}

#[test]
fn judges_connections() {
    assert_eq!(
        adb::connect("1.2.3.4", b"connected to 1.2.3.4:5555\n", b""),
        Ok("connected to 1.2.3.4:5555".to_string())
    );
    assert_eq!(
        adb::connect("1.2.3.4", b"FAILED to connect to 1.2.3.4:5555\n", b""),
        Err("FAILED to connect to 1.2.3.4:5555".to_string())
    );
    assert_eq!(
        adb::connect("1.2.3.4", b" \n", b"Connection Refused\n"),
        Err("Connection Refused".to_string())
    );
    assert_eq!(adb::connect("1.2.3.4", b"", b""), Ok("connected to 1.2.3.4:5555".to_string()));
    assert!(adb::connect("x", b"Unable to resolve", b"").is_err());
    assert!(adb::connect("x", b"CANNOT", b"").is_err());
}

#[test]
fn lists_displays_of_either_stream() {
    let d = adb::list_displays(b"noise\n", b"--display-id=0 (10x20)\n");
    assert_eq!(d, Ok(vec![DisplayInfo { id: 0, width: 10, height: 20 }]));
    assert_eq!(
        adb::list_displays(b"  boom\n", b"bang\n"),
        Err("no displays parsed from server output:\nboom\nbang".to_string())
    );
}

#[test]
fn writes_adb_arguments() {
    assert_eq!(adb::adb_path(None), "adb");
    assert_eq!(adb::adb_path(Some("/opt/adb")), "/opt/adb");
    assert_eq!(adb::list_devices_args(), vec!["devices", "-l"]);
    assert_eq!(adb::connect_args("h"), vec!["connect", "h:5555"]);
    assert_eq!(adb::disconnect_args("h:1"), vec!["disconnect", "h:1"]);
    assert_eq!(
        adb::push_server_args("S", "/tmp/j"),
        vec!["-s", "S", "push", "/tmp/j", "/data/local/tmp/scrcpy-server.jar"]
    );
    assert_eq!(
        adb::forward_args("S", 27183),
        vec!["-s", "S", "forward", "tcp:27183", "localabstract:scrcpy"]
    );
    assert_eq!(
        adb::remove_forward_args("S", 1),
        vec!["-s", "S", "forward", "--remove", "tcp:1"]
    );
    assert_eq!(
        adb::list_displays_args("S")[3],
        "CLASSPATH=/data/local/tmp/scrcpy-server.jar app_process / com.genymobile.scrcpy.Server 4.0 log_level=info list_displays=true"
    );
}

#[test]
fn writes_server_arguments() {
    let opts = ServerOptions::default();
    assert_eq!(opts.video_bit_rate, 16_000_000);
    let args = adb::start_server_args("S", &opts);
    assert_eq!(args[..3], ["-s", "S", "shell"]);
    assert_eq!(
        args[3],
        "CLASSPATH=/data/local/tmp/scrcpy-server.jar app_process / com.genymobile.scrcpy.Server \
         4.0 log_level=info tunnel_forward=true control=false cleanup=true send_device_meta=true \
         send_frame_meta=true send_stream_meta=true send_dummy_byte=true video_codec=h264 \
         display_id=0 max_size=0 video_bit_rate=16000000 max_fps=0 audio=false"
    );
    let loud = ServerOptions { audio: true, ..opts };
    let a = loud.to_args();
    assert_eq!(a[a.len() - 3..], ["audio=true", "audio_codec=aac", "audio_bit_rate=128000"]);
}
