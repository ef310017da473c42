use quest_scrcpy::backend::Backend;
use quest_scrcpy::recorder;
use quest_scrcpy::recorder::ffmpeg;
use quest_scrcpy::recorder::ffmpeg::{EncodePlan, FfmpegEncoder, MuxPlan};
use quest_scrcpy::recorder::mf;
use quest_scrcpy::recorder::mf::Timeline;

#[test]
fn chooses_recorder_stack() {
    assert_eq!(recorder::recorder_backend(true, false), Ok(Backend::Ffmpeg));
    assert_eq!(recorder::recorder_backend(false, true), Ok(Backend::MediaFoundation));
    assert_eq!(
        recorder::recorder_backend(false, false),
        Err("no recorder backend — install ffmpeg and make sure it is on your PATH")
    );
}

#[test]
fn fills_in_clip_numbers() {
    assert_eq!((recorder::clip_fps(0), recorder::clip_fps(72)), (60, 72));
    assert_eq!((recorder::clip_bitrate(0), recorder::clip_bitrate(5)), (12_000_000, 5));
    let sides: Vec<u32> = [0, 1, 2, 3, 4, 1081].iter().map(|n| recorder::clip_side(*n)).collect();
    assert_eq!(sides, vec![2, 2, 2, 2, 4, 1080]);
}

#[test]
fn writes_recorder_arguments() {
    assert_eq!(
        ffmpeg::mux_args(0).join(" "),
        "-fflags +genpts -r 60 -f h264 -i pipe:0 -c:v copy -y"
    );
    let e = FfmpegEncoder::new(321, 240, 0);
    assert_eq!(
        e.args().join(" "),
        "-f rawvideo -pix_fmt bgra -s 320x240 -use_wallclock_as_timestamps 1 -i pipe:0 \
         -c:v libx264 -preset veryfast -pix_fmt yuv420p -b:v 12000000 -fps_mode vfr -y"
    );
    assert_eq!(ffmpeg::join_args().join(" "), "-c copy -shortest -y");
}

#[test]
fn takes_one_picture_of_a_buffer() {
    let e = FfmpegEncoder::new(2, 2, 1);
    assert_eq!(e.dims(), (2, 2));
    let buf: Vec<u8> = (0..20).collect();
    assert_eq!(e.write_bgra(&buf), Ok(&buf[..16]));
    assert_eq!(e.write_bgra(&buf[..15]), Err("frame buffer too small: 15 < 16".to_string()));
}

#[test]
fn keeps_sound_beside_pictures() {
    let mut e = FfmpegEncoder::new(2, 2, 1);
    assert_eq!(e.write_audio(&[1]), None);
    assert_eq!(e.after_encode(true), EncodePlan::KeepVideo);
    assert!(e.wants_sidecar());
    e.on_sidecar(&[0x11, 0x90]);
    assert!(!e.wants_sidecar());
    assert_eq!(e.write_audio(&[9]), Some(vec![0xff, 0xf1, 0x4c, 0x80, 0x01, 0x1f, 0xfc, 9]));
    assert_eq!(e.after_encode(true), EncodePlan::Mux);
    assert_eq!(e.after_encode(false), EncodePlan::Discard);
    assert_eq!(ffmpeg::after_mux(true), MuxPlan::DropVideo);
    assert_eq!(ffmpeg::after_mux(false), MuxPlan::KeepVideo);
}

#[test]
fn keeps_times_increasing() {
    let mut t = Timeline::new(0);
    assert_eq!((t.fps(), t.nominal()), (60, 166_666));
    let times: Vec<i64> = [5_000, 6_000, 6_000, 1_000, 50_000].iter().map(|p| t.stamp(*p)).collect();
    assert_eq!(times, vec![0, 10_000, 176_666, 343_332, 450_000]);
    assert_eq!(t.prev(), 450_000);
    assert_eq!(Timeline::new(20_000_000).nominal(), 1);
}

#[test]
fn measures_pictures() {
    assert_eq!(mf::picture_bytes(2, 2, 16), Ok(16));
    assert_eq!(mf::picture_bytes(2, 2, 3), Err("frame buffer too small: 3 < 16".to_string()));
}
