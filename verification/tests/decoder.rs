use quest_scrcpy::decoder::ffmpeg::FfmpegDecoder;
use quest_scrcpy::decoder::mf;
use quest_scrcpy::decoder::mf::{MfDecoder, RowShare};
use quest_scrcpy::decoder::{Frame, H264Decoder, RawOutput};
use quest_scrcpy::mft::{InputReply, OutputReply, Pump, PumpAction};

#[test]
fn decodes_through_ffmpeg() {
    let d = H264Decoder::new(2, 0, true, false).unwrap();
    let frames = d
        .decode(RawOutput::Ffmpeg { buffers: vec![vec![1; 8], vec![2; 8]], exited: true })
        .unwrap();
    assert_eq!(frames.len(), 2);
    assert_eq!((frames[0].width, frames[0].height), (2, 1));
    assert_eq!(frames[1].rgba, vec![2; 8]);
    assert!(d.decode(RawOutput::Ffmpeg { buffers: vec![], exited: false }).unwrap().is_empty());
    assert_eq!(
        d.decode(RawOutput::Ffmpeg { buffers: vec![], exited: true }).err(),
        Some("ffmpeg decode process exited")
    );
}

#[test]
fn decodes_through_media_foundation() {
    let d = H264Decoder::new(2, 2, false, true).unwrap();
    let picture = |b| Some(Frame { width: 1, height: 1, rgba: vec![b; 4] });
    let frames = d.decode(RawOutput::Mf(vec![picture(1), None, picture(2)])).unwrap();
    assert_eq!(frames.iter().map(|f| f.rgba[0]).collect::<Vec<_>>(), vec![1, 2]);
    assert!(frames.iter().all(|f| f.rgba.len() == (f.width * f.height * 4) as usize));
}

#[test]
fn needs_a_decoder_stack() {
    assert_eq!(
        H264Decoder::new(1, 1, false, false).err(),
        Some("no H.264 decoder available — install ffmpeg and make sure it is on your PATH")
    );
}

#[test]
fn sizes_ffmpeg_frames() {
    let d = FfmpegDecoder::new(320, 240);
    assert_eq!(d.frame_bytes(), 320 * 240 * 4);
    assert_eq!(
        d.args().join(" "),
        "-probesize 32 -analyzeduration 0 -f h264 -i pipe:0 -an -f rawvideo -pix_fmt rgba -s 320x240 pipe:1"
    );
}

#[test]
fn lays_out_pictures() {
    let g = mf::geometry(mf::pack(1920, 1088), None, 1920, 1080);
    assert_eq!((g.coded_w, g.coded_h, g.stride, g.vis_w, g.vis_h), (1920, 1088, 1920, 1920, 1080));
    let g = mf::geometry(mf::pack(100, 50), Some((-128i32) as u32), 0, 60);
    assert_eq!((g.stride, g.vis_w, g.vis_h), (128, 1, 50));
    let g = mf::geometry(mf::pack(100, 50), Some(i32::MIN as u32), 0, 60);
    assert_eq!(g.stride, 0x8000_0000);
    let g = mf::geometry(mf::pack(100, 50), Some(128), 100, 50);
    assert_eq!(g.buffer_size(0), 6400);
    assert_eq!(g.buffer_size(9600), 9600);
}

#[test]
fn counts_decoder_time() {
    let mut d = MfDecoder::new(640, 480);
    assert_eq!(d.input_size(), (640 << 32) | 480);
    assert_eq!(d.next_time(), 0);
    assert_eq!(d.next_time(), 333_667);
    d.on_output_type(mf::pack(640, 480), None);
    assert_eq!(d.geometry().vis_w, 640);
}

/// The conversion as it is usually written, with shifts.
fn reference(y: u8, u: u8, v: u8) -> [u8; 4] {
    let c = y as i32 - 16;
    let d = u as i32 - 128;
    let e = v as i32 - 128;
    let r = (298 * c + 409 * e + 128) >> 8;
    let g = (298 * c - 100 * d - 208 * e + 128) >> 8;
    let b = (298 * c + 516 * d + 128) >> 8;
    [r.clamp(0, 255) as u8, g.clamp(0, 255) as u8, b.clamp(0, 255) as u8, 255]
}

#[test]
fn converts_known_colours() {
    let one = |y, u, v| mf::nv12_to_rgba(&[y, 0, 0, 0, u, v], 2, 2, 1, 1).unwrap().rgba;
    assert_eq!(one(16, 128, 128), vec![0, 0, 0, 255]);
    assert_eq!(one(235, 128, 128), vec![255, 255, 255, 255]);
    assert_eq!(one(81, 90, 240), vec![255, 0, 0, 255]);
    for y in [0, 16, 100, 255] {
        for u in [0, 77, 128, 255] {
            for v in [0, 128, 201, 255] {
                assert_eq!(one(y, u, v), reference(y, u, v));
            }
        }
    }
}

#[test]
fn converts_visible_part() {
    let (stride, coded_h, vw, vh) = (8, 4, 5, 3);
    let data: Vec<u8> = (0..stride * coded_h * 3 / 2).map(|i| (i * 37 + 11) as u8).collect();
    let f = mf::nv12_to_rgba(&data, stride, coded_h, vw, vh).unwrap();
    assert_eq!((f.width, f.height, f.rgba.len()), (5, 3, 60));
    for y in 0..vh {
        for x in 0..vw {
            let uv = stride * coded_h + (y / 2) * stride + (x & !1);
            let want = reference(data[y * stride + x], data[uv], data[uv + 1]);
            let at = (y * vw + x) * 4;
            assert_eq!(f.rgba[at..at + 4], want);
        }
    }
    let mut parts = mf::convert_rows(&data, stride, coded_h, vw, vh, 0, 2);
    parts.extend(mf::convert_rows(&data, stride, coded_h, vw, vh, 2, 1));
    assert_eq!(parts, f.rgba);
    assert!(mf::nv12_to_rgba(&data[..47], stride, coded_h, vw, vh).is_none());
    assert!(mf::nv12_to_rgba(&data, stride, coded_h, 0, vh).is_none());
    assert!(mf::nv12_to_rgba(&data, stride, coded_h, vw, 0).is_none());
}

#[test]
fn shares_rows_out() {
    assert_eq!(mf::rows_per_worker(10, 4), 3);
    assert_eq!(mf::rows_per_worker(10, 0), 10);
    assert_eq!(mf::rows_per_worker(80, 100), 10);
    assert_eq!(mf::rows_per_worker(usize::MAX, 2), usize::MAX / 2 + 1);
    let share = |first, count| RowShare { first, count };
    let shares = vec![share(0, 3), share(3, 3), share(6, 3), share(9, 1)];
    assert_eq!(mf::row_shares(10, 4), shares);
    assert_eq!(mf::row_shares(5, 100).len(), 5);
    assert_eq!(mf::row_shares(9, 8).len(), 5);
    assert_eq!(mf::row_shares(0, 8), vec![]);
    assert_eq!(mf::row_shares(usize::MAX, 2)[1], share(usize::MAX / 2 + 1, usize::MAX / 2));
}

#[test]
fn converts_shares_side_by_side() {
    let (stride, coded_h, vw, vh) = (8, 6, 5, 6);
    let data: Vec<u8> = (0..72).map(|i| (i * 37 % 251) as u8).collect();
    let whole = mf::nv12_to_rgba(&data, stride, coded_h, vw, vh).unwrap();
    let mut parts: Vec<u8> = Vec::new();
    for s in mf::row_shares(vh, 4) {
        parts.extend(mf::convert_rows(&data, stride, coded_h, vw, vh, s.first, s.count));
    }
    assert_eq!(parts, whole.rgba);
    assert!(mf::makes_frame(72, stride, coded_h, vw, vh));
    assert!(!mf::makes_frame(71, stride, coded_h, vw, vh));
    assert!(!mf::makes_frame(72, stride, coded_h, 0, vh));
    assert!(!mf::makes_frame(72, stride, coded_h, vw, 0));
}

#[test]
fn drains_transform_before_and_behind_input() {
    let mut p = Pump::new();
    assert_eq!(p.on_input(InputReply::NotAccepting), PumpAction::Output);
    assert_eq!(p.on_output(OutputReply::Produced), PumpAction::ReadOutput);
    assert_eq!(p.on_output(OutputReply::StreamChange), PumpAction::Renegotiate);
    assert_eq!(p.on_output(OutputReply::NeedMoreInput), PumpAction::Input);
    assert_eq!(p.on_input(InputReply::Accepted), PumpAction::Output);
    assert_eq!(p.on_output(OutputReply::Produced), PumpAction::ReadOutput);
    assert_eq!(p.on_output(OutputReply::NeedMoreInput), PumpAction::Done);
    assert_eq!(p.on_input(InputReply::Failed), PumpAction::Fail);
    assert_eq!(p.on_output(OutputReply::Failed), PumpAction::Fail);
}

#[test]
fn shows_the_announced_size() {
    let data = vec![128u8; 16 * 16 * 3 / 2];
    let show = |w, h| {
        let g = mf::geometry(mf::pack(16, 16), None, w, h);
        let (vw, vh) = (g.vis_w as usize, g.vis_h as usize);
        let f = mf::nv12_to_rgba(&data, g.stride, g.coded_h as usize, vw, vh).unwrap();
        assert_eq!(f.rgba.len(), (f.width * f.height * 4) as usize);
        (f.width, f.height)
    };
    assert_eq!(show(10, 9), (10, 9));
    assert_eq!(show(16, 16), (16, 16));
    assert_eq!(show(0, 7), (1, 7));
    // No more is shown than is coded.
    assert_eq!(show(20, 9), (16, 9));
}
