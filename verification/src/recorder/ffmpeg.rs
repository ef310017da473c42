//! Recording through the `ffmpeg` command line.
//!
//! A muxer copies an H.264 stream into an MP4 as it is. An encoder writes raw pictures to a
//! temporary MP4 and keeps the sound in a file beside it, until both are put together.
use crate::ffmpeg;
use crate::ffmpeg::{Adts, AdtsView};
use crate::decoder::FrameView;
use crate::flat;
use crate::picture;
use crate::recorder::{asked_or, clip_bitrate, clip_fps, clip_side, even_side};
use crate::recorder::{DEFAULT_BITRATE, DEFAULT_FPS};
use crate::text;
use vstd::prelude::*;

verus! {

/// The ending of the temporary file with the pictures.
pub const VIDEO_TMP: &'static str = "video.tmp.mp4";

/// The ending of the temporary file with the sound.
pub const AUDIO_TMP: &'static str = "audio.tmp.aac";

/// The arguments of a muxer, up to the path of the clip.
pub open spec fn mux_arguments(fps_hint: u32) -> Seq<Seq<char>> {
    seq![
        "-fflags"@,
        "+genpts"@,
        "-r"@,
        text::decimal(asked_or(fps_hint, DEFAULT_FPS) as nat),
        "-f"@,
        "h264"@,
        "-i"@,
        "pipe:0"@,
        "-c:v"@,
        "copy"@,
        "-y"@,
    ]
}

/// The clip gets the frame rate that is known, and 60 where none is.
pub proof fn law_muxer_gets_the_frame_rate(fps_hint: u32)
    ensures
        fps_hint > 0 ==> text::option_number(mux_arguments(fps_hint), "-r"@, fps_hint),
        fps_hint == 0 ==> text::option_number(mux_arguments(fps_hint), "-r"@, 60),
        mux_arguments(fps_hint).len() == 11,
{
    text::law_decimal_is_read_back(asked_or(fps_hint, DEFAULT_FPS));
    let args = mux_arguments(fps_hint);
    assert(args[2] == "-r"@);
}

/// The arguments of a muxer, up to the path of the clip.
pub fn mux_args(fps_hint: u32) -> (r: Vec<String>)
    ensures
        text::views(r@) =~= mux_arguments(fps_hint),
        text::views(r@) =~= seq![
            "-fflags"@,
            "+genpts"@,
            "-r"@,
            text::decimal(asked_or(fps_hint, DEFAULT_FPS) as nat),
            "-f"@,
            "h264"@,
            "-i"@,
            "pipe:0"@,
            "-c:v"@,
            "copy"@,
            "-y"@,
        ],
{
    vec![
        "-fflags".to_string(),
        "+genpts".to_string(),
        "-r".to_string(),
        text::dec(clip_fps(fps_hint) as u64),
        "-f".to_string(),
        "h264".to_string(),
        "-i".to_string(),
        "pipe:0".to_string(),
        "-c:v".to_string(),
        "copy".to_string(),
        "-y".to_string(),
    ]
}

/// An encoder: the size of its pictures, and whether it keeps sound.
#[derive(Debug)]
pub struct FfmpegEncoder {
    width: u32,
    height: u32,
    bitrate: u32,
    audio: Option<Adts>,
}

/// The state of an [`FfmpegEncoder`].
pub struct EncoderView {
    pub width: u32,
    pub height: u32,
    pub bitrate: u32,
    pub audio: Option<AdtsView>,
}

impl View for FfmpegEncoder {
    type V = EncoderView;

    closed spec fn view(&self) -> EncoderView {
        EncoderView {
            width: self.width,
            height: self.height,
            bitrate: self.bitrate,
            audio: match self.audio {
                Some(a) => Some(a@),
                None => None,
            },
        }
    }
}

impl EncoderView {
    /// An encoder for pictures of this size, cut to even sides, without sound.
    pub open spec fn start(width: u32, height: u32, bitrate: u32) -> EncoderView {
        EncoderView {
            width: even_side(width),
            height: even_side(height),
            bitrate: asked_or(bitrate, DEFAULT_BITRATE),
            audio: None,
        }
    }

    /// The arguments of the process, up to the path of the temporary pictures.
    pub open spec fn arguments(self) -> Seq<Seq<char>> {
        seq![
            "-f"@,
            "rawvideo"@,
            "-pix_fmt"@,
            "bgra"@,
            "-s"@,
            flat::size_text(self.width, self.height),
            "-use_wallclock_as_timestamps"@,
            "1"@,
            "-i"@,
            "pipe:0"@,
            "-c:v"@,
            "libx264"@,
            "-preset"@,
            "veryfast"@,
            "-pix_fmt"@,
            "yuv420p"@,
            "-b:v"@,
            text::decimal(self.bitrate as nat),
            "-fps_mode"@,
            "vfr"@,
            "-y"@,
        ]
    }

    /// The encoder with a file for the sound of this configuration.
    pub open spec fn with_sound(self, asc: Seq<u8>) -> EncoderView {
        EncoderView { audio: Some(AdtsView::of(asc)), ..self }
    }

    /// The bytes that an access unit adds to the sound, if there is any.
    pub open spec fn sound_of(self, au: Seq<u8>) -> Option<Seq<u8>> {
        match self.audio {
            Some(a) => Some(a.header_bytes(au.len() + 7int) + au),
            None => None,
        }
    }

    /// The bytes of one picture, from a buffer that may be longer.
    pub open spec fn picture_of(self, buf: Seq<u8>) -> Option<Seq<u8>> {
        if buf.len() >= self.frame_bytes() {
            Some(buf.take(self.frame_bytes()))
        } else {
            None
        }
    }

    /// What to do once the process is done.
    pub open spec fn plan(self, success: bool) -> EncodePlan {
        if !success {
            EncodePlan::Discard
        } else if self.audio is Some {
            EncodePlan::Mux
        } else {
            EncodePlan::KeepVideo
        }
    }

    /// The bytes of one picture.
    pub open spec fn frame_bytes(self) -> int {
        self.width * self.height * 4
    }
}

/// What to do once the encoder process is done.
#[derive(Clone, Copy, Debug, PartialEq, Eq, Structural)]
pub enum EncodePlan {
    /// It failed: remove the temporary pictures and give up.
    Discard,
    /// There is no sound: the temporary pictures are the clip.
    KeepVideo,
    /// Put pictures and sound together.
    Mux,
}

/// What to do once pictures and sound were put together, or could not be. The temporary sound
/// goes in any case.
#[derive(Clone, Copy, Debug, PartialEq, Eq, Structural)]
pub enum MuxPlan {
    /// The clip is there: remove the temporary pictures.
    DropVideo,
    /// Keep the pictures alone as the clip.
    KeepVideo,
}

impl FfmpegEncoder {
    /// An encoder for pictures of this size, cut to even sides.
    pub fn new(width: u32, height: u32, bitrate: u32) -> (r: FfmpegEncoder)
        ensures
            r@ == EncoderView::start(width, height, bitrate),
            r@ == (EncoderView {
                width: even_side(width),
                height: even_side(height),
                bitrate: asked_or(bitrate, DEFAULT_BITRATE),
                audio: None,
            }),
    {
        FfmpegEncoder {
            width: clip_side(width),
            height: clip_side(height),
            bitrate: clip_bitrate(bitrate),
            audio: None,
        }
    }

    /// The arguments of the process, up to the path of the temporary pictures. Each picture gets
    /// the time at which it arrives, so that the clip runs at its true speed.
    pub fn args(&self) -> (r: Vec<String>)
        ensures
            text::views(r@) =~= self@.arguments(),
            text::views(r@) =~= seq![
                "-f"@,
                "rawvideo"@,
                "-pix_fmt"@,
                "bgra"@,
                "-s"@,
                flat::size_text(self@.width, self@.height),
                "-use_wallclock_as_timestamps"@,
                "1"@,
                "-i"@,
                "pipe:0"@,
                "-c:v"@,
                "libx264"@,
                "-preset"@,
                "veryfast"@,
                "-pix_fmt"@,
                "yuv420p"@,
                "-b:v"@,
                text::decimal(self@.bitrate as nat),
                "-fps_mode"@,
                "vfr"@,
                "-y"@,
            ],
    {
        vec![
            "-f".to_string(),
            "rawvideo".to_string(),
            "-pix_fmt".to_string(),
            "bgra".to_string(),
            "-s".to_string(),
            flat::size_string(self.width, self.height),
            "-use_wallclock_as_timestamps".to_string(),
            "1".to_string(),
            "-i".to_string(),
            "pipe:0".to_string(),
            "-c:v".to_string(),
            "libx264".to_string(),
            "-preset".to_string(),
            "veryfast".to_string(),
            "-pix_fmt".to_string(),
            "yuv420p".to_string(),
            "-b:v".to_string(),
            text::dec(self.bitrate as u64),
            "-fps_mode".to_string(),
            "vfr".to_string(),
            "-y".to_string(),
        ]
    }

    /// The size of the pictures.
    pub fn dims(&self) -> (r: (u32, u32))
        ensures
            r == (self@.width, self@.height),
    {
        (self.width, self.height)
    }

    /// Whether a file for the sound is to be made when a configuration comes: one is enough.
    pub fn wants_sidecar(&self) -> (r: bool)
        ensures
            r == (self@.audio is None),
    {
        self.audio.is_none()
    }

    /// Takes note that a file for the sound of this configuration was made.
    pub fn on_sidecar(&mut self, asc: &[u8])
        requires
            old(self)@.audio is None,
        ensures
            final(self)@ == (EncoderView { audio: Some(AdtsView::of(asc@)), ..old(self)@ }),
            final(self)@ == old(self)@.with_sound(asc@),
    {
        self.audio = Some(Adts::from_asc(asc));
    }

    /// The bytes that an AAC access unit adds to the sound, if there is any.
    pub fn write_audio(&self, au: &[u8]) -> (r: Option<Vec<u8>>)
        requires
            au@.len() + 7 <= usize::MAX,
        ensures
            match (r, self@.audio) {
                (Some(b), Some(a)) => b@ == a.header_bytes(au@.len() + 7int) + au@,
                (None, None) => true,
                _ => false,
            },
            match r {
                Some(b) => self@.sound_of(au@) == Some(b@),
                None => self@.sound_of(au@) is None,
            },
    {
        match self.audio {
            Some(a) => Some(a.frame(au)),
            None => None,
        }
    }

    /// The bytes of one picture, from a buffer that may be longer.
    pub fn write_bgra<'a>(&self, bgra: &'a [u8]) -> (r: Result<&'a [u8], String>)
        requires
            self@.frame_bytes() <= usize::MAX,
        ensures
            match r {
                Ok(b) => bgra@.len() >= self@.frame_bytes() && b@ == bgra@.take(
                    self@.frame_bytes(),
                ),
                Err(e) => bgra@.len() < self@.frame_bytes() && e@ == "frame buffer too small: "@
                    + text::decimal(bgra@.len()) + " < "@ + text::decimal(
                    self@.frame_bytes() as nat,
                ),
            },
            match r {
                Ok(b) => self@.picture_of(bgra@) == Some(b@),
                Err(_) => self@.picture_of(bgra@) is None,
            },
    {
        proof {
            let (a, b) = (self.width as int, self.height as int);
            assert(0 <= a * b) by (nonlinear_arith)
                requires
                    a >= 0,
                    b >= 0,
            ;
        }
        let need: usize = self.width as usize * self.height as usize * 4;
        if bgra.len() < need {
            let mut e = "frame buffer too small: ".to_string();
            e.append(text::dec(bgra.len() as u64).as_str());
            e.append(" < ");
            e.append(text::dec(need as u64).as_str());
            return Err(e);
        }
        let part = vstd::slice::slice_subrange(bgra, 0, need);
        assert(part@ =~= bgra@.take(need as int));
        Ok(part)
    }

    /// What to do once the process is done.
    pub fn after_encode(&self, success: bool) -> (r: EncodePlan)
        ensures
            r == self@.plan(success),
            r == if !success {
                EncodePlan::Discard
            } else if self@.audio is Some {
                EncodePlan::Mux
            } else {
                EncodePlan::KeepVideo
            },
    {
        if !success {
            EncodePlan::Discard
        } else if self.audio.is_some() {
            EncodePlan::Mux
        } else {
            EncodePlan::KeepVideo
        }
    }
}

/// The arguments that put pictures and sound together, between the paths of the two and the path
/// of the clip.
pub fn join_args() -> (r: Vec<String>)
    ensures
        text::views(r@) =~= seq!["-c"@, "copy"@, "-shortest"@, "-y"@],
{
    vec!["-c".to_string(), "copy".to_string(), "-shortest".to_string(), "-y".to_string()]
}

/// What to do once pictures and sound were put together, or could not be.
pub fn after_mux(success: bool) -> (r: MuxPlan)
    ensures
        r == if success {
            MuxPlan::DropVideo
        } else {
            MuxPlan::KeepVideo
        },
{
    if success {
        MuxPlan::DropVideo
    } else {
        MuxPlan::KeepVideo
    }
}

/// The part of a frame that an encoder gets is as large as it takes a picture to be, where the
/// frame has at least two pixels on either side.
pub proof fn law_encoder_gets_whole_pictures(frame: FrameView, bitrate: u32)
    requires
        frame.width >= 2,
        frame.height >= 2,
    ensures
        ({
            let (w, h) = (even_side(frame.width), even_side(frame.height));
            let e = EncoderView { width: w, height: h, bitrate, audio: None };
            &&& w <= frame.width && h <= frame.height
            &&& frame.bgra_rows(w as nat, h as nat).len() == e.frame_bytes()
        }),
{
    let (w, h) = (even_side(frame.width), even_side(frame.height));
    picture::law_encoder_gets_the_frame(frame, w as nat, h as nat, 0, 0);
    assert(4 * (h * w) == w * h * 4) by (nonlinear_arith);
}

/// An encoder is started for even sides next to those of the picture, and with the bit rate that
/// was asked for, or 12 megabits per second; its process is told both, and the size is the one that
/// a picture is taken to have.
pub proof fn law_encoder_is_told_size_and_bit_rate(width: u32, height: u32, bitrate: u32)
    ensures
        ({
            let e = EncoderView::start(width, height, bitrate);
            let args = e.arguments();
            &&& e.width % 2 == 0 && e.height % 2 == 0 && e.width >= 2 && e.height >= 2
            &&& width >= 2 ==> width - 1 <= e.width <= width
            &&& height >= 2 ==> height - 1 <= e.height <= height
            &&& bitrate > 0 ==> text::option_number(args, "-b:v"@, bitrate)
            &&& bitrate == 0 ==> text::option_number(args, "-b:v"@, 12_000_000)
            &&& args.len() == 21
            &&& exists|i: int|
                0 <= i < args.len() - 1 && #[trigger] args[i] == "-s"@ && (text::split_once(
                    args[i + 1],
                    'x',
                ) matches Some((w, h)) && text::number(w) == Some(e.width) && text::number(h)
                    == Some(e.height))
            &&& e.frame_bytes() == e.width * e.height * 4
            &&& e.audio is None
        }),
{
    let e = EncoderView::start(width, height, bitrate);
    let args = e.arguments();
    text::law_decimal_is_read_back(e.bitrate);
    flat::law_size_is_read_back(e.width, e.height);
    assert(args[16] == "-b:v"@);
    assert(args[4] == "-s"@);
}

/// Of a buffer that begins with a whole picture the encoder gets that picture, whatever follows it,
/// and of a shorter one it gets nothing.
pub proof fn law_one_picture_is_taken(e: EncoderView, pic: Seq<u8>, rest: Seq<u8>)
    ensures
        pic.len() == e.width * e.height * 4 ==> e.picture_of(pic + rest) == Some(pic),
        pic.len() < e.width * e.height * 4 ==> e.picture_of(pic) is None,
{
    if pic.len() == e.width * e.height * 4 {
        assert((pic + rest).take(e.frame_bytes()) =~= pic);
    }
}

/// Once there is sound, every access unit is added behind a header that tells its configuration and
/// its length; and pictures and sound are put together if the pictures are whole. Without sound no
/// unit adds anything, and the pictures are the clip.
pub proof fn law_sound_is_kept_beside_pictures(e: EncoderView, asc: Seq<u8>, au: Seq<u8>)
    requires
        e.audio is None,
        au.len() + 7 < 8192,
    ensures
        e.sound_of(au) is None,
        e.plan(true) is KeepVideo,
        e.with_sound(asc).plan(true) is Mux,
        e.plan(false) is Discard && e.with_sound(asc).plan(false) is Discard,
        e.with_sound(asc).width == e.width && e.with_sound(asc).height == e.height,
        e.with_sound(asc).sound_of(au) matches Some(b) && {
            &&& b.len() == au.len() + 7
            &&& b.skip(7) == au
            &&& ffmpeg::header_len(b.take(7)) == b.len()
            &&& ffmpeg::header_profile(b.take(7)) == AdtsView::of(asc).profile
            &&& ffmpeg::header_freq_idx(b.take(7)) == AdtsView::of(asc).freq_idx
            &&& ffmpeg::header_channels(b.take(7)) == AdtsView::of(asc).channels
        },
{
    let a = AdtsView::of(asc);
    let h = a.header_bytes(au.len() + 7int);
    ffmpeg::law_config_fits_header(asc);
    ffmpeg::law_adts_header_is_read_back(a, au.len() + 7int);
    assert((h + au).take(7) =~= h);
    assert((h + au).skip(7) =~= au);
}

} // verus!
