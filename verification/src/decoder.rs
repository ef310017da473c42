//! Decoded pictures and the choice of an H.264 decoder.
pub mod ffmpeg;
pub mod mf;

use crate::backend;
use crate::backend::Backend;
use crate::decoder::ffmpeg::{frames_from, FfmpegDecoder};
use crate::decoder::mf::MfDecoder;
use crate::stream::larger;
use vstd::prelude::*;

verus! {

/// A decoded frame, tightly packed RGBA8.
#[derive(Debug)]
pub struct Frame {
    pub width: u32,
    pub height: u32,
    pub rgba: Vec<u8>,
}

/// What a [`Frame`] shows.
pub struct FrameView {
    pub width: u32,
    pub height: u32,
    pub rgba: Seq<u8>,
}

impl View for Frame {
    type V = FrameView;

    open spec fn view(&self) -> FrameView {
        FrameView { width: self.width, height: self.height, rgba: self.rgba@ }
    }
}

impl FrameView {
    /// Whether the frame holds four bytes for each of its pixels.
    pub open spec fn complete(self) -> bool {
        self.rgba.len() == self.width * self.height * 4
    }
}

/// The views of a sequence of frames.
pub open spec fn frame_views(s: Seq<Frame>) -> Seq<FrameView> {
    s.map_values(|f: Frame| f@)
}

/// The frames among pictures of which some could not be converted, in order.
pub open spec fn converted(pictures: Seq<Option<Frame>>) -> Seq<FrameView>
    decreases pictures.len(),
{
    if pictures.len() == 0 {
        seq![]
    } else {
        match pictures.last() {
            Some(f) => converted(pictures.drop_last()).push(f@),
            None => converted(pictures.drop_last()),
        }
    }
}

/// What a decoder handed out after one access unit.
#[derive(Debug)]
pub enum RawOutput {
    /// The bytes of each frame that the process printed, and whether it is gone.
    Ffmpeg { buffers: Vec<Vec<u8>>, exited: bool },
    /// Each picture, where it could be converted.
    Mf(Vec<Option<Frame>>),
}

impl RawOutput {
    /// Whether nothing is left, and nothing more will come.
    pub open spec fn is_end(self) -> bool {
        self matches RawOutput::Ffmpeg { buffers, exited } && exited && buffers@.len() == 0
    }

    /// Whether these are pictures, and all that could be converted have this size.
    pub open spec fn all_of(self, size: (u32, u32)) -> bool {
        self matches RawOutput::Mf(pictures) && forall|i: int|
            0 <= i < pictures@.len() ==> (#[trigger] pictures@[i] matches Some(f) ==> f.width
                == size.0 && f.height == size.1)
    }
}

/// Decodes H.264, through either stack.
#[derive(Clone, Copy, Debug)]
pub enum H264Decoder {
    Ffmpeg(FfmpegDecoder),
    Mf(MfDecoder),
}

impl H264Decoder {
    /// The size that was announced, or 1 where it was 0.
    pub open spec fn announced(self) -> (u32, u32) {
        match self {
            H264Decoder::Ffmpeg(d) => d@,
            H264Decoder::Mf(d) => (larger(d@.expect_w, 1), larger(d@.expect_h, 1)),
        }
    }

    /// Whether this is the output of such a decoder: buffers that are read in whole, or pictures
    /// that are complete and no larger than was announced.
    pub open spec fn gives(self, raw: RawOutput) -> bool {
        let (w, h) = self.announced();
        match (self, raw) {
            (H264Decoder::Ffmpeg(_), RawOutput::Ffmpeg { buffers, exited }) => forall|i: int|
                0 <= i < buffers@.len() ==> (#[trigger] buffers@[i])@.len() == w * h * 4,
            (H264Decoder::Mf(_), RawOutput::Mf(pictures)) => forall|i: int|
                0 <= i < pictures@.len() ==> (#[trigger] pictures@[i] matches Some(f)
                    ==> f@.complete() && f.width <= w && f.height <= h),
            _ => false,
        }
    }

    /// The frames in what the decoder handed out.
    pub open spec fn frames_in(self, raw: RawOutput) -> Seq<FrameView> {
        match raw {
            RawOutput::Ffmpeg { buffers, exited } => frames_from(self.announced(), buffers@),
            RawOutput::Mf(pictures) => converted(pictures@),
        }
    }

    /// A decoder for pictures of the announced size, on the stack that there is.
    pub fn new(expect_w: u32, expect_h: u32, ffmpeg: bool, windows: bool) -> (r: Result<
        H264Decoder,
        &'static str,
    >)
        ensures
            match r {
                Ok(H264Decoder::Ffmpeg(d)) => backend::backend_for(ffmpeg, windows) == Some(
                    Backend::Ffmpeg,
                ) && d@ == (larger(expect_w, 1), larger(expect_h, 1)),
                Ok(H264Decoder::Mf(d)) => backend::backend_for(ffmpeg, windows) == Some(
                    Backend::MediaFoundation,
                ) && d@ == mf::MfDecoderView::start(expect_w, expect_h),
                Err(e) => backend::backend_for(ffmpeg, windows) is None && e@
                    == "no H.264 decoder available — install ffmpeg and make sure it is on your PATH"@,
            },
    {
        match backend::choose_backend(ffmpeg, windows) {
            Some(Backend::Ffmpeg) => Ok(
                H264Decoder::Ffmpeg(FfmpegDecoder::new(expect_w, expect_h)),
            ),
            Some(Backend::MediaFoundation) => Ok(
                H264Decoder::Mf(MfDecoder::new(expect_w, expect_h)),
            ),
            None => Err(
                "no H.264 decoder available — install ffmpeg and make sure it is on your PATH",
            ),
        }
    }

    /// The frames in what the decoder handed out after one access unit.
    pub fn decode(&self, raw: RawOutput) -> (r: Result<Vec<Frame>, &'static str>)
        requires
            self.gives(raw),
        ensures
            match r {
                Ok(frames) => !raw.is_end() && frame_views(frames@) =~= self.frames_in(raw),
                Err(e) => raw.is_end() && e@ == "ffmpeg decode process exited"@,
            },
            r matches Ok(frames) ==> forall|i: int|
                0 <= i < frames@.len() ==> (#[trigger] frames@[i])@.complete() && frames@[i].width
                    <= self.announced().0 && frames@[i].height <= self.announced().1,
            self is Ffmpeg ==> (r matches Ok(frames) ==> forall|i: int|
                0 <= i < frames@.len() ==> (#[trigger] frames@[i]).width == self.announced().0
                    && frames@[i].height == self.announced().1),
    {
        proof {
            law_frames_are_whole(*self, raw);
        }
        let r = match raw {
            RawOutput::Ffmpeg { buffers, exited } => match self {
                H264Decoder::Ffmpeg(d) => d.collect(buffers, exited),
                H264Decoder::Mf(_) => Ok(Vec::new()),
            },
            RawOutput::Mf(pictures) => Ok(keep_converted(pictures)),
        };
        proof {
            if r is Ok {
                let frames = r->Ok_0;
                assert forall|i: int| 0 <= i < frames@.len() implies (#[trigger] frames@[i])@
                    == self.frames_in(raw)[i] by {
                    assert(frame_views(frames@)[i] == frames@[i]@);
                }
            }
        }
        r
    }
}

/// Every frame that a decoder gives holds four bytes for each of its pixels, and is no larger than
/// was announced. A process scales its frames to the announced size; so those have it, and so have
/// pictures that were all of that size.
pub proof fn law_frames_are_whole(decoder: H264Decoder, raw: RawOutput)
    requires
        decoder.gives(raw),
    ensures
        forall|i: int|
            0 <= i < decoder.frames_in(raw).len() ==> (#[trigger] decoder.frames_in(
                raw,
            )[i]).complete() && decoder.frames_in(raw)[i].width <= decoder.announced().0
                && decoder.frames_in(raw)[i].height <= decoder.announced().1,
        decoder is Ffmpeg || raw.all_of(decoder.announced()) ==> forall|i: int|
            0 <= i < decoder.frames_in(raw).len() ==> (#[trigger] decoder.frames_in(raw)[i]).width
                == decoder.announced().0 && decoder.frames_in(raw)[i].height
                == decoder.announced().1,
{
    match raw {
        RawOutput::Ffmpeg { buffers, exited } => {
            ffmpeg::law_whole_buffers_make_complete_frames(decoder.announced(), buffers@);
        },
        RawOutput::Mf(pictures) => {
            assert forall|i: int| 0 <= i < converted(pictures@).len() implies exists|k: int|
                0 <= k < pictures@.len() && pictures@[k] is Some && (#[trigger] pictures@[k])->0@
                    == #[trigger] converted(pictures@)[i] by {
                lemma_converted(pictures@, i);
            }
        },
    }
}

/// Whether the frame is what is shown of some picture that codes as much as was announced.
pub open spec fn shown_in_full(f: FrameView, expect_w: u32, expect_h: u32) -> bool {
    exists|p: mf::Nv12View, frame_size: u64, stride: Option<u32>|
        mf::codes_announced(frame_size, expect_w, expect_h) && #[trigger] mf::shown_frame(
            p,
            frame_size,
            stride,
            expect_w,
            expect_h,
        ) == Some(f)
}

/// Pictures that code as much as was announced give frames of exactly the announced size, each of
/// them complete.
pub proof fn law_pictures_are_pinned_to_announced_size(d: MfDecoder, pictures: Vec<Option<Frame>>)
    requires
        forall|i: int|
            0 <= i < pictures@.len() ==> (#[trigger] pictures@[i] matches Some(f)
                ==> shown_in_full(f@, d@.expect_w, d@.expect_h)),
    ensures
        ({
            let decoder = H264Decoder::Mf(d);
            let raw = RawOutput::Mf(pictures);
            &&& decoder.gives(raw)
            &&& forall|i: int|
                0 <= i < decoder.frames_in(raw).len() ==> (#[trigger] decoder.frames_in(
                    raw,
                )[i]).complete() && decoder.frames_in(raw)[i].width == larger(d@.expect_w, 1)
                    && decoder.frames_in(raw)[i].height == larger(d@.expect_h, 1)
        }),
{
    let decoder = H264Decoder::Mf(d);
    let raw = RawOutput::Mf(pictures);
    let (w, h) = (d@.expect_w, d@.expect_h);
    assert forall|i: int| 0 <= i < pictures@.len() implies (#[trigger] pictures@[i] matches Some(f)
        ==> f@.complete() && f.width == larger(w, 1) && f.height == larger(h, 1)) by {
        if let Some(f) = pictures@[i] {
            let (p, frame_size, stride) = choose|
                p: mf::Nv12View,
                frame_size: u64,
                stride: Option<u32>,
            |
                mf::codes_announced(frame_size, w, h) && #[trigger] mf::shown_frame(
                    p,
                    frame_size,
                    stride,
                    w,
                    h,
                ) == Some(f@);
            mf::law_shown_frame_has_announced_size(p, frame_size, stride, w, h);
        }
    }
    assert(decoder.gives(raw));
    assert(raw.all_of(decoder.announced()));
    law_frames_are_whole(decoder, raw);
}

/// A frame that was kept is one of the pictures.
proof fn lemma_converted(pictures: Seq<Option<Frame>>, i: int)
    requires
        0 <= i < converted(pictures).len(),
    ensures
        exists|k: int|
            0 <= k < pictures.len() && pictures[k] is Some && (#[trigger] pictures[k])->0@
                == converted(pictures)[i],
    decreases pictures.len(),
{
    if pictures.len() > 0 {
        let head = pictures.drop_last();
        if i < converted(head).len() {
            lemma_converted(head, i);
            let k = choose|k: int|
                0 <= k < head.len() && head[k] is Some && (#[trigger] head[k])->0@ == converted(
                    head,
                )[i];
            assert(pictures[k] == head[k]);
        } else {
            assert(pictures[pictures.len() - 1] is Some);
        }
    }
}

/// Keeps the pictures that could be converted.
fn keep_converted(pictures: Vec<Option<Frame>>) -> (r: Vec<Frame>)
    ensures
        frame_views(r@) =~= converted(pictures@),
{
    let ghost all = pictures@;
    let mut frames: Vec<Frame> = Vec::new();
    for picture in it: pictures
        invariant
            it.seq() == all,
            frame_views(frames@) =~= converted(all.take(it.index() as int)),
    {
        let ghost before = frames@;
        let ghost i = it.index() as int;
        proof {
            assert(all.take(i + 1).drop_last() =~= all.take(i));
            assert(all.take(i + 1).last() == picture);
        }
        if let Some(f) = picture {
            frames.push(f);
            assert(frame_views(frames@) =~= frame_views(before).push(f@));
        }
    }
    assert(all.take(all.len() as int) =~= all);
    frames
}

/// The pictures that could be converted are all kept, in order.
pub proof fn law_converted_pictures_are_kept(pictures: Seq<Option<Frame>>)
    ensures
        converted(pictures) == pictures.filter_map(
            |p: Option<Frame>|
                match p {
                    Some(f) => Some(f@),
                    None => None,
                },
        ),
    decreases pictures.len(),
{
    let shown = |p: Option<Frame>|
        match p {
            Some(f) => Some(f@),
            None => None,
        };
    if pictures.len() > 0 {
        law_converted_pictures_are_kept(pictures.drop_last());
        if let Some(f) = pictures.last() {
            let head = pictures.drop_last().filter_map(shown);
            assert(head.push(f@) =~= head + seq![f@]);
        }
    } else {
        assert(converted(pictures) =~= pictures.filter_map(shown));
    }
}

/// Only a process that is gone and left nothing ends the decoding: frames that are there are given
/// first, and pictures never end it.
pub proof fn law_what_is_left_is_given_first(raw: RawOutput)
    ensures
        raw matches RawOutput::Ffmpeg { buffers, exited } ==> (raw.is_end() <==> exited
            && buffers@.len() == 0),
        raw is Mf ==> !raw.is_end(),
{
}

} // verus!
