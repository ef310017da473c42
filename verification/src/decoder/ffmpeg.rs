//! H.264 decoding through the `ffmpeg` command line: an Annex-B stream goes in, and raw RGBA
//! frames of a fixed size come out.
use crate::decoder::{frame_views, Frame, FrameView};
use crate::flat;
use crate::stream::{larger, larger_of};
use crate::text;
use vstd::prelude::*;

verus! {

/// A decoder process: the size of its frames.
#[derive(Clone, Copy, Debug, PartialEq, Eq, Structural)]
pub struct FfmpegDecoder {
    width: u32,
    height: u32,
}

impl View for FfmpegDecoder {
    type V = (u32, u32);

    /// The width and the height of the frames.
    closed spec fn view(&self) -> (u32, u32) {
        (self.width, self.height)
    }
}

/// The bytes of all frames as frames of this size.
pub open spec fn frames_from(size: (u32, u32), buffers: Seq<Vec<u8>>) -> Seq<FrameView> {
    buffers.map_values(
        |b: Vec<u8>| FrameView { width: size.0, height: size.1, rgba: b@ },
    )
}

/// The size of a decoder's frames: the announced one, and at least one pixel.
pub open spec fn frame_size(width: u32, height: u32) -> (u32, u32) {
    (larger(width, 1), larger(height, 1))
}

/// The arguments of the process whose frames have this size.
pub open spec fn decode_arguments(size: (u32, u32)) -> Seq<Seq<char>> {
    seq![
        "-probesize"@,
        "32"@,
        "-analyzeduration"@,
        "0"@,
        "-f"@,
        "h264"@,
        "-i"@,
        "pipe:0"@,
        "-an"@,
        "-f"@,
        "rawvideo"@,
        "-pix_fmt"@,
        "rgba"@,
        "-s"@,
        flat::size_text(size.0, size.1),
        "pipe:1"@,
    ]
}

/// The process is told the announced size, and a side of 1 where that was 0.
pub proof fn law_decoder_is_told_the_size(width: u32, height: u32)
    ensures
        ({
            let (w, h) = frame_size(width, height);
            let args = decode_arguments((w, h));
            &&& w >= 1 && h >= 1
            &&& width > 0 ==> w == width
            &&& height > 0 ==> h == height
            &&& width == 0 ==> w == 1
            &&& height == 0 ==> h == 1
            &&& args.len() == 16
            &&& exists|i: int|
                0 <= i < args.len() - 1 && #[trigger] args[i] == "-s"@ && (text::split_once(
                    args[i + 1],
                    'x',
                ) matches Some((a, b)) && text::number(a) == Some(w) && text::number(b) == Some(h))
        }),
{
    let (w, h) = frame_size(width, height);
    let args = decode_arguments((w, h));
    flat::law_size_is_read_back(w, h);
    assert(args[13] == "-s"@);
}

impl FfmpegDecoder {
    /// A decoder whose frames have this size, and at least one pixel.
    pub fn new(width: u32, height: u32) -> (r: FfmpegDecoder)
        ensures
            r@ == (larger(width, 1), larger(height, 1)),
            r@ == frame_size(width, height),
    {
        FfmpegDecoder { width: larger_of(width, 1), height: larger_of(height, 1) }
    }

    /// The arguments of the process. It looks at little before the first frame, so that one comes
    /// out at once however low the bit rate, and it scales to the size of the frames.
    pub fn args(&self) -> (r: Vec<String>)
        ensures
            text::views(r@) =~= decode_arguments(self@),
            text::views(r@) =~= seq![
                "-probesize"@,
                "32"@,
                "-analyzeduration"@,
                "0"@,
                "-f"@,
                "h264"@,
                "-i"@,
                "pipe:0"@,
                "-an"@,
                "-f"@,
                "rawvideo"@,
                "-pix_fmt"@,
                "rgba"@,
                "-s"@,
                flat::size_text(self@.0, self@.1),
                "pipe:1"@,
            ],
    {
        vec![
            "-probesize".to_string(),
            "32".to_string(),
            "-analyzeduration".to_string(),
            "0".to_string(),
            "-f".to_string(),
            "h264".to_string(),
            "-i".to_string(),
            "pipe:0".to_string(),
            "-an".to_string(),
            "-f".to_string(),
            "rawvideo".to_string(),
            "-pix_fmt".to_string(),
            "rgba".to_string(),
            "-s".to_string(),
            flat::size_string(self.width, self.height),
            "pipe:1".to_string(),
        ]
    }

    /// The bytes of one frame.
    pub fn frame_bytes(&self) -> (r: usize)
        requires
            self@.0 * self@.1 * 4 <= usize::MAX,
        ensures
            r == self@.0 * self@.1 * 4,
    {
        proof {
            let (a, b) = (self.width as int, self.height as int);
            assert(0 <= a * b) by (nonlinear_arith)
                requires
                    a >= 0,
                    b >= 0,
            ;
        }
        self.width as usize * self.height as usize * 4
    }

    /// The frames that came out so far, from their bytes. Once the process is gone and nothing is
    /// left, that is an error.
    pub fn collect(&self, buffers: Vec<Vec<u8>>, exited: bool) -> (r: Result<
        Vec<Frame>,
        &'static str,
    >)
        ensures
            match r {
                Ok(frames) => !(exited && buffers@.len() == 0) && frame_views(frames@)
                    =~= frames_from(self@, buffers@),
                Err(e) => exited && buffers@.len() == 0 && e@ == "ffmpeg decode process exited"@,
            },
    {
        if exited && buffers.len() == 0 {
            return Err("ffmpeg decode process exited");
        }
        let ghost all = buffers@;
        let mut frames: Vec<Frame> = Vec::new();
        for rgba in it: buffers
            invariant
                it.seq() == all,
                frame_views(frames@) =~= frames_from(self@, all.take(it.index() as int)),
        {
            let ghost before = frames@;
            let ghost i = it.index() as int;
            let frame = Frame { width: self.width, height: self.height, rgba };
            frames.push(frame);
            proof {
                assert(frame_views(frames@) =~= frame_views(before).push(frame@));
                assert(frames_from(self@, all.take(i + 1)) =~= frames_from(
                    self@,
                    all.take(i),
                ).push(frame@));
            }
        }
        assert(all.take(all.len() as int) =~= all);
        Ok(frames)
    }
}

/// Buffers that hold one frame each make complete frames.
pub proof fn law_whole_buffers_make_complete_frames(size: (u32, u32), buffers: Seq<Vec<u8>>)
    requires
        forall|i: int|
            0 <= i < buffers.len() ==> (#[trigger] buffers[i])@.len() == size.0 * size.1 * 4,
    ensures
        forall|i: int| 0 <= i < buffers.len() ==> (#[trigger] frames_from(size, buffers)[i]).complete(),
{
    assert forall|i: int| 0 <= i < buffers.len() implies (#[trigger] frames_from(
        size,
        buffers,
    )[i]).complete() by {
        assert(buffers[i]@.len() == size.0 * size.1 * 4);
    }
}

/// Each buffer becomes one frame of the announced size, in order and byte for byte.
pub proof fn law_each_buffer_is_a_frame(size: (u32, u32), buffers: Seq<Vec<u8>>, i: int)
    requires
        0 <= i < buffers.len(),
    ensures
        frames_from(size, buffers).len() == buffers.len(),
        frames_from(size, buffers)[i].rgba == buffers[i]@,
        frames_from(size, buffers)[i].width == size.0,
        frames_from(size, buffers)[i].height == size.1,
{
}

} // verus!
