//! AAC playback through Media Foundation: the formats that its decoder is set up with, and its
//! output as samples.
use crate::audioplay::{FeedAction, FeedView};
use crate::bytes;
use crate::ffmpeg;
use crate::stream::{larger, larger_of};
use vstd::prelude::*;

verus! {

/// The time that one access unit takes, in units of 100 ns: 1024 samples at 48 kHz.
pub const UNIT_TIME: i64 = 213_333;

/// The smallest output buffer.
pub const MIN_BUFFER: u32 = 8192;

/// A player and its decoder, as far as packets are concerned.
#[derive(Debug)]
pub struct MfPlayer {
    decoder: bool,
}

impl View for MfPlayer {
    type V = bool;

    /// Whether there is a decoder.
    closed spec fn view(&self) -> bool {
        self.decoder
    }
}

/// What to do with a packet: a configuration calls for a new decoder, and an access unit goes to
/// the decoder.
pub open spec fn feed_action(decoder: bool, is_config: bool) -> FeedView {
    if is_config {
        FeedView::Rebuild
    } else if decoder {
        FeedView::Decode
    } else {
        FeedView::Skip
    }
}

impl MfPlayer {
    /// A player without a decoder.
    pub fn new() -> (r: MfPlayer)
        ensures
            r@ == false,
    {
        MfPlayer { decoder: false }
    }

    /// Takes an access unit, or the AudioSpecificConfig where `is_config` says so.
    pub fn feed(&mut self, is_config: bool) -> (r: FeedAction)
        ensures
            r@ == feed_action(old(self)@, is_config),
            final(self)@ == old(self)@,
    {
        if is_config {
            FeedAction::Rebuild
        } else if self.decoder {
            FeedAction::Decode
        } else {
            FeedAction::Skip
        }
    }

    /// Takes note that a decoder was built.
    pub fn on_built(&mut self)
        ensures
            final(self)@ == true,
    {
        self.decoder = true;
    }
}

/// The sampling frequency for an index of an AudioSpecificConfig; 48 kHz where there is none.
pub open spec fn rate_of(freq_idx: int) -> u32 {
    let rates = seq![
        96_000u32,
        88_200,
        64_000,
        48_000,
        44_100,
        32_000,
        24_000,
        22_050,
        16_000,
        12_000,
        11_025,
        8_000,
        7_350,
    ];
    if 0 <= freq_idx < 13 {
        rates[freq_idx]
    } else {
        48_000
    }
}

/// The format of an AAC stream.
#[derive(Clone, Copy, Debug, PartialEq, Eq, Structural)]
pub struct AacFormat {
    pub sample_rate: u32,
    pub channels: u32,
}

impl AacFormat {
    /// What an AudioSpecificConfig says. One that is too short stands for stereo at 48 kHz.
    pub open spec fn of(asc: Seq<u8>) -> AacFormat {
        if asc.len() < 2 {
            AacFormat { sample_rate: 48_000, channels: 2 }
        } else {
            let chan = ffmpeg::asc_channels(asc);
            AacFormat {
                sample_rate: rate_of(ffmpeg::asc_freq_idx(asc)),
                channels: if chan < 1 {
                    1
                } else if chan > 8 {
                    8
                } else {
                    chan as u32
                },
            }
        }
    }

    /// Whether the numbers are those of an AAC stream.
    pub open spec fn plausible(self) -> bool {
        self.sample_rate <= 96_000 && 1 <= self.channels <= 8
    }
}

/// Whatever an AudioSpecificConfig says, the format is one of an AAC stream.
pub proof fn law_format_is_plausible(asc: Seq<u8>)
    ensures
        AacFormat::of(asc).plausible(),
{
}

/// Reads an AudioSpecificConfig.
pub fn parse_asc(asc: &[u8]) -> (r: AacFormat)
    ensures
        r == AacFormat::of(asc@),
        r.plausible(),
{
    if asc.len() < 2 {
        return AacFormat { sample_rate: 48_000, channels: 2 };
    }
    let freq_idx: u8 = ffmpeg::read_freq_idx(asc);
    let chan: u8 = ffmpeg::read_channels(asc);
    let sample_rate: u32 = match freq_idx {
        0 => 96_000,
        1 => 88_200,
        2 => 64_000,
        3 => 48_000,
        4 => 44_100,
        5 => 32_000,
        6 => 24_000,
        7 => 22_050,
        8 => 16_000,
        9 => 12_000,
        10 => 11_025,
        11 => 8_000,
        12 => 7_350,
        _ => 48_000,
    };
    let channels: u32 = if chan < 1 {
        1
    } else if chan > 8 {
        8
    } else {
        chan as u32
    };
    AacFormat { sample_rate, channels }
}

impl AacFormat {
    /// The bytes that one sample of every channel takes, with 16 bits each.
    pub open spec fn block(self) -> int {
        self.channels * 2
    }

    /// The bytes that one second takes.
    pub open spec fn second(self) -> int {
        self.sample_rate * self.channels * 2
    }

    /// The size of the output buffer, where the decoder asks for `wanted`.
    pub open spec fn buffer_for(self, wanted: u32) -> u32 {
        larger(larger(wanted, (self.sample_rate * self.channels * 2 / 8) as u32), MIN_BUFFER)
    }
}

/// A second takes as many blocks as there are samples in it. A buffer holds what the decoder asks
/// for, an eighth of a second and 8192 bytes, and no more than the largest of the three.
pub proof fn law_buffers_hold_what_is_needed(f: AacFormat, wanted: u32)
    requires
        f.plausible(),
    ensures
        f.second() == f.sample_rate * f.block(),
        f.block() == f.channels + f.channels,
        f.buffer_for(wanted) >= wanted && f.buffer_for(wanted) >= 8192,
        8 * f.buffer_for(wanted) + 7 >= f.second(),
        f.buffer_for(wanted) == wanted || f.buffer_for(wanted) == 8192 || 8 * f.buffer_for(wanted)
            <= f.second(),
{
    lemma_bytes_per_second(f);
    let (a, b) = (f.sample_rate as int, f.channels as int);
    assert(a * b * 2 == a * (b * 2)) by (nonlinear_arith);
}

/// What the decoder is told beside the format.
pub open spec fn told(asc: Seq<u8>) -> Seq<u8> {
    seq![0u8, 0, 0xfe, 0, 0, 0, 0, 0, 0, 0, 0, 0] + asc
}

/// The configuration stands whole behind twelve bytes, which are the same for all.
pub proof fn law_config_is_told_whole(asc: Seq<u8>, other: Seq<u8>)
    ensures
        told(asc).skip(12) == asc,
        told(asc).take(12) == told(other).take(12),
        bytes::le16(told(asc), 2) == 0xfe,
        forall|i: int| 0 <= i < 12 && i != 2 ==> #[trigger] told(asc)[i] == 0,
{
    assert(told(asc).skip(12) =~= asc);
    assert(told(asc).take(12) =~= told(other).take(12));
}

impl AacFormat {
    /// The bytes that one sample of every channel takes, with 16 bits each.
    pub fn block_alignment(&self) -> (r: u32)
        requires
            self.plausible(),
        ensures
            r == self.channels * 2,
            r == self.block(),
    {
        self.channels * 2
    }

    /// The bytes that one second takes.
    pub fn bytes_per_second(&self) -> (r: u32)
        requires
            self.plausible(),
        ensures
            r == self.sample_rate * self.channels * 2,
            r == self.second(),
    {
        proof {
            lemma_bytes_per_second(*self);
        }
        self.sample_rate * self.channels * 2
    }

    /// The size of the output buffer, where the decoder asks for `wanted`: an eighth of a second,
    /// and no less than [`MIN_BUFFER`].
    pub fn buffer_size(&self, wanted: u32) -> (r: u32)
        requires
            self.plausible(),
        ensures
            r == larger(
                larger(wanted, (self.sample_rate * self.channels * 2 / 8) as u32),
                MIN_BUFFER,
            ),
            r == self.buffer_for(wanted),
    {
        proof {
            lemma_bytes_per_second(*self);
        }
        larger_of(larger_of(wanted, self.sample_rate * self.channels * 2 / 8), MIN_BUFFER)
    }
}

/// A second of sound is no more than a `u32` counts.
proof fn lemma_bytes_per_second(f: AacFormat)
    requires
        f.plausible(),
    ensures
        0 <= f.sample_rate * f.channels <= 768_000,
{
    let (a, b) = (f.sample_rate as int, f.channels as int);
    assert(0 <= a * b <= 768_000) by (nonlinear_arith)
        requires
            0 <= a <= 96_000,
            0 <= b <= 8,
    ;
}

/// What the decoder is told beside the format: twelve bytes, of which the third says that the
/// profile level is unknown, and the AudioSpecificConfig.
pub fn user_data(asc: &[u8]) -> (r: Vec<u8>)
    ensures
        r@ == seq![0u8, 0, 0xfe, 0, 0, 0, 0, 0, 0, 0, 0, 0] + asc@,
        r@ == told(asc@),
{
    let mut data: Vec<u8> = vec![0, 0, 0xfe, 0, 0, 0, 0, 0, 0, 0, 0, 0];
    data.extend_from_slice(asc);
    data
}

/// A 16-bit sample, from the number that its bits make.
pub open spec fn signed16(n: u16) -> int {
    if n < 0x8000 {
        n as int
    } else {
        n - 0x1_0000
    }
}

/// The 16-bit samples in `b`, low bytes first. A byte that is left over is dropped.
pub open spec fn pcm16(b: Seq<u8>) -> Seq<i16> {
    Seq::new(b.len() / 2, |i: int| signed16(bytes::le16(b, 2 * i)) as i16)
}

/// Reads the decoder's output.
pub fn read_pcm(b: &[u8]) -> (r: Vec<i16>)
    ensures
        r@ == pcm16(b@),
{
    let n: usize = b.len() / 2;
    let mut out: Vec<i16> = Vec::new();
    let mut i: usize = 0;
    while i < n
        invariant
            n == b@.len() / 2,
            b@.len() <= usize::MAX,
            i <= n,
            out@ == pcm16(b@).take(i as int),
        decreases n - i,
    {
        let word: u16 = bytes::read_le16(b, 2 * i);
        let value: i32 = if word < 0x8000 {
            word as i32
        } else {
            word as i32 - 0x1_0000
        };
        out.push(value as i16);
        assert(pcm16(b@).take(i + 1) =~= pcm16(b@).take(i as int).push(value as i16));
        i = i + 1;
    }
    assert(pcm16(b@).take(n as int) =~= pcm16(b@));
    out
}

/// The frequencies fall from 96 kHz by halves, three at a time, down to the last, which stands
/// alone; and an index without one stands for 48 kHz.
pub proof fn law_frequencies_fall_by_halves(i: int)
    ensures
        rate_of(0) == 96_000 && rate_of(1) == 88_200 && rate_of(2) == 64_000,
        0 <= i <= 8 ==> 2 * rate_of(i + 3) == rate_of(i),
        rate_of(12) == 7_350,
        i < 0 || i > 12 ==> rate_of(i) == 48_000,
{
}

/// The format has the frequency and the channels that a configuration names, with at least one
/// channel and at most eight.
pub proof fn law_format_is_what_the_config_says(asc: Seq<u8>)
    requires
        asc.len() >= 2,
    ensures
        ({
            let (f, n) = (AacFormat::of(asc), ffmpeg::asc_channels(asc));
            &&& f.sample_rate == rate_of(ffmpeg::asc_freq_idx(asc))
            &&& 1 <= n <= 8 ==> f.channels == n
            &&& n == 0 ==> f.channels == 1
            &&& n > 8 ==> f.channels == 8
        }),
{
}

/// A sample is the 16-bit number whose low byte comes first, taken with its sign: it differs from
/// what its two bytes count to by nothing, or by one whole turn.
pub proof fn law_samples_are_signed(b: Seq<u8>, i: int)
    requires
        0 <= i < b.len() / 2,
    ensures
        pcm16(b).len() == b.len() / 2,
        ({
            let (v, n) = (pcm16(b)[i] as int, b[2 * i] + 256 * b[2 * i + 1]);
            v == n || v == n - 65536
        }),
{
}

/// A configuration that is too short to be one stands for stereo at 48 kHz.
pub proof fn law_short_config_is_stereo(asc: Seq<u8>)
    requires
        asc.len() < 2,
    ensures
        AacFormat::of(asc).sample_rate == 48_000,
        AacFormat::of(asc).channels == 2,
{
}

} // verus!
