//! The `ffmpeg` command line: which executable to run, how, and AAC in the framing that it reads.
use crate::text;
use vstd::prelude::*;

verus! {

/// The argument with which an executable is tried out.
pub const PROBE_ARG: &'static str = "-version";

/// The name under which the search path is asked.
pub const PLAIN_NAME: &'static str = "ffmpeg";

/// The log file, where none is named.
pub const LOG_FILE: &'static str = "quest-scrcpy-ffmpeg.log";

/// The executable to run: what `FFMPEG` names if that works, else `ffmpeg` as the search path
/// finds it if that works.
pub open spec fn chosen_path(var: Option<Seq<char>>, var_works: bool, plain_works: bool) -> Option<
    Seq<char>,
> {
    match var {
        Some(p) if var_works => Some(p),
        _ => if plain_works {
            Some(PLAIN_NAME@)
        } else {
            None
        },
    }
}

/// Chooses the executable, from what `FFMPEG` names and from which of the two worked.
pub fn path(var: Option<&str>, var_works: bool, plain_works: bool) -> (r: Option<String>)
    ensures
        match r {
            Some(p) => chosen_path(
                match var {
                    Some(v) => Some(v@),
                    None => None,
                },
                var_works,
                plain_works,
            ) == Some(p@),
            None => chosen_path(
                match var {
                    Some(v) => Some(v@),
                    None => None,
                },
                var_works,
                plain_works,
            ) is None,
        },
{
    match var {
        Some(p) => {
            if var_works {
                return Some(p.to_string());
            }
        },
        None => {},
    }
    if plain_works {
        Some(PLAIN_NAME.to_string())
    } else {
        None
    }
}

/// Whether there is an ffmpeg to decode, play and record with.
pub fn available(path: &Option<String>) -> (r: bool)
    ensures
        r == path.is_some(),
{
    path.is_some()
}

/// The arguments in front of all others: little to say.
pub fn base_args() -> (r: Vec<String>)
    ensures
        text::views(r@) =~= seq!["-hide_banner"@, "-loglevel"@, "error"@],
{
    vec!["-hide_banner".to_string(), "-loglevel".to_string(), "error".to_string()]
}

/// The log file: the named one, or none, which stands for [`LOG_FILE`] in the directory for
/// temporary files.
pub fn log_path(var: Option<&str>) -> (r: Option<String>)
    ensures
        match (r, var) {
            (Some(p), Some(v)) => p@ == v@,
            (None, None) => true,
            _ => false,
        },
{
    match var {
        Some(p) => Some(p.to_string()),
        None => None,
    }
}

/// What one line of ffmpeg's complaints becomes.
pub open spec fn logged(tag: Seq<char>, line: Seq<char>) -> Option<(Seq<char>, Seq<char>)> {
    if text::trimmed(line).len() > 0 {
        Some(("[ffmpeg/"@ + tag + "] "@ + line, "["@ + tag + "] "@ + line))
    } else {
        None
    }
}

/// A line with anything but white space in it is told whole, as it stands and with its tag in front;
/// a blank one is not told.
pub proof fn law_complaints_are_told_whole(tag: Seq<char>, line: Seq<char>)
    ensures
        text::is_blank(line) ==> logged(tag, line) is None,
        !text::is_blank(line) ==> (logged(tag, line) matches Some((console, file)) && console.len()
            == tag.len() + line.len() + 10 && file.len() == tag.len() + line.len() + 3
            && console.skip(console.len() - line.len()) == line && file.skip(file.len() - line.len())
            == line && console.subrange(8, 8int + tag.len()) == tag && file.subrange(
            1,
            1int + tag.len(),
        ) == tag),
{
    reveal_strlit("[ffmpeg/");
    reveal_strlit("] ");
    reveal_strlit("[");
    if text::is_blank(line) {
        text::lemma_trim_blank(line);
    } else {
        text::lemma_trim_leaves(line);
        let (console, file) = ("[ffmpeg/"@ + tag + "] "@ + line, "["@ + tag + "] "@ + line);
        assert(console.skip(console.len() - line.len()) =~= line);
        assert(file.skip(file.len() - line.len()) =~= line);
        assert(console.subrange(8, 8int + tag.len()) =~= tag);
        assert(file.subrange(1, 1int + tag.len()) =~= tag);
    }
}

/// What one line of ffmpeg's complaints becomes: a line for the console and one for the log file,
/// both with a tag, or nothing where it is blank.
pub fn log_line(tag: &str, line: &str) -> (r: Option<(String, String)>)
    ensures
        match r {
            Some((console, file)) => text::trimmed(line@).len() > 0 && console@ == "[ffmpeg/"@
                + tag@ + "] "@ + line@ && file@ == "["@ + tag@ + "] "@ + line@,
            None => text::trimmed(line@).len() == 0,
        },
        match r {
            Some((console, file)) => logged(tag@, line@) == Some((console@, file@)),
            None => logged(tag@, line@) is None,
        },
{
    if text::trim(line).is_empty() {
        return None;
    }
    let mut console = "[ffmpeg/".to_string();
    console.append(tag);
    console.append("] ");
    console.append(line);
    let mut file = "[".to_string();
    file.append(tag);
    file.append("] ");
    file.append(line);
    Some((console, file))
}

/// What an ADTS header says of the stream, from its AudioSpecificConfig. Devices send bare AAC
/// access units; ffmpeg reads them behind a header each.
#[derive(Clone, Copy, Debug)]
pub struct Adts {
    /// The audio object type less one, 2 bits.
    profile: u8,
    /// The index of the sampling frequency, 4 bits.
    freq_idx: u8,
    /// The channel configuration, 3 bits.
    channels: u8,
}

/// The fields of an [`Adts`].
pub struct AdtsView {
    pub profile: int,
    pub freq_idx: int,
    pub channels: int,
}

impl View for Adts {
    type V = AdtsView;

    closed spec fn view(&self) -> AdtsView {
        AdtsView {
            profile: self.profile as int,
            freq_idx: self.freq_idx as int,
            channels: self.channels as int,
        }
    }
}

/// The index of the sampling frequency in an AudioSpecificConfig: four bits, across two bytes.
pub open spec fn asc_freq_idx(asc: Seq<u8>) -> int {
    asc[0] % 8 * 2 + asc[1] / 128
}

/// The channel configuration in an AudioSpecificConfig: the four bits that follow.
pub open spec fn asc_channels(asc: Seq<u8>) -> int {
    asc[1] as int / 8 % 16
}

/// Reads the index of the sampling frequency.
pub fn read_freq_idx(asc: &[u8]) -> (r: u8)
    requires
        asc@.len() >= 2,
    ensures
        r == asc_freq_idx(asc@),
        r < 16,
{
    asc[0] % 8 * 2 + asc[1] / 128
}

/// Reads the channel configuration.
pub fn read_channels(asc: &[u8]) -> (r: u8)
    requires
        asc@.len() >= 2,
    ensures
        r == asc_channels(asc@),
        r < 16,
{
    asc[1] / 8 % 16
}

impl AdtsView {
    /// What an AudioSpecificConfig says: its first five bits are the object type. One that is too
    /// short stands for AAC-LC in stereo at 44.1 kHz.
    pub open spec fn of(asc: Seq<u8>) -> AdtsView {
        if asc.len() < 2 {
            AdtsView { profile: 1, freq_idx: 4, channels: 2 }
        } else {
            let object = asc[0] as int / 8;
            let chan = asc_channels(asc);
            AdtsView {
                profile: if object == 0 {
                    0
                } else {
                    (object - 1) % 4
                },
                freq_idx: asc_freq_idx(asc),
                channels: if chan < 1 {
                    1
                } else if chan > 7 {
                    7
                } else {
                    chan
                },
            }
        }
    }

    /// Whether each field fits into its bits.
    pub open spec fn fits(self) -> bool {
        0 <= self.profile < 4 && 0 <= self.freq_idx < 16 && 0 <= self.channels < 8
    }

    /// The header of a frame that is `len` bytes long, header counted in. The length takes 13
    /// bits.
    pub open spec fn header_bytes(self, len: int) -> Seq<u8> {
        seq![
            0xffu8,
            0xf1u8,
            (self.profile * 64 + self.freq_idx * 4 + self.channels / 4) as u8,
            (self.channels % 4 * 64 + len / 2048 % 4) as u8,
            (len / 8 % 256) as u8,
            (len % 8 * 32 + 31) as u8,
            0xfcu8,
        ]
    }
}

/// The profile that a header names.
pub open spec fn header_profile(h: Seq<u8>) -> int {
    h[2] as int / 64
}

/// The frequency index that a header names.
pub open spec fn header_freq_idx(h: Seq<u8>) -> int {
    h[2] as int / 4 % 16
}

/// The channel configuration that a header names.
pub open spec fn header_channels(h: Seq<u8>) -> int {
    h[2] as int % 2 * 4 + h[3] as int / 64
}

/// The length of the frame that a header names.
pub open spec fn header_len(h: Seq<u8>) -> int {
    h[3] as int % 4 * 2048 + h[4] * 8 + h[5] as int / 32
}

/// What a header was made of is read back from it, for every frame whose length fits into its 13
/// bits.
pub proof fn law_adts_header_is_read_back(a: AdtsView, len: int)
    requires
        a.fits(),
        0 <= len < 8192,
    ensures
        a.header_bytes(len).len() == 7,
        header_profile(a.header_bytes(len)) == a.profile,
        header_freq_idx(a.header_bytes(len)) == a.freq_idx,
        header_channels(a.header_bytes(len)) == a.channels,
        header_len(a.header_bytes(len)) == len,
{
}

/// What an AudioSpecificConfig says fits into a header.
pub proof fn law_config_fits_header(asc: Seq<u8>)
    ensures
        AdtsView::of(asc).fits(),
{
}

impl Adts {
    #[verifier::type_invariant]
    spec fn in_range(self) -> bool {
        self@.fits()
    }

    /// Reads an AudioSpecificConfig.
    pub fn from_asc(asc: &[u8]) -> (r: Adts)
        ensures
            r@ == AdtsView::of(asc@),
    {
        if asc.len() < 2 {
            return Adts { profile: 1, freq_idx: 4, channels: 2 };
        }
        let object: u8 = asc[0] / 8;
        let chan: u8 = read_channels(asc);
        let profile: u8 = if object == 0 {
            0
        } else {
            (object - 1) % 4
        };
        let channels: u8 = if chan < 1 {
            1
        } else if chan > 7 {
            7
        } else {
            chan
        };
        Adts { profile, freq_idx: read_freq_idx(asc), channels }
    }

    /// The header for an access unit of `payload_len` bytes.
    pub fn header(&self, payload_len: usize) -> (r: [u8; 7])
        requires
            payload_len + 7 <= usize::MAX,
        ensures
            r@ == self@.header_bytes(payload_len + 7),
            self@.fits(),
    {
        proof {
            use_type_invariant(self);
        }
        let len: usize = 7 + payload_len;
        let r: [u8; 7] = [
            0xff,
            0xf1,
            self.profile * 64 + self.freq_idx * 4 + self.channels / 4,
            self.channels % 4 * 64 + (len / 2048 % 4) as u8,
            (len / 8 % 256) as u8,
            (len % 8) as u8 * 32 + 31,
            0xfc,
        ];
        assert(r@ =~= self@.header_bytes(payload_len + 7));
        r
    }

    /// An access unit behind its header.
    pub fn frame(&self, au: &[u8]) -> (r: Vec<u8>)
        requires
            au@.len() + 7 <= usize::MAX,
        ensures
            r@ == self@.header_bytes(au@.len() + 7int) + au@,
    {
        let header = self.header(au.len());
        let mut out: Vec<u8> = Vec::new();
        out.extend_from_slice(header.as_slice());
        out.extend_from_slice(au);
        out
    }
}

/// What the variable names is run where that works; else the plain name where that works; else
/// nothing is.
pub proof fn law_named_executable_comes_first(
    var: Option<Seq<char>>,
    var_works: bool,
    plain_works: bool,
)
    ensures
        match chosen_path(var, var_works, plain_works) {
            Some(p) => (var_works && var == Some(p)) || (plain_works && p == "ffmpeg"@ && (var is None
                || !var_works)),
            None => !plain_works && (var is None || !var_works),
        },
{
}

/// The fields of the first two bytes.
#[verifier::spinoff_prover]
proof fn lemma_config_fields(object: int, q: int, m: int, channels: int, low: int)
    requires
        0 <= object < 32,
        0 <= q < 8,
        0 <= m < 2,
        0 <= channels < 16,
        0 <= low < 8,
    ensures
        ({
            let (hi, lo) = (object * 8 + q, m * 128 + channels * 8 + low);
            hi / 8 == object && hi % 8 == q && lo / 128 == m && lo / 8 % 16 == channels
        }),
{
    let lo = m * 128 + channels * 8 + low;
    assert(lo / 8 == m * 16 + channels);
}

/// The fields of an AudioSpecificConfig are read from its bits: five for the object type, four for
/// the frequency and four for the channels, whatever stands behind them.
pub proof fn law_audio_config_is_read_from_its_bits(
    object: int,
    freq_idx: int,
    channels: int,
    low: int,
    rest: Seq<u8>,
)
    requires
        0 <= object < 32,
        0 <= freq_idx < 16,
        0 <= channels < 16,
        0 <= low < 8,
    ensures
        ({
            let bits = ((object * 16 + freq_idx) * 16 + channels) * 8 + low;
            let asc = seq![(bits / 256) as u8, (bits % 256) as u8] + rest;
            let a = AdtsView::of(asc);
            &&& asc_freq_idx(asc) == freq_idx
            &&& asc_channels(asc) == channels
            &&& a.freq_idx == freq_idx
            &&& 1 <= object <= 4 ==> a.profile == object - 1
            &&& object >= 1 ==> 0 <= a.profile < 4 && (object - 1 - a.profile) % 4 == 0
            &&& object == 0 ==> a.profile == 0
            &&& 1 <= channels <= 7 ==> a.channels == channels
            &&& channels == 0 ==> a.channels == 1
            &&& channels > 7 ==> a.channels == 7
        }),
{
    let bits = ((object * 16 + freq_idx) * 16 + channels) * 8 + low;
    let asc = seq![(bits / 256) as u8, (bits % 256) as u8] + rest;
    let (q, m) = (freq_idx / 2, freq_idx % 2);
    let (hi, lo) = (object * 8 + q, m * 128 + channels * 8 + low);
    assert(bits == hi * 256 + lo && 0 <= lo < 256);
    assert(bits / 256 == hi && bits % 256 == lo);
    lemma_config_fields(object, q, m, channels, low);
    assert(asc[0] == hi && asc[1] == lo);
}

/// A header begins with the twelve bits that ffmpeg looks for, says that no checksum follows, and
/// leaves the fullness of the buffer open.
pub proof fn law_header_can_be_found(a: AdtsView, len: int)
    requires
        a.fits(),
    ensures
        a.header_bytes(len)[0] == 0xff,
        a.header_bytes(len)[1] as int / 16 == 0xf,
        a.header_bytes(len)[1] as int % 2 == 1,
        a.header_bytes(len)[5] as int % 32 == 31,
        a.header_bytes(len)[6] == 0xfc,
{
}

/// The parts of a length do not depend on what is beyond its 13 bits.
#[verifier::spinoff_prover]
proof fn lemma_length_parts(q: int, r: int)
    requires
        0 <= q,
        0 <= r < 8192,
    ensures
        (8192 * q + r) / 2048 % 4 == r / 2048 % 4,
        (8192 * q + r) / 8 % 256 == r / 8 % 256,
        (8192 * q + r) % 8 == r % 8,
{
    let len = 8192 * q + r;
    assert(len / 2048 == 4 * q + r / 2048);
    assert(len / 8 == 256 * (4 * q) + r / 8);
    assert((4 * q + r / 2048) % 4 == r / 2048 % 4);
}

/// A frame that is too long for the 13 bits is told with those of its length that fit.
pub proof fn law_header_tells_the_length_as_far_as_it_fits(a: AdtsView, len: int)
    requires
        a.fits(),
        0 <= len,
    ensures
        a.header_bytes(len) == a.header_bytes(len % 8192),
        header_len(a.header_bytes(len)) == len % 8192,
{
    let r = len % 8192;
    lemma_length_parts(len / 8192, r);
    assert(len == 8192 * (len / 8192) + r);
    assert(a.header_bytes(len) =~= a.header_bytes(r));
    law_adts_header_is_read_back(a, r);
}

/// A configuration that is too short to be one stands for AAC-LC in stereo at 44.1 kHz.
pub proof fn law_short_config_is_stereo(asc: Seq<u8>)
    requires
        asc.len() < 2,
    ensures
        AdtsView::of(asc) == (AdtsView { profile: 1, freq_idx: 4, channels: 2 }),
{
}

} // verus!
