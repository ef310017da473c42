//! The settings file: `key=value` lines beside the executable.
//!
//! A setting that is a floating-point number is held as the bits that make it up. The program
//! turns text into such numbers and back; everything else is done here.
use crate::text;
use vstd::prelude::*;

verus! {

/// The first line of the file.
pub const HEADING: &'static str = "# quest-scrcpy settings (auto-saved)";

/// The name of the file.
pub const FILE_NAME: &'static str = "quest-scrcpy.cfg";

/// The bits of 0.
pub const ZERO: u32 = 0;

/// The bits of 0.25.
pub const QUARTER: u32 = 0x3e80_0000;

/// The bits of 0.5.
pub const HALF: u32 = 0x3f00_0000;

/// The bits of 0.75.
pub const THREE_QUARTERS: u32 = 0x3f40_0000;

/// The bits of 1.
pub const ONE: u32 = 0x3f80_0000;

/// The bits of 0.02, the lens coefficient of the Quest 3 for the square of the radius.
pub const QUEST3_K1: u32 = 0x3ca3_d70a;

/// The bits of -0.2, the lens coefficient of the Quest 3 for its fourth power.
pub const QUEST3_K2: u32 = 0xbe4c_cccd;

/// The bits of -1, the tilt of the Quest 3 in degrees.
pub const QUEST3_TILT: u32 = 0xbf80_0000;

/// A part of the picture: the corners, where the picture goes from 0 to 1.
#[derive(Clone, Copy, Debug, PartialEq, Eq, Structural)]
pub struct Crop {
    pub min_x: u32,
    pub min_y: u32,
    pub max_x: u32,
    pub max_y: u32,
}

/// The crops that have a button.
#[derive(Clone, Copy, Debug, PartialEq, Eq, Structural)]
pub enum CropPreset {
    /// The left half.
    LeftEye,
    /// The right half.
    RightEye,
    /// All of it.
    FullPanel,
    /// The middle, half as wide and half as high.
    Center,
}

impl CropPreset {
    /// The corners.
    pub open spec fn corners(self) -> Crop {
        match self {
            CropPreset::LeftEye => Crop { min_x: ZERO, min_y: ZERO, max_x: HALF, max_y: ONE },
            CropPreset::RightEye => Crop { min_x: HALF, min_y: ZERO, max_x: ONE, max_y: ONE },
            CropPreset::FullPanel => Crop { min_x: ZERO, min_y: ZERO, max_x: ONE, max_y: ONE },
            CropPreset::Center => Crop {
                min_x: QUARTER,
                min_y: QUARTER,
                max_x: THREE_QUARTERS,
                max_y: THREE_QUARTERS,
            },
        }
    }

    /// The corners.
    pub fn crop(&self) -> (r: Crop)
        ensures
            r == self.corners(),
    {
        match self {
            CropPreset::LeftEye => Crop { min_x: ZERO, min_y: ZERO, max_x: HALF, max_y: ONE },
            CropPreset::RightEye => Crop { min_x: HALF, min_y: ZERO, max_x: ONE, max_y: ONE },
            CropPreset::FullPanel => Crop { min_x: ZERO, min_y: ZERO, max_x: ONE, max_y: ONE },
            CropPreset::Center => Crop {
                min_x: QUARTER,
                min_y: QUARTER,
                max_x: THREE_QUARTERS,
                max_y: THREE_QUARTERS,
            },
        }
    }
}

/// What is kept between two runs.
#[derive(Debug)]
pub struct Config {
    pub lens_correct: bool,
    pub lens_k1: u32,
    pub lens_k2: u32,
    pub rotation_deg: u32,
    pub uv: Crop,
    pub display_id: u32,
    pub max_size: u32,
    pub bitrate_mbps: u32,
    pub max_fps: u32,
    pub audio: bool,
    /// The addresses that were connected to over the network.
    pub remotes: Vec<String>,
}

/// What a [`Config`] says.
pub struct ConfigView {
    pub lens_correct: bool,
    pub lens_k1: u32,
    pub lens_k2: u32,
    pub rotation_deg: u32,
    pub uv: Crop,
    pub display_id: u32,
    pub max_size: u32,
    pub bitrate_mbps: u32,
    pub max_fps: u32,
    pub audio: bool,
    pub remotes: Seq<Seq<char>>,
}

impl View for Config {
    type V = ConfigView;

    open spec fn view(&self) -> ConfigView {
        ConfigView {
            lens_correct: self.lens_correct,
            lens_k1: self.lens_k1,
            lens_k2: self.lens_k2,
            rotation_deg: self.rotation_deg,
            uv: self.uv,
            display_id: self.display_id,
            max_size: self.max_size,
            bitrate_mbps: self.bitrate_mbps,
            max_fps: self.max_fps,
            audio: self.audio,
            remotes: text::views(self.remotes@),
        }
    }
}

impl ConfigView {
    /// The settings of a first run: the tuned view of a Quest 3.
    pub open spec fn default_view() -> ConfigView {
        ConfigView {
            lens_correct: true,
            lens_k1: QUEST3_K1,
            lens_k2: QUEST3_K2,
            rotation_deg: QUEST3_TILT,
            uv: CropPreset::LeftEye.corners(),
            display_id: 0,
            max_size: 1920,
            bitrate_mbps: 16,
            max_fps: 0,
            audio: false,
            remotes: seq![],
        }
    }
}

impl Default for Config {
    fn default() -> (r: Self)
        ensures
            r@ == ConfigView::default_view(),
    {
        let r = Config {
            lens_correct: true,
            lens_k1: QUEST3_K1,
            lens_k2: QUEST3_K2,
            rotation_deg: QUEST3_TILT,
            uv: CropPreset::LeftEye.crop(),
            display_id: 0,
            max_size: 1920,
            bitrate_mbps: 16,
            max_fps: 0,
            audio: false,
            remotes: Vec::new(),
        };
        assert(r@.remotes =~= seq![]);
        r
    }
}

impl Clone for Config {
    fn clone(&self) -> (r: Self)
        ensures
            r@ == self@,
    {
        Config {
            lens_correct: self.lens_correct,
            lens_k1: self.lens_k1,
            lens_k2: self.lens_k2,
            rotation_deg: self.rotation_deg,
            uv: self.uv,
            display_id: self.display_id,
            max_size: self.max_size,
            bitrate_mbps: self.bitrate_mbps,
            max_fps: self.max_fps,
            audio: self.audio,
            remotes: text::copy_list(&self.remotes),
        }
    }
}

/// Whether the bits make up no number: the exponent is the highest, and the fraction is not 0.
pub open spec fn is_nan(bits: u32) -> bool {
    bits as int % 0x8000_0000 > 0x7f80_0000
}

/// Whether two floating-point numbers compare as equal: the two zeros do, and what is no number
/// equals nothing.
pub open spec fn equal_numbers(a: u32, b: u32) -> bool {
    !is_nan(a) && !is_nan(b) && (a == b || (a as int % 0x8000_0000 == 0 && b as int % 0x8000_0000
        == 0))
}

/// Whether two floating-point numbers compare as equal.
fn equal_floats(a: u32, b: u32) -> (r: bool)
    ensures
        r == equal_numbers(a, b),
{
    let size_a: u32 = a % 0x8000_0000;
    let size_b: u32 = b % 0x8000_0000;
    size_a <= 0x7f80_0000 && size_b <= 0x7f80_0000 && (a == b || (size_a == 0 && size_b == 0))
}

impl ConfigView {
    /// Whether two settings compare as equal, each floating-point number as such numbers do.
    pub open spec fn equals(self, other: ConfigView) -> bool {
        &&& self.lens_correct == other.lens_correct
        &&& equal_numbers(self.lens_k1, other.lens_k1)
        &&& equal_numbers(self.lens_k2, other.lens_k2)
        &&& equal_numbers(self.rotation_deg, other.rotation_deg)
        &&& equal_numbers(self.uv.min_x, other.uv.min_x)
        &&& equal_numbers(self.uv.min_y, other.uv.min_y)
        &&& equal_numbers(self.uv.max_x, other.uv.max_x)
        &&& equal_numbers(self.uv.max_y, other.uv.max_y)
        &&& self.display_id == other.display_id
        &&& self.max_size == other.max_size
        &&& self.bitrate_mbps == other.bitrate_mbps
        &&& self.max_fps == other.max_fps
        &&& self.audio == other.audio
        &&& self.remotes == other.remotes
    }

    /// Whether every floating-point number is one.
    pub open spec fn has_numbers(self) -> bool {
        self.equals(self)
    }
}

impl Config {
    /// Whether two settings compare as equal, each floating-point number as such numbers do.
    pub fn equals(&self, other: &Config) -> (r: bool)
        ensures
            r == self@.equals(other@),
    {
        self.lens_correct == other.lens_correct && equal_floats(self.lens_k1, other.lens_k1)
            && equal_floats(self.lens_k2, other.lens_k2) && equal_floats(
            self.rotation_deg,
            other.rotation_deg,
        ) && equal_floats(self.uv.min_x, other.uv.min_x) && equal_floats(
            self.uv.min_y,
            other.uv.min_y,
        ) && equal_floats(self.uv.max_x, other.uv.max_x) && equal_floats(
            self.uv.max_y,
            other.uv.max_y,
        ) && self.display_id == other.display_id && self.max_size == other.max_size
            && self.bitrate_mbps == other.bitrate_mbps && self.max_fps == other.max_fps
            && self.audio == other.audio && text::same_list(&self.remotes, &other.remotes)
    }

    /// Whether two settings are the same to the bit.
    pub fn same(&self, other: &Config) -> (r: bool)
        ensures
            r == (self@ == other@),
    {
        self.lens_correct == other.lens_correct && self.lens_k1 == other.lens_k1 && self.lens_k2
            == other.lens_k2 && self.rotation_deg == other.rotation_deg && self.uv == other.uv
            && self.display_id == other.display_id && self.max_size == other.max_size
            && self.bitrate_mbps == other.bitrate_mbps && self.max_fps == other.max_fps
            && self.audio == other.audio && text::same_list(&self.remotes, &other.remotes)
    }
}

/// The keys of the file.
#[derive(Clone, Copy, Debug, PartialEq, Eq, Structural)]
pub enum Key {
    LensCorrect,
    LensK1,
    LensK2,
    RotationDeg,
    Uv,
    DisplayId,
    MaxSize,
    BitrateMbps,
    MaxFps,
    Audio,
    Remote,
}

impl Key {
    /// The key as it is written.
    pub open spec fn written(self) -> Seq<char> {
        match self {
            Key::LensCorrect => "lens_correct"@,
            Key::LensK1 => "lens_k1"@,
            Key::LensK2 => "lens_k2"@,
            Key::RotationDeg => "rotation_deg"@,
            Key::Uv => "uv"@,
            Key::DisplayId => "display_id"@,
            Key::MaxSize => "max_size"@,
            Key::BitrateMbps => "bitrate_mbps"@,
            Key::MaxFps => "max_fps"@,
            Key::Audio => "audio"@,
            Key::Remote => "remote"@,
        }
    }

    /// The key as it is written.
    pub fn name(&self) -> (r: &'static str)
        ensures
            r@ == self.written(),
    {
        match self {
            Key::LensCorrect => "lens_correct",
            Key::LensK1 => "lens_k1",
            Key::LensK2 => "lens_k2",
            Key::RotationDeg => "rotation_deg",
            Key::Uv => "uv",
            Key::DisplayId => "display_id",
            Key::MaxSize => "max_size",
            Key::BitrateMbps => "bitrate_mbps",
            Key::MaxFps => "max_fps",
            Key::Audio => "audio",
            Key::Remote => "remote",
        }
    }
}

/// The key that `s` writes, if it is one.
pub open spec fn key_of(s: Seq<char>) -> Option<Key> {
    if s == "lens_correct"@ {
        Some(Key::LensCorrect)
    } else if s == "lens_k1"@ {
        Some(Key::LensK1)
    } else if s == "lens_k2"@ {
        Some(Key::LensK2)
    } else if s == "rotation_deg"@ {
        Some(Key::RotationDeg)
    } else if s == "uv"@ {
        Some(Key::Uv)
    } else if s == "display_id"@ {
        Some(Key::DisplayId)
    } else if s == "max_size"@ {
        Some(Key::MaxSize)
    } else if s == "bitrate_mbps"@ {
        Some(Key::BitrateMbps)
    } else if s == "max_fps"@ {
        Some(Key::MaxFps)
    } else if s == "audio"@ {
        Some(Key::Audio)
    } else if s == "remote"@ {
        Some(Key::Remote)
    } else {
        None
    }
}

/// The key that `s` writes, if it is one.
fn find_key(s: &str) -> (r: Option<Key>)
    ensures
        r == key_of(s@),
{
    if text::same(s, "lens_correct") {
        Some(Key::LensCorrect)
    } else if text::same(s, "lens_k1") {
        Some(Key::LensK1)
    } else if text::same(s, "lens_k2") {
        Some(Key::LensK2)
    } else if text::same(s, "rotation_deg") {
        Some(Key::RotationDeg)
    } else if text::same(s, "uv") {
        Some(Key::Uv)
    } else if text::same(s, "display_id") {
        Some(Key::DisplayId)
    } else if text::same(s, "max_size") {
        Some(Key::MaxSize)
    } else if text::same(s, "bitrate_mbps") {
        Some(Key::BitrateMbps)
    } else if text::same(s, "max_fps") {
        Some(Key::MaxFps)
    } else if text::same(s, "audio") {
        Some(Key::Audio)
    } else if text::same(s, "remote") {
        Some(Key::Remote)
    } else {
        None
    }
}

/// What a line sets: the key and the value behind the first equals sign, without white space
/// around them.
pub open spec fn entry_of(line: Seq<char>) -> Option<(Key, Seq<char>)> {
    match text::split_once(line, '=') {
        Some((k, v)) => match key_of(text::trimmed(k)) {
            Some(key) => Some((key, text::trimmed(v))),
            None => None,
        },
        None => None,
    }
}

/// What a line sets.
fn read_entry<'a>(line: &'a str) -> (r: Option<(Key, &'a str)>)
    ensures
        match r {
            Some((k, v)) => entry_of(line@) == Some((k, v@)),
            None => entry_of(line@) is None,
        },
{
    match text::cut_at(line, '=') {
        Some((k, v)) => match find_key(text::trim(k)) {
            Some(key) => Some((key, text::trim(v))),
            None => None,
        },
        None => None,
    }
}

/// The texts in an entry that write floating-point numbers.
pub open spec fn float_texts_of(entry: Option<(Key, Seq<char>)>) -> Seq<Seq<char>> {
    match entry {
        Some((Key::LensK1, v)) | Some((Key::LensK2, v)) | Some((Key::RotationDeg, v)) => seq![v],
        Some((Key::Uv, v)) => text::split(v, ',').map_values(|s: Seq<char>| text::trimmed(s)),
        _ => seq![],
    }
}

/// The texts in a sequence of lines that write floating-point numbers, in order.
pub open spec fn all_float_texts(ls: Seq<Seq<char>>) -> Seq<Seq<char>>
    decreases ls.len(),
{
    if ls.len() == 0 {
        seq![]
    } else {
        all_float_texts(ls.drop_last()) + float_texts_of(entry_of(ls.last()))
    }
}

/// The texts in a file that write floating-point numbers, in order.
pub fn float_texts(file: &str) -> (r: Vec<String>)
    ensures
        text::views(r@) == all_float_texts(text::lines(file@)),
{
    let ls = text::split_lines(file);
    let ghost all = text::lines(file@);
    let mut out: Vec<String> = Vec::new();
    assert(text::views(out@) =~= all_float_texts(all.take(0)));
    let mut i: usize = 0;
    while i < ls.len()
        invariant
            i <= ls@.len(),
            ls@.len() == all.len(),
            forall|j: int| 0 <= j < ls@.len() ==> (#[trigger] ls@[j])@ == all[j],
            text::views(out@) == all_float_texts(all.take(i as int)),
        decreases ls@.len() - i,
    {
        let ghost before = text::views(out@);
        proof {
            assert(all.take(i + 1).drop_last() =~= all.take(i as int));
            assert(all.take(i + 1).last() == ls@[i as int]@);
        }
        match read_entry(ls[i]) {
            Some((Key::LensK1, v)) | Some((Key::LensK2, v)) | Some((Key::RotationDeg, v)) => {
                out.push(v.to_string());
                assert(text::views(out@) =~= before + seq![v@]);
            },
            Some((Key::Uv, v)) => {
                let parts = text::split_char(v, ',');
                let ghost texts = float_texts_of(Some((Key::Uv, v@)));
                let mut j: usize = 0;
                assert(text::views(out@) =~= before + texts.take(0));
                while j < parts.len()
                    invariant
                        j <= parts@.len(),
                        parts@.len() == text::split(v@, ',').len(),
                        forall|k: int|
                            0 <= k < parts@.len() ==> (#[trigger] parts@[k])@ == text::split(
                                v@,
                                ',',
                            )[k],
                        texts == float_texts_of(Some((Key::Uv, v@))),
                        text::views(out@) == before + texts.take(j as int),
                    decreases parts@.len() - j,
                {
                    let part = text::trim(parts[j]);
                    let ghost old_out = out@;
                    out.push(part.to_string());
                    proof {
                        assert(texts[j as int] == part@);
                        assert(text::views(out@) =~= text::views(old_out).push(part@));
                        assert(text::views(out@) =~= before + texts.take(j + 1));
                    }
                    j = j + 1;
                }
                assert(texts.take(j as int) =~= texts);
            },
            _ => {
                assert(before + seq![] =~= before);
            },
        }
        i = i + 1;
    }
    assert(all.take(all.len() as int) =~= all);
    out
}

/// The number at `i`, where it could be read, else `old`.
pub open spec fn float_or(floats: Seq<Option<u32>>, i: int, old: u32) -> u32 {
    if 0 <= i < floats.len() {
        match floats[i] {
            Some(b) => b,
            None => old,
        }
    } else {
        old
    }
}

/// The numbers from `from` up to `to` that could be read.
pub open spec fn known_floats(floats: Seq<Option<u32>>, from: int, to: int) -> Seq<u32>
    decreases to - from,
{
    if to <= from {
        seq![]
    } else {
        let head = known_floats(floats, from, to - 1);
        if 0 <= to - 1 < floats.len() {
            match floats[to - 1] {
                Some(b) => head.push(b),
                None => head,
            }
        } else {
            head
        }
    }
}

/// The number that a text writes, or `old`.
pub open spec fn number_or(v: Seq<char>, old: u32) -> u32 {
    match text::number(v) {
        Some(n) => n,
        None => old,
    }
}

/// Settings that are being read, and how many floating-point numbers they used up.
pub struct LoadView {
    pub config: ConfigView,
    pub used: int,
}

impl LoadView {
    /// The settings once an entry was applied. `floats` holds the numbers for
    /// [`all_float_texts`], where they could be read. What cannot be read changes nothing.
    pub open spec fn after(
        self,
        entry: Option<(Key, Seq<char>)>,
        floats: Seq<Option<u32>>,
    ) -> LoadView {
        let c = self.config;
        match entry {
            None => self,
            Some((Key::LensCorrect, v)) => LoadView {
                config: ConfigView { lens_correct: v == "true"@, ..c },
                ..self
            },
            Some((Key::LensK1, v)) => LoadView {
                config: ConfigView { lens_k1: float_or(floats, self.used, c.lens_k1), ..c },
                used: self.used + 1,
            },
            Some((Key::LensK2, v)) => LoadView {
                config: ConfigView { lens_k2: float_or(floats, self.used, c.lens_k2), ..c },
                used: self.used + 1,
            },
            Some((Key::RotationDeg, v)) => LoadView {
                config: ConfigView {
                    rotation_deg: float_or(floats, self.used, c.rotation_deg),
                    ..c
                },
                used: self.used + 1,
            },
            Some((Key::Uv, v)) => {
                let end = self.used + text::split(v, ',').len();
                let n = known_floats(floats, self.used, end);
                LoadView {
                    config: if n.len() == 4 {
                        ConfigView {
                            uv: Crop { min_x: n[0], min_y: n[1], max_x: n[2], max_y: n[3] },
                            ..c
                        }
                    } else {
                        c
                    },
                    used: end,
                }
            },
            Some((Key::DisplayId, v)) => LoadView {
                config: ConfigView { display_id: number_or(v, c.display_id), ..c },
                ..self
            },
            Some((Key::MaxSize, v)) => LoadView {
                config: ConfigView { max_size: number_or(v, c.max_size), ..c },
                ..self
            },
            Some((Key::BitrateMbps, v)) => LoadView {
                config: ConfigView { bitrate_mbps: number_or(v, c.bitrate_mbps), ..c },
                ..self
            },
            Some((Key::MaxFps, v)) => LoadView {
                config: ConfigView { max_fps: number_or(v, c.max_fps), ..c },
                ..self
            },
            Some((Key::Audio, v)) => LoadView {
                config: ConfigView { audio: v == "true"@, ..c },
                ..self
            },
            Some((Key::Remote, v)) => if v.len() == 0 || c.remotes.contains(v) {
                self
            } else {
                LoadView { config: ConfigView { remotes: c.remotes.push(v), ..c }, ..self }
            },
        }
    }
}

/// The settings that a sequence of lines gives, line by line.
pub open spec fn loaded(ls: Seq<Seq<char>>, floats: Seq<Option<u32>>) -> LoadView
    decreases ls.len(),
{
    if ls.len() == 0 {
        LoadView { config: ConfigView::default_view(), used: 0 }
    } else {
        loaded(ls.drop_last(), floats).after(entry_of(ls.last()), floats)
    }
}

/// The number at `i`, where it could be read, else `old`.
fn pick_float(floats: &Vec<Option<u32>>, i: usize, old: u32) -> (r: u32)
    ensures
        r == float_or(floats@, i as int, old),
{
    if i < floats.len() {
        match floats[i] {
            Some(b) => b,
            None => old,
        }
    } else {
        old
    }
}

/// The numbers from `from` up to `to` that could be read.
fn pick_known(floats: &Vec<Option<u32>>, from: usize, to: usize) -> (r: Vec<u32>)
    requires
        from <= to,
    ensures
        r@ == known_floats(floats@, from as int, to as int),
{
    let mut out: Vec<u32> = Vec::new();
    let mut i: usize = from;
    while i < to
        invariant
            from <= i <= to,
            out@ == known_floats(floats@, from as int, i as int),
        decreases to - i,
    {
        if i < floats.len() {
            if let Some(b) = floats[i] {
                out.push(b);
            }
        }
        i = i + 1;
    }
    out
}

/// The number that a text writes, or `old`.
fn pick_number(v: &str, old: u32) -> (r: u32)
    ensures
        r == number_or(v@, old),
{
    match text::parse_u32(v) {
        Some(n) => n,
        None => old,
    }
}

impl Config {
    /// Reads a settings file. `floats` holds the numbers that [`float_texts`] lists, where they
    /// could be read. What is missing or cannot be read keeps its default.
    pub fn load(file: &str, floats: &Vec<Option<u32>>) -> (r: Config)
        requires
            all_float_texts(text::lines(file@)).len() == floats@.len(),
        ensures
            r@ == loaded(text::lines(file@), floats@).config,
    {
        let ls = text::split_lines(file);
        let ghost all = text::lines(file@);
        assert(floats@.len() == floats.len());
        let mut c: Config = Config::default();
        let mut used: usize = 0;
        let mut i: usize = 0;
        assert(all.take(0) =~= seq![]);
        while i < ls.len()
            invariant
                i <= ls@.len(),
                ls@.len() == all.len(),
                forall|j: int| 0 <= j < ls@.len() ==> (#[trigger] ls@[j])@ == all[j],
                all_float_texts(all).len() == floats@.len(),
                floats@.len() <= usize::MAX,
                c@ == loaded(all.take(i as int), floats@).config,
                used == loaded(all.take(i as int), floats@).used,
                used == all_float_texts(all.take(i as int)).len(),
            decreases ls@.len() - i,
        {
            proof {
                assert(all.take(i + 1).drop_last() =~= all.take(i as int));
                assert(all.take(i + 1).last() == ls@[i as int]@);
                lemma_float_count(all, i + 1);
            }
            let entry = read_entry(ls[i]);
            let n: usize = c.apply(entry, floats, used);
            used = used + n;
            i = i + 1;
        }
        assert(all.take(all.len() as int) =~= all);
        c
    }

    /// Applies what a line sets. Gives the number of floating-point numbers that it used up.
    fn apply(
        &mut self,
        entry: Option<(Key, &str)>,
        floats: &Vec<Option<u32>>,
        used: usize,
    ) -> (n: usize)
        requires
            entry matches Some((k, v)) ==> used + float_texts_of(Some((k, v@))).len()
                <= floats@.len(),
        ensures
            ({
                let e = match entry {
                    Some((k, v)) => Some((k, v@)),
                    None => None,
                };
                let next = (LoadView { config: old(self)@, used: used as int }).after(e, floats@);
                &&& final(self)@ == next.config
                &&& used + n == next.used
                &&& n == float_texts_of(e).len()
            }),
    {
        assert(floats@.len() == floats.len());
        match entry {
            None => 0,
            Some((Key::LensCorrect, v)) => {
                self.lens_correct = text::same(v, "true");
                0
            },
            Some((Key::LensK1, _)) => {
                self.lens_k1 = pick_float(floats, used, self.lens_k1);
                1
            },
            Some((Key::LensK2, _)) => {
                self.lens_k2 = pick_float(floats, used, self.lens_k2);
                1
            },
            Some((Key::RotationDeg, _)) => {
                self.rotation_deg = pick_float(floats, used, self.rotation_deg);
                1
            },
            Some((Key::Uv, v)) => {
                let parts = text::split_char(v, ',');
                let n: usize = parts.len();
                let known = pick_known(floats, used, used + n);
                if known.len() == 4 {
                    self.uv = Crop {
                        min_x: known[0],
                        min_y: known[1],
                        max_x: known[2],
                        max_y: known[3],
                    };
                }
                n
            },
            Some((Key::DisplayId, v)) => {
                self.display_id = pick_number(v, self.display_id);
                0
            },
            Some((Key::MaxSize, v)) => {
                self.max_size = pick_number(v, self.max_size);
                0
            },
            Some((Key::BitrateMbps, v)) => {
                self.bitrate_mbps = pick_number(v, self.bitrate_mbps);
                0
            },
            Some((Key::MaxFps, v)) => {
                self.max_fps = pick_number(v, self.max_fps);
                0
            },
            Some((Key::Audio, v)) => {
                self.audio = text::same(v, "true");
                0
            },
            Some((Key::Remote, v)) => {
                if !v.is_empty() && !text::any_same(&self.remotes, v) {
                    let ghost before = self.remotes@;
                    self.remotes.push(v.to_string());
                    assert(text::views(self.remotes@) =~= text::views(before).push(v@));
                }
                0
            },
        }
    }
}

/// A part of the lines needs no more floating-point numbers than all of them.
proof fn lemma_float_count(ls: Seq<Seq<char>>, n: int)
    requires
        0 <= n <= ls.len(),
    ensures
        all_float_texts(ls.take(n)).len() <= all_float_texts(ls).len(),
    decreases ls.len(),
{
    if n == ls.len() {
        assert(ls.take(n) =~= ls);
    } else {
        lemma_float_count(ls.drop_last(), n);
        assert(ls.drop_last().take(n) =~= ls.take(n));
    }
}

/// The floating-point settings as the file writes them.
#[derive(Debug)]
pub struct FloatTexts {
    pub lens_k1: String,
    pub lens_k2: String,
    pub rotation_deg: String,
    pub min_x: String,
    pub min_y: String,
    pub max_x: String,
    pub max_y: String,
}

/// What [`FloatTexts`] say.
pub struct FloatTextsView {
    pub lens_k1: Seq<char>,
    pub lens_k2: Seq<char>,
    pub rotation_deg: Seq<char>,
    pub min_x: Seq<char>,
    pub min_y: Seq<char>,
    pub max_x: Seq<char>,
    pub max_y: Seq<char>,
}

impl View for FloatTexts {
    type V = FloatTextsView;

    open spec fn view(&self) -> FloatTextsView {
        FloatTextsView {
            lens_k1: self.lens_k1@,
            lens_k2: self.lens_k2@,
            rotation_deg: self.rotation_deg@,
            min_x: self.min_x@,
            min_y: self.min_y@,
            max_x: self.max_x@,
            max_y: self.max_y@,
        }
    }
}

impl FloatTextsView {
    /// The corners of the crop, with commas between them.
    pub open spec fn uv(self) -> Seq<char> {
        self.min_x + seq![','] + (self.min_y + seq![','] + (self.max_x + seq![','] + self.max_y))
    }

    /// All of them, in the order of the file.
    pub open spec fn all(self) -> Seq<Seq<char>> {
        seq![
            self.lens_k1,
            self.lens_k2,
            self.rotation_deg,
            self.min_x,
            self.min_y,
            self.max_x,
            self.max_y,
        ]
    }
}

/// A line of the file.
pub open spec fn entry_line(key: Key, value: Seq<char>) -> Seq<char> {
    key.written() + seq!['='] + value
}

impl ConfigView {
    /// The lines of the file up to the addresses.
    pub open spec fn fixed_lines(self, t: FloatTextsView) -> Seq<Seq<char>> {
        seq![
            HEADING@,
            entry_line(Key::LensCorrect, text::truth(self.lens_correct)),
            entry_line(Key::LensK1, t.lens_k1),
            entry_line(Key::LensK2, t.lens_k2),
            entry_line(Key::RotationDeg, t.rotation_deg),
            entry_line(Key::Uv, t.uv()),
            entry_line(Key::DisplayId, text::decimal(self.display_id as nat)),
            entry_line(Key::MaxSize, text::decimal(self.max_size as nat)),
            entry_line(Key::BitrateMbps, text::decimal(self.bitrate_mbps as nat)),
            entry_line(Key::MaxFps, text::decimal(self.max_fps as nat)),
            entry_line(Key::Audio, text::truth(self.audio)),
        ]
    }

    /// The lines of the file.
    pub open spec fn saved_lines(self, t: FloatTextsView) -> Seq<Seq<char>> {
        self.fixed_lines(t) + self.remotes.map_values(|r: Seq<char>| entry_line(Key::Remote, r))
    }
}

/// Adds a line to the file.
fn push_line(out: &mut String, lines: Ghost<Seq<Seq<char>>>, key: Key, value: &str) -> (r: Ghost<
    Seq<Seq<char>>,
>)
    requires
        old(out)@ == text::unlines(lines@),
    ensures
        r@ == lines@.push(entry_line(key, value@)),
        final(out)@ == text::unlines(r@),
{
    proof {
        reveal_strlit("=");
        reveal_strlit("\n");
    }
    out.append(key.name());
    out.append("=");
    out.append(value);
    out.append("\n");
    proof {
        let line = entry_line(key, value@);
        assert(lines@.push(line).drop_last() =~= lines@);
        assert(out@ =~= text::unlines(lines@) + line + seq!['\n']);
    }
    Ghost(lines@.push(entry_line(key, value@)))
}

impl Config {
    /// The settings file for these settings.
    pub fn save(&self, t: &FloatTexts) -> (r: String)
        ensures
            r@ == text::unlines(self@.saved_lines(t@)),
    {
        let mut out = HEADING.to_string();
        out.append("\n");
        let ghost first = seq![HEADING@];
        proof {
            reveal_strlit("\n");
            reveal_strlit(",");
            assert(text::unlines(first.drop_last()) =~= seq![]);
            assert(out@ =~= text::unlines(first));
        }
        let mut uv = t.min_x.clone();
        uv.append(",");
        uv.append(t.min_y.as_str());
        uv.append(",");
        uv.append(t.max_x.as_str());
        uv.append(",");
        uv.append(t.max_y.as_str());
        assert(uv@ =~= t@.uv());
        let l0: Ghost<Seq<Seq<char>>> = Ghost(first);
        let l1 = push_line(&mut out, l0, Key::LensCorrect, text::truth_str(self.lens_correct));
        let l2 = push_line(&mut out, l1, Key::LensK1, t.lens_k1.as_str());
        let l3 = push_line(&mut out, l2, Key::LensK2, t.lens_k2.as_str());
        let l4 = push_line(&mut out, l3, Key::RotationDeg, t.rotation_deg.as_str());
        let l5 = push_line(&mut out, l4, Key::Uv, uv.as_str());
        let display_id = text::dec(self.display_id as u64);
        let max_size = text::dec(self.max_size as u64);
        let bitrate_mbps = text::dec(self.bitrate_mbps as u64);
        let max_fps = text::dec(self.max_fps as u64);
        let l6 = push_line(&mut out, l5, Key::DisplayId, display_id.as_str());
        let l7 = push_line(&mut out, l6, Key::MaxSize, max_size.as_str());
        let l8 = push_line(&mut out, l7, Key::BitrateMbps, bitrate_mbps.as_str());
        let l9 = push_line(&mut out, l8, Key::MaxFps, max_fps.as_str());
        let l10 = push_line(&mut out, l9, Key::Audio, text::truth_str(self.audio));
        let ghost fixed = self@.fixed_lines(t@);
        let ghost all = self@.saved_lines(t@);
        proof {
            assert(l10@ =~= fixed);
            assert(all.take(fixed.len() as int) =~= fixed);
        }
        let mut i: usize = 0;
        while i < self.remotes.len()
            invariant
                i <= self.remotes@.len(),
                fixed == self@.fixed_lines(t@),
                all == self@.saved_lines(t@),
                fixed.len() == 11,
                out@ == text::unlines(all.take(fixed.len() + i)),
            decreases self.remotes@.len() - i,
        {
            let remote = self.remotes[i].as_str();
            let l = push_line(
                &mut out,
                Ghost(all.take(fixed.len() + i)),
                Key::Remote,
                remote,
            );
            proof {
                assert(all[fixed.len() + i] == entry_line(Key::Remote, remote@));
                assert(l@ =~= all.take(fixed.len() + i + 1));
            }
            i = i + 1;
        }
        assert(all.take(fixed.len() + i) =~= all);
        out
    }
}

/// The keys are told apart, and can stand in front of an equals sign.
proof fn lemma_key(key: Key)
    ensures
        key_of(key.written()) == Some(key),
        !key.written().contains('='),
        !key.written().contains('\n'),
        key.written().len() > 0,
        text::is_trimmed(key.written()),
{
    reveal_strlit("lens_correct");
    reveal_strlit("lens_k1");
    reveal_strlit("lens_k2");
    reveal_strlit("rotation_deg");
    reveal_strlit("uv");
    reveal_strlit("display_id");
    reveal_strlit("max_size");
    reveal_strlit("bitrate_mbps");
    reveal_strlit("max_fps");
    reveal_strlit("audio");
    reveal_strlit("remote");
    // Where two keys are equally long, one character tells them apart.
    assert("lens_correct"@.len() == 12);
    assert("lens_k1"@.len() == 7);
    assert("lens_k2"@.len() == 7);
    assert("rotation_deg"@.len() == 12);
    assert("uv"@.len() == 2);
    assert("display_id"@.len() == 10);
    assert("max_size"@.len() == 8);
    assert("bitrate_mbps"@.len() == 12);
    assert("max_fps"@.len() == 7);
    assert("audio"@.len() == 5);
    assert("remote"@.len() == 6);
    assert("lens_correct"@[0] != "rotation_deg"@[0]);
    assert("lens_correct"@[0] != "bitrate_mbps"@[0]);
    assert("lens_k1"@[6] != "lens_k2"@[6]);
    assert("lens_k1"@[0] != "max_fps"@[0]);
    assert("lens_k2"@[0] != "max_fps"@[0]);
    assert("rotation_deg"@[0] != "bitrate_mbps"@[0]);
}

/// Whether `s` can be the value of an entry: it stands on one line, without white space around
/// it.
pub open spec fn is_value(s: Seq<char>) -> bool {
    s.len() > 0 && text::is_trimmed(s) && !s.contains('\n')
}

/// Whether `s` can be one of several numbers in an entry.
pub open spec fn is_part(s: Seq<char>) -> bool {
    is_value(s) && !s.contains(',')
}

impl FloatTextsView {
    /// Whether the texts can stand in the file.
    pub open spec fn plain(self) -> bool {
        &&& is_value(self.lens_k1)
        &&& is_value(self.lens_k2)
        &&& is_value(self.rotation_deg)
        &&& is_part(self.min_x)
        &&& is_part(self.min_y)
        &&& is_part(self.max_x)
        &&& is_part(self.max_y)
    }
}

impl ConfigView {
    /// The floating-point numbers, in the order of the file.
    pub open spec fn floats(self) -> Seq<Option<u32>> {
        seq![
            Some(self.lens_k1),
            Some(self.lens_k2),
            Some(self.rotation_deg),
            Some(self.uv.min_x),
            Some(self.uv.min_y),
            Some(self.uv.max_x),
            Some(self.uv.max_y),
        ]
    }

    /// Whether the addresses can stand in the file, each once.
    pub open spec fn plain_remotes(self) -> bool {
        &&& forall|i: int| 0 <= i < self.remotes.len() ==> is_value(#[trigger] self.remotes[i])
        &&& self.remotes.no_duplicates()
    }
}

/// A character that two texts do not hold is not in both together.
proof fn lemma_contains_neither(a: Seq<char>, b: Seq<char>, c: char)
    requires
        !a.contains(c),
        !b.contains(c),
    ensures
        !(a + b).contains(c),
{
    if (a + b).contains(c) {
        let i = choose|i: int| 0 <= i < (a + b).len() && (a + b)[i] == c;
        if i < a.len() {
            assert(a[i] == c);
        } else {
            assert(b[i - a.len()] == c);
        }
    }
}

/// An entry is found again in its line.
proof fn lemma_entry(key: Key, v: Seq<char>)
    requires
        is_value(v),
    ensures
        entry_of(entry_line(key, v)) == Some((key, v)),
        text::is_line(entry_line(key, v)),
{
    let k = key.written();
    lemma_key(key);
    text::lemma_split_once(k, '=', v);
    text::lemma_trim_padding(seq![], k, seq![]);
    text::lemma_trim_padding(seq![], v, seq![]);
    assert(!seq!['='].contains('\n'));
    lemma_contains_neither(k, seq!['='], '\n');
    lemma_contains_neither(k + seq!['='], v, '\n');
    assert(entry_line(key, v).last() == v.last());
}

/// A number can be a value.
proof fn lemma_number_value(n: u32)
    ensures
        is_value(text::decimal(n as nat)),
        text::number(text::decimal(n as nat)) == Some(n),
{
    let d = text::decimal(n as nat);
    text::lemma_decimal(n as nat);
    text::lemma_decimal_has_no(n as nat, '\n');
    text::law_decimal_is_read_back(n);
    assert(text::is_digit(d[0]));
    assert(text::is_digit(d[d.len() - 1]));
}

/// A truth value can be a value.
proof fn lemma_truth_value(b: bool)
    ensures
        is_value(text::truth(b)),
        (text::truth(b) == "true"@) == b,
{
    reveal_strlit("true");
    reveal_strlit("false");
    assert("true"@.len() == 4);
    assert("false"@.len() == 5);
}

/// The crop can be a value, and its parts are found again.
proof fn lemma_uv_value(t: FloatTextsView)
    requires
        t.plain(),
    ensures
        is_value(t.uv()),
        text::split(t.uv(), ',') == seq![t.min_x, t.min_y, t.max_x, t.max_y],
        float_texts_of(Some((Key::Uv, t.uv()))) == seq![t.min_x, t.min_y, t.max_x, t.max_y],
{
    let c = seq![','];
    let t3 = t.max_x + c + t.max_y;
    let t2 = t.min_y + c + t3;
    assert(!c.contains('\n'));
    lemma_contains_neither(t.max_x, c, '\n');
    lemma_contains_neither(t.max_x + c, t.max_y, '\n');
    lemma_contains_neither(t.min_y, c, '\n');
    lemma_contains_neither(t.min_y + c, t3, '\n');
    lemma_contains_neither(t.min_x, c, '\n');
    lemma_contains_neither(t.min_x + c, t2, '\n');
    assert(t.uv()[0] == t.min_x[0]);
    assert(t.uv().last() == t.max_y.last());
    text::lemma_split_step(t.min_x, ',', t2);
    text::lemma_split_step(t.min_y, ',', t3);
    text::lemma_split_step(t.max_x, ',', t.max_y);
    text::lemma_split_step(t.max_y, ',', t.max_y);
    let parts = seq![t.min_x, t.min_y, t.max_x, t.max_y];
    assert(seq![t.min_x] + (seq![t.min_y] + (seq![t.max_x] + seq![t.max_y])) =~= parts);
    text::lemma_trim_padding(seq![], t.min_x, seq![]);
    text::lemma_trim_padding(seq![], t.min_y, seq![]);
    text::lemma_trim_padding(seq![], t.max_x, seq![]);
    text::lemma_trim_padding(seq![], t.max_y, seq![]);
    assert(float_texts_of(Some((Key::Uv, t.uv()))) =~= parts);
}

/// The heading sets nothing.
proof fn lemma_heading()
    ensures
        entry_of(HEADING@) is None,
        text::is_line(HEADING@),
{
    reveal_strlit("# quest-scrcpy settings (auto-saved)");
    let h = HEADING@;
    assert(h.len() == 36);
    assert(h.last() == ')');
    let class = text::CharClass::Except('=' as u32);
    assert forall|i: int| 0 <= i < h.len() implies class.has(#[trigger] h[i]) by {}
    text::lemma_leading_is(h, class, h.len());
}

/// The settings once one more line was read.
proof fn lemma_loaded_step(ls: Seq<Seq<char>>, line: Seq<char>, floats: Seq<Option<u32>>)
    ensures
        loaded(ls.push(line), floats) == loaded(ls, floats).after(entry_of(line), floats),
        all_float_texts(ls.push(line)) == all_float_texts(ls) + float_texts_of(entry_of(line)),
{
    assert(ls.push(line).drop_last() =~= ls);
}

/// What one more line adds.
proof fn lemma_line(
    ls: Seq<Seq<char>>,
    s: LoadView,
    texts: Seq<Seq<char>>,
    key: Key,
    v: Seq<char>,
    floats: Seq<Option<u32>>,
)
    requires
        is_value(v),
        loaded(ls, floats) == s,
        all_float_texts(ls) == texts,
        forall|i: int| 0 <= i < ls.len() ==> text::is_line(#[trigger] ls[i]),
    ensures
        ({
            let more = ls.push(entry_line(key, v));
            &&& loaded(more, floats) == s.after(Some((key, v)), floats)
            &&& all_float_texts(more) == texts + float_texts_of(Some((key, v)))
            &&& forall|i: int| 0 <= i < more.len() ==> text::is_line(#[trigger] more[i])
        }),
{
    lemma_entry(key, v);
    lemma_loaded_step(ls, entry_line(key, v), floats);
}

/// The settings once the heading and the first `n` entries were read.
spec fn partly(c: ConfigView, n: int) -> ConfigView {
    let d = ConfigView::default_view();
    ConfigView {
        lens_correct: if n >= 1 {
            c.lens_correct
        } else {
            d.lens_correct
        },
        lens_k1: if n >= 2 {
            c.lens_k1
        } else {
            d.lens_k1
        },
        lens_k2: if n >= 3 {
            c.lens_k2
        } else {
            d.lens_k2
        },
        rotation_deg: if n >= 4 {
            c.rotation_deg
        } else {
            d.rotation_deg
        },
        uv: if n >= 5 {
            c.uv
        } else {
            d.uv
        },
        ..d
    }
}

/// The heading and the entries with floating-point numbers give those back.
proof fn lemma_float_lines(c: ConfigView, t: FloatTextsView)
    requires
        t.plain(),
    ensures
        ({
            let ls = c.fixed_lines(t).take(6);
            &&& loaded(ls, c.floats()) == (LoadView { config: partly(c, 5), used: 7 })
            &&& all_float_texts(ls) == t.all()
            &&& forall|i: int| 0 <= i < ls.len() ==> text::is_line(#[trigger] ls[i])
        }),
{
    let f = c.floats();
    let none: Seq<Seq<char>> = seq![];
    let l0 = none.push(HEADING@);
    lemma_heading();
    lemma_loaded_step(none, HEADING@, f);
    let s0 = LoadView { config: partly(c, 0), used: 0 };
    assert(loaded(l0, f) == s0);
    assert(all_float_texts(l0) =~= none);
    lemma_truth_value(c.lens_correct);
    lemma_uv_value(t);
    lemma_four_floats(f, 3);
    lemma_line(l0, s0, none, Key::LensCorrect, text::truth(c.lens_correct), f);
    let l1 = l0.push(entry_line(Key::LensCorrect, text::truth(c.lens_correct)));
    let s1 = LoadView { config: partly(c, 1), used: 0 };
    assert(loaded(l1, f) == s1);
    assert(all_float_texts(l1) =~= none);
    lemma_line(l1, s1, none, Key::LensK1, t.lens_k1, f);
    let l2 = l1.push(entry_line(Key::LensK1, t.lens_k1));
    let s2 = LoadView { config: partly(c, 2), used: 1 };
    assert(loaded(l2, f) == s2);
    assert(all_float_texts(l2) =~= t.all().take(1));
    lemma_line(l2, s2, t.all().take(1), Key::LensK2, t.lens_k2, f);
    let l3 = l2.push(entry_line(Key::LensK2, t.lens_k2));
    let s3 = LoadView { config: partly(c, 3), used: 2 };
    assert(loaded(l3, f) == s3);
    assert(all_float_texts(l3) =~= t.all().take(2));
    lemma_line(l3, s3, t.all().take(2), Key::RotationDeg, t.rotation_deg, f);
    let l4 = l3.push(entry_line(Key::RotationDeg, t.rotation_deg));
    let s4 = LoadView { config: partly(c, 4), used: 3 };
    assert(loaded(l4, f) == s4);
    assert(all_float_texts(l4) =~= t.all().take(3));
    lemma_line(l4, s4, t.all().take(3), Key::Uv, t.uv(), f);
    let l5 = l4.push(entry_line(Key::Uv, t.uv()));
    assert(loaded(l5, f) == (LoadView { config: partly(c, 5), used: 7 }));
    assert(all_float_texts(l5) =~= t.all());
    assert(c.fixed_lines(t).take(6) =~= l5);
}

/// The lines up to the addresses give back everything but the addresses.
proof fn lemma_fixed_lines(c: ConfigView, t: FloatTextsView)
    requires
        t.plain(),
    ensures
        loaded(c.fixed_lines(t), c.floats()) == (LoadView {
            config: ConfigView { remotes: seq![], ..c },
            used: 7,
        }),
        all_float_texts(c.fixed_lines(t)) == t.all(),
        forall|i: int|
            0 <= i < c.fixed_lines(t).len() ==> text::is_line(#[trigger] c.fixed_lines(t)[i]),
{
    let f = c.floats();
    let l5 = c.fixed_lines(t).take(6);
    let all = t.all();
    lemma_float_lines(c, t);
    lemma_number_value(c.display_id);
    lemma_number_value(c.max_size);
    lemma_number_value(c.bitrate_mbps);
    lemma_number_value(c.max_fps);
    lemma_truth_value(c.audio);
    assert(all + seq![] =~= all);
    let s5 = LoadView { config: partly(c, 5), used: 7 };
    let display_id = text::decimal(c.display_id as nat);
    let max_size = text::decimal(c.max_size as nat);
    let bitrate_mbps = text::decimal(c.bitrate_mbps as nat);
    let max_fps = text::decimal(c.max_fps as nat);
    lemma_line(l5, s5, all, Key::DisplayId, display_id, f);
    let l6 = l5.push(entry_line(Key::DisplayId, display_id));
    let s6 = LoadView { config: ConfigView { display_id: c.display_id, ..s5.config }, used: 7 };
    lemma_line(l6, s6, all, Key::MaxSize, max_size, f);
    let l7 = l6.push(entry_line(Key::MaxSize, max_size));
    let s7 = LoadView { config: ConfigView { max_size: c.max_size, ..s6.config }, used: 7 };
    lemma_line(l7, s7, all, Key::BitrateMbps, bitrate_mbps, f);
    let l8 = l7.push(entry_line(Key::BitrateMbps, bitrate_mbps));
    let s8 = LoadView { config: ConfigView { bitrate_mbps: c.bitrate_mbps, ..s7.config }, used: 7 };
    lemma_line(l8, s8, all, Key::MaxFps, max_fps, f);
    let l9 = l8.push(entry_line(Key::MaxFps, max_fps));
    let s9 = LoadView { config: ConfigView { max_fps: c.max_fps, ..s8.config }, used: 7 };
    lemma_line(l9, s9, all, Key::Audio, text::truth(c.audio), f);
    let l10 = l9.push(entry_line(Key::Audio, text::truth(c.audio)));
    assert(l10 =~= c.fixed_lines(t));
    assert((ConfigView { audio: c.audio, ..s9.config }) == ConfigView { remotes: seq![], ..c });
}

/// Four numbers that could be read are found.
proof fn lemma_four_floats(f: Seq<Option<u32>>, from: int)
    requires
        0 <= from,
        from + 4 <= f.len(),
        f[from] is Some,
        f[from + 1] is Some,
        f[from + 2] is Some,
        f[from + 3] is Some,
    ensures
        known_floats(f, from, from + 4) == seq![
            f[from]->0,
            f[from + 1]->0,
            f[from + 2]->0,
            f[from + 3]->0,
        ],
{
    reveal_with_fuel(known_floats, 5);
    assert(known_floats(f, from, from + 4) =~= seq![
        f[from]->0,
        f[from + 1]->0,
        f[from + 2]->0,
        f[from + 3]->0,
    ]);
}

/// Settings that were saved are loaded again, whatever they are: where `read` reads each
/// floating-point number as what was written, every setting comes back.
pub proof fn law_saved_settings_are_loaded(
    c: ConfigView,
    t: FloatTextsView,
    read: spec_fn(Seq<char>) -> Option<u32>,
)
    requires
        t.plain(),
        t.all().map_values(read) == c.floats(),
        c.plain_remotes(),
    ensures
        ({
            let ls = text::lines(text::unlines(c.saved_lines(t)));
            &&& all_float_texts(ls) == t.all()
            &&& loaded(ls, all_float_texts(ls).map_values(read)).config == c
        }),
{
    lemma_fixed_lines(c, t);
    lemma_remote_lines(c, t, c.remotes.len());
    let all = c.saved_lines(t);
    assert(all.take(11int + c.remotes.len()) =~= all);
    assert(c.remotes.take(c.remotes.len() as int) =~= c.remotes);
    assert(ConfigView { remotes: c.remotes, ..c } == c);
    text::law_lines_are_found(all);
}

/// Whatever a settings file holds, the addresses that it gives can be saved and loaded again: each
/// can stand in a file, and none comes twice.
pub proof fn law_loaded_addresses_can_be_saved(file: Seq<char>, floats: Seq<Option<u32>>)
    ensures
        loaded(text::lines(file), floats).config.plain_remotes(),
{
    text::lemma_lines_have_no_feed(file);
    lemma_loaded_remotes(text::lines(file), floats);
}

/// The addresses that lines give can stand in a file, each once.
proof fn lemma_loaded_remotes(ls: Seq<Seq<char>>, floats: Seq<Option<u32>>)
    requires
        forall|i: int| 0 <= i < ls.len() ==> !(#[trigger] ls[i]).contains('\n'),
    ensures
        loaded(ls, floats).config.plain_remotes(),
    decreases ls.len(),
{
    if ls.len() > 0 {
        let head = ls.drop_last();
        let line = ls.last();
        assert forall|i: int| 0 <= i < head.len() implies !(#[trigger] head[i]).contains('\n') by {
            assert(head[i] == ls[i]);
        }
        lemma_loaded_remotes(head, floats);
        assert(!ls[ls.len() - 1].contains('\n'));
        let before = loaded(head, floats).config.remotes;
        let behind = loaded(ls, floats).config.remotes;
        if behind != before {
            let (k, v) = text::split_once(line, '=')->0;
            let n = text::leading(line, text::CharClass::Except('=' as u32));
            text::lemma_leading_bound(line, text::CharClass::Except('=' as u32));
            assert(!v.contains('\n')) by {
                if v.contains('\n') {
                    let i = choose|i: int| 0 <= i < v.len() && v[i] == '\n';
                    assert(line[n + 1 + i] == '\n');
                }
            }
            text::lemma_trimmed_has_no(v, '\n');
            text::lemma_trimmed_is_trimmed(v);
            assert(behind == before.push(text::trimmed(v)));
            assert forall|i: int| 0 <= i < behind.len() implies is_value(#[trigger] behind[i]) by {
                if i < before.len() {
                    assert(behind[i] == before[i]);
                }
            }
            assert forall|i: int, j: int|
                0 <= i < behind.len() && 0 <= j < behind.len() && i != j implies behind[i]
                != behind[j] by {
                if i < before.len() && j < before.len() {
                    assert(before[i] != before[j]);
                } else if i < before.len() {
                    assert(before.contains(before[i]));
                } else {
                    assert(before.contains(before[j]));
                }
            }
        }
    }
}

/// The first `n` addresses are found again.
proof fn lemma_remote_lines(c: ConfigView, t: FloatTextsView, n: nat)
    requires
        t.plain(),
        c.plain_remotes(),
        n <= c.remotes.len(),
    ensures
        loaded(c.saved_lines(t).take(11int + n), c.floats()) == (LoadView {
            config: ConfigView { remotes: c.remotes.take(n as int), ..c },
            used: 7,
        }),
        all_float_texts(c.saved_lines(t).take(11int + n)) == t.all(),
        forall|i: int|
            0 <= i < 11int + n ==> text::is_line(#[trigger] c.saved_lines(t)[i]),
    decreases n,
{
    let all = c.saved_lines(t);
    let fixed = c.fixed_lines(t);
    lemma_fixed_lines(c, t);
    assert(fixed.len() == 11);
    if n == 0 {
        assert(all.take(11) =~= fixed);
        assert(c.remotes.take(0) =~= seq![]);
        assert forall|i: int| 0 <= i < 11 implies text::is_line(#[trigger] all[i]) by {
            assert(all[i] == fixed[i]);
        }
    } else {
        let m = (n - 1) as nat;
        lemma_remote_lines(c, t, m);
        let r = c.remotes[m as int];
        assert(all[11int + m] == entry_line(Key::Remote, r));
        assert(all.take(11int + n) =~= all.take(11int + m).push(entry_line(Key::Remote, r)));
        lemma_entry(Key::Remote, r);
        lemma_loaded_step(all.take(11int + m), entry_line(Key::Remote, r), c.floats());
        let before = c.remotes.take(m as int);
        assert(!before.contains(r)) by {
            if before.contains(r) {
                let i = choose|i: int| 0 <= i < before.len() && before[i] == r;
                assert(c.remotes[i] == c.remotes[m as int]);
            }
        }
        assert(before.push(r) =~= c.remotes.take(n as int));
        assert(t.all() + seq![] =~= t.all());
    }
}

/// A line is read whatever white space stands around its key and its value: it sets the value that
/// stands behind the first equals sign.
pub proof fn law_line_is_read_with_white_space(
    key: Key,
    before: Seq<char>,
    behind: Seq<char>,
    lead: Seq<char>,
    v: Seq<char>,
    tail: Seq<char>,
)
    requires
        text::is_blank(before),
        text::is_blank(behind),
        text::is_blank(lead),
        text::is_blank(tail),
        text::is_trimmed(v),
    ensures
        entry_of(before + key.written() + behind + seq!['='] + (lead + v + tail)) == Some((key, v)),
{
    let k = before + key.written() + behind;
    lemma_key(key);
    assert(!before.contains('=')) by {
        if before.contains('=') {
            let i = choose|i: int| 0 <= i < before.len() && before[i] == '=';
            assert(text::is_space(before[i]));
        }
    }
    assert(!behind.contains('=')) by {
        if behind.contains('=') {
            let i = choose|i: int| 0 <= i < behind.len() && behind[i] == '=';
            assert(text::is_space(behind[i]));
        }
    }
    lemma_contains_neither(before, key.written(), '=');
    lemma_contains_neither(before + key.written(), behind, '=');
    text::lemma_split_once(k, '=', lead + v + tail);
    text::lemma_trim_padding(before, key.written(), behind);
    if v.len() > 0 {
        text::lemma_trim_padding(lead, v, tail);
    } else {
        let gap = lead + v + tail;
        assert forall|i: int| 0 <= i < gap.len() implies text::is_space(#[trigger] gap[i]) by {
            if i < lead.len() {
                assert(gap[i] == lead[i]);
            } else {
                assert(gap[i] == tail[i - lead.len()]);
            }
        }
        text::lemma_trim_blank(gap);
        assert(v =~= seq![]);
    }
}

/// A line without an equals sign, or with anything but one of the keys in front of it, changes
/// nothing, wherever it stands.
pub proof fn law_other_lines_change_nothing(
    ls: Seq<Seq<char>>,
    line: Seq<char>,
    floats: Seq<Option<u32>>,
)
    requires
        match text::split_once(line, '=') {
            Some((k, _)) => forall|key: Key| text::trimmed(k) != #[trigger] key.written(),
            None => true,
        },
    ensures
        loaded(ls.push(line), floats) == loaded(ls, floats),
        all_float_texts(ls.push(line)) == all_float_texts(ls),
{
    lemma_loaded_step(ls, line, floats);
    if let Some((k, v)) = text::split_once(line, '=') {
        let t = text::trimmed(k);
        assert(t != Key::LensCorrect.written() && t != Key::LensK1.written() && t
            != Key::LensK2.written() && t != Key::RotationDeg.written() && t != Key::Uv.written()
            && t != Key::DisplayId.written() && t != Key::MaxSize.written() && t
            != Key::BitrateMbps.written() && t != Key::MaxFps.written() && t != Key::Audio.written()
            && t != Key::Remote.written());
    }
    assert(all_float_texts(ls) + seq![] =~= all_float_texts(ls));
}

/// The numbers that could be read, in order.
proof fn lemma_known(floats: Seq<Option<u32>>, from: int, to: int)
    requires
        0 <= from <= to <= floats.len(),
    ensures
        known_floats(floats, from, to) == floats.subrange(from, to).filter_map(
            |f: Option<u32>| f,
        ),
    decreases to - from,
{
    let part = floats.subrange(from, to);
    if from < to {
        lemma_known(floats, from, to - 1);
        assert(part.drop_last() =~= floats.subrange(from, to - 1));
        assert(part.last() == floats[to - 1]);
        let head = floats.subrange(from, to - 1).filter_map(|f: Option<u32>| f);
        if let Some(b) = floats[to - 1] {
            assert(head.push(b) =~= head + seq![b]);
        }
    } else {
        assert(part =~= seq![]);
    }
}

/// An entry changes its own setting alone: a whole number to what is written if it is one, a
/// switch to whether `true` is written, a floating-point number and the corners of the crop to
/// what could be read. An address is added behind the others, once.
pub proof fn law_entry_changes_its_own_setting(
    s: LoadView,
    key: Key,
    v: Seq<char>,
    floats: Seq<Option<u32>>,
)
    requires
        0 <= s.used,
        s.used + float_texts_of(Some((key, v))).len() <= floats.len(),
    ensures
        ({
            let (c, r) = (s.config, s.after(Some((key, v)), floats));
            let n = r.config;
            &&& r.used == s.used + float_texts_of(Some((key, v))).len()
            &&& key != Key::LensCorrect ==> n.lens_correct == c.lens_correct
            &&& key == Key::LensCorrect ==> (n.lens_correct <==> v == "true"@)
            &&& key != Key::LensK1 ==> n.lens_k1 == c.lens_k1
            &&& key == Key::LensK1 ==> (floats[s.used] matches Some(f) ==> n.lens_k1 == f) && (
            floats[s.used] is None ==> n.lens_k1 == c.lens_k1)
            &&& key != Key::LensK2 ==> n.lens_k2 == c.lens_k2
            &&& key == Key::LensK2 ==> (floats[s.used] matches Some(f) ==> n.lens_k2 == f) && (
            floats[s.used] is None ==> n.lens_k2 == c.lens_k2)
            &&& key != Key::RotationDeg ==> n.rotation_deg == c.rotation_deg
            &&& key == Key::RotationDeg ==> (floats[s.used] matches Some(f) ==> n.rotation_deg == f)
                && (floats[s.used] is None ==> n.rotation_deg == c.rotation_deg)
            &&& key != Key::Uv ==> n.uv == c.uv
            &&& key == Key::Uv ==> ({
                let known = floats.subrange(s.used, r.used).filter_map(|f: Option<u32>| f);
                &&& known.len() == 4 ==> known == seq![
                    n.uv.min_x,
                    n.uv.min_y,
                    n.uv.max_x,
                    n.uv.max_y,
                ]
                &&& known.len() != 4 ==> n.uv == c.uv
            })
            &&& key != Key::DisplayId ==> n.display_id == c.display_id
            &&& key == Key::DisplayId ==> (text::number(v) matches Some(k) ==> n.display_id == k)
                && (text::number(v) is None ==> n.display_id == c.display_id)
            &&& key != Key::MaxSize ==> n.max_size == c.max_size
            &&& key == Key::MaxSize ==> (text::number(v) matches Some(k) ==> n.max_size == k) && (
            text::number(v) is None ==> n.max_size == c.max_size)
            &&& key != Key::BitrateMbps ==> n.bitrate_mbps == c.bitrate_mbps
            &&& key == Key::BitrateMbps ==> (text::number(v) matches Some(k) ==> n.bitrate_mbps
                == k) && (text::number(v) is None ==> n.bitrate_mbps == c.bitrate_mbps)
            &&& key != Key::MaxFps ==> n.max_fps == c.max_fps
            &&& key == Key::MaxFps ==> (text::number(v) matches Some(k) ==> n.max_fps == k) && (
            text::number(v) is None ==> n.max_fps == c.max_fps)
            &&& key != Key::Audio ==> n.audio == c.audio
            &&& key == Key::Audio ==> (n.audio <==> v == "true"@)
            &&& key != Key::Remote ==> n.remotes == c.remotes
            &&& key == Key::Remote ==> {
                &&& n.remotes.take(c.remotes.len() as int) == c.remotes
                &&& n.remotes.len() <= c.remotes.len() + 1
                &&& v.len() > 0 ==> n.remotes.contains(v)
                &&& v.len() == 0 || c.remotes.contains(v) ==> n.remotes == c.remotes
            }
        }),
{
    let (c, r) = (s.config, s.after(Some((key, v)), floats));
    let n = r.config;
    if key == Key::Uv {
        assert(float_texts_of(Some((key, v))).len() == text::split(v, ',').len());
        lemma_known(floats, s.used, r.used);
        let known = known_floats(floats, s.used, r.used);
        if known.len() == 4 {
            assert(known =~= seq![n.uv.min_x, n.uv.min_y, n.uv.max_x, n.uv.max_y]);
        }
    }
    if key == Key::Remote {
        assert(n.remotes.take(c.remotes.len() as int) =~= c.remotes);
        if v.len() > 0 && !c.remotes.contains(v) {
            assert(n.remotes[c.remotes.len() as int] == v);
        }
    }
}

/// A line behind others is applied to what those give; so of two lines for one setting the later
/// counts.
pub proof fn law_later_lines_count(
    ls: Seq<Seq<char>>,
    line: Seq<char>,
    floats: Seq<Option<u32>>,
)
    requires
        text::is_line(line),
        forall|i: int| 0 <= i < ls.len() ==> text::is_line(#[trigger] ls[i]),
    ensures
        loaded(text::lines(text::unlines(ls.push(line))), floats) == loaded(
            text::lines(text::unlines(ls)),
            floats,
        ).after(entry_of(line), floats),
        loaded(seq![], floats).config == ConfigView::default_view(),
{
    text::law_lines_are_found(ls);
    text::law_lines_are_found(ls.push(line));
    lemma_loaded_step(ls, line, floats);
}

/// Two floating-point numbers are equal where their bits are, or where both are zeros of whatever
/// sign; but what is no number, whose exponent is the highest and whose fraction is not 0, equals
/// nothing, not even itself.
pub proof fn law_numbers_compare_as_floats(a: u32, b: u32)
    ensures
        equal_numbers(a, b) == equal_numbers(b, a),
        equal_numbers(a, a) <==> !(a / 0x80_0000 % 0x100 == 0xff && a % 0x80_0000 != 0),
        equal_numbers(a, b) && a != b ==> (a == 0 || a == 0x8000_0000) && (b == 0 || b
            == 0x8000_0000),
        equal_numbers(0, 0x8000_0000),
{
}

/// Settings that compare as equal agree in each of them, and settings without a zero that compare
/// as equal are the same.
pub proof fn law_equal_settings_agree(a: ConfigView, b: ConfigView)
    requires
        a.equals(b),
    ensures
        a.lens_correct == b.lens_correct && a.display_id == b.display_id && a.max_size == b.max_size,
        a.bitrate_mbps == b.bitrate_mbps && a.max_fps == b.max_fps && a.audio == b.audio,
        a.remotes == b.remotes,
        b.equals(a),
        a.has_numbers(),
        (forall|i: int|
            0 <= i < 7 ==> (#[trigger] a.floats()[i]) != Some(0u32) && a.floats()[i] != Some(
                0x8000_0000u32,
            )) ==> a == b,
{
    let f = a.floats();
    if forall|i: int|
        0 <= i < 7 ==> (#[trigger] f[i]) != Some(0u32) && f[i] != Some(0x8000_0000u32) {
        assert(f[0] == Some(a.lens_k1) && f[1] == Some(a.lens_k2) && f[2] == Some(a.rotation_deg));
        assert(f[3] == Some(a.uv.min_x) && f[4] == Some(a.uv.min_y));
        assert(f[5] == Some(a.uv.max_x) && f[6] == Some(a.uv.max_y));
        law_numbers_compare_as_floats(a.lens_k1, b.lens_k1);
        law_numbers_compare_as_floats(a.lens_k2, b.lens_k2);
        law_numbers_compare_as_floats(a.rotation_deg, b.rotation_deg);
        law_numbers_compare_as_floats(a.uv.min_x, b.uv.min_x);
        law_numbers_compare_as_floats(a.uv.min_y, b.uv.min_y);
        law_numbers_compare_as_floats(a.uv.max_x, b.uv.max_x);
        law_numbers_compare_as_floats(a.uv.max_y, b.uv.max_y);
    }
}

/// The two eyes are the halves of the panel: they meet in its middle, and with the outer corners
/// they make up the whole of it.
pub proof fn law_eyes_make_up_the_panel()
    ensures
        ({
            let (l, r) = (CropPreset::LeftEye.corners(), CropPreset::RightEye.corners());
            let (f, c) = (CropPreset::FullPanel.corners(), CropPreset::Center.corners());
            &&& l.max_x == r.min_x
            &&& l.min_x == f.min_x && r.max_x == f.max_x
            &&& l.min_y == f.min_y && r.min_y == f.min_y && l.max_y == f.max_y && r.max_y == f.max_y
            &&& f.min_x == 0 && f.min_y == 0 && f.max_x == 0x3f80_0000 && f.max_y == 0x3f80_0000
            &&& c.min_x == c.min_y && c.max_x == c.max_y
            &&& f.min_x < c.min_x < l.max_x < c.max_x < f.max_x
        }),
{
}

} // verus!
