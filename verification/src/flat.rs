//! The flat view: the whole undistorted picture, as an agent on the device composes and sends it.
//!
//! On the wire, high bytes first: whatever the device's runtime prints, the four bytes `QFLT`,
//! `[width u32][height u32]`, and then, again and again, `[kind u8][length u32][data]`.
use crate::adb;
use crate::bytes;
use crate::decoder::{Frame, FrameView};
use crate::stream::{Rate, RecordCmd, Status, TICK_NANOS};
use crate::text;
use vstd::prelude::*;

verus! {

/// Where the agent lies on the device.
pub const AGENT_DEVICE_PATH: &'static str = "/data/local/tmp/quest-flat-agent.jar";

/// The agent's main class.
pub const AGENT_MAIN: &'static str = "com.questflat.FlatStream";

/// How many bytes may stand in front of the header, its magic number counted in.
pub const MAX_PREAMBLE: usize = 65537;

/// The largest side of a picture that is believed.
pub const MAX_SIDE: u32 = 8192;

/// The largest packet that is believed.
pub const MAX_PACKET_LEN: usize = 64_000_000;

/// The bytes in front of a packet's data.
pub const PACKET_HEADER_LEN: usize = 5;

/// The kind of a packet that holds a video access unit.
pub const KIND_VIDEO: u8 = 0;

/// The kind of a packet that holds an AAC frame.
pub const KIND_AUDIO: u8 = 1;

/// The kind of a packet that holds the configuration of the AAC stream.
pub const KIND_AUDIO_CONFIG: u8 = 2;

/// What the agent is asked for.
#[derive(Clone, Copy, Debug, PartialEq, Eq, Structural)]
pub struct FlatConfig {
    /// Cap on either side: the agent fits the picture into a square of this size.
    pub max_size: u32,
    pub bitrate: u32,
    pub fps: u32,
    pub audio: bool,
}

/// The arguments that push the agent, of which `local` is a copy.
pub fn push_agent_args(serial: &str, local: &str) -> (r: Vec<String>)
    ensures
        text::views(r@) =~= seq!["-s"@, serial@, "push"@, local@, AGENT_DEVICE_PATH@],
{
    adb::push_args(serial, local, AGENT_DEVICE_PATH)
}

/// How the device's shell starts the agent.
pub open spec fn agent_command(w: u32, h: u32, bitrate: u32, fps: u32) -> Seq<char> {
    "CLASSPATH="@ + AGENT_DEVICE_PATH@ + " app_process /system/bin "@ + AGENT_MAIN@ + " -w "@
        + text::decimal(w as nat) + " -h "@ + text::decimal(h as nat) + " -b "@ + text::decimal(
        bitrate as nat,
    ) + " -f "@ + text::decimal(fps as nat)
}

/// The arguments that start the agent. What it prints is the stream.
pub fn spawn_agent_args(serial: &str, w: u32, h: u32, bitrate: u32, fps: u32) -> (r: Vec<String>)
    ensures
        text::views(r@) =~= seq![
            "-s"@,
            serial@,
            "exec-out"@,
            agent_command(w, h, bitrate, fps),
        ],
{
    let mut cmd = "CLASSPATH=".to_string();
    cmd.append(AGENT_DEVICE_PATH);
    cmd.append(" app_process /system/bin ");
    cmd.append(AGENT_MAIN);
    cmd.append(" -w ");
    cmd.append(text::dec(w as u64).as_str());
    cmd.append(" -h ");
    cmd.append(text::dec(h as u64).as_str());
    cmd.append(" -b ");
    cmd.append(text::dec(bitrate as u64).as_str());
    cmd.append(" -f ");
    cmd.append(text::dec(fps as u64).as_str());
    vec!["-s".to_string(), serial.to_string(), "exec-out".to_string(), cmd]
}

/// The magic number: `QFLT`.
pub open spec fn magic() -> Seq<u8> {
    seq![0x51u8, 0x46u8, 0x4cu8, 0x54u8]
}

/// Whether the magic number ends behind the first `n` bytes of `b`.
pub open spec fn magic_ends(b: Seq<u8>, n: int) -> bool {
    4 <= n <= b.len() && b.subrange(n - 4, n) == magic()
}

/// Where the magic number ends first, looking from `n` on, within the bytes that may hold it.
pub open spec fn first_magic(b: Seq<u8>, n: int) -> Option<int>
    decreases b.len() - n + 1,
{
    if n > b.len() || n > MAX_PREAMBLE {
        None
    } else if magic_ends(b, n) {
        Some(n)
    } else {
        first_magic(b, n + 1)
    }
}

/// What came of looking for the header in the bytes so far.
#[derive(Clone, Copy, Debug, PartialEq, Eq, Structural)]
pub enum DimsRead {
    /// The size of the picture, and the number of bytes up to the first packet.
    Dims { width: u32, height: u32, used: usize },
    /// It takes at least so many bytes, and there are fewer.
    NeedMore(usize),
    /// The magic number is not where it may be.
    NoMagic,
    /// No picture has this size.
    BadDims { width: u32, height: u32 },
}

/// Whether a picture of this size is believed.
pub open spec fn plausible(width: u32, height: u32) -> bool {
    0 < width <= MAX_SIDE && 0 < height <= MAX_SIDE
}

/// What the header behind the preamble of `b` says.
pub open spec fn dims_in(b: Seq<u8>) -> DimsRead {
    match first_magic(b, 4) {
        Some(n) => if b.len() < n + 8 {
            DimsRead::NeedMore((n + 8) as usize)
        } else {
            let width = bytes::be32(b, n);
            let height = bytes::be32(b, n + 4);
            if plausible(width, height) {
                DimsRead::Dims { width, height, used: (n + 8) as usize }
            } else {
                DimsRead::BadDims { width, height }
            }
        },
        None => if b.len() >= MAX_PREAMBLE {
            DimsRead::NoMagic
        } else {
            DimsRead::NeedMore((b.len() + 1) as usize)
        },
    }
}

/// Where the magic number ends, and nowhere before, it ends first.
proof fn lemma_first_magic(b: Seq<u8>, n: int, m: int)
    requires
        4 <= n <= m <= MAX_PREAMBLE,
        magic_ends(b, m),
        forall|k: int| n <= k < m ==> !#[trigger] magic_ends(b, k),
    ensures
        first_magic(b, n) == Some(m),
    decreases m - n,
{
    if n < m {
        assert(!magic_ends(b, n));
        lemma_first_magic(b, n + 1, m);
    }
}

/// Where the magic number ends first.
fn find_magic(buf: &[u8]) -> (r: Option<usize>)
    ensures
        match r {
            Some(n) => first_magic(buf@, 4) == Some(n as int) && n <= buf@.len() && n
                <= MAX_PREAMBLE,
            None => first_magic(buf@, 4) is None,
        },
{
    let len: usize = buf.len();
    let mut n: usize = 4;
    while n <= len && n <= MAX_PREAMBLE
        invariant
            4 <= n <= MAX_PREAMBLE + 1,
            len == buf@.len(),
            first_magic(buf@, 4) == first_magic(buf@, n as int),
        decreases MAX_PREAMBLE + 1 - n,
    {
        if buf[n - 4] == 0x51 && buf[n - 3] == 0x46 && buf[n - 2] == 0x4c && buf[n - 1] == 0x54 {
            assert(buf@.subrange(n - 4, n as int) =~= magic());
            return Some(n);
        }
        proof {
            let s = buf@.subrange(n - 4, n as int);
            if magic_ends(buf@, n as int) {
                assert(s[0] == 0x51 && s[1] == 0x46 && s[2] == 0x4c && s[3] == 0x54);
            }
        }
        n = n + 1;
    }
    None
}

/// Looks for the header in the bytes so far.
pub fn read_dims(buf: &[u8]) -> (r: DimsRead)
    ensures
        r == dims_in(buf@),
{
    match find_magic(buf) {
        Some(n) => {
            let end: usize = n + 8;
            if buf.len() < end {
                return DimsRead::NeedMore(end);
            }
            let width: u32 = bytes::read_be32(buf, n);
            let height: u32 = bytes::read_be32(buf, n + 4);
            if width == 0 || height == 0 || width > MAX_SIDE || height > MAX_SIDE {
                DimsRead::BadDims { width, height }
            } else {
                DimsRead::Dims { width, height, used: end }
            }
        },
        None => {
            if buf.len() >= MAX_PREAMBLE {
                DimsRead::NoMagic
            } else {
                DimsRead::NeedMore(buf.len() + 1)
            }
        },
    }
}

/// A size in words.
pub open spec fn size_text(width: u32, height: u32) -> Seq<char> {
    text::decimal(width as nat) + "x"@ + text::decimal(height as nat)
}

/// A size in words.
pub fn size_string(width: u32, height: u32) -> (r: String)
    ensures
        r@ == size_text(width, height),
{
    let mut s = text::dec(width as u64);
    s.append("x");
    s.append(text::dec(height as u64).as_str());
    s
}

/// The error for a header that is not believed.
pub fn bad_dims_message(width: u32, height: u32) -> (r: String)
    ensures
        r@ == "implausible flat stream dims "@ + size_text(width, height),
{
    let mut s = "implausible flat stream dims ".to_string();
    s.append(size_string(width, height).as_str());
    s
}

/// What was being read when the stream ended before its first packet.
pub fn dims_cut_off(buf: &[u8]) -> (r: &'static str)
    ensures
        r@ == if first_magic(buf@, 4) is Some {
            "reading flat stream header"@
        } else {
            "scanning for flat stream magic"@
        },
{
    match find_magic(buf) {
        Some(_) => "reading flat stream header",
        None => "scanning for flat stream magic",
    }
}

/// A packet of the stream.
#[derive(Debug)]
pub struct FlatPacket {
    pub kind: u8,
    pub data: Vec<u8>,
}

/// What a [`FlatPacket`] holds.
pub struct FlatPacketView {
    pub kind: u8,
    pub data: Seq<u8>,
}

impl View for FlatPacket {
    type V = FlatPacketView;

    open spec fn view(&self) -> FlatPacketView {
        FlatPacketView { kind: self.kind, data: self.data@ }
    }
}

/// What came of looking for a packet at the front of some bytes.
pub enum FlatRead {
    /// The packet, and the number of bytes that it takes.
    Packet { packet: FlatPacket, used: usize },
    /// It takes at least so many bytes, and there are fewer.
    NeedMore(usize),
    /// No packet has this length.
    BadLength(usize),
}

/// What a [`FlatRead`] says.
pub enum FlatReadView {
    Packet { packet: FlatPacketView, used: nat },
    NeedMore(nat),
    BadLength(nat),
}

impl View for FlatRead {
    type V = FlatReadView;

    open spec fn view(&self) -> FlatReadView {
        match *self {
            FlatRead::Packet { packet, used } => FlatReadView::Packet {
                packet: packet@,
                used: used as nat,
            },
            FlatRead::NeedMore(n) => FlatReadView::NeedMore(n as nat),
            FlatRead::BadLength(n) => FlatReadView::BadLength(n as nat),
        }
    }
}

/// What stands at the front of `b`.
pub open spec fn packet_at_front(b: Seq<u8>) -> FlatReadView {
    if b.len() < PACKET_HEADER_LEN {
        FlatReadView::NeedMore(PACKET_HEADER_LEN as nat)
    } else {
        let n = bytes::be32(b, 1);
        if n == 0 || n > MAX_PACKET_LEN {
            FlatReadView::BadLength(n as nat)
        } else if b.len() < PACKET_HEADER_LEN + n {
            FlatReadView::NeedMore((PACKET_HEADER_LEN + n) as nat)
        } else {
            FlatReadView::Packet {
                packet: FlatPacketView {
                    kind: b[0],
                    data: b.subrange(PACKET_HEADER_LEN as int, PACKET_HEADER_LEN + n),
                },
                used: (PACKET_HEADER_LEN + n) as nat,
            }
        }
    }
}

/// Reads the packet at the front of `buf`.
pub fn read_packet(buf: &[u8]) -> (r: FlatRead)
    ensures
        r@ == packet_at_front(buf@),
{
    if buf.len() < PACKET_HEADER_LEN {
        return FlatRead::NeedMore(PACKET_HEADER_LEN);
    }
    let n: u32 = bytes::read_be32(buf, 1);
    let len: usize = n as usize;
    if len == 0 || len > MAX_PACKET_LEN {
        return FlatRead::BadLength(len);
    }
    let end: usize = PACKET_HEADER_LEN + len;
    if buf.len() < end {
        return FlatRead::NeedMore(end);
    }
    let data = vstd::slice::slice_to_vec(vstd::slice::slice_subrange(buf, PACKET_HEADER_LEN, end));
    FlatRead::Packet { packet: FlatPacket { kind: buf[0], data }, used: end }
}

/// The error for a packet that is not believed.
pub fn bad_length_message(len: usize) -> (r: String)
    ensures
        r@ == "bad packet length "@ + text::decimal(len as nat),
{
    let mut s = "bad packet length ".to_string();
    s.append(text::dec(len as u64).as_str());
    s
}

/// What was being read when the stream ended, `have` bytes behind the last packet.
pub open spec fn cut_off_at(have: nat) -> Option<Seq<char>> {
    if have == 0 {
        None
    } else if have < PACKET_HEADER_LEN {
        Some("reading packet length"@)
    } else {
        Some("reading packet"@)
    }
}

/// A stream that ends right behind a packet has come to its end; any other was cut off, inside a
/// header where fewer bytes are left than a header takes, and else inside the data behind one.
pub proof fn law_streams_end_between_packets(have: nat)
    ensures
        cut_off_at(have) is None <==> have == 0,
        cut_off_at(have) == Some("reading packet length"@) <==> 1 <= have < 5,
        cut_off_at(have) == Some("reading packet"@) <==> have >= 5,
{
    reveal_strlit("reading packet length");
    reveal_strlit("reading packet");
    assert("reading packet length"@.len() != "reading packet"@.len());
}

/// What was being read when the stream ended, `have` bytes behind the last packet. A stream that
/// ends between two packets has come to its end.
pub fn packet_cut_off(have: usize) -> (r: Option<&'static str>)
    ensures
        match r {
            None => have == 0,
            Some(what) => have > 0 && what@ == if have < PACKET_HEADER_LEN {
                "reading packet length"@
            } else {
                "reading packet"@
            },
        },
        match r {
            Some(what) => cut_off_at(have as nat) == Some(what@),
            None => cut_off_at(have as nat) is None,
        },
{
    if have == 0 {
        None
    } else if have < PACKET_HEADER_LEN {
        Some("reading packet length")
    } else {
        Some("reading packet")
    }
}

/// The header on the wire.
pub open spec fn header_bytes(width: u32, height: u32) -> Seq<u8> {
    magic() + bytes::be32_bytes(width) + bytes::be32_bytes(height)
}

impl FlatPacketView {
    /// Whether the wire can carry the packet.
    pub open spec fn sendable(self) -> bool {
        0 < self.data.len() <= MAX_PACKET_LEN
    }

    /// The packet on the wire.
    pub open spec fn encoded(self) -> Seq<u8> {
        seq![self.kind] + bytes::be32_bytes(self.data.len() as u32) + self.data
    }
}

/// The magic number ends first where it ends behind the preamble.
proof fn lemma_preamble(preamble: Seq<u8>, rest: Seq<u8>)
    requires
        preamble.len() + 4 <= MAX_PREAMBLE,
        forall|n: int|
            n < preamble.len() + 4 ==> !#[trigger] magic_ends(preamble + magic(), n),
    ensures
        first_magic(preamble + magic() + rest, 4) == Some(preamble.len() + 4int),
{
    let c = preamble + magic();
    let b = c + rest;
    let m = preamble.len() + 4int;
    assert(b.subrange(m - 4, m) =~= magic());
    assert(magic_ends(b, m));
    assert forall|n: int| 4 <= n < m implies !#[trigger] magic_ends(b, n) by {
        assert(!magic_ends(c, n));
        assert(b.subrange(n - 4, n) =~= c.subrange(n - 4, n));
    }
    lemma_first_magic(b, 4, m);
}

/// The header is found behind any preamble that is not too long and does not hold the magic
/// number itself, whatever follows it.
pub proof fn law_header_is_found(preamble: Seq<u8>, width: u32, height: u32, rest: Seq<u8>)
    requires
        plausible(width, height),
        preamble.len() + 4 <= MAX_PREAMBLE,
        forall|n: int|
            n < preamble.len() + 4 ==> !#[trigger] magic_ends(preamble + magic(), n),
    ensures
        dims_in(preamble + header_bytes(width, height) + rest) == (DimsRead::Dims {
            width,
            height,
            used: (preamble.len() + 12) as usize,
        }),
{
    let size = bytes::be32_bytes(width) + bytes::be32_bytes(height);
    let b = preamble + header_bytes(width, height) + rest;
    let m = preamble.len() + 4int;
    lemma_preamble(preamble, size + rest);
    assert(b =~= preamble + magic() + (size + rest));
    assert(bytes::be32(b, m) == width) by {
        assert(b.subrange(m, m + 4) =~= bytes::be32_bytes(width));
        bytes::lemma_be32(b, m, width);
    }
    assert(bytes::be32(b, m + 4) == height) by {
        assert(b.subrange(m + 4, m + 8) =~= bytes::be32_bytes(height));
        bytes::lemma_be32(b, m + 4, height);
    }
}

/// A packet on the wire is read back, whatever follows it, and exactly its bytes are used.
pub proof fn law_packet_is_read_back(packet: FlatPacketView, rest: Seq<u8>)
    requires
        packet.sendable(),
    ensures
        packet_at_front(packet.encoded() + rest) == (FlatReadView::Packet {
            packet,
            used: packet.encoded().len(),
        }),
{
    let b = packet.encoded() + rest;
    let n = packet.data.len() as u32;
    assert(b.subrange(1, 5) =~= bytes::be32_bytes(n));
    bytes::lemma_be32(b, 1, n);
    assert(b.subrange(PACKET_HEADER_LEN as int, PACKET_HEADER_LEN + n) =~= packet.data);
}

/// A sequence of packets on the wire.
pub open spec fn packets_bytes(packets: Seq<FlatPacketView>) -> Seq<u8>
    decreases packets.len(),
{
    if packets.len() == 0 {
        seq![]
    } else {
        packets[0].encoded() + packets_bytes(packets.drop_first())
    }
}

/// The packets that reading one after the other from the front of `b` gives, up to the first that
/// is not there in full.
pub open spec fn packets_in(b: Seq<u8>) -> Seq<FlatPacketView>
    decreases b.len(),
{
    match packet_at_front(b) {
        FlatReadView::Packet { packet, used } => if 0 < used <= b.len() {
            seq![packet] + packets_in(b.skip(used as int))
        } else {
            seq![]
        },
        _ => seq![],
    }
}

/// The packets in `b` begin with the one at its front.
proof fn lemma_first_packet(b: Seq<u8>, packet: FlatPacketView, rest: Seq<u8>)
    requires
        packet.sendable(),
        b == packet.encoded() + rest,
    ensures
        packets_in(b) == seq![packet] + packets_in(rest),
{
    law_packet_is_read_back(packet, rest);
    assert(b.skip(packet.encoded().len() as int) =~= rest);
}

/// There is no packet in nothing.
proof fn lemma_no_packet()
    ensures
        packets_in(seq![]) == Seq::<FlatPacketView>::empty(),
{
}

/// Every stream of packets that the wire can carry is read back, packet by packet.
pub proof fn law_packets_are_read_back(packets: Seq<FlatPacketView>)
    requires
        forall|i: int| 0 <= i < packets.len() ==> (#[trigger] packets[i]).sendable(),
    ensures
        packets_in(packets_bytes(packets)) == packets,
    decreases packets.len(),
{
    if packets.len() == 0 {
        lemma_no_packet();
        assert(packets =~= seq![]);
    } else {
        let tail = packets.drop_first();
        assert forall|i: int| 0 <= i < tail.len() implies (#[trigger] tail[i]).sendable() by {
            assert(tail[i] == packets[i + 1]);
        }
        law_packets_are_read_back(tail);
        lemma_first_packet(packets_bytes(packets), packets[0], packets_bytes(tail));
        assert(seq![packets[0]] + tail =~= packets);
    }
}

/// Where a packet goes.
#[derive(Clone, Copy, Debug, PartialEq, Eq, Structural)]
pub enum Route {
    /// To the decoder.
    Video,
    /// To the audio player. `config` tells an AudioSpecificConfig from an access unit.
    Audio { config: bool },
}

/// Where a packet of this kind goes. Whatever is not video is audio.
pub open spec fn route_of(kind: u8) -> Route {
    if kind == KIND_VIDEO {
        Route::Video
    } else {
        Route::Audio { config: kind == KIND_AUDIO_CONFIG }
    }
}

/// Whether a packet that goes there is wanted: sound only where it was asked for.
pub open spec fn is_wanted(route: Route, audio: bool) -> bool {
    audio || route == Route::Video
}

/// Where a packet of this kind goes. Whatever is not video is audio.
pub fn route(kind: u8) -> (r: Route)
    ensures
        r == route_of(kind),
        r == if kind == KIND_VIDEO {
            Route::Video
        } else {
            Route::Audio { config: kind == KIND_AUDIO_CONFIG }
        },
{
    if kind == KIND_VIDEO {
        Route::Video
    } else {
        Route::Audio { config: kind == KIND_AUDIO_CONFIG }
    }
}

/// Whether a packet that goes there is wanted: sound only where it was asked for.
pub fn wanted(route: Route, audio: bool) -> (r: bool)
    ensures
        r == is_wanted(route, audio),
        r == (audio || route == Route::Video),
{
    audio || route == Route::Video
}

/// The frame rate of a flat session.
pub struct FlatMeter {
    frames_since: u32,
}

impl View for FlatMeter {
    type V = u32;

    closed spec fn view(&self) -> u32 {
        self.frames_since
    }
}

/// What to report when a frame of this size is the `frames`th since the last report, `nanos` ago.
pub open spec fn flat_report(frames: u32, width: u32, height: u32, nanos: u64) -> Option<Status> {
    if nanos >= TICK_NANOS {
        Some(Status::Streaming { width, height, rate: Some(Rate { frames, nanos }) })
    } else {
        None
    }
}

/// The frames since the last report, once one more came `nanos` after that.
pub open spec fn counted(frames: u32, nanos: u64) -> u32 {
    if nanos >= TICK_NANOS {
        0
    } else {
        (frames + 1) as u32
    }
}

/// The frames since the last report, once frames came at these times after it.
pub open spec fn counted_all(times: Seq<u64>) -> u32
    decreases times.len(),
{
    if times.len() == 0 {
        0
    } else {
        counted(counted_all(times.drop_last()), times.last())
    }
}

impl FlatMeter {
    /// No frame yet.
    pub fn new() -> (r: FlatMeter)
        ensures
            r@ == 0,
    {
        FlatMeter { frames_since: 0 }
    }

    /// The frames since the last report.
    pub fn frames_since(&self) -> (r: u32)
        ensures
            r == self@,
    {
        self.frames_since
    }

    /// Takes note of a frame. Gives what to report, once `nanos` have gone by since the last
    /// report.
    pub fn on_frame(&mut self, width: u32, height: u32, nanos: u64) -> (r: Option<Status>)
        requires
            old(self)@ < u32::MAX,
        ensures
            r == flat_report((old(self)@ + 1) as u32, width, height, nanos),
            final(self)@ == counted(old(self)@, nanos),
            final(self)@ == if nanos >= TICK_NANOS {
                0
            } else {
                (old(self)@ + 1) as u32
            },
    {
        let frames: u32 = self.frames_since + 1;
        if nanos >= TICK_NANOS {
            self.frames_since = 0;
            Some(Status::Streaming { width, height, rate: Some(Rate { frames, nanos }) })
        } else {
            self.frames_since = frames;
            None
        }
    }
}

/// What a flat session shows once its thread is done: that it stopped, unless the user asked for
/// the end.
pub open spec fn flat_end(shown: Status, stopping: bool) -> Status {
    if stopping {
        shown
    } else {
        Status::Stopped
    }
}

/// What a flat session shows once its thread is done: that it stopped, unless the user asked for
/// the end.
pub fn flat_status_after_run(shown: Status, stopping: bool) -> (r: Status)
    ensures
        r == flat_end(shown, stopping),
        r == if stopping {
            shown
        } else {
            Status::Stopped
        },
{
    if stopping {
        shown
    } else {
        Status::Stopped
    }
}

/// The newest frame and how many there were.
pub struct FlatShot {
    last: Option<Frame>,
    count: u64,
}

/// What a [`FlatShot`] holds.
pub struct FlatShotView {
    pub last: Option<FrameView>,
    pub count: u64,
}

impl View for FlatShot {
    type V = FlatShotView;

    closed spec fn view(&self) -> FlatShotView {
        FlatShotView {
            last: match self.last {
                Some(f) => Some(f@),
                None => None,
            },
            count: self.count,
        }
    }
}

impl FlatShotView {
    /// The state before the first frame.
    pub open spec fn start() -> FlatShotView {
        FlatShotView { last: None, count: 0 }
    }

    /// The state once a frame came.
    pub open spec fn after(self, frame: FrameView) -> FlatShotView {
        FlatShotView { last: Some(frame), count: (self.count + 1) as u64 }
    }

    /// The state once all of `frames` came, one behind the other.
    pub open spec fn after_all(self, frames: Seq<FrameView>) -> FlatShotView
        decreases frames.len(),
    {
        if frames.len() == 0 {
            self
        } else {
            self.after_all(frames.drop_last()).after(frames.last())
        }
    }
}

/// The newest of all frames is kept, and all of them are counted.
pub proof fn law_newest_of_all_frames_is_kept(frames: Seq<FrameView>)
    requires
        frames.len() <= u64::MAX,
    ensures
        ({
            let s = FlatShotView::start().after_all(frames);
            &&& s.count == frames.len()
            &&& frames.len() == 0 <==> s.last is None
            &&& s.last matches Some(f) ==> f == frames.last()
        }),
    decreases frames.len(),
{
    if frames.len() > 0 {
        law_newest_of_all_frames_is_kept(frames.drop_last());
    }
}

impl FlatShot {
    /// No frame yet.
    pub fn new() -> (r: FlatShot)
        ensures
            r@ == (FlatShotView { last: None, count: 0 }),
            r@ == FlatShotView::start(),
    {
        FlatShot { last: None, count: 0 }
    }

    /// Takes note of a frame.
    pub fn on_frame(&mut self, frame: Frame)
        requires
            old(self)@.count < u64::MAX,
        ensures
            final(self)@ == (FlatShotView {
                last: Some(frame@),
                count: (old(self)@.count + 1) as u64,
            }),
            final(self)@ == old(self)@.after(frame@),
    {
        self.last = Some(frame);
        self.count = self.count + 1;
    }

    /// How many frames there were.
    pub fn count(&self) -> (r: u64)
        ensures
            r == self@.count,
    {
        self.count
    }

    /// The newest frame, or the error where there is none.
    pub fn into_frame(self) -> (r: Result<Frame, &'static str>)
        ensures
            match r {
                Ok(f) => self@.last == Some(f@),
                Err(e) => self@.last is None && e@ == "no frames decoded"@,
            },
    {
        match self.last {
            Some(f) => Ok(f),
            None => Err("no frames decoded"),
        }
    }
}

/// The recording of a flat session. The pictures are recorded as they are shown, with the sound
/// beside them.
pub struct FlatRecord<P> {
    /// Whether an encoder is open.
    open: bool,
    /// Where to record, from the next picture on.
    pending: Option<P>,
    /// The configuration of the sound that came last.
    asc: Option<Vec<u8>>,
}

/// The state of a [`FlatRecord`].
pub struct FlatRecordView<P> {
    pub open: bool,
    pub pending: Option<P>,
    pub asc: Option<Seq<u8>>,
}

impl<P> View for FlatRecord<P> {
    type V = FlatRecordView<P>;

    closed spec fn view(&self) -> FlatRecordView<P> {
        FlatRecordView {
            open: self.open,
            pending: self.pending,
            asc: match self.asc {
                Some(a) => Some(a@),
                None => None,
            },
        }
    }
}

/// One thing that happens to the recording of a flat session.
pub enum FlatStep<P> {
    /// A recording is asked for.
    Start(P),
    /// A recording is to end.
    Stop,
    /// A picture comes in.
    Frame,
    /// The encoder that was asked for could be opened, or it could not.
    Opened(bool),
    /// The encoder could not write.
    WriteFailed,
    /// A configuration of the sound comes in.
    AudioConfig(Seq<u8>),
}

impl<P> FlatRecordView<P> {
    /// The state before anything happened.
    pub open spec fn start() -> FlatRecordView<P> {
        FlatRecordView { open: false, pending: None, asc: None }
    }

    /// The state once `step` has happened. Whatever is asked for ends the recording that runs, and
    /// one that was asked for begins with the next picture.
    pub open spec fn after(self, step: FlatStep<P>) -> FlatRecordView<P> {
        match step {
            FlatStep::Start(path) => FlatRecordView { open: false, pending: Some(path), ..self },
            FlatStep::Stop => FlatRecordView { open: false, pending: None, ..self },
            FlatStep::Frame => FlatRecordView { pending: None, ..self },
            FlatStep::Opened(ok) => FlatRecordView { open: ok, ..self },
            FlatStep::WriteFailed => FlatRecordView { open: false, ..self },
            FlatStep::AudioConfig(asc) => FlatRecordView { asc: Some(asc), ..self },
        }
    }

    /// The state once all of `steps` have happened, one behind the other.
    pub open spec fn after_all(self, steps: Seq<FlatStep<P>>) -> FlatRecordView<P>
        decreases steps.len(),
    {
        if steps.len() == 0 {
            self
        } else {
            self.after_all(steps.drop_last()).after(steps.last())
        }
    }

    /// Whether a recording runs, or is about to.
    pub open spec fn recording(self) -> bool {
        self.open || self.pending is Some
    }
}

impl<P> FlatRecord<P> {
    /// No recording.
    pub fn new() -> (r: FlatRecord<P>)
        ensures
            r@ == (FlatRecordView::<P> { open: false, pending: None, asc: None }),
            r@ == FlatRecordView::<P>::start(),
    {
        FlatRecord { open: false, pending: None, asc: None }
    }

    /// Takes a command. Tells whether the encoder that is open is to be closed.
    pub fn on_command(&mut self, cmd: RecordCmd<P>) -> (r: bool)
        ensures
            r == old(self)@.open,
            final(self)@ == (FlatRecordView::<P> {
                open: false,
                pending: match cmd {
                    RecordCmd::Start(path) => Some(path),
                    RecordCmd::Stop => None,
                },
                asc: old(self)@.asc,
            }),
            final(self)@ == old(self)@.after(
                match cmd {
                    RecordCmd::Start(path) => FlatStep::Start(path),
                    RecordCmd::Stop => FlatStep::Stop,
                },
            ),
    {
        let close = self.open;
        self.open = false;
        self.pending = match cmd {
            RecordCmd::Start(path) => Some(path),
            RecordCmd::Stop => None,
        };
        close
    }

    /// Gives the place of the encoder to open for a picture, if one is to be opened.
    pub fn on_frame(&mut self) -> (r: Option<P>)
        ensures
            r == old(self)@.pending,
            final(self)@ == (FlatRecordView::<P> { pending: None, ..old(self)@ }),
            final(self)@ == old(self)@.after(FlatStep::Frame),
    {
        self.pending.take()
    }

    /// Takes note of whether the encoder could be opened.
    pub fn on_opened(&mut self, ok: bool)
        ensures
            final(self)@ == (FlatRecordView::<P> { open: ok, ..old(self)@ }),
            final(self)@ == old(self)@.after(FlatStep::Opened(ok)),
    {
        self.open = ok;
    }

    /// Takes note that the encoder could not write, and is closed.
    pub fn on_write_failed(&mut self)
        ensures
            final(self)@ == (FlatRecordView::<P> { open: false, ..old(self)@ }),
            final(self)@ == old(self)@.after(FlatStep::WriteFailed),
    {
        self.open = false;
    }

    /// Takes note of a configuration of the sound.
    pub fn on_audio_config(&mut self, asc: &[u8])
        ensures
            final(self)@ == (FlatRecordView::<P> { asc: Some(asc@), ..old(self)@ }),
            final(self)@ == old(self)@.after(FlatStep::AudioConfig(asc@)),
    {
        self.asc = Some(vstd::slice::slice_to_vec(asc));
    }

    /// The configuration of the sound that came last.
    pub fn audio_config(&self) -> (r: &Option<Vec<u8>>)
        ensures
            match (*r, self@.asc) {
                (Some(a), Some(b)) => a@ == b,
                (None, None) => true,
                _ => false,
            },
    {
        &self.asc
    }

    /// Whether a recording runs, or is about to.
    pub fn is_recording(&self) -> (r: bool)
        ensures
            r == (self@.open || self@.pending is Some),
            r == self@.recording(),
    {
        self.open || self.pending.is_some()
    }
}

/// A size in words is read back.
pub proof fn law_size_is_read_back(width: u32, height: u32)
    ensures
        text::split_once(size_text(width, height), 'x') matches Some((w, h)) && text::number(w)
            == Some(width) && text::number(h) == Some(height),
{
    let (w, h) = (text::decimal(width as nat), text::decimal(height as nat));
    reveal_strlit("x");
    assert(size_text(width, height) =~= w + seq!['x'] + h);
    text::lemma_decimal_has_no(width as nat, 'x');
    text::lemma_split_once(w, 'x', h);
    text::law_decimal_is_read_back(width);
    text::law_decimal_is_read_back(height);
}

/// Whether the letters `QFLT` stand at index `k`.
pub open spec fn letters_at(b: Seq<u8>, k: int) -> bool {
    b[k] == 0x51 && b[k + 1] == 0x46 && b[k + 2] == 0x4c && b[k + 3] == 0x54
}

/// Where the search for the magic number ends: it stands there, and nowhere before; and where the
/// search finds nothing, it stands nowhere within reach.
proof fn lemma_search(b: Seq<u8>, n: int)
    requires
        4 <= n,
    ensures
        match first_magic(b, n) {
            Some(m) => n <= m <= b.len() && m <= MAX_PREAMBLE && letters_at(b, m - 4) && forall|
                k: int,
            |
                n - 4 <= k < m - 4 ==> !#[trigger] letters_at(b, k),
            None => forall|k: int|
                n - 4 <= k <= b.len() - 4 && k <= MAX_PREAMBLE - 4 ==> !#[trigger] letters_at(b, k),
        },
    decreases b.len() - n + 1,
{
    if n <= b.len() && n <= MAX_PREAMBLE {
        let s = b.subrange(n - 4, n);
        assert(s[0] == b[n - 4] && s[1] == b[n - 3] && s[2] == b[n - 2] && s[3] == b[n - 1]);
        if letters_at(b, n - 4) {
            assert(s =~= magic());
        }
        if !magic_ends(b, n) {
            lemma_search(b, n + 1);
        }
    }
}

/// The size stands behind the first magic number of a stream. One that is empty or has a side of
/// more than 8192 is refused, and so is a stream whose first 64 KiB hold no magic number; a stream
/// that is not long enough to tell is waited for.
pub proof fn law_size_follows_first_magic(b: Seq<u8>)
    ensures
        match dims_in(b) {
            DimsRead::Dims { width, height, used } => {
                &&& 12 <= used <= b.len()
                &&& letters_at(b, used - 12)
                &&& forall|k: int| 0 <= k < used - 12 ==> !#[trigger] letters_at(b, k)
                &&& width == bytes::be32(b, used - 8) && height == bytes::be32(b, used - 4)
                &&& 1 <= width <= 8192 && 1 <= height <= 8192
            },
            DimsRead::BadDims { width, height } => {
                &&& !(1 <= width <= 8192 && 1 <= height <= 8192)
                &&& exists|m: int|
                    0 <= m && m + 12 <= b.len() && #[trigger] letters_at(b, m) && width
                        == bytes::be32(b, m + 4) && height == bytes::be32(b, m + 8) && forall|k: int|
                        0 <= k < m ==> !#[trigger] letters_at(b, k)
            },
            DimsRead::NoMagic => b.len() >= 65537 && forall|k: int|
                0 <= k <= 65533 ==> !#[trigger] letters_at(b, k),
            DimsRead::NeedMore(n) => {
                ||| (b.len() < 65537 && n == b.len() + 1 && forall|k: int|
                    0 <= k <= b.len() - 4 ==> !#[trigger] letters_at(b, k))
                ||| (b.len() < n && 12 <= n && letters_at(b, n - 12))
            },
        },
{
    lemma_search(b, 4);
    if let Some(m) = first_magic(b, 4) {
        assert(letters_at(b, m - 4));
    }
}

/// A packet is refused where it is said to be empty or longer than 64 million bytes, and no other
/// is. What was read does not change when more bytes come in.
pub proof fn law_unbelievable_lengths_are_refused(b: Seq<u8>, more: Seq<u8>)
    requires
        b.len() >= 5,
    ensures
        ({
            let n = bytes::be32(b, 1);
            &&& n == 0 || n > 64_000_000 <==> packet_at_front(b) is BadLength
            &&& packet_at_front(b) matches FlatReadView::BadLength(k) ==> k == n
            &&& packet_at_front(b) matches FlatReadView::NeedMore(k) ==> k == 5 + n && k > b.len()
            &&& packet_at_front(b) matches FlatReadView::Packet { packet, used } ==> {
                &&& packet.kind == b[0] && packet.data.len() == n && used == 5 + n <= b.len()
                &&& packet_at_front(b + more) == packet_at_front(b)
            }
        }),
{
    let c = b + more;
    let n = bytes::be32(b, 1);
    assert(bytes::be32(c, 1) == n);
    if b.len() >= 5 + n {
        assert(c.subrange(5, 5 + n) =~= b.subrange(5, 5 + n));
    }
}

/// A report of the flat view tells of the frame that brings it about and of all frames since the
/// last report, that one counted in; and half a second must have gone by.
pub proof fn law_flat_report_tells_size_and_rate(frames: u32, width: u32, height: u32, nanos: u64)
    ensures
        match flat_report(frames, width, height, nanos) {
            Some(Status::Streaming { width: w, height: h, rate: Some(rate) }) => nanos
                >= 500_000_000 && w == width && h == height && rate.frames == frames && rate.nanos
                == nanos,
            Some(_) => false,
            None => nanos < 500_000_000,
        },
{
}

/// The words of the command that are always the same.
proof fn lemma_agent_words()
    ensures
        text::is_word("CLASSPATH="@ + AGENT_DEVICE_PATH@),
        text::is_word("app_process"@),
        text::is_word("/system/bin"@),
        text::is_word(AGENT_MAIN@),
        text::is_word("-w"@),
        text::is_word("-h"@),
        text::is_word("-b"@),
        text::is_word("-f"@),
{
    reveal_strlit("CLASSPATH=");
    reveal_strlit("/data/local/tmp/quest-flat-agent.jar");
    reveal_strlit("app_process");
    reveal_strlit("/system/bin");
    reveal_strlit("com.questflat.FlatStream");
    reveal_strlit("-w");
    reveal_strlit("-h");
    reveal_strlit("-b");
    reveal_strlit("-f");
}

/// The text of the command, with any words in place of its numbers.
proof fn lemma_agent_text(w: Seq<char>, h: Seq<char>, b: Seq<char>, f: Seq<char>)
    ensures
        text::joined(
            seq![
                "CLASSPATH="@ + AGENT_DEVICE_PATH@,
                "app_process"@,
                "/system/bin"@,
                AGENT_MAIN@,
                "-w"@,
                w,
                "-h"@,
                h,
                "-b"@,
                b,
                "-f"@,
                f,
            ],
            seq![' '],
        ) == "CLASSPATH="@ + AGENT_DEVICE_PATH@ + " app_process /system/bin "@ + AGENT_MAIN@
            + " -w "@ + w + " -h "@ + h + " -b "@ + b + " -f "@ + f,
{
    let sep = seq![' '];
    let first = "CLASSPATH="@ + AGENT_DEVICE_PATH@;
    let s1 = seq![first];
    let s2 = s1.push("app_process"@);
    let s3 = s2.push("/system/bin"@);
    let s4 = s3.push(AGENT_MAIN@);
    let s5 = s4.push("-w"@);
    let s6 = s5.push(w);
    let s7 = s6.push("-h"@);
    let s8 = s7.push(h);
    let s9 = s8.push("-b"@);
    let s10 = s9.push(b);
    let s11 = s10.push("-f"@);
    let s12 = s11.push(f);
    text::lemma_joined_push(s1, sep, "app_process"@);
    text::lemma_joined_push(s2, sep, "/system/bin"@);
    text::lemma_joined_push(s3, sep, AGENT_MAIN@);
    text::lemma_joined_push(s4, sep, "-w"@);
    text::lemma_joined_push(s5, sep, w);
    text::lemma_joined_push(s6, sep, "-h"@);
    text::lemma_joined_push(s7, sep, h);
    text::lemma_joined_push(s8, sep, "-b"@);
    text::lemma_joined_push(s9, sep, b);
    text::lemma_joined_push(s10, sep, "-f"@);
    text::lemma_joined_push(s11, sep, f);
    assert(s12 =~= seq![
        first,
        "app_process"@,
        "/system/bin"@,
        AGENT_MAIN@,
        "-w"@,
        w,
        "-h"@,
        h,
        "-b"@,
        b,
        "-f"@,
        f,
    ]);
    lemma_agent_gaps();
    let j4 = text::joined(s4, sep);
    assert(j4 =~= first + (sep + "app_process"@ + sep + "/system/bin"@ + sep) + AGENT_MAIN@);
    let j6 = text::joined(s6, sep);
    assert(j6 =~= j4 + (sep + "-w"@ + sep) + w);
    let j8 = text::joined(s8, sep);
    assert(j8 =~= j6 + (sep + "-h"@ + sep) + h);
    let j10 = text::joined(s10, sep);
    assert(j10 =~= j8 + (sep + "-b"@ + sep) + b);
    assert(text::joined(s12, sep) =~= j10 + (sep + "-f"@ + sep) + f);
}

/// What stands between the words of the command.
proof fn lemma_agent_gaps()
    ensures
        seq![' '] + "app_process"@ + seq![' '] + "/system/bin"@ + seq![' ']
            == " app_process /system/bin "@,
        seq![' '] + "-w"@ + seq![' '] == " -w "@,
        seq![' '] + "-h"@ + seq![' '] == " -h "@,
        seq![' '] + "-b"@ + seq![' '] == " -b "@,
        seq![' '] + "-f"@ + seq![' '] == " -f "@,
{
    reveal_strlit("app_process");
    reveal_strlit("/system/bin");
    reveal_strlit(" app_process /system/bin ");
    reveal_strlit("-w");
    reveal_strlit("-h");
    reveal_strlit("-b");
    reveal_strlit("-f");
    reveal_strlit(" -w ");
    reveal_strlit(" -h ");
    reveal_strlit(" -b ");
    reveal_strlit(" -f ");
    assert(seq![' '] + "app_process"@ + seq![' '] + "/system/bin"@ + seq![' ']
        =~= " app_process /system/bin "@);
    assert(seq![' '] + "-w"@ + seq![' '] =~= " -w "@);
    assert(seq![' '] + "-h"@ + seq![' '] =~= " -h "@);
    assert(seq![' '] + "-b"@ + seq![' '] =~= " -b "@);
    assert(seq![' '] + "-f"@ + seq![' '] =~= " -f "@);
}

/// The command that starts the agent: the words in front of its options do not depend on what is
/// asked for, and behind them each option is followed by its number.
pub proof fn law_agent_options_are_read_back(w: u32, h: u32, bitrate: u32, fps: u32)
    ensures
        ({
            let words = text::words(agent_command(w, h, bitrate, fps));
            &&& words.len() == 12
            &&& words[0] == "CLASSPATH="@ + AGENT_DEVICE_PATH@
            &&& words[1] == "app_process"@
            &&& words[2] == "/system/bin"@
            &&& words[3] == AGENT_MAIN@
            &&& words[4] == "-w"@ && text::number(words[5]) == Some(w)
            &&& words[6] == "-h"@ && text::number(words[7]) == Some(h)
            &&& words[8] == "-b"@ && text::number(words[9]) == Some(bitrate)
            &&& words[10] == "-f"@ && text::number(words[11]) == Some(fps)
        }),
{
    let (dw, dh, db, df) = (
        text::decimal(w as nat),
        text::decimal(h as nat),
        text::decimal(bitrate as nat),
        text::decimal(fps as nat),
    );
    text::lemma_decimal_is_word(w as nat);
    text::lemma_decimal_is_word(h as nat);
    text::lemma_decimal_is_word(bitrate as nat);
    text::lemma_decimal_is_word(fps as nat);
    text::law_decimal_is_read_back(w);
    text::law_decimal_is_read_back(h);
    text::law_decimal_is_read_back(bitrate);
    text::law_decimal_is_read_back(fps);
    lemma_agent_words();
    let first = "CLASSPATH="@ + AGENT_DEVICE_PATH@;
    let ws = seq![
        first,
        "app_process"@,
        "/system/bin"@,
        AGENT_MAIN@,
        "-w"@,
        dw,
        "-h"@,
        dh,
        "-b"@,
        db,
        "-f"@,
        df,
    ];
    assert forall|i: int| 0 <= i < ws.len() implies text::is_word(#[trigger] ws[i]) by {}
    text::law_words_one_space_apart(ws);
    lemma_agent_text(dw, dh, db, df);
    assert(agent_command(w, h, bitrate, fps) == text::joined(ws, seq![' ']));
}

/// Pictures go to the decoder and are always wanted; sound goes to the player, and only where it
/// was asked for; and of the sound only the one kind is its configuration.
pub proof fn law_packets_go_where_they_belong(kind: u8, audio: bool)
    ensures
        route_of(kind) is Video <==> kind == 0,
        route_of(kind) matches Route::Audio { config } ==> (config <==> kind == 2),
        is_wanted(route_of(kind), true),
        is_wanted(route_of(kind), false) <==> kind == 0,
{
}

/// While no report is due the frames are counted, each of them, and a report starts the count anew.
pub proof fn law_frames_are_counted_up_to_the_report(times: Seq<u64>, long: u64)
    requires
        times.len() <= u32::MAX,
        forall|i: int| 0 <= i < times.len() ==> #[trigger] times[i] < 500_000_000,
        long >= 500_000_000,
    ensures
        counted_all(times) == times.len(),
        counted_all(times.push(long)) == 0,
    decreases times.len(),
{
    if times.len() > 0 {
        let less = times.drop_last();
        assert forall|i: int| 0 <= i < less.len() implies #[trigger] less[i] < 500_000_000 by {
            assert(less[i] == times[i]);
        }
        law_frames_are_counted_up_to_the_report(less, long);
        assert(times[times.len() - 1] < 500_000_000);
    }
    assert(times.push(long).last() == long);
}

/// A session that the user ended shows what it showed; any other shows that it stopped.
pub proof fn law_flat_end_is_shown(shown: Status)
    ensures
        flat_end(shown, true) == shown,
        flat_end(shown, false) is Stopped,
{
}

/// What is kept while the steps that would change it do not happen.
proof fn lemma_flat_kept<P>(state: FlatRecordView<P>, steps: Seq<FlatStep<P>>)
    ensures
        ({
            let s = state.after_all(steps);
            &&& (forall|i: int|
                0 <= i < steps.len() ==> !(#[trigger] steps[i] is Start) && !(steps[i] is Stop) && !(
                steps[i] is Frame)) ==> s.pending == state.pending
            &&& (forall|i: int|
                0 <= i < steps.len() ==> !(#[trigger] steps[i] is Start) && !(steps[i] is Stop) && !(
                steps[i] is Opened) && !(steps[i] is WriteFailed)) ==> s.open == state.open
            &&& (forall|i: int| 0 <= i < steps.len() ==> !(#[trigger] steps[i] is AudioConfig))
                ==> s.asc == state.asc
        }),
    decreases steps.len(),
{
    if steps.len() > 0 {
        let less = steps.drop_last();
        lemma_flat_kept(state, less);
        assert forall|i: int| 0 <= i < less.len() implies #[trigger] less[i] == steps[i] by {}
        assert(steps.last() == steps[steps.len() - 1]);
    }
}

/// A recording that was asked for begins with the next picture, at the place that was asked for and
/// whatever else happens until that; it counts as running from the request on, and one picture
/// opens one encoder.
pub proof fn law_flat_recording_begins_with_next_picture<P>(
    state: FlatRecordView<P>,
    path: P,
    steps: Seq<FlatStep<P>>,
)
    requires
        forall|i: int|
            0 <= i < steps.len() ==> !(#[trigger] steps[i] is Start) && !(steps[i] is Stop) && !(
            steps[i] is Frame),
    ensures
        ({
            let s = state.after(FlatStep::Start(path)).after_all(steps);
            &&& s.pending == Some(path)
            &&& s.recording()
            &&& s.after(FlatStep::Frame).pending is None
            &&& s.after(FlatStep::Stop).pending is None && !s.after(FlatStep::Stop).recording()
        }),
{
    lemma_flat_kept(state.after(FlatStep::Start(path)), steps);
}

/// An encoder is open from the moment that it could be opened until a recording is asked for or
/// ended, or it cannot write; pictures and configurations of the sound do not close it.
pub proof fn law_flat_encoder_stays_open<P>(
    state: FlatRecordView<P>,
    steps: Seq<FlatStep<P>>,
    path: P,
)
    requires
        forall|i: int|
            0 <= i < steps.len() ==> !(#[trigger] steps[i] is Start) && !(steps[i] is Stop) && !(
            steps[i] is Opened) && !(steps[i] is WriteFailed),
    ensures
        ({
            let s = state.after(FlatStep::Opened(true)).after_all(steps);
            &&& s.open && s.recording()
            &&& !s.after(FlatStep::Start(path)).open && !s.after(FlatStep::Stop).open
            &&& !s.after(FlatStep::WriteFailed).open
            &&& !state.after(FlatStep::Opened(false)).after_all(steps).open
        }),
{
    lemma_flat_kept(state.after(FlatStep::Opened(true)), steps);
    lemma_flat_kept(state.after(FlatStep::Opened(false)), steps);
}

/// The configuration of the sound that came last is at hand, whatever else happened since.
pub proof fn law_flat_sound_config_is_the_latest<P>(
    state: FlatRecordView<P>,
    asc: Seq<u8>,
    steps: Seq<FlatStep<P>>,
)
    requires
        forall|i: int| 0 <= i < steps.len() ==> !(#[trigger] steps[i] is AudioConfig),
    ensures
        state.after(FlatStep::AudioConfig(asc)).after_all(steps).asc == Some(asc),
        FlatRecordView::<P>::start().after_all(steps).asc is None,
        !FlatRecordView::<P>::start().recording(),
{
    lemma_flat_kept(state.after(FlatStep::AudioConfig(asc)), steps);
    lemma_flat_kept(FlatRecordView::<P>::start(), steps);
}

} // verus!
