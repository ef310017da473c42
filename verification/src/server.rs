//! The wire protocol of scrcpy-server 4.0, as the client sees it.
//!
//! The server listens on the device, and the client connects to a forwarded local port. The
//! server accepts its sockets in a fixed order, video before audio, and sends the device's name
//! once all of them are accepted. So the client connects every socket that it wants before it
//! reads anything but the first byte; see [`Handshake`].
//!
//! On the wire, high bytes first:
//!
//! - first socket only: one byte 0, then the device's name in 64 bytes
//! - video and audio socket: the codec id, `u32`
//! - then, again and again: `[flags and pts u64][size u32][size bytes]`, or, where the session
//!   flag is set, `[flags u32][width u32][height u32]`
use crate::bytes;
use crate::text;
use vstd::prelude::*;

verus! {

/// The header announces a resolution.
pub const PACKET_FLAG_SESSION: u64 = 0x8000_0000_0000_0000;

/// The packet holds codec configuration.
pub const PACKET_FLAG_CONFIG: u64 = 0x4000_0000_0000_0000;

/// The packet holds a key frame.
pub const PACKET_FLAG_KEY_FRAME: u64 = 0x2000_0000_0000_0000;

/// The bits of the presentation time: all below the flags.
pub const PTS_MASK: u64 = 0x1fff_ffff_ffff_ffff;

/// The largest packet that is believed.
pub const MAX_PACKET_SIZE: usize = 0x400_0000;

/// The bytes in front of the payload of a packet, and the whole of a resolution event.
pub const EVENT_HEADER_LEN: usize = 12;

/// The error for a socket that closed before the end of what was being read.
pub const CLOSED_MESSAGE: &'static str = "connection closed mid-stream";

/// The bytes that the device's name takes.
pub const DEVICE_NAME_LEN: usize = 64;

/// `h264`.
pub const CODEC_ID_H264: u32 = 0x6832_3634;

/// `aac`, behind a zero byte.
pub const CODEC_ID_AAC: u32 = 0x0061_6163;

/// `opus`.
pub const CODEC_ID_OPUS: u32 = 0x6f70_7573;

/// The device does not capture audio, but video goes on.
pub const AUDIO_DISABLED: u32 = 0;

/// The device could not set audio up.
pub const AUDIO_CONFIG_ERROR: u32 = 1;

/// What the video socket tells before its packets.
#[derive(Debug)]
pub struct VideoMeta {
    pub device_name: String,
    pub codec_id: u32,
}

/// What the audio socket tells before its packets.
#[derive(Clone, Copy, Debug)]
pub struct AudioMeta {
    pub codec_id: u32,
}

/// One media packet.
#[derive(Debug)]
pub struct Packet {
    pub is_config: bool,
    pub is_key: bool,
    /// Presentation time in microseconds.
    pub pts: u64,
    pub data: Vec<u8>,
}

/// One thing read off a media socket: a new resolution, on the video socket alone, or a packet.
#[derive(Debug)]
pub enum StreamEvent {
    Resolution { width: u32, height: u32 },
    Packet(Packet),
}

/// What a [`Packet`] holds.
pub struct PacketView {
    pub is_config: bool,
    pub is_key: bool,
    pub pts: u64,
    pub data: Seq<u8>,
}

/// What a [`StreamEvent`] says.
pub enum EventView {
    Resolution { width: u32, height: u32 },
    Packet(PacketView),
}

impl View for Packet {
    type V = PacketView;

    open spec fn view(&self) -> PacketView {
        PacketView {
            is_config: self.is_config,
            is_key: self.is_key,
            pts: self.pts,
            data: self.data@,
        }
    }
}

impl View for StreamEvent {
    type V = EventView;

    open spec fn view(&self) -> EventView {
        match *self {
            StreamEvent::Resolution { width, height } => EventView::Resolution { width, height },
            StreamEvent::Packet(p) => EventView::Packet(p@),
        }
    }
}

/// What came of looking for an event at the front of some bytes.
pub enum EventRead {
    /// The event, and the number of bytes that it takes.
    Event { event: StreamEvent, used: usize },
    /// It takes at least so many bytes, and there are fewer.
    NeedMore(usize),
    /// No packet has this size.
    BadSize(usize),
}

/// What an [`EventRead`] says.
pub enum ReadView {
    Event { event: EventView, used: nat },
    NeedMore(nat),
    BadSize(nat),
}

impl View for EventRead {
    type V = ReadView;

    open spec fn view(&self) -> ReadView {
        match *self {
            EventRead::Event { event, used } => ReadView::Event { event: event@, used: used as nat },
            EventRead::NeedMore(n) => ReadView::NeedMore(n as nat),
            EventRead::BadSize(n) => ReadView::BadSize(n as nat),
        }
    }
}

/// What stands at the front of `b`.
pub open spec fn event_at_front(b: Seq<u8>) -> ReadView {
    if b.len() < EVENT_HEADER_LEN {
        ReadView::NeedMore(EVENT_HEADER_LEN as nat)
    } else {
        let header = bytes::be64(b, 0);
        let n = bytes::be32(b, 8);
        if header & PACKET_FLAG_SESSION != 0 {
            ReadView::Event {
                event: EventView::Resolution {
                    width: (header % 0x1_0000_0000) as u32,
                    height: n,
                },
                used: EVENT_HEADER_LEN as nat,
            }
        } else if n == 0 || n > MAX_PACKET_SIZE {
            ReadView::BadSize(n as nat)
        } else if b.len() < EVENT_HEADER_LEN + n {
            ReadView::NeedMore((EVENT_HEADER_LEN + n) as nat)
        } else {
            ReadView::Event {
                event: EventView::Packet(
                    PacketView {
                        is_config: header & PACKET_FLAG_CONFIG != 0,
                        is_key: header & PACKET_FLAG_KEY_FRAME != 0,
                        pts: header & PTS_MASK,
                        data: b.subrange(EVENT_HEADER_LEN as int, EVENT_HEADER_LEN + n),
                    },
                ),
                used: (EVENT_HEADER_LEN + n) as nat,
            }
        }
    }
}

/// Reads the event at the front of `buf`.
pub fn read_event(buf: &[u8]) -> (r: EventRead)
    ensures
        r@ == event_at_front(buf@),
{
    if buf.len() < EVENT_HEADER_LEN {
        return EventRead::NeedMore(EVENT_HEADER_LEN);
    }
    let header: u64 = bytes::read_be64(buf, 0);
    let n: u32 = bytes::read_be32(buf, 8);
    if header & PACKET_FLAG_SESSION != 0 {
        let width: u32 = (header % 0x1_0000_0000) as u32;
        return EventRead::Event {
            event: StreamEvent::Resolution { width, height: n },
            used: EVENT_HEADER_LEN,
        };
    }
    let size: usize = n as usize;
    if size == 0 || size > MAX_PACKET_SIZE {
        return EventRead::BadSize(size);
    }
    let end: usize = EVENT_HEADER_LEN + size;
    if buf.len() < end {
        return EventRead::NeedMore(end);
    }
    let data = vstd::slice::slice_to_vec(vstd::slice::slice_subrange(buf, EVENT_HEADER_LEN, end));
    let packet = Packet {
        is_config: header & PACKET_FLAG_CONFIG != 0,
        is_key: header & PACKET_FLAG_KEY_FRAME != 0,
        pts: header & PTS_MASK,
        data,
    };
    EventRead::Event { event: StreamEvent::Packet(packet), used: end }
}

/// The error for a packet that is not believed.
pub fn bad_size_message(size: usize) -> (r: String)
    ensures
        r@ == "implausible packet size "@ + text::decimal(size as nat),
{
    let mut s = "implausible packet size ".to_string();
    s.append(text::dec(size as u64).as_str());
    s
}

impl EventView {
    /// Whether the wire can carry the event: a packet's time must leave the flags alone, and its
    /// size must be believable.
    pub open spec fn sendable(self) -> bool {
        match self {
            EventView::Resolution { .. } => true,
            EventView::Packet(p) => p.pts <= PTS_MASK && 0 < p.data.len() <= MAX_PACKET_SIZE,
        }
    }

    /// The event on the wire.
    pub open spec fn encoded(self) -> Seq<u8> {
        match self {
            EventView::Resolution { width, height } => bytes::be64_bytes(
                (PACKET_FLAG_SESSION + width) as u64,
            ) + bytes::be32_bytes(height),
            EventView::Packet(p) => bytes::be64_bytes(packet_header(p.is_config, p.is_key, p.pts))
                + bytes::be32_bytes(p.data.len() as u32) + p.data,
        }
    }
}

/// The header of a packet: its flags above its time.
pub open spec fn packet_header(is_config: bool, is_key: bool, pts: u64) -> u64 {
    ((if is_config {
        PACKET_FLAG_CONFIG as int
    } else {
        0
    }) + (if is_key {
        PACKET_FLAG_KEY_FRAME as int
    } else {
        0
    }) + pts) as u64
}

proof fn lemma_session_header(width: u32, h: u64)
    requires
        h == PACKET_FLAG_SESSION + width,
    ensures
        h & PACKET_FLAG_SESSION != 0,
        h % 0x1_0000_0000 == width,
{
    let w: u64 = width as u64;
    assert(h & 0x8000_0000_0000_0000 != 0) by (bit_vector)
        requires
            h == 0x8000_0000_0000_0000u64 + w,
            w <= 0xffff_ffff,
    ;
}

proof fn lemma_packet_header(is_config: bool, is_key: bool, pts: u64)
    requires
        pts <= PTS_MASK,
    ensures
        ({
            let h = packet_header(is_config, is_key, pts);
            &&& h & PACKET_FLAG_SESSION == 0
            &&& (h & PACKET_FLAG_CONFIG != 0) == is_config
            &&& (h & PACKET_FLAG_KEY_FRAME != 0) == is_key
            &&& h & PTS_MASK == pts
        }),
{
    let h = packet_header(is_config, is_key, pts);
    let c: u64 = if is_config {
        0x4000_0000_0000_0000
    } else {
        0
    };
    let k: u64 = if is_key {
        0x2000_0000_0000_0000
    } else {
        0
    };
    assert(h == c + k + pts);
    assert(h & 0x8000_0000_0000_0000 == 0 && (h & 0x4000_0000_0000_0000 != 0) == (c != 0) && (h
        & 0x2000_0000_0000_0000 != 0) == (k != 0) && h & 0x1fff_ffff_ffff_ffff == pts)
        by (bit_vector)
        requires
            h == c + k + pts,
            c == 0 || c == 0x4000_0000_0000_0000,
            k == 0 || k == 0x2000_0000_0000_0000,
            pts <= 0x1fff_ffff_ffff_ffff,
    ;
}

/// A resolution on the wire is read back.
#[verifier::spinoff_prover]
proof fn lemma_resolution(width: u32, height: u32, rest: Seq<u8>)
    ensures
        ({
            let event = EventView::Resolution { width, height };
            event_at_front(event.encoded() + rest) == (ReadView::Event {
                event,
                used: event.encoded().len(),
            })
        }),
{
    let e = (EventView::Resolution { width, height }).encoded();
    let b = e + rest;
    let h = (PACKET_FLAG_SESSION + width) as u64;
    assert(b.subrange(0, 8) =~= bytes::be64_bytes(h));
    assert(b.subrange(8, 12) =~= bytes::be32_bytes(height));
    bytes::lemma_be64(b, 0, h);
    bytes::lemma_be32(b, 8, height);
    lemma_session_header(width, h);
}

/// A packet on the wire is read back.
#[verifier::spinoff_prover]
proof fn lemma_packet(p: PacketView, rest: Seq<u8>)
    requires
        EventView::Packet(p).sendable(),
    ensures
        ({
            let event = EventView::Packet(p);
            event_at_front(event.encoded() + rest) == (ReadView::Event {
                event,
                used: event.encoded().len(),
            })
        }),
{
    let e = EventView::Packet(p).encoded();
    let b = e + rest;
    let h = packet_header(p.is_config, p.is_key, p.pts);
    let n = p.data.len() as u32;
    assert(b.subrange(0, 8) =~= bytes::be64_bytes(h));
    assert(b.subrange(8, 12) =~= bytes::be32_bytes(n));
    bytes::lemma_be64(b, 0, h);
    bytes::lemma_be32(b, 8, n);
    lemma_packet_header(p.is_config, p.is_key, p.pts);
    assert(b.subrange(EVENT_HEADER_LEN as int, EVENT_HEADER_LEN + n) =~= p.data);
}

/// An event on the wire is read back, whatever follows it, and exactly its bytes are used.
pub proof fn law_event_is_read_back(event: EventView, rest: Seq<u8>)
    requires
        event.sendable(),
    ensures
        event_at_front(event.encoded() + rest) == (ReadView::Event {
            event,
            used: event.encoded().len(),
        }),
{
    match event {
        EventView::Resolution { width, height } => lemma_resolution(width, height, rest),
        EventView::Packet(p) => lemma_packet(p, rest),
    }
}

/// What was read does not change when more bytes come in, unless it was that more are needed.
pub proof fn law_reading_is_stable(b: Seq<u8>, more: Seq<u8>)
    ensures
        !(event_at_front(b) is NeedMore) ==> event_at_front(b + more) == event_at_front(b),
        event_at_front(b) matches ReadView::NeedMore(n) ==> n > b.len(),
        event_at_front(b) matches ReadView::Event { used, .. } ==> EVENT_HEADER_LEN <= used
            <= b.len(),
{
    let c = b + more;
    if b.len() >= EVENT_HEADER_LEN {
        assert(bytes::be64(c, 0) == bytes::be64(b, 0));
        assert(bytes::be32(c, 8) == bytes::be32(b, 8));
        let n = bytes::be32(b, 8);
        if b.len() >= EVENT_HEADER_LEN + n {
            assert(c.subrange(EVENT_HEADER_LEN as int, EVENT_HEADER_LEN + n) =~= b.subrange(
                EVENT_HEADER_LEN as int,
                EVENT_HEADER_LEN + n,
            ));
        }
    }
}

/// A sequence of events on the wire.
pub open spec fn stream_of(events: Seq<EventView>) -> Seq<u8>
    decreases events.len(),
{
    if events.len() == 0 {
        seq![]
    } else {
        events[0].encoded() + stream_of(events.drop_first())
    }
}

/// The events that reading one after the other from the front of `b` gives, up to the first that
/// is not there in full.
pub open spec fn events_in(b: Seq<u8>) -> Seq<EventView>
    decreases b.len(),
{
    match event_at_front(b) {
        ReadView::Event { event, used } => if 0 < used <= b.len() {
            seq![event] + events_in(b.skip(used as int))
        } else {
            seq![]
        },
        _ => seq![],
    }
}

/// The events in `b` begin with the one at its front.
proof fn lemma_first_event(b: Seq<u8>, event: EventView, rest: Seq<u8>)
    requires
        event.sendable(),
        b == event.encoded() + rest,
    ensures
        events_in(b) == seq![event] + events_in(rest),
{
    law_event_is_read_back(event, rest);
    assert(event.encoded().len() > 0);
    assert(b.skip(event.encoded().len() as int) =~= rest);
}

/// There is no event in nothing.
proof fn lemma_no_event()
    ensures
        events_in(seq![]) == Seq::<EventView>::empty(),
{
}

/// Every stream of events that the wire can carry is read back, event by event.
pub proof fn law_stream_is_read_back(events: Seq<EventView>)
    requires
        forall|i: int| 0 <= i < events.len() ==> (#[trigger] events[i]).sendable(),
    ensures
        events_in(stream_of(events)) == events,
    decreases events.len(),
{
    if events.len() == 0 {
        lemma_no_event();
        assert(events =~= seq![]);
    } else {
        let tail = events.drop_first();
        assert forall|i: int| 0 <= i < tail.len() implies (#[trigger] tail[i]).sendable() by {
            assert(tail[i] == events[i + 1]);
        }
        law_stream_is_read_back(tail);
        lemma_first_event(stream_of(events), events[0], stream_of(tail));
        assert(seq![events[0]] + tail =~= events);
    }
}

/// What a codec id means, or its number in hexadecimal.
pub open spec fn codec_label(id: u32) -> Seq<char> {
    if id == CODEC_ID_H264 {
        "h264"@
    } else if id == CODEC_ID_AAC {
        "aac"@
    } else if id == CODEC_ID_OPUS {
        "opus"@
    } else if id == AUDIO_DISABLED {
        "disabled"@
    } else if id == AUDIO_CONFIG_ERROR {
        "config-error"@
    } else {
        "0x"@ + text::hex(id as nat, 8)
    }
}

/// What a codec id means.
pub fn codec_name(id: u32) -> (r: String)
    ensures
        r@ == codec_label(id),
{
    if id == CODEC_ID_H264 {
        "h264".to_string()
    } else if id == CODEC_ID_AAC {
        "aac".to_string()
    } else if id == CODEC_ID_OPUS {
        "opus".to_string()
    } else if id == AUDIO_DISABLED {
        "disabled".to_string()
    } else if id == AUDIO_CONFIG_ERROR {
        "config-error".to_string()
    } else {
        let mut s = "0x".to_string();
        s.append(text::hex_digits(id, 8).as_str());
        s
    }
}

/// The bytes in front of the first zero byte.
pub open spec fn before_zero(b: Seq<u8>) -> Seq<u8>
    decreases b.len(),
{
    if b.len() == 0 || b[0] == 0 {
        seq![]
    } else {
        seq![b[0]] + before_zero(b.drop_first())
    }
}

/// The device's name, from the bytes that carry it.
pub fn parse_device_name(name: &[u8]) -> (r: String)
    ensures
        r@ == text::utf8_lossy(before_zero(name@)),
{
    let mut end: usize = 0;
    assert(name@.skip(0) =~= name@);
    while end < name.len() && name[end] != 0
        invariant
            end <= name@.len(),
            name@.take(end as int) + before_zero(name@.skip(end as int)) =~= before_zero(name@),
        decreases name@.len() - end,
    {
        proof {
            let t = name@.skip(end as int);
            assert(t.drop_first() =~= name@.skip(end + 1));
            assert(name@.take(end + 1) =~= name@.take(end as int) + seq![t[0]]);
        }
        end = end + 1;
    }
    proof {
        assert(before_zero(name@.skip(end as int)) =~= seq![]);
    }
    text::from_utf8_lossy(vstd::slice::slice_subrange(name, 0, end))
}

/// How far a handshake has come.
#[derive(Clone, Copy, Debug, PartialEq, Eq, Structural)]
pub enum HandshakeStage {
    /// The video socket is to be connected.
    ConnectVideo,
    /// The first byte is to be read off the video socket.
    ReadDummy,
    /// The video socket closed before its first byte: the server was not up yet.
    VideoLost,
    /// The audio socket is to be connected.
    ConnectAudio,
    /// The device's name is to be read off the video socket.
    ReadName,
    /// The codec id is to be read off the video socket.
    ReadVideoCodec,
    /// The codec id is to be read off the audio socket.
    ReadAudioCodec,
    /// Everything was read.
    Done,
}

/// Why a handshake failed.
#[derive(Clone, Copy, Debug, PartialEq, Eq, Structural)]
pub enum HandshakeError {
    /// The port refused the connection until the time was up.
    Refused,
    /// The time was up before a connection was tried.
    TimedOut,
    /// The server never sent its first byte.
    NoHandshakeByte,
}

impl HandshakeError {
    /// The error in words.
    pub open spec fn text(self) -> Seq<char> {
        match self {
            HandshakeError::Refused => "could not connect to forwarded scrcpy port"@,
            HandshakeError::TimedOut => "timed out connecting to scrcpy port"@,
            HandshakeError::NoHandshakeByte => "scrcpy server never delivered the handshake byte"@,
        }
    }

    /// The error in words.
    pub fn message(&self) -> (r: &'static str)
        ensures
            r@ == self.text(),
    {
        match self {
            HandshakeError::Refused => "could not connect to forwarded scrcpy port",
            HandshakeError::TimedOut => "timed out connecting to scrcpy port",
            HandshakeError::NoHandshakeByte => "scrcpy server never delivered the handshake byte",
        }
    }
}

/// What to do next.
#[derive(Clone, Copy, Debug, PartialEq, Eq, Structural)]
pub enum HandshakeAction {
    /// Open a connection to the port: the video socket, or behind it the audio socket.
    Connect,
    /// Read one byte off the video socket.
    ReadDummy,
    /// Close the video socket, wait, and start over.
    Retry,
    /// Read the device's name off the video socket.
    ReadName,
    /// Read a codec id off the video socket.
    ReadVideoCodec,
    /// Read a codec id off the audio socket.
    ReadAudioCodec,
    /// The handshake is complete.
    Finish,
    /// Give up.
    Fail(HandshakeError),
}

/// What happened.
pub enum HandshakeEvent {
    /// A connection was opened.
    Connected,
    /// A connection was refused.
    Refused,
    /// The first byte was read, or it was not.
    Dummy(bool),
    /// The wait before a new attempt is over.
    Waited,
    /// The bytes of the device's name were read.
    Name(Vec<u8>),
    /// A codec id was read.
    Codec(u32),
}

/// What a [`HandshakeEvent`] says.
pub enum HandshakeEventView {
    Connected,
    Refused,
    Dummy(bool),
    Waited,
    Name(Seq<u8>),
    Codec(u32),
}

impl View for HandshakeEvent {
    type V = HandshakeEventView;

    open spec fn view(&self) -> HandshakeEventView {
        match *self {
            HandshakeEvent::Connected => HandshakeEventView::Connected,
            HandshakeEvent::Refused => HandshakeEventView::Refused,
            HandshakeEvent::Dummy(ok) => HandshakeEventView::Dummy(ok),
            HandshakeEvent::Waited => HandshakeEventView::Waited,
            HandshakeEvent::Name(b) => HandshakeEventView::Name(b@),
            HandshakeEvent::Codec(id) => HandshakeEventView::Codec(id),
        }
    }
}

/// The order in which the sockets are connected and read. All sockets are connected before
/// anything but the first byte is read: the server sends nothing else until it has accepted them.
pub struct Handshake {
    want_audio: bool,
    stage: HandshakeStage,
    /// Whether the connection that is being tried was refused before.
    refused: bool,
    /// The number of sockets that are connected.
    sockets: u8,
    device_name: String,
    video_codec: u32,
    audio_codec: u32,
}

/// The state of a [`Handshake`].
pub struct HandshakeView {
    pub want_audio: bool,
    pub stage: HandshakeStage,
    pub refused: bool,
    pub sockets: int,
    pub device_name: Seq<char>,
    pub video_codec: u32,
    pub audio_codec: u32,
}

impl View for Handshake {
    type V = HandshakeView;

    closed spec fn view(&self) -> HandshakeView {
        HandshakeView {
            want_audio: self.want_audio,
            stage: self.stage,
            refused: self.refused,
            sockets: self.sockets as int,
            device_name: self.device_name@,
            video_codec: self.video_codec,
            audio_codec: self.audio_codec,
        }
    }
}

impl HandshakeView {
    /// The state before anything happened.
    pub open spec fn start(want_audio: bool) -> HandshakeView {
        HandshakeView {
            want_audio,
            stage: HandshakeStage::ConnectVideo,
            refused: false,
            sockets: 0,
            device_name: seq![],
            video_codec: 0,
            audio_codec: 0,
        }
    }

    /// What to do next, where `expired` tells whether the time is up. A connection is tried, or a
    /// lost one replaced, only while there is time.
    pub open spec fn action(self, expired: bool) -> HandshakeAction {
        match self.stage {
            HandshakeStage::ConnectVideo | HandshakeStage::ConnectAudio => if !expired {
                HandshakeAction::Connect
            } else if self.refused {
                HandshakeAction::Fail(HandshakeError::Refused)
            } else {
                HandshakeAction::Fail(HandshakeError::TimedOut)
            },
            HandshakeStage::ReadDummy => HandshakeAction::ReadDummy,
            HandshakeStage::VideoLost => if expired {
                HandshakeAction::Fail(HandshakeError::NoHandshakeByte)
            } else {
                HandshakeAction::Retry
            },
            HandshakeStage::ReadName => HandshakeAction::ReadName,
            HandshakeStage::ReadVideoCodec => HandshakeAction::ReadVideoCodec,
            HandshakeStage::ReadAudioCodec => HandshakeAction::ReadAudioCodec,
            HandshakeStage::Done => HandshakeAction::Finish,
        }
    }

    /// The state once `event` has happened. An event that the stage does not wait for changes
    /// nothing.
    pub open spec fn after(self, event: HandshakeEventView) -> HandshakeView {
        match (self.stage, event) {
            (HandshakeStage::ConnectVideo, HandshakeEventView::Connected) => HandshakeView {
                stage: HandshakeStage::ReadDummy,
                refused: false,
                sockets: 1,
                ..self
            },
            (HandshakeStage::ConnectAudio, HandshakeEventView::Connected) => HandshakeView {
                stage: HandshakeStage::ReadName,
                refused: false,
                sockets: 2,
                ..self
            },
            (HandshakeStage::ConnectVideo, HandshakeEventView::Refused)
            | (HandshakeStage::ConnectAudio, HandshakeEventView::Refused) => HandshakeView {
                refused: true,
                ..self
            },
            (HandshakeStage::ReadDummy, HandshakeEventView::Dummy(ok)) => if !ok {
                HandshakeView { stage: HandshakeStage::VideoLost, sockets: 0, ..self }
            } else if self.want_audio {
                HandshakeView { stage: HandshakeStage::ConnectAudio, ..self }
            } else {
                HandshakeView { stage: HandshakeStage::ReadName, ..self }
            },
            (HandshakeStage::VideoLost, HandshakeEventView::Waited) => HandshakeView {
                stage: HandshakeStage::ConnectVideo,
                ..self
            },
            (HandshakeStage::ReadName, HandshakeEventView::Name(b)) => HandshakeView {
                stage: HandshakeStage::ReadVideoCodec,
                device_name: text::utf8_lossy(before_zero(b)),
                ..self
            },
            (HandshakeStage::ReadVideoCodec, HandshakeEventView::Codec(id)) => HandshakeView {
                stage: if self.want_audio {
                    HandshakeStage::ReadAudioCodec
                } else {
                    HandshakeStage::Done
                },
                video_codec: id,
                ..self
            },
            (HandshakeStage::ReadAudioCodec, HandshakeEventView::Codec(id)) => HandshakeView {
                stage: HandshakeStage::Done,
                audio_codec: id,
                ..self
            },
            _ => self,
        }
    }

    /// The state once all of `events` have happened, one behind the other.
    pub open spec fn after_all(self, events: Seq<HandshakeEventView>) -> HandshakeView
        decreases events.len(),
    {
        if events.len() == 0 {
            self
        } else {
            self.after_all(events.drop_last()).after(events.last())
        }
    }

    /// What the audio socket told, if audio was asked for and the device did not refuse it.
    pub open spec fn audio(self) -> Option<u32> {
        if self.want_audio && self.audio_codec != AUDIO_DISABLED {
            Some(self.audio_codec)
        } else {
            None
        }
    }

    /// Whether the sockets that are connected fit the stage.
    pub open spec fn in_order(self) -> bool {
        match self.stage {
            HandshakeStage::ConnectVideo | HandshakeStage::VideoLost => self.sockets == 0,
            HandshakeStage::ReadDummy => self.sockets == 1,
            HandshakeStage::ConnectAudio => self.sockets == 1 && self.want_audio,
            HandshakeStage::ReadAudioCodec => self.sockets == 2 && self.want_audio,
            _ => self.sockets == if self.want_audio {
                2int
            } else {
                1int
            },
        }
    }
}

/// Whatever happens, the name and the codec ids are read only once every socket that is wanted is
/// connected, so the server is never waited for while it waits for a connection.
pub proof fn law_sockets_before_metadata(
    want_audio: bool,
    events: Seq<HandshakeEventView>,
    expired: bool,
)
    ensures
        ({
            let s = HandshakeView::start(want_audio).after_all(events);
            &&& s.want_audio == want_audio
            &&& s.in_order()
            &&& (s.action(expired) is ReadName || s.action(expired) is ReadVideoCodec || s.action(
                expired,
            ) is ReadAudioCodec || s.action(expired) is Finish) ==> s.sockets == if want_audio {
                2int
            } else {
                1int
            }
        }),
    decreases events.len(),
{
    if events.len() > 0 {
        law_sockets_before_metadata(want_audio, events.drop_last(), expired);
    }
}

/// A handshake in which nothing goes wrong ends with what the two sockets told.
pub proof fn law_smooth_handshake(want_audio: bool, name: Seq<u8>, video: u32, audio: u32)
    ensures
        ({
            let head = seq![HandshakeEventView::Connected, HandshakeEventView::Dummy(true)];
            let tail = seq![HandshakeEventView::Name(name), HandshakeEventView::Codec(video)];
            let events = if want_audio {
                head + seq![HandshakeEventView::Connected] + tail + seq![
                    HandshakeEventView::Codec(audio),
                ]
            } else {
                head + tail
            };
            let s = HandshakeView::start(want_audio).after_all(events);
            &&& s.stage == HandshakeStage::Done
            &&& s.device_name == text::utf8_lossy(before_zero(name))
            &&& s.video_codec == video
            &&& want_audio ==> s.audio_codec == audio
        }),
{
    let s0 = HandshakeView::start(want_audio);
    let e1 = seq![HandshakeEventView::Connected];
    let e2 = e1.push(HandshakeEventView::Dummy(true));
    let e3 = if want_audio {
        e2.push(HandshakeEventView::Connected)
    } else {
        e2
    };
    let e4 = e3.push(HandshakeEventView::Name(name));
    let e5 = e4.push(HandshakeEventView::Codec(video));
    let e6 = if want_audio {
        e5.push(HandshakeEventView::Codec(audio))
    } else {
        e5
    };
    assert(e1.drop_last() =~= seq![]);
    assert(s0.after_all(e1.drop_last()) == s0);
    assert(s0.after_all(e1).stage == HandshakeStage::ReadDummy);
    assert(e2.drop_last() =~= e1);
    assert(s0.after_all(e2) == s0.after_all(e1).after(e2.last()));
    if want_audio {
        assert(e3.drop_last() =~= e2);
        assert(s0.after_all(e3) == s0.after_all(e2).after(e3.last()));
    }
    assert(s0.after_all(e3).stage == HandshakeStage::ReadName);
    assert(e4.drop_last() =~= e3);
    assert(s0.after_all(e4) == s0.after_all(e3).after(e4.last()));
    assert(e5.drop_last() =~= e4);
    assert(s0.after_all(e5) == s0.after_all(e4).after(e5.last()));
    if want_audio {
        assert(e6.drop_last() =~= e5);
        assert(s0.after_all(e6) == s0.after_all(e5).after(e6.last()));
        let head = seq![HandshakeEventView::Connected, HandshakeEventView::Dummy(true)];
        let tail = seq![HandshakeEventView::Name(name), HandshakeEventView::Codec(video)];
        assert(e6 =~= head + seq![HandshakeEventView::Connected] + tail + seq![
            HandshakeEventView::Codec(audio),
        ]);
    } else {
        let head = seq![HandshakeEventView::Connected, HandshakeEventView::Dummy(true)];
        let tail = seq![HandshakeEventView::Name(name), HandshakeEventView::Codec(video)];
        assert(e6 =~= head + tail);
    }
}

impl Handshake {
    /// A handshake that has not begun.
    pub fn new(want_audio: bool) -> (r: Handshake)
        ensures
            r@ == HandshakeView::start(want_audio),
    {
        Handshake {
            want_audio,
            stage: HandshakeStage::ConnectVideo,
            refused: false,
            sockets: 0,
            device_name: String::new(),
            video_codec: 0,
            audio_codec: 0,
        }
    }

    /// What to do next, where `expired` tells whether the time is up.
    pub fn action(&self, expired: bool) -> (r: HandshakeAction)
        ensures
            r == self@.action(expired),
    {
        match self.stage {
            HandshakeStage::ConnectVideo | HandshakeStage::ConnectAudio => if !expired {
                HandshakeAction::Connect
            } else if self.refused {
                HandshakeAction::Fail(HandshakeError::Refused)
            } else {
                HandshakeAction::Fail(HandshakeError::TimedOut)
            },
            HandshakeStage::ReadDummy => HandshakeAction::ReadDummy,
            HandshakeStage::VideoLost => if expired {
                HandshakeAction::Fail(HandshakeError::NoHandshakeByte)
            } else {
                HandshakeAction::Retry
            },
            HandshakeStage::ReadName => HandshakeAction::ReadName,
            HandshakeStage::ReadVideoCodec => HandshakeAction::ReadVideoCodec,
            HandshakeStage::ReadAudioCodec => HandshakeAction::ReadAudioCodec,
            HandshakeStage::Done => HandshakeAction::Finish,
        }
    }

    /// Takes note of what happened.
    pub fn step(&mut self, event: HandshakeEvent)
        ensures
            final(self)@ == old(self)@.after(event@),
    {
        match (self.stage, event) {
            (HandshakeStage::ConnectVideo, HandshakeEvent::Connected) => {
                self.stage = HandshakeStage::ReadDummy;
                self.refused = false;
                self.sockets = 1;
            },
            (HandshakeStage::ConnectAudio, HandshakeEvent::Connected) => {
                self.stage = HandshakeStage::ReadName;
                self.refused = false;
                self.sockets = 2;
            },
            (HandshakeStage::ConnectVideo, HandshakeEvent::Refused) => {
                self.refused = true;
            },
            (HandshakeStage::ConnectAudio, HandshakeEvent::Refused) => {
                self.refused = true;
            },
            (HandshakeStage::ReadDummy, HandshakeEvent::Dummy(ok)) => {
                if !ok {
                    self.stage = HandshakeStage::VideoLost;
                    self.sockets = 0;
                } else if self.want_audio {
                    self.stage = HandshakeStage::ConnectAudio;
                } else {
                    self.stage = HandshakeStage::ReadName;
                }
            },
            (HandshakeStage::VideoLost, HandshakeEvent::Waited) => {
                self.stage = HandshakeStage::ConnectVideo;
            },
            (HandshakeStage::ReadName, HandshakeEvent::Name(b)) => {
                self.stage = HandshakeStage::ReadVideoCodec;
                self.device_name = parse_device_name(b.as_slice());
            },
            (HandshakeStage::ReadVideoCodec, HandshakeEvent::Codec(id)) => {
                self.stage = if self.want_audio {
                    HandshakeStage::ReadAudioCodec
                } else {
                    HandshakeStage::Done
                };
                self.video_codec = id;
            },
            (HandshakeStage::ReadAudioCodec, HandshakeEvent::Codec(id)) => {
                self.stage = HandshakeStage::Done;
                self.audio_codec = id;
            },
            _ => {},
        }
    }

    /// What the video socket told.
    pub fn video_meta(&self) -> (r: VideoMeta)
        ensures
            r.device_name@ == self@.device_name,
            r.codec_id == self@.video_codec,
    {
        VideoMeta { device_name: self.device_name.clone(), codec_id: self.video_codec }
    }

    /// What the audio socket told, if audio was asked for and the device did not refuse it.
    pub fn audio_meta(&self) -> (r: Option<AudioMeta>)
        ensures
            r == if self@.want_audio && self@.audio_codec != AUDIO_DISABLED {
                Some(AudioMeta { codec_id: self@.audio_codec })
            } else {
                None
            },
            match r {
                Some(m) => self@.audio() == Some(m.codec_id),
                None => self@.audio() is None,
            },
    {
        if self.want_audio && self.audio_codec != AUDIO_DISABLED {
            Some(AudioMeta { codec_id: self.audio_codec })
        } else {
            None
        }
    }
}

/// What the first byte of an event says: its highest bit announces a resolution, whatever stands in
/// the bits below; of a packet the next two tell configuration and key frame, and all that is left
/// is the time.
pub proof fn law_flags_are_the_highest_bits(b: Seq<u8>)
    requires
        b.len() >= EVENT_HEADER_LEN,
    ensures
        b[0] >= 128 ==> event_at_front(b) == (ReadView::Event {
            event: EventView::Resolution { width: bytes::be32(b, 4), height: bytes::be32(b, 8) },
            used: 12,
        }),
        event_at_front(b) matches ReadView::Event { event: EventView::Packet(p), used } ==> {
            &&& b[0] < 128
            &&& p.is_config <==> b[0] as int / 64 % 2 == 1
            &&& p.is_key <==> b[0] as int / 32 % 2 == 1
            &&& p.pts == bytes::be64(b, 0) % 0x2000_0000_0000_0000
            &&& p.data.len() == bytes::be32(b, 8)
            &&& used == 12 + p.data.len()
        },
{
    lemma_flags(b);
}

/// The flags of a header, from its first byte.
#[verifier::spinoff_prover]
proof fn lemma_flags(b: Seq<u8>)
    requires
        b.len() >= 8,
    ensures
        ({
            let h = bytes::be64(b, 0);
            &&& (h & PACKET_FLAG_SESSION != 0) == (b[0] >= 128)
            &&& (h & PACKET_FLAG_CONFIG != 0) == (b[0] as int / 64 % 2 == 1)
            &&& (h & PACKET_FLAG_KEY_FRAME != 0) == (b[0] as int / 32 % 2 == 1)
            &&& h & PTS_MASK == h % 0x2000_0000_0000_0000
            &&& h % 0x1_0000_0000 == bytes::be32(b, 4)
        }),
{
    let h = bytes::be64(b, 0);
    let (hi, lo) = (bytes::be32(b, 0), bytes::be32(b, 4));
    let f = b[0] as u64;
    let rest = b[1] * 0x1_0000 + b[2] * 0x100 + b[3];
    let low = (rest * 0x1_0000_0000 + lo) as u64;
    assert(hi == f * 0x100_0000 + rest);
    assert(h == hi * 0x1_0000_0000 + lo);
    assert(h == f * 0x100_0000_0000_0000 + low);
    lemma_top_byte(h, f, low);
}

/// The highest byte of a number holds its highest bits.
proof fn lemma_top_byte(h: u64, f: u64, low: u64)
    requires
        h == f * 0x100_0000_0000_0000 + low,
        f < 256,
        low < 0x100_0000_0000_0000,
    ensures
        (h & 0x8000_0000_0000_0000 != 0) == (f >= 128),
        (h & 0x4000_0000_0000_0000 != 0) == (f / 64 % 2 == 1),
        (h & 0x2000_0000_0000_0000 != 0) == (f / 32 % 2 == 1),
        h & 0x1fff_ffff_ffff_ffff == h % 0x2000_0000_0000_0000,
{
    assert((h & 0x8000_0000_0000_0000 != 0) == (f >= 128) && (h & 0x4000_0000_0000_0000 != 0) == (f
        / 64 % 2 == 1) && (h & 0x2000_0000_0000_0000 != 0) == (f / 32 % 2 == 1) && h
        & 0x1fff_ffff_ffff_ffff == h % 0x2000_0000_0000_0000) by (bit_vector)
        requires
            h == f * 0x100_0000_0000_0000u64 + low,
            f < 256,
            low < 0x100_0000_0000_0000,
    ;
}

/// A packet is refused where it is said to be empty or larger than 64 MiB, and no other is.
pub proof fn law_unbelievable_sizes_are_refused(b: Seq<u8>)
    requires
        b.len() >= EVENT_HEADER_LEN,
        b[0] < 128,
    ensures
        ({
            let n = bytes::be32(b, 8);
            &&& n == 0 || n > 64 * 1024 * 1024 <==> event_at_front(b) is BadSize
            &&& event_at_front(b) matches ReadView::BadSize(k) ==> k == n
            &&& event_at_front(b) matches ReadView::NeedMore(k) ==> k == 12 + n
        }),
{
    lemma_flags(b);
}

/// A codec is named by the letters that its id is made of; any other id is told in hexadecimal and
/// is read back from that.
pub proof fn law_codecs_are_named_by_their_letters(id: u32)
    ensures
        ({
            let (b, name) = (bytes::be32_bytes(id), codec_label(id));
            &&& name == "h264"@ <==> b == seq![0x68u8, 0x32u8, 0x36u8, 0x34u8]
            &&& name == "aac"@ <==> b == seq![0u8, 0x61u8, 0x61u8, 0x63u8]
            &&& name == "opus"@ <==> b == seq![0x6fu8, 0x70u8, 0x75u8, 0x73u8]
            &&& name == "disabled"@ <==> id == 0
            &&& name == "config-error"@ <==> id == 1
            &&& name == "h264"@ || name == "aac"@ || name == "opus"@ || name == "disabled"@ || name
                == "config-error"@ || (name.len() == 10 && name.take(2) == "0x"@ && text::hex_value(
                name.skip(2),
            ) == id)
        }),
{
    let name = codec_label(id);
    let b = bytes::be32_bytes(id);
    reveal_strlit("h264");
    reveal_strlit("aac");
    reveal_strlit("opus");
    reveal_strlit("disabled");
    reveal_strlit("config-error");
    reveal_strlit("0x");
    assert(vstd::arithmetic::power::pow(16, 8) == 0x1_0000_0000) by {
        reveal(vstd::arithmetic::power::pow);
        reveal_with_fuel(vstd::arithmetic::power::pow, 9);
    }
    text::law_hex_is_read_back(id as nat, 8);
    let other = "0x"@ + text::hex(id as nat, 8);
    assert(other.take(2) =~= "0x"@);
    assert(other.skip(2) =~= text::hex(id as nat, 8));
    assert("h264"@[0] == 'h' && "aac"@[0] == 'a' && "opus"@[0] == 'o' && "disabled"@[0] == 'd'
        && "config-error"@[0] == 'c' && other[0] == '0');
    assert(b.subrange(0, 4) =~= b);
    bytes::lemma_be32(b, 0, id);
    let letters = seq![0x68u8, 0x32u8, 0x36u8, 0x34u8];
    if b == letters {
        assert(bytes::be32(letters, 0) == 0x6832_3634);
    }
    let letters = seq![0u8, 0x61u8, 0x61u8, 0x63u8];
    if b == letters {
        assert(bytes::be32(letters, 0) == 0x0061_6163);
    }
    let letters = seq![0x6fu8, 0x70u8, 0x75u8, 0x73u8];
    if b == letters {
        assert(bytes::be32(letters, 0) == 0x6f70_7573);
    }
    if id == CODEC_ID_H264 {
        assert(b =~= seq![0x68u8, 0x32u8, 0x36u8, 0x34u8]);
    } else if id == CODEC_ID_AAC {
        assert(b =~= seq![0u8, 0x61u8, 0x61u8, 0x63u8]);
    } else if id == CODEC_ID_OPUS {
        assert(b =~= seq![0x6fu8, 0x70u8, 0x75u8, 0x73u8]);
    }
}

/// A name ends at the first zero byte, whatever follows that, and where there is none it fills all
/// of its bytes.
pub proof fn law_name_ends_at_zero(name: Seq<u8>, rest: Seq<u8>)
    requires
        forall|i: int| 0 <= i < name.len() ==> #[trigger] name[i] != 0,
    ensures
        before_zero(name) == name,
        before_zero(name + seq![0u8] + rest) == name,
    decreases name.len(),
{
    let padded = name + seq![0u8] + rest;
    if name.len() == 0 {
        assert(padded[0] == 0);
        assert(before_zero(name) =~= name);
        assert(before_zero(padded) =~= name);
    } else {
        let less = name.drop_first();
        assert forall|i: int| 0 <= i < less.len() implies #[trigger] less[i] != 0 by {
            assert(less[i] == name[i + 1]);
        }
        law_name_ends_at_zero(less, rest);
        assert(padded.drop_first() =~= less + seq![0u8] + rest);
        assert(name[0] != 0 && padded[0] == name[0]);
        assert(seq![name[0]] + less =~= name);
    }
}

/// While there is time a handshake never fails, and each step waits for exactly what it asked for:
/// a refused connection is tried again, a video socket that closed too early is replaced after a
/// wait, and the sockets are read one after the other.
pub proof fn law_handshake_goes_on(
    want_audio: bool,
    events: Seq<HandshakeEventView>,
    name: Seq<u8>,
    id: u32,
)
    ensures
        ({
            let s = HandshakeView::start(want_audio).after_all(events);
            match s.action(false) {
                HandshakeAction::Connect => {
                    &&& s.after(HandshakeEventView::Refused).action(false)
                        == HandshakeAction::Connect
                    &&& s.after(HandshakeEventView::Refused).action(true) == HandshakeAction::Fail(
                        HandshakeError::Refused,
                    )
                    &&& s.after(HandshakeEventView::Refused).after(HandshakeEventView::Connected)
                        == s.after(HandshakeEventView::Connected)
                    &&& s.after(HandshakeEventView::Connected).sockets == s.sockets + 1
                    &&& s.after(HandshakeEventView::Connected).action(false) == if s.sockets == 0 {
                        HandshakeAction::ReadDummy
                    } else {
                        HandshakeAction::ReadName
                    }
                },
                HandshakeAction::ReadDummy => {
                    &&& s.after(HandshakeEventView::Dummy(true)).action(false) == if want_audio {
                        HandshakeAction::Connect
                    } else {
                        HandshakeAction::ReadName
                    }
                    &&& s.after(HandshakeEventView::Dummy(false)).action(false)
                        == HandshakeAction::Retry
                    &&& s.after(HandshakeEventView::Dummy(false)).action(true)
                        == HandshakeAction::Fail(HandshakeError::NoHandshakeByte)
                },
                HandshakeAction::Retry => {
                    &&& s.sockets == 0
                    &&& s.after(HandshakeEventView::Waited).sockets == 0
                    &&& s.after(HandshakeEventView::Waited).action(false)
                        == HandshakeAction::Connect
                },
                HandshakeAction::ReadName => {
                    &&& s.after(HandshakeEventView::Name(name)).action(false)
                        == HandshakeAction::ReadVideoCodec
                    &&& s.after(HandshakeEventView::Name(name)).device_name == text::utf8_lossy(
                        before_zero(name),
                    )
                },
                HandshakeAction::ReadVideoCodec => {
                    &&& s.after(HandshakeEventView::Codec(id)).video_codec == id
                    &&& s.after(HandshakeEventView::Codec(id)).device_name == s.device_name
                    &&& s.after(HandshakeEventView::Codec(id)).action(false) == if want_audio {
                        HandshakeAction::ReadAudioCodec
                    } else {
                        HandshakeAction::Finish
                    }
                },
                HandshakeAction::ReadAudioCodec => {
                    &&& want_audio
                    &&& s.after(HandshakeEventView::Codec(id)).audio_codec == id
                    &&& s.after(HandshakeEventView::Codec(id)).video_codec == s.video_codec
                    &&& s.after(HandshakeEventView::Codec(id)).device_name == s.device_name
                    &&& s.after(HandshakeEventView::Codec(id)).action(false)
                        == HandshakeAction::Finish
                },
                HandshakeAction::Finish => s.action(true) == HandshakeAction::Finish,
                HandshakeAction::Fail(_) => false,
            }
        }),
{
    law_sockets_before_metadata(want_audio, events, false);
}

/// An attempt that was lost, however often it was refused before, leaves the handshake where it
/// began; so the next one is as good as the first.
pub proof fn law_lost_attempt_starts_over(want_audio: bool)
    ensures
        ({
            let s = HandshakeView::start(want_audio);
            let lost = s.after(HandshakeEventView::Connected).after(
                HandshakeEventView::Dummy(false),
            ).after(HandshakeEventView::Waited);
            &&& lost == s
            &&& s.after(HandshakeEventView::Refused).after(HandshakeEventView::Connected).after(
                HandshakeEventView::Dummy(false),
            ).after(HandshakeEventView::Waited) == s
        }),
{
}

/// What the audio socket told is handed on, errors too, where audio was asked for; but a device
/// that captures none has told nothing, and so has one that was not asked.
pub proof fn law_audio_codec_is_handed_on(s: HandshakeView, id: u32)
    requires
        s.stage == HandshakeStage::ReadAudioCodec,
        s.want_audio,
    ensures
        id != 0 ==> s.after(HandshakeEventView::Codec(id)).audio() == Some(id),
        s.after(HandshakeEventView::Codec(0)).audio() is None,
        (HandshakeView { want_audio: false, ..s }).audio() is None,
{
}

} // verus!
