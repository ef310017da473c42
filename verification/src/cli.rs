//! The commands that run without a window.
use crate::adb;
use crate::adb::{Device, DeviceView, ServerOptions};
use crate::app::{AppView, StartupConfig, ViewParams};
use crate::config::{ConfigView, CropPreset, QUEST3_K1, QUEST3_K2, QUEST3_TILT, ZERO};
use crate::decoder::Frame;
use crate::server::{EventView, Packet, PacketView};
use crate::stream::{admits, admitted, before_key, larger, larger_of, pictures};
use crate::stream::{law_recording_starts_at_key_frame, DEFAULT_HEIGHT, DEFAULT_WIDTH};
use crate::text;
use vstd::prelude::*;

verus! {

/// The bit rate that is asked for by default, in megabits per second.
pub const DEFAULT_MBPS: u32 = 16;

/// What a command line asks for.
#[derive(Debug)]
pub struct MirrorArgs {
    pub serial: Option<String>,
    pub display: Option<u32>,
    pub max_size: Option<u32>,
    /// In megabits per second.
    pub bitrate: Option<u32>,
    pub fps: Option<u32>,
    pub audio: bool,
}

/// The serial of the device to use: the named one, else that of the preferred one.
pub open spec fn serial_for(explicit: Option<Seq<char>>, ds: Seq<DeviceView>) -> Option<Seq<char>> {
    match explicit {
        Some(s) => Some(s),
        None => match adb::preferred(ds) {
            Some(d) => Some(d.serial),
            None => None,
        },
    }
}

/// A device that is named is used whether or not adb lists it. Where none is named, it is the first
/// of those that adb can talk to, one on USB before any on the network; and none only where adb can
/// talk to none.
pub proof fn law_named_device_is_used(explicit: Option<Seq<char>>, ds: Seq<DeviceView>)
    ensures
        explicit is Some ==> serial_for(explicit, ds) == explicit,
        explicit is None ==> match serial_for(explicit, ds) {
            Some(s) => exists|i: int| #[trigger] adb::first_choice(ds, i) && ds[i].serial == s,
            None => forall|j: int| 0 <= j < ds.len() ==> (#[trigger] ds[j]).state != "device"@,
        },
{
    adb::law_preferred_device_is_first_of_its_kind(ds);
}

/// The device to use: the named one, else the preferred one of those that adb lists.
pub fn pick_serial(explicit: Option<String>, devices: &Vec<Device>) -> (r: Result<
    String,
    &'static str,
>)
    ensures
        match (explicit, r) {
            (Some(s), Ok(t)) => t@ == s@,
            (None, Ok(t)) => adb::preferred(adb::device_views(devices@)) matches Some(d) && t@
                == d.serial,
            (None, Err(e)) => adb::preferred(adb::device_views(devices@)) is None && e@
                == "no online adb devices"@,
            _ => false,
        },
        match r {
            Ok(t) => serial_for(text::opt_view(explicit), adb::device_views(devices@)) == Some(t@),
            Err(_) => serial_for(text::opt_view(explicit), adb::device_views(devices@)) is None,
        },
{
    match explicit {
        Some(s) => Ok(s),
        None => match adb::preferred_device(devices) {
            Some(i) => Ok(devices[i].serial.clone()),
            None => Err("no online adb devices"),
        },
    }
}

/// A number, or a default.
pub open spec fn or_default(n: Option<u32>, default: u32) -> u32 {
    match n {
        Some(v) => v,
        None => default,
    }
}

/// A number, or a default.
fn value_or(n: Option<u32>, default: u32) -> (r: u32)
    ensures
        r == or_default(n, default),
{
    match n {
        Some(v) => v,
        None => default,
    }
}

impl MirrorArgs {
    /// What the server is asked for where no window is opened: no sound.
    pub open spec fn asked_options(self) -> ServerOptions {
        ServerOptions {
            display_id: or_default(self.display, 0),
            max_size: or_default(self.max_size, 0),
            video_bit_rate: (or_default(self.bitrate, DEFAULT_MBPS) * 1_000_000) as u32,
            max_fps: or_default(self.fps, 0),
            audio: false,
            audio_bit_rate: 128_000,
        }
    }

    /// What the server is asked for where no window is opened: no sound.
    pub fn server_options(&self) -> (r: ServerOptions)
        requires
            or_default(self.bitrate, DEFAULT_MBPS) * 1_000_000 <= u32::MAX,
        ensures
            r == self.asked_options(),
            r == (ServerOptions {
                display_id: or_default(self.display, 0),
                max_size: or_default(self.max_size, 0),
                video_bit_rate: (or_default(self.bitrate, DEFAULT_MBPS) * 1_000_000) as u32,
                max_fps: or_default(self.fps, 0),
                audio: false,
                audio_bit_rate: 128_000,
            }),
    {
        ServerOptions {
            display_id: value_or(self.display, 0),
            max_size: value_or(self.max_size, 0),
            video_bit_rate: value_or(self.bitrate, DEFAULT_MBPS) * 1_000_000,
            max_fps: value_or(self.fps, 0),
            audio: false,
            audio_bit_rate: 128_000,
        }
    }

    /// What the window starts with.
    pub open spec fn startup_for(self, autostart: bool) -> StartupConfig {
        StartupConfig {
            serial: self.serial,
            display_id: self.display,
            max_size: self.max_size,
            bitrate_mbps: self.bitrate,
            max_fps: self.fps,
            audio: if self.audio {
                Some(true)
            } else {
                None
            },
            autostart,
        }
    }

    /// What the window starts with. Sound is switched on where it is asked for, and else left as
    /// it was saved.
    pub fn startup(self, autostart: bool) -> (r: StartupConfig)
        ensures
            r == self.startup_for(autostart),
            r.serial == self.serial,
            r.display_id == self.display,
            r.max_size == self.max_size,
            r.bitrate_mbps == self.bitrate,
            r.max_fps == self.fps,
            r.audio == if self.audio {
                Some(true)
            } else {
                None
            },
            r.autostart == autostart,
    {
        StartupConfig {
            serial: self.serial,
            display_id: self.display,
            max_size: self.max_size,
            bitrate_mbps: self.bitrate,
            max_fps: self.fps,
            audio: if self.audio {
                Some(true)
            } else {
                None
            },
            autostart,
        }
    }
}

/// A single frame that is being waited for.
#[derive(Clone, Copy, Debug, PartialEq, Eq, Structural)]
pub struct ShotLoop {
    decoder: bool,
    width: u32,
    height: u32,
}

/// The state of a [`ShotLoop`].
pub struct ShotView {
    pub decoder: bool,
    pub width: u32,
    pub height: u32,
}

impl View for ShotLoop {
    type V = ShotView;

    closed spec fn view(&self) -> ShotView {
        ShotView { decoder: self.decoder, width: self.width, height: self.height }
    }
}

impl ShotView {
    /// The state before anything happened.
    pub open spec fn start() -> ShotView {
        ShotView { decoder: false, width: 0, height: 0 }
    }

    /// The state once a size was announced.
    pub open spec fn sized(self, width: u32, height: u32) -> ShotView {
        ShotView { decoder: true, width, height }
    }

    /// The size of the decoder to make before a packet is decoded, if there is none.
    pub open spec fn decoder_for_packet(self) -> Option<(u32, u32)> {
        if self.decoder {
            None
        } else {
            Some((larger(self.width, DEFAULT_WIDTH), larger(self.height, DEFAULT_HEIGHT)))
        }
    }

    /// The state once a packet is decoded.
    pub open spec fn fed(self) -> ShotView {
        ShotView { decoder: true, ..self }
    }
}

/// A decoder is made for the first packet where no size was announced before, with 1920 by 1088,
/// and for no later one.
pub proof fn law_shot_makes_one_decoder(state: ShotView, width: u32, height: u32)
    ensures
        ShotView::start().decoder_for_packet() == Some((1920u32, 1088u32)),
        !ShotView::start().decoder && ShotView::start().width == 0 && ShotView::start().height == 0,
        state.fed().decoder_for_packet() is None,
        state.sized(width, height).decoder_for_packet() is None,
        state.sized(width, height).fed() == state.sized(width, height),
{
}

impl ShotLoop {
    /// Nothing is known yet.
    pub fn new() -> (r: ShotLoop)
        ensures
            r@ == (ShotView { decoder: false, width: 0, height: 0 }),
            r@ == ShotView::start(),
    {
        ShotLoop { decoder: false, width: 0, height: 0 }
    }

    /// Takes note of an announced size. Gives the size of the decoder to make.
    pub fn on_resolution(&mut self, width: u32, height: u32) -> (r: (u32, u32))
        ensures
            r == (larger(width, 1), larger(height, 1)),
            final(self)@ == (ShotView { decoder: true, width, height }),
            final(self)@ == old(self)@.sized(width, height),
    {
        self.decoder = true;
        self.width = width;
        self.height = height;
        (larger_of(width, 1), larger_of(height, 1))
    }

    /// Gives the size of the decoder to make before a packet is decoded, if there is none.
    pub fn on_packet(&mut self) -> (r: Option<(u32, u32)>)
        ensures
            r == if old(self)@.decoder {
                None
            } else {
                Some(
                    (
                        larger(old(self)@.width, DEFAULT_WIDTH),
                        larger(old(self)@.height, DEFAULT_HEIGHT),
                    ),
                )
            },
            final(self)@ == (ShotView { decoder: true, ..old(self)@ }),
            r == old(self)@.decoder_for_packet(),
            final(self)@ == old(self)@.fed(),
    {
        if self.decoder {
            return None;
        }
        self.decoder = true;
        Some((larger_of(self.width, DEFAULT_WIDTH), larger_of(self.height, DEFAULT_HEIGHT)))
    }
}

/// The newest of the frames that a packet gave.
pub fn newest(frames: Vec<Frame>) -> (r: Option<Frame>)
    ensures
        match r {
            Some(f) => frames@.len() > 0 && f == frames@.last(),
            None => frames@.len() == 0,
        },
{
    let mut frames = frames;
    frames.pop()
}

/// How a clip shows the panel, from the crop that the command line names and from whether the lens
/// is to be flattened; nothing, where it asks for neither and the panel is copied as it is.
/// Flattening undoes the tilt too.
pub open spec fn view_asked_for(crop: Option<CropPreset>, flatten: bool) -> Option<ViewParams> {
    if crop is None && !flatten {
        None
    } else {
        Some(
            ViewParams {
                uv: match crop {
                    Some(preset) => preset.corners(),
                    None => CropPreset::FullPanel.corners(),
                },
                lens_correct: flatten,
                lens_k1: QUEST3_K1,
                lens_k2: QUEST3_K2,
                rotation_deg: if flatten {
                    QUEST3_TILT
                } else {
                    ZERO
                },
            },
        )
    }
}

/// How a clip shows the panel.
pub fn record_view(crop: Option<CropPreset>, flatten: bool) -> (r: Option<ViewParams>)
    ensures
        r == view_asked_for(crop, flatten),
{
    if crop.is_none() && !flatten {
        return None;
    }
    let uv = match crop {
        Some(preset) => preset.crop(),
        None => CropPreset::FullPanel.crop(),
    };
    Some(
        ViewParams {
            uv,
            lens_correct: flatten,
            lens_k1: QUEST3_K1,
            lens_k2: QUEST3_K2,
            rotation_deg: if flatten {
                QUEST3_TILT
            } else {
                ZERO
            },
        },
    )
}

/// A clip that is being recorded as it comes in.
#[derive(Clone, Copy, Debug, PartialEq, Eq, Structural)]
pub struct RecordLoop {
    recorder: bool,
    waiting_key: bool,
    width: u32,
    height: u32,
}

/// The state of a [`RecordLoop`].
pub struct RecordView {
    pub recorder: bool,
    pub waiting_key: bool,
    pub width: u32,
    pub height: u32,
}

impl View for RecordLoop {
    type V = RecordView;

    closed spec fn view(&self) -> RecordView {
        RecordView {
            recorder: self.recorder,
            waiting_key: self.waiting_key,
            width: self.width,
            height: self.height,
        }
    }
}

impl RecordView {
    /// The state before anything happened.
    pub open spec fn start() -> RecordView {
        RecordView { recorder: false, waiting_key: true, width: 0, height: 0 }
    }

    /// Whether a recorder is to be opened for a packet: the first configuration behind an
    /// announced size.
    pub open spec fn opens(self, p: PacketView) -> bool {
        p.is_config && !self.recorder && self.width > 0
    }

    /// Whether a packet is written.
    pub open spec fn writes(self, p: PacketView) -> bool {
        self.recorder && admits(self.waiting_key, p)
    }

    /// The state once a packet was offered.
    pub open spec fn after_offer(self, p: PacketView) -> RecordView {
        if self.writes(p) {
            RecordView { waiting_key: false, ..self }
        } else {
            self
        }
    }

    /// The state once a packet came in, and the recorder that it called for was opened.
    pub open spec fn after_packet(self, p: PacketView) -> RecordView {
        (RecordView { recorder: self.recorder || self.opens(p), ..self }).after_offer(p)
    }

    /// The state once an event came in, and the recorder that it called for was opened.
    pub open spec fn after_event(self, event: EventView) -> RecordView {
        match event {
            EventView::Resolution { width, height } => RecordView { width, height, ..self },
            EventView::Packet(p) => self.after_packet(p),
        }
    }

    /// The packets that are written while `events` come in.
    pub open spec fn written(self, events: Seq<EventView>) -> Seq<PacketView>
        decreases events.len(),
    {
        if events.len() == 0 {
            seq![]
        } else {
            let rest = self.after_event(events[0]).written(events.drop_first());
            match events[0] {
                EventView::Packet(p) => {
                    let open = RecordView { recorder: self.recorder || self.opens(p), ..self };
                    if open.writes(p) {
                        seq![p] + rest
                    } else {
                        rest
                    }
                },
                EventView::Resolution { .. } => rest,
            }
        }
    }
}

/// The packets among the events, in order.
pub open spec fn packets_of(events: Seq<EventView>) -> Seq<PacketView>
    decreases events.len(),
{
    if events.len() == 0 {
        seq![]
    } else {
        let rest = packets_of(events.drop_first());
        match events[0] {
            EventView::Packet(p) => seq![p] + rest,
            EventView::Resolution { .. } => rest,
        }
    }
}

/// How many packets stand in front of the first configuration.
pub open spec fn before_config(packets: Seq<PacketView>) -> nat
    decreases packets.len(),
{
    if packets.len() == 0 || packets[0].is_config {
        0
    } else {
        1 + before_config(packets.drop_first())
    }
}

/// The first configuration stands no further back than the end.
proof fn lemma_before_config(packets: Seq<PacketView>)
    ensures
        before_config(packets) <= packets.len(),
    decreases packets.len(),
{
    if packets.len() > 0 && !packets[0].is_config {
        lemma_before_config(packets.drop_first());
    }
}

/// A clip holds every picture from the first key frame on that follows the first configuration,
/// and nothing else, once a size is known and whatever sizes are announced later.
pub proof fn law_clip_holds_what_follows(width: u32, height: u32, events: Seq<EventView>)
    requires
        width > 0,
        forall|i: int|
            0 <= i < events.len() ==> (#[trigger] events[i] matches EventView::Resolution {
                width: w,
                height: h,
            } ==> w > 0),
    ensures
        ({
            let known = RecordView { width, height, ..RecordView::start() };
            let packets = packets_of(events);
            let after = pictures(packets.skip(before_config(packets) as int));
            known.written(events) == after.skip(before_key(after) as int)
        }),
    decreases events.len(),
{
    let known = RecordView { width, height, ..RecordView::start() };
    let packets = packets_of(events);
    lemma_before_config(packets);
    if events.len() == 0 {
        assert(packets.skip(0) =~= seq![]);
        assert(pictures(packets.skip(0)).skip(0) =~= seq![]);
    } else {
        let rest = events.drop_first();
        assert forall|i: int| 0 <= i < rest.len() implies (#[trigger] rest[i] matches
            EventView::Resolution { width: w, height: h } ==> w > 0) by {
            assert(rest[i] == events[i + 1]);
        }
        match events[0] {
            EventView::Resolution { width: w, height: h } => {
                law_clip_holds_what_follows(w, h, rest);
            },
            EventView::Packet(p) => {
                assert(packets.drop_first() =~= packets_of(rest));
                if p.is_config {
                    assert(packets.skip(0) =~= packets);
                    lemma_open_writes(known.after_packet(p), rest);
                    law_recording_starts_at_key_frame(packets_of(rest));
                } else {
                    law_clip_holds_what_follows(width, height, rest);
                    lemma_before_config(packets_of(rest));
                    assert(packets.skip(before_config(packets) as int) =~= packets_of(rest).skip(
                        before_config(packets_of(rest)) as int,
                    ));
                }
            },
        }
    }
}

/// What an open recorder gets is what a recording takes.
proof fn lemma_open_writes(state: RecordView, events: Seq<EventView>)
    requires
        state.recorder,
    ensures
        state.written(events) == admitted(state.waiting_key, packets_of(events)),
    decreases events.len(),
{
    if events.len() > 0 {
        let rest = events.drop_first();
        lemma_open_writes(state.after_event(events[0]), rest);
        if let EventView::Packet(p) = events[0] {
            assert(packets_of(events).drop_first() =~= packets_of(rest));
        }
    }
}

impl RecordLoop {
    /// Nothing is known yet.
    pub fn new() -> (r: RecordLoop)
        ensures
            r@ == RecordView::start(),
    {
        RecordLoop { recorder: false, waiting_key: true, width: 0, height: 0 }
    }

    /// Takes note of an announced size.
    pub fn on_resolution(&mut self, width: u32, height: u32)
        ensures
            final(self)@ == (RecordView { width, height, ..old(self)@ }),
    {
        self.width = width;
        self.height = height;
    }

    /// Gives the size of the recorder to open for a packet, if one is to be opened. A session
    /// goes on only if it could be.
    pub fn on_packet(&mut self, p: &Packet) -> (r: Option<(u32, u32)>)
        ensures
            r == if old(self)@.opens(p@) {
                Some((old(self)@.width, old(self)@.height))
            } else {
                None
            },
            final(self)@ == (RecordView {
                recorder: old(self)@.recorder || old(self)@.opens(p@),
                ..old(self)@
            }),
    {
        if p.is_config && !self.recorder && self.width > 0 {
            self.recorder = true;
            Some((self.width, self.height))
        } else {
            None
        }
    }

    /// Whether the packet is to be written.
    pub fn offer(&mut self, p: &Packet) -> (r: bool)
        ensures
            r == old(self)@.writes(p@),
            final(self)@ == old(self)@.after_offer(p@),
    {
        if self.recorder && !p.is_config && (p.is_key || !self.waiting_key) {
            self.waiting_key = false;
            true
        } else {
            false
        }
    }
}

/// What the command line asks for is what the server is asked for, the bit rate counted in single
/// bits; what it leaves out is left to the server, but for 16 megabits per second; and sound is
/// never asked for.
pub proof fn law_server_is_asked_for_what_was_named(args: MirrorArgs)
    requires
        or_default(args.bitrate, DEFAULT_MBPS) * 1_000_000 <= u32::MAX,
    ensures
        ({
            let o = args.asked_options();
            &&& args.display matches Some(v) ==> o.display_id == v
            &&& args.display is None ==> o.display_id == 0
            &&& args.max_size matches Some(v) ==> o.max_size == v
            &&& args.max_size is None ==> o.max_size == 0
            &&& args.bitrate matches Some(v) ==> o.video_bit_rate == 1_000_000 * v
            &&& args.bitrate is None ==> o.video_bit_rate == 16_000_000
            &&& args.fps matches Some(v) ==> o.max_fps == v
            &&& args.fps is None ==> o.max_fps == 0
            &&& !o.audio && o.audio_bit_rate == 128_000
        }),
{
}

/// The crop that is named is shown whether or not the lens is flattened, and all of the panel where
/// none is named; lens and tilt are undone together; and nothing is done where nothing is asked
/// for.
pub proof fn law_view_is_the_one_asked_for(crop: Option<CropPreset>, flatten: bool)
    ensures
        match view_asked_for(crop, flatten) {
            Some(v) => {
                &&& crop is Some || flatten
                &&& crop matches Some(preset) ==> v.uv == preset.corners()
                &&& crop is None ==> v.uv == CropPreset::FullPanel.corners()
                &&& v.lens_correct == flatten
                &&& flatten ==> v.rotation_deg == QUEST3_TILT
                &&& !flatten ==> v.rotation_deg == ZERO
                &&& v.lens_k1 == QUEST3_K1 && v.lens_k2 == QUEST3_K2
            },
            None => crop is None && !flatten,
        },
{
}

/// Nothing is recorded before a size was announced, nor for as long as only empty ones are.
pub proof fn law_nothing_is_recorded_without_size(state: RecordView, events: Seq<EventView>)
    requires
        !state.recorder,
        state.width == 0,
        forall|i: int|
            0 <= i < events.len() ==> (#[trigger] events[i] matches EventView::Resolution {
                width,
                height,
            } ==> width == 0),
    ensures
        state.written(events) == Seq::<PacketView>::empty(),
    decreases events.len(),
{
    if events.len() > 0 {
        let rest = events.drop_first();
        assert forall|i: int| 0 <= i < rest.len() implies (#[trigger] rest[i] matches
            EventView::Resolution { width, height } ==> width == 0) by {
            assert(rest[i] == events[i + 1]);
        }
        assert(events[0] matches EventView::Resolution { width, height } ==> width == 0);
        law_nothing_is_recorded_without_size(state.after_event(events[0]), rest);
    }
}

/// A recorder is opened for the first configuration behind a size, and for no later one; the size
/// is the one that was announced last.
pub proof fn law_recorder_is_opened_once(
    state: RecordView,
    width: u32,
    height: u32,
    config: PacketView,
    p: PacketView,
)
    requires
        config.is_config,
        width > 0,
    ensures
        ({
            let sized = state.after_event(EventView::Resolution { width, height });
            let open = sized.after_packet(config);
            &&& sized.width == width && sized.height == height
            &&& !state.recorder ==> sized.opens(config)
            &&& open.recorder
            &&& !open.opens(p)
            &&& !open.after_packet(p).opens(config)
            &&& !p.is_config ==> !sized.opens(p)
        }),
{
}

/// What the command line names is what the window opens with, and what it leaves out is as it was
/// saved. Sound can be switched on by it and never off, and the window connects by itself where it
/// is to.
pub proof fn law_named_settings_reach_the_window(
    args: MirrorArgs,
    autostart: bool,
    c: ConfigView,
    ds: Seq<DeviceView>,
)
    ensures
        ({
            let app = AppView::opened(args.startup_for(autostart), c, ds);
            let s = app.settings;
            &&& args.display matches Some(v) ==> s.display_id == v
            &&& args.display is None ==> s.display_id == c.display_id
            &&& args.max_size matches Some(v) ==> s.max_size == v
            &&& args.max_size is None ==> s.max_size == c.max_size
            &&& args.bitrate matches Some(v) ==> s.bitrate_mbps == v
            &&& args.bitrate is None ==> s.bitrate_mbps == c.bitrate_mbps
            &&& args.fps matches Some(v) ==> s.max_fps == v
            &&& args.fps is None ==> s.max_fps == c.max_fps
            &&& s.audio <==> args.audio || c.audio
            &&& app.want_autostart == autostart
            &&& args.serial matches Some(name) ==> (exists|i: int|
                0 <= i < ds.len() && (#[trigger] ds[i]).serial == name@) ==> app.selected == Some(
                name@,
            )
        }),
{
    if let Some(name) = args.serial {
        crate::app::law_device_is_found_by_serial(ds, name@);
    }
}

} // verus!
