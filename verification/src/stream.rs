//! A live mirroring session: what to do with each packet, when to record, and what to report.
//!
//! The program owns the sockets, the decoder and the recorder. [`StreamLoop`] tells it, event by
//! event, which of them to open, feed and close.
use crate::adb;
use crate::adb::ServerOptions;
use crate::decoder::{Frame, FrameView};
use crate::server::{Packet, PacketView};
use crate::text;
use vstd::prelude::*;

verus! {

/// What to mirror, and how.
#[derive(Clone, Debug)]
pub struct StreamConfig {
    pub serial: String,
    pub display_id: u32,
    pub max_size: u32,
    pub video_bit_rate: u32,
    pub max_fps: u32,
    pub audio: bool,
    pub audio_bit_rate: u32,
}

impl StreamConfig {
    /// What the server is asked for.
    pub open spec fn options(self) -> ServerOptions {
        ServerOptions {
            display_id: self.display_id,
            max_size: self.max_size,
            video_bit_rate: self.video_bit_rate,
            max_fps: self.max_fps,
            audio: self.audio,
            audio_bit_rate: self.audio_bit_rate,
        }
    }

    /// What the server is asked for.
    pub fn server_options(&self) -> (r: ServerOptions)
        ensures
            r == self.options(),
            r == (ServerOptions {
                display_id: self.display_id,
                max_size: self.max_size,
                video_bit_rate: self.video_bit_rate,
                max_fps: self.max_fps,
                audio: self.audio,
                audio_bit_rate: self.audio_bit_rate,
            }),
    {
        ServerOptions {
            display_id: self.display_id,
            max_size: self.max_size,
            video_bit_rate: self.video_bit_rate,
            max_fps: self.max_fps,
            audio: self.audio,
            audio_bit_rate: self.audio_bit_rate,
        }
    }
}

/// The local port that is forwarded where the system offered none.
pub const DEFAULT_PORT: u16 = 27183;

/// How often the frame rate is reported, in nanoseconds.
pub const TICK_NANOS: u64 = 500_000_000;

/// The size that the decoder is told where none was announced.
pub const DEFAULT_WIDTH: u32 = 1920;

/// The size that the decoder is told where none was announced.
pub const DEFAULT_HEIGHT: u32 = 1088;

/// The local port to forward: the free one that the system offered, if it did.
pub fn free_port(offered: Option<u16>) -> (r: u16)
    ensures
        r == match offered {
            Some(p) => p,
            None => DEFAULT_PORT,
        },
{
    match offered {
        Some(p) => p,
        None => DEFAULT_PORT,
    }
}

/// A frame rate: so many frames in so many nanoseconds.
#[derive(Clone, Copy, Debug, PartialEq, Eq, Structural)]
pub struct Rate {
    pub frames: u32,
    pub nanos: u64,
}

/// What a session is doing.
#[derive(Debug)]
pub enum Status {
    Connecting,
    /// Frames come in. The rate is known from the first report on.
    Streaming { width: u32, height: u32, rate: Option<Rate> },
    Error(String),
    Stopped,
}

impl Clone for Status {
    fn clone(&self) -> (r: Self)
        ensures
            r == *self,
    {
        match self {
            Status::Connecting => Status::Connecting,
            Status::Streaming { width, height, rate } => Status::Streaming {
                width: *width,
                height: *height,
                rate: *rate,
            },
            Status::Error(e) => Status::Error(e.clone()),
            Status::Stopped => Status::Stopped,
        }
    }
}

/// What a session shows once its thread is done.
pub open spec fn status_at_end(
    shown: Status,
    reached: bool,
    error: Option<String>,
    stopping: bool,
) -> Status {
    match error {
        Some(e) if !stopping => Status::Error(e),
        _ => if reached {
            Status::Stopped
        } else {
            shown
        },
    }
}

/// An error is shown exactly where there was one and the user did not ask for the end; a session
/// that was started and ends otherwise shows that it stopped; and one that was never started shows
/// what it showed.
pub proof fn law_end_of_session_is_shown(
    shown: Status,
    reached: bool,
    error: Option<String>,
    stopping: bool,
)
    ensures
        ({
            let s = status_at_end(shown, reached, error, stopping);
            &&& error matches Some(e) ==> !stopping ==> s == Status::Error(e)
            &&& (error is None || stopping) && reached ==> s is Stopped
            &&& (error is None || stopping) && !reached ==> s == shown
        }),
{
}

/// What a session shows once its thread is done. `reached` tells whether the server was started,
/// `error` what went wrong, and `stopping` whether the user asked for the end. An error is shown
/// unless the user asked for the end; else a session that was started shows that it stopped.
pub fn status_after_run(
    shown: Status,
    reached: bool,
    error: Option<String>,
    stopping: bool,
) -> (r: Status)
    ensures
        r == status_at_end(shown, reached, error, stopping),
        r == match error {
            Some(e) if !stopping => Status::Error(e),
            _ => if reached {
                Status::Stopped
            } else {
                shown
            },
        },
{
    match error {
        Some(e) => {
            if !stopping {
                return Status::Error(e);
            }
        },
        None => {},
    }
    if reached {
        Status::Stopped
    } else {
        shown
    }
}

/// The newest frame alone: the decoder overwrites it, the window takes it.
#[derive(Debug)]
pub struct FrameSlot {
    pub frame: Option<Frame>,
    /// Changes with every frame.
    pub generation: u64,
}

/// What a [`FrameSlot`] holds.
pub struct SlotView {
    pub frame: Option<FrameView>,
    pub generation: u64,
}

impl View for FrameSlot {
    type V = SlotView;

    open spec fn view(&self) -> SlotView {
        SlotView {
            frame: match self.frame {
                Some(f) => Some(f@),
                None => None,
            },
            generation: self.generation,
        }
    }
}

impl SlotView {
    /// The slot with a new frame in it.
    pub open spec fn published(self, frame: FrameView) -> SlotView {
        SlotView {
            frame: Some(frame),
            generation: if self.generation == u64::MAX {
                0
            } else {
                (self.generation + 1) as u64
            },
        }
    }

    /// What is handed out to one who last saw the generation `seen`: the frame and its
    /// generation.
    pub open spec fn newer(self, seen: u64) -> Option<(FrameView, u64)> {
        match self.frame {
            Some(f) if self.generation != seen => Some((f, self.generation)),
            _ => None,
        }
    }

    /// The slot once that was handed out.
    pub open spec fn after_take(self, seen: u64) -> SlotView {
        if self.newer(seen) is Some {
            SlotView { frame: None, generation: self.generation }
        } else {
            self
        }
    }
}

impl Default for FrameSlot {
    fn default() -> (r: Self)
        ensures
            r@ == (SlotView { frame: None, generation: 0 }),
    {
        FrameSlot { frame: None, generation: 0 }
    }
}

impl FrameSlot {
    /// Puts a frame in, in place of any that nobody took.
    pub fn publish(&mut self, frame: Frame)
        ensures
            final(self)@ == old(self)@.published(frame@),
    {
        self.frame = Some(frame);
        self.generation = self.generation.wrapping_add(1);
    }

    /// Takes the frame out, if there is one and its generation is not `seen`. Gives the frame
    /// and its generation.
    pub fn take_newer(&mut self, seen: u64) -> (r: Option<(Frame, u64)>)
        ensures
            match r {
                Some((frame, generation)) => old(self)@.newer(seen) == Some((frame@, generation)),
                None => old(self)@.newer(seen) is None,
            },
            final(self)@ == old(self)@.after_take(seen),
    {
        if self.generation == seen {
            return None;
        }
        match self.frame.take() {
            Some(frame) => Some((frame, self.generation)),
            None => None,
        }
    }
}

/// A frame that was put in is the one that is taken next, to one who has seen what was there
/// before; and it is taken once.
pub proof fn law_newest_frame_is_taken_once(slot: SlotView, frame: FrameView)
    ensures
        ({
            let full = slot.published(frame);
            let seen = slot.generation;
            &&& full.newer(seen) == Some((frame, full.generation))
            &&& full.after_take(seen).newer(full.generation) is None
            &&& forall|other: u64| full.after_take(seen).newer(other) is None
        }),
{
}

/// Whether a recording takes the packet: never codec configuration, and nothing before the first
/// key frame.
pub open spec fn admits(waiting_key: bool, p: PacketView) -> bool {
    !p.is_config && (p.is_key || !waiting_key)
}

/// The packets that a recording takes, of those that are offered to it one after the other.
pub open spec fn admitted(waiting_key: bool, offered: Seq<PacketView>) -> Seq<PacketView>
    decreases offered.len(),
{
    if offered.len() == 0 {
        seq![]
    } else {
        let p = offered[0];
        let rest = offered.drop_first();
        if admits(waiting_key, p) {
            seq![p] + admitted(false, rest)
        } else {
            admitted(waiting_key, rest)
        }
    }
}

/// The packets that hold a picture.
pub open spec fn pictures(offered: Seq<PacketView>) -> Seq<PacketView>
    decreases offered.len(),
{
    if offered.len() == 0 {
        seq![]
    } else if offered[0].is_config {
        pictures(offered.drop_first())
    } else {
        seq![offered[0]] + pictures(offered.drop_first())
    }
}

/// How many packets stand in front of the first key frame.
pub open spec fn before_key(offered: Seq<PacketView>) -> nat
    decreases offered.len(),
{
    if offered.len() == 0 || offered[0].is_key {
        0
    } else {
        1 + before_key(offered.drop_first())
    }
}

/// The first key frame stands no further back than the end.
proof fn lemma_before_key(offered: Seq<PacketView>)
    ensures
        before_key(offered) <= offered.len(),
    decreases offered.len(),
{
    if offered.len() > 0 && !offered[0].is_key {
        lemma_before_key(offered.drop_first());
    }
}

/// A recording holds every picture from the first key frame on, in order, and nothing else.
pub proof fn law_recording_starts_at_key_frame(offered: Seq<PacketView>)
    ensures
        admitted(false, offered) == pictures(offered),
        admitted(true, offered) == pictures(offered).skip(before_key(pictures(offered)) as int),
    decreases offered.len(),
{
    let all = pictures(offered);
    lemma_before_key(all);
    if offered.len() == 0 {
        assert(all.skip(0) =~= seq![]);
    } else {
        let p = offered[0];
        let rest = offered.drop_first();
        law_recording_starts_at_key_frame(rest);
        lemma_before_key(pictures(rest));
        if p.is_config {
        } else if p.is_key {
            assert(all.skip(0) =~= all);
        } else {
            assert(all.drop_first() =~= pictures(rest));
            assert(all.skip(before_key(all) as int) =~= pictures(rest).skip(
                before_key(pictures(rest)) as int,
            ));
        }
    }
}

/// A command about recording. The path is handed through.
pub enum RecordCmd<P> {
    Start(P),
    Stop,
}

/// What to do about the recorder.
pub struct RecordAction<P> {
    /// Close the recorder that is open. `report` tells whether to say how that went.
    pub close: bool,
    pub report: bool,
    /// Then open one here, with the size and the configuration that the session knows.
    pub open: Option<P>,
}

/// What a mirroring session has come to know, and what is open.
pub struct StreamLoop<P> {
    /// Whether a decoder was made.
    decoder: bool,
    /// The size that was announced last, or taken for granted; 0 before either.
    sess_w: u32,
    sess_h: u32,
    /// The size of the frame that was decoded last.
    frame_w: u32,
    frame_h: u32,
    /// The frames since the last report.
    frames_since: u32,
    /// Whether a recorder is open.
    recorder: bool,
    /// The codec configuration that came last.
    last_config: Vec<u8>,
    /// Where to record once there is a configuration.
    pending: Option<P>,
    waiting_key: bool,
    /// What the window shows about recording.
    recording: bool,
}

/// The state of a [`StreamLoop`].
pub struct LoopView<P> {
    pub decoder: bool,
    pub sess_w: u32,
    pub sess_h: u32,
    pub frame_w: u32,
    pub frame_h: u32,
    pub frames_since: u32,
    pub recorder: bool,
    pub last_config: Seq<u8>,
    pub pending: Option<P>,
    pub waiting_key: bool,
    pub recording: bool,
}

impl<P> View for StreamLoop<P> {
    type V = LoopView<P>;

    closed spec fn view(&self) -> LoopView<P> {
        LoopView {
            decoder: self.decoder,
            sess_w: self.sess_w,
            sess_h: self.sess_h,
            frame_w: self.frame_w,
            frame_h: self.frame_h,
            frames_since: self.frames_since,
            recorder: self.recorder,
            last_config: self.last_config@,
            pending: self.pending,
            waiting_key: self.waiting_key,
            recording: self.recording,
        }
    }
}

/// The larger of two sizes.
pub open spec fn larger(a: u32, b: u32) -> u32 {
    if a >= b {
        a
    } else {
        b
    }
}

/// The larger of two sizes.
pub fn larger_of(a: u32, b: u32) -> (r: u32)
    ensures
        r == larger(a, b),
{
    if a >= b {
        a
    } else {
        b
    }
}

/// A size that was announced, or one to use in its place.
pub open spec fn known_or(size: u32, default: u32) -> u32 {
    if size > 0 {
        size
    } else {
        default
    }
}

/// One thing that happens in a session.
pub enum Step<P> {
    /// A recording is asked for.
    Start(P),
    /// A recording is to end.
    Stop,
    /// The recorder that was asked for could be opened, or it could not.
    Opened(bool),
    /// The server announced a size.
    Resolution { width: u32, height: u32 },
    /// A packet came in, and what it means for the session is noted.
    Configure(PacketView),
    /// The packet is offered to the recorder.
    Offer(PacketView),
    /// The recorder could not write.
    WriteFailed,
    /// The packet goes to the decoder.
    Decode,
    /// A frame came out of the decoder.
    Frame { width: u32, height: u32 },
    /// So much time has gone by since the last report.
    Tick(u64),
    /// The session ends.
    Finish,
}

impl<P> LoopView<P> {
    /// The state before anything happened.
    pub open spec fn start() -> LoopView<P> {
        LoopView {
            decoder: false,
            sess_w: 0,
            sess_h: 0,
            frame_w: 0,
            frame_h: 0,
            frames_since: 0,
            recorder: false,
            last_config: seq![],
            pending: None,
            waiting_key: false,
            recording: false,
        }
    }

    /// Whether a recorder can be opened: the size and the configuration are known.
    pub open spec fn can_record(self) -> bool {
        self.last_config.len() > 0 && self.sess_w > 0
    }

    /// What to do when a recording is asked for: the one that runs ends, and a new one begins as
    /// soon as it can.
    pub open spec fn start_action(self, path: P) -> RecordAction<P> {
        RecordAction {
            close: self.recorder,
            report: false,
            open: if self.can_record() {
                Some(path)
            } else {
                None
            },
        }
    }

    /// What to do when a recording is to end.
    pub open spec fn stop_action(self) -> RecordAction<P> {
        RecordAction { close: self.recorder, report: true, open: None }
    }

    /// The decoder to make when a size is announced: one for that size, unless there is one.
    pub open spec fn decoder_for_resolution(self, width: u32, height: u32) -> Option<(u32, u32)> {
        if !self.decoder || width != self.sess_w || height != self.sess_h {
            Some((larger(width, 1), larger(height, 1)))
        } else {
            None
        }
    }

    /// Where to open a recorder that was asked for before its time, when a packet comes in.
    pub open spec fn open_for_packet(self, p: PacketView) -> Option<P> {
        if p.is_config && self.sess_w > 0 {
            self.pending
        } else {
            None
        }
    }

    /// Whether a packet is written.
    pub open spec fn writes(self, p: PacketView) -> bool {
        self.recorder && admits(self.waiting_key, p)
    }

    /// The decoder to make when a packet is to be decoded and there is none.
    pub open spec fn decoder_for_packet(self) -> Option<(u32, u32)> {
        if self.decoder {
            None
        } else {
            Some((known_or(self.sess_w, DEFAULT_WIDTH), known_or(self.sess_h, DEFAULT_HEIGHT)))
        }
    }

    /// What to report once `nanos` have gone by since the last report.
    pub open spec fn report(self, nanos: u64) -> Option<Status> {
        if nanos >= TICK_NANOS {
            Some(
                Status::Streaming {
                    width: larger(self.frame_w, self.sess_w),
                    height: larger(self.frame_h, self.sess_h),
                    rate: Some(Rate { frames: self.frames_since, nanos }),
                },
            )
        } else {
            None
        }
    }

    /// The state once `step` has happened.
    pub open spec fn after(self, step: Step<P>) -> LoopView<P> {
        match step {
            Step::Start(path) => LoopView {
                recorder: false,
                pending: if self.can_record() {
                    self.pending
                } else {
                    Some(path)
                },
                ..self
            },
            Step::Stop => LoopView { recorder: false, pending: None, recording: false, ..self },
            Step::Opened(ok) => if ok {
                LoopView { recorder: true, waiting_key: true, recording: true, ..self }
            } else {
                self
            },
            Step::Resolution { width, height } => if self.decoder_for_resolution(
                width,
                height,
            ) is Some {
                LoopView { decoder: true, sess_w: width, sess_h: height, ..self }
            } else {
                self
            },
            Step::Configure(p) => LoopView {
                last_config: if p.is_config {
                    p.data
                } else {
                    self.last_config
                },
                pending: if self.open_for_packet(p) is Some {
                    None
                } else {
                    self.pending
                },
                ..self
            },
            Step::Offer(p) => if self.writes(p) {
                LoopView { waiting_key: false, ..self }
            } else {
                self
            },
            Step::WriteFailed => LoopView { recorder: false, recording: false, ..self },
            Step::Decode => match self.decoder_for_packet() {
                Some((w, h)) => LoopView { decoder: true, sess_w: w, sess_h: h, ..self },
                None => self,
            },
            Step::Frame { width, height } => LoopView {
                frame_w: width,
                frame_h: height,
                frames_since: (self.frames_since + 1) as u32,
                ..self
            },
            Step::Tick(nanos) => if self.report(nanos) is Some {
                LoopView { frames_since: 0, ..self }
            } else {
                self
            },
            Step::Finish => LoopView { recorder: false, recording: false, ..self },
        }
    }

    /// The state once all of `steps` have happened, one behind the other.
    pub open spec fn after_all(self, steps: Seq<Step<P>>) -> LoopView<P>
        decreases steps.len(),
    {
        if steps.len() == 0 {
            self
        } else {
            self.after_all(steps.drop_last()).after(steps.last())
        }
    }

    /// The packets that are written while `steps` happen, one behind the other.
    pub open spec fn written(self, steps: Seq<Step<P>>) -> Seq<PacketView>
        decreases steps.len(),
    {
        if steps.len() == 0 {
            seq![]
        } else {
            let rest = self.after(steps[0]).written(steps.drop_first());
            match steps[0] {
                Step::Offer(p) => if self.writes(p) {
                    seq![p] + rest
                } else {
                    rest
                },
                _ => rest,
            }
        }
    }
}

impl<P> Step<P> {
    /// Whether the step is about the recorder: opens one, or ends the one that is open.
    pub open spec fn moves_recorder(self) -> bool {
        self is Start || self is Stop || self is Opened || self is WriteFailed || self is Finish
    }
}

/// The packets that are offered in `steps`, in order.
pub open spec fn offered_in<P>(steps: Seq<Step<P>>) -> Seq<PacketView>
    decreases steps.len(),
{
    if steps.len() == 0 {
        seq![]
    } else {
        let rest = offered_in(steps.drop_first());
        match steps[0] {
            Step::Offer(p) => seq![p] + rest,
            _ => rest,
        }
    }
}

/// While a recorder is open, the window shows that it is.
pub proof fn law_open_recorder_is_shown<P>(steps: Seq<Step<P>>)
    ensures
        ({
            let s = LoopView::<P>::start().after_all(steps);
            s.recorder ==> s.recording
        }),
    decreases steps.len(),
{
    if steps.len() > 0 {
        law_open_recorder_is_shown(steps.drop_last());
    }
}

/// A session knows a size as soon as it has a decoder, unless the server announced an empty one.
pub proof fn law_decoder_implies_size<P>(steps: Seq<Step<P>>)
    requires
        forall|i: int|
            0 <= i < steps.len() ==> (#[trigger] steps[i] matches Step::Resolution {
                width,
                height,
            } ==> width > 0 && height > 0),
    ensures
        ({
            let s = LoopView::<P>::start().after_all(steps);
            s.decoder ==> s.sess_w > 0 && s.sess_h > 0
        }),
    decreases steps.len(),
{
    if steps.len() > 0 {
        let before = steps.drop_last();
        assert forall|i: int| 0 <= i < before.len() implies (#[trigger] before[i] matches
            Step::Resolution { width, height } ==> width > 0 && height > 0) by {
            assert(before[i] == steps[i]);
        }
        law_decoder_implies_size(before);
        assert(steps[steps.len() - 1] == steps.last());
    }
}

/// After a size was announced, there is a decoder, and the session knows that size.
pub proof fn law_announced_size_is_followed<P>(state: LoopView<P>, width: u32, height: u32)
    ensures
        ({
            let s = state.after(Step::Resolution { width, height });
            s.decoder && s.sess_w == width && s.sess_h == height
        }),
{
}

/// A recording that is asked for before it can begin begins with the first configuration that
/// follows a size, at the place that was asked for; and one that was called off does not.
pub proof fn law_early_request_is_kept<P>(
    state: LoopView<P>,
    path: P,
    width: u32,
    height: u32,
    config: PacketView,
)
    requires
        !state.can_record(),
        width > 0,
        config.is_config,
    ensures
        ({
            let asked = state.after(Step::Start(path));
            let sized = asked.after(Step::Resolution { width, height });
            &&& state.start_action(path).open is None
            &&& sized.open_for_packet(config) == Some(path)
            &&& sized.after(Step::Configure(config)).pending is None
            &&& asked.after(Step::Stop).after(
                Step::Resolution { width, height },
            ).open_for_packet(config) is None
        }),
{
}

/// Once a recording is to end, none is open, none is shown and none is waited for.
pub proof fn law_stop_ends_recording<P>(state: LoopView<P>)
    ensures
        ({
            let s = state.after(Step::Stop);
            !s.recorder && !s.recording && s.pending is None && state.stop_action().close
                == state.recorder
        }),
{
}

/// What a recorder gets after it was opened is every picture from the first key frame on, for as
/// long as it is neither ended nor replaced, and whatever else happens in the session meanwhile.
pub proof fn law_opened_recorder_gets_clip<P>(state: LoopView<P>, steps: Seq<Step<P>>)
    requires
        forall|i: int| 0 <= i < steps.len() ==> !(#[trigger] steps[i]).moves_recorder(),
    ensures
        ({
            let clip = pictures(offered_in(steps));
            state.after(Step::Opened(true)).written(steps) == clip.skip(before_key(clip) as int)
        }),
{
    lemma_written(state.after(Step::Opened(true)), steps);
    law_recording_starts_at_key_frame(offered_in(steps));
}

/// What is written is what a recording takes.
proof fn lemma_written<P>(state: LoopView<P>, steps: Seq<Step<P>>)
    requires
        state.recorder,
        forall|i: int| 0 <= i < steps.len() ==> !(#[trigger] steps[i]).moves_recorder(),
    ensures
        state.written(steps) == admitted(state.waiting_key, offered_in(steps)),
    decreases steps.len(),
{
    if steps.len() > 0 {
        let rest = steps.drop_first();
        assert(!steps[0].moves_recorder());
        assert forall|i: int| 0 <= i < rest.len() implies !(#[trigger] rest[i]).moves_recorder() by {
            assert(rest[i] == steps[i + 1]);
        }
        lemma_written(state.after(steps[0]), rest);
        if let Step::Offer(p) = steps[0] {
            assert(offered_in(steps).drop_first() =~= offered_in(rest));
        }
    }
}

impl<P> Step<P> {
    /// Whether the step brings a codec configuration.
    pub open spec fn configures(self) -> bool {
        self matches Step::Configure(p) && p.is_config
    }
}

/// What happens behind other things happens to the state that those left.
proof fn lemma_after_all_joins<P>(state: LoopView<P>, a: Seq<Step<P>>, b: Seq<Step<P>>)
    ensures
        state.after_all(a + b) == state.after_all(a).after_all(b),
    decreases b.len(),
{
    if b.len() == 0 {
        assert(a + b =~= a);
    } else {
        lemma_after_all_joins(state, a, b.drop_last());
        assert((a + b).drop_last() =~= a + b.drop_last());
    }
}

/// While no size is announced, a session with a decoder keeps the size that it knows; while no
/// configuration comes, the one that it has.
proof fn lemma_kept<P>(state: LoopView<P>, steps: Seq<Step<P>>)
    ensures
        ({
            let s = state.after_all(steps);
            &&& state.decoder ==> s.decoder
            &&& state.decoder && (forall|i: int|
                0 <= i < steps.len() ==> !(#[trigger] steps[i] is Resolution)) ==> s.sess_w
                == state.sess_w && s.sess_h == state.sess_h
            &&& (forall|i: int| 0 <= i < steps.len() ==> !(#[trigger] steps[i]).configures())
                ==> s.last_config == state.last_config
        }),
    decreases steps.len(),
{
    if steps.len() > 0 {
        let less = steps.drop_last();
        lemma_kept(state, less);
        assert forall|i: int| 0 <= i < less.len() implies #[trigger] less[i] == steps[i] by {}
        assert(steps.last() == steps[steps.len() - 1]);
    }
}

/// A session knows the size that was announced last and the configuration that came last,
/// whatever else happened before, between and after them.
pub proof fn law_session_knows_the_latest<P>(state: LoopView<P>, steps: Seq<Step<P>>, i: int)
    requires
        0 <= i < steps.len(),
    ensures
        steps[i] matches Step::Resolution { width, height } ==> (forall|j: int|
            i < j < steps.len() ==> !(#[trigger] steps[j] is Resolution)) ==> {
            let s = state.after_all(steps);
            s.decoder && s.sess_w == width && s.sess_h == height
        },
        steps[i] matches Step::Configure(p) ==> p.is_config ==> (forall|j: int|
            i < j < steps.len() ==> !(#[trigger] steps[j]).configures()) ==> state.after_all(
            steps,
        ).last_config == p.data,
{
    let (a, b) = (steps.take(i + 1), steps.skip(i + 1));
    assert(steps =~= a + b);
    lemma_after_all_joins(state, a, b);
    assert(a.last() == steps[i]);
    lemma_kept(state.after_all(a), b);
    assert forall|k: int| 0 <= k < b.len() implies #[trigger] b[k] == steps[i + 1 + k] by {}
}

/// A recording that is asked for begins at once, at the place that was asked for, whenever a size
/// was announced and a configuration came before, whatever else happened; and it begins not yet
/// where either of the two never came.
pub proof fn law_recording_begins_once_it_can<P>(
    state: LoopView<P>,
    steps: Seq<Step<P>>,
    i: int,
    j: int,
    path: P,
)
    requires
        0 <= i < steps.len(),
        0 <= j < steps.len(),
        steps[i] matches Step::Resolution { width, height } && width > 0,
        forall|k: int| i < k < steps.len() ==> !(#[trigger] steps[k] is Resolution),
        steps[j] matches Step::Configure(p) && p.is_config && p.data.len() > 0,
        forall|k: int| j < k < steps.len() ==> !(#[trigger] steps[k]).configures(),
    ensures
        ({
            let s = state.after_all(steps);
            &&& s.start_action(path).open == Some(path)
            &&& s.after(Step::Start(path)).pending == s.pending
            &&& s.open_for_packet(steps[j]->Configure_0) == s.pending
        }),
{
    law_session_knows_the_latest(state, steps, i);
    law_session_knows_the_latest(state, steps, j);
}

/// Before a configuration came, or before anything told of a size, a recording that is asked for
/// waits.
pub proof fn law_recording_waits_for_size_and_config<P>(steps: Seq<Step<P>>, path: P)
    requires
        (forall|k: int| 0 <= k < steps.len() ==> !(#[trigger] steps[k]).configures()) || (forall|
            k: int,
        |
            0 <= k < steps.len() ==> !(#[trigger] steps[k] is Resolution) && !(steps[k] is Decode)),
    ensures
        ({
            let s = LoopView::<P>::start().after_all(steps);
            &&& s.start_action(path).open is None
            &&& s.after(Step::Start(path)).pending == Some(path)
        }),
    decreases steps.len(),
{
    lemma_kept(LoopView::<P>::start(), steps);
    if !(forall|k: int| 0 <= k < steps.len() ==> !(#[trigger] steps[k]).configures()) {
        lemma_no_size(LoopView::<P>::start(), steps);
    }
}

/// Nothing but an announced size and a packet for the decoder tells of a size.
proof fn lemma_no_size<P>(state: LoopView<P>, steps: Seq<Step<P>>)
    requires
        forall|k: int|
            0 <= k < steps.len() ==> !(#[trigger] steps[k] is Resolution) && !(steps[k] is Decode),
    ensures
        ({
            let s = state.after_all(steps);
            s.decoder == state.decoder && s.sess_w == state.sess_w && s.sess_h == state.sess_h
        }),
    decreases steps.len(),
{
    if steps.len() > 0 {
        let less = steps.drop_last();
        assert forall|k: int| 0 <= k < less.len() implies !(#[trigger] less[k] is Resolution) && !(
        less[k] is Decode) by {
            assert(less[k] == steps[k]);
        }
        lemma_no_size(state, less);
        assert(steps.last() == steps[steps.len() - 1]);
    }
}

/// A recording that had to wait begins with the first configuration that comes once a size is
/// known, whatever else happens until that, unless it is called off or another is asked for.
pub proof fn law_waiting_recording_is_opened<P>(
    state: LoopView<P>,
    path: P,
    steps: Seq<Step<P>>,
    config: PacketView,
)
    requires
        state.start_action(path).open is None,
        forall|k: int|
            0 <= k < steps.len() ==> !(#[trigger] steps[k]).configures() && !(steps[k] is Start)
                && !(steps[k] is Stop),
        config.is_config,
    ensures
        ({
            let s = state.after(Step::Start(path)).after_all(steps);
            &&& s.pending == Some(path)
            &&& s.sess_w > 0 ==> s.open_for_packet(config) == Some(path) && s.after(
                Step::Configure(config),
            ).pending is None
            &&& s.sess_w == 0 ==> s.open_for_packet(config) is None && s.after(
                Step::Configure(config),
            ).pending == Some(path)
        }),
    decreases steps.len(),
{
    if steps.len() > 0 {
        let less = steps.drop_last();
        assert forall|k: int| 0 <= k < less.len() implies !(#[trigger] less[k]).configures() && !(
        less[k] is Start) && !(less[k] is Stop) by {
            assert(less[k] == steps[k]);
        }
        law_waiting_recording_is_opened(state, path, less, config);
        assert(steps.last() == steps[steps.len() - 1]);
    }
}

/// How many frames come out of the decoder in `steps`.
pub open spec fn frames_among<P>(steps: Seq<Step<P>>) -> nat
    decreases steps.len(),
{
    if steps.len() == 0 {
        0
    } else {
        frames_among(steps.drop_last()) + if steps.last() is Frame {
            1nat
        } else {
            0
        }
    }
}

/// A report tells of the frames since the last one, over the time since then. Its size is that of
/// the last frame or the announced one, side by side whichever is larger; and half a second must
/// have gone by.
pub proof fn law_report_counts_the_frames<P>(
    state: LoopView<P>,
    long: u64,
    steps: Seq<Step<P>>,
    nanos: u64,
)
    requires
        long >= 500_000_000,
        forall|k: int| 0 <= k < steps.len() ==> !(#[trigger] steps[k] is Tick),
        frames_among(steps) <= u32::MAX,
    ensures
        ({
            let s = state.after(Step::Tick(long)).after_all(steps);
            match s.report(nanos) {
                Some(Status::Streaming { width, height, rate: Some(rate) }) => {
                    &&& nanos >= 500_000_000
                    &&& rate.frames == frames_among(steps)
                    &&& rate.nanos == nanos
                    &&& width >= s.frame_w && width >= s.sess_w
                    &&& width == s.frame_w || width == s.sess_w
                    &&& height >= s.frame_h && height >= s.sess_h
                    &&& height == s.frame_h || height == s.sess_h
                },
                Some(_) => false,
                None => nanos < 500_000_000 && s.after(Step::Tick(nanos)) == s,
            }
        }),
{
    lemma_frames_counted(state.after(Step::Tick(long)), steps);
}

/// The frames since the last report are counted.
proof fn lemma_frames_counted<P>(state: LoopView<P>, steps: Seq<Step<P>>)
    requires
        state.frames_since == 0,
        forall|k: int| 0 <= k < steps.len() ==> !(#[trigger] steps[k] is Tick),
        frames_among(steps) <= u32::MAX,
    ensures
        state.after_all(steps).frames_since == frames_among(steps),
    decreases steps.len(),
{
    if steps.len() > 0 {
        let less = steps.drop_last();
        assert forall|k: int| 0 <= k < less.len() implies !(#[trigger] less[k] is Tick) by {
            assert(less[k] == steps[k]);
        }
        lemma_frames_counted(state, less);
        assert(!(steps[steps.len() - 1] is Tick));
    }
}

/// A decoder is made for the first packet that is to be decoded, unless a size was announced
/// before, and for each size that is not the one before it. Where nothing told of a size it is
/// 1920 by 1088, and no side is ever empty.
pub proof fn law_decoder_is_made_when_needed<P>(
    state: LoopView<P>,
    steps: Seq<Step<P>>,
    i: int,
    width: u32,
    height: u32,
)
    requires
        0 <= i < steps.len(),
        steps[i] is Resolution || steps[i] is Decode,
    ensures
        state.after_all(steps).decoder_for_packet() is None,
        LoopView::<P>::start().decoder_for_packet() == Some((1920u32, 1088u32)),
        LoopView::<P>::start().decoder_for_resolution(width, height) is Some,
        !state.decoder ==> (state.decoder_for_packet() matches Some((w, h)) && (state.sess_w > 0
            ==> w == state.sess_w) && (state.sess_w == 0 ==> w == 1920) && (state.sess_h > 0 ==> h
            == state.sess_h) && (state.sess_h == 0 ==> h == 1088) && state.after(
            Step::Decode,
        ).sess_w == w && state.after(Step::Decode).sess_h == h),
        ({
            let s = state.after_all(steps);
            &&& s.decoder_for_resolution(width, height) is None <==> s.sess_w == width && s.sess_h
                == height
            &&& s.decoder_for_resolution(width, height) matches Some((w, h)) ==> w >= 1 && h >= 1
                && (width > 0 ==> w == width) && (height > 0 ==> h == height)
            &&& s.after(Step::Resolution { width, height }).decoder_for_resolution(
                width,
                height,
            ) is None
        }),
{
    let (a, b) = (steps.take(i + 1), steps.skip(i + 1));
    assert(steps =~= a + b);
    lemma_after_all_joins(state, a, b);
    assert(a.last() == steps[i]);
    assert(state.after_all(a).decoder);
    lemma_kept(state.after_all(a), b);
}

/// Whether a step ends the recorder that is open.
pub open spec fn ends_recorder<P>(step: Step<P>) -> bool {
    step is Start || step is Stop || step is WriteFailed || step is Finish
}

/// A recorder is open from the moment that one could be opened until the next step that ends it,
/// and in between nothing else closes it; so what asks for the next one, or for the end, closes
/// the one that runs.
pub proof fn law_recorder_is_open_between<P>(
    state: LoopView<P>,
    steps: Seq<Step<P>>,
    i: int,
    path: P,
)
    requires
        0 <= i < steps.len(),
    ensures
        steps[i] == Step::<P>::Opened(true) && (forall|k: int|
            i < k < steps.len() ==> !ends_recorder(#[trigger] steps[k])) ==> {
            let s = state.after_all(steps);
            s.recorder && s.recording && s.start_action(path).close && s.stop_action().close
        },
        ends_recorder(steps[i]) && (forall|k: int|
            i < k < steps.len() ==> #[trigger] steps[k] != Step::<P>::Opened(true)) ==> {
            let s = state.after_all(steps);
            !s.recorder && !s.start_action(path).close && !s.stop_action().close
        },
{
    let (a, b) = (steps.take(i + 1), steps.skip(i + 1));
    assert(steps =~= a + b);
    lemma_after_all_joins(state, a, b);
    assert(a.last() == steps[i]);
    lemma_recorder_kept(state.after_all(a), b);
    assert forall|k: int| 0 <= k < b.len() implies #[trigger] b[k] == steps[i + 1 + k] by {}
}

/// A recorder stays open while nothing ends it, and closed while none is opened.
proof fn lemma_recorder_kept<P>(state: LoopView<P>, steps: Seq<Step<P>>)
    ensures
        state.recorder && state.recording && (forall|k: int|
            0 <= k < steps.len() ==> !ends_recorder(#[trigger] steps[k])) ==> state.after_all(
            steps,
        ).recorder && state.after_all(steps).recording,
        !state.recorder && (forall|k: int|
            0 <= k < steps.len() ==> #[trigger] steps[k] != Step::<P>::Opened(true))
            ==> !state.after_all(steps).recorder,
    decreases steps.len(),
{
    if steps.len() > 0 {
        let less = steps.drop_last();
        lemma_recorder_kept(state, less);
        assert forall|k: int| 0 <= k < less.len() implies #[trigger] less[k] == steps[k] by {}
        assert(steps.last() == steps[steps.len() - 1]);
    }
}

/// Nothing is written while no recorder is open.
pub proof fn law_nothing_is_written_without_recorder<P>(state: LoopView<P>, steps: Seq<Step<P>>)
    requires
        !state.recorder,
        forall|k: int| 0 <= k < steps.len() ==> #[trigger] steps[k] != Step::<P>::Opened(true),
    ensures
        state.written(steps) == Seq::<PacketView>::empty(),
    decreases steps.len(),
{
    if steps.len() > 0 {
        let rest = steps.drop_first();
        assert forall|k: int| 0 <= k < rest.len() implies #[trigger] rest[k] != Step::<
            P,
        >::Opened(true) by {
            assert(rest[k] == steps[k + 1]);
        }
        assert(steps[0] != Step::<P>::Opened(true));
        law_nothing_is_written_without_recorder(state.after(steps[0]), rest);
    }
}

impl<P> StreamLoop<P> {
    /// A session that has not begun.
    pub fn new() -> (r: StreamLoop<P>)
        ensures
            r@ == LoopView::<P>::start(),
    {
        let r = StreamLoop {
            decoder: false,
            sess_w: 0,
            sess_h: 0,
            frame_w: 0,
            frame_h: 0,
            frames_since: 0,
            recorder: false,
            last_config: Vec::new(),
            pending: None,
            waiting_key: false,
            recording: false,
        };
        assert(r@ =~= LoopView::<P>::start());
        r
    }

    /// What to do about a command.
    pub fn on_command(&mut self, cmd: RecordCmd<P>) -> (r: RecordAction<P>)
        ensures
            match cmd {
                RecordCmd::Start(path) => r == old(self)@.start_action(path) && final(self)@
                    == old(self)@.after(Step::Start(path)),
                RecordCmd::Stop => r == old(self)@.stop_action() && final(self)@ == old(
                    self,
                )@.after(Step::Stop),
            },
    {
        let close = self.recorder;
        self.recorder = false;
        match cmd {
            RecordCmd::Start(path) => {
                if self.last_config.len() > 0 && self.sess_w > 0 {
                    RecordAction { close, report: false, open: Some(path) }
                } else {
                    self.pending = Some(path);
                    RecordAction { close, report: false, open: None }
                }
            },
            RecordCmd::Stop => {
                self.pending = None;
                self.recording = false;
                RecordAction { close, report: true, open: None }
            },
        }
    }

    /// Takes note of whether the recorder that was asked for could be opened.
    pub fn on_opened(&mut self, ok: bool)
        ensures
            final(self)@ == old(self)@.after(Step::Opened(ok)),
    {
        if ok {
            self.recorder = true;
            self.waiting_key = true;
            self.recording = true;
        }
    }

    /// Takes note of an announced size. Gives the size of the decoder to make, if one is to be
    /// made; the session then shows the announced size.
    pub fn on_resolution(&mut self, width: u32, height: u32) -> (r: Option<(u32, u32)>)
        ensures
            r == old(self)@.decoder_for_resolution(width, height),
            final(self)@ == old(self)@.after(Step::Resolution { width, height }),
    {
        if !self.decoder || width != self.sess_w || height != self.sess_h {
            self.sess_w = width;
            self.sess_h = height;
            self.decoder = true;
            Some((larger_of(width, 1), larger_of(height, 1)))
        } else {
            None
        }
    }

    /// Takes note of a packet. Gives the place of the recorder to open, if one is to be opened.
    pub fn on_packet(&mut self, p: &Packet) -> (r: Option<P>)
        ensures
            r == old(self)@.open_for_packet(p@),
            final(self)@ == old(self)@.after(Step::Configure(p@)),
    {
        if !p.is_config {
            return None;
        }
        self.last_config = vstd::slice::slice_to_vec(p.data.as_slice());
        if self.sess_w > 0 {
            self.pending.take()
        } else {
            None
        }
    }

    /// Whether the packet belongs to the clip that the recorder writes.
    pub fn offer(&mut self, p: &Packet) -> (r: bool)
        ensures
            r == old(self)@.writes(p@),
            final(self)@ == old(self)@.after(Step::Offer(p@)),
    {
        if self.recorder && !p.is_config && (p.is_key || !self.waiting_key) {
            self.waiting_key = false;
            true
        } else {
            false
        }
    }

    /// Takes note that the recorder could not write. It is to be closed.
    pub fn on_write_failed(&mut self)
        ensures
            final(self)@ == old(self)@.after(Step::WriteFailed),
    {
        self.recorder = false;
        self.recording = false;
    }

    /// Gives the size of the decoder to make before a packet is decoded, if there is none.
    pub fn on_decode(&mut self) -> (r: Option<(u32, u32)>)
        ensures
            r == old(self)@.decoder_for_packet(),
            final(self)@ == old(self)@.after(Step::Decode),
    {
        if self.decoder {
            return None;
        }
        if self.sess_w == 0 {
            self.sess_w = DEFAULT_WIDTH;
        }
        if self.sess_h == 0 {
            self.sess_h = DEFAULT_HEIGHT;
        }
        self.decoder = true;
        Some((self.sess_w, self.sess_h))
    }

    /// Takes note of a decoded frame.
    pub fn on_frame(&mut self, width: u32, height: u32)
        requires
            old(self)@.frames_since < u32::MAX,
        ensures
            final(self)@ == old(self)@.after(Step::Frame { width, height }),
    {
        self.frame_w = width;
        self.frame_h = height;
        self.frames_since = self.frames_since + 1;
    }

    /// Gives what to report, once `nanos` have gone by since the last report.
    pub fn on_tick(&mut self, nanos: u64) -> (r: Option<Status>)
        ensures
            r == old(self)@.report(nanos),
            final(self)@ == old(self)@.after(Step::Tick(nanos)),
    {
        if nanos >= TICK_NANOS {
            let frames: u32 = self.frames_since;
            self.frames_since = 0;
            Some(
                Status::Streaming {
                    width: larger_of(self.frame_w, self.sess_w),
                    height: larger_of(self.frame_h, self.sess_h),
                    rate: Some(Rate { frames, nanos }),
                },
            )
        } else {
            None
        }
    }

    /// Ends the session. Tells whether a recorder is to be closed.
    pub fn on_finish(&mut self) -> (r: bool)
        ensures
            r == old(self)@.recorder,
            final(self)@ == old(self)@.after(Step::Finish),
    {
        let close = self.recorder;
        self.recorder = false;
        self.recording = false;
        close
    }

    /// The size that a recorder is opened with.
    pub fn session_size(&self) -> (r: (u32, u32))
        ensures
            r == (self@.sess_w, self@.sess_h),
    {
        (self.sess_w, self.sess_h)
    }

    /// The codec configuration that a recorder is opened with.
    pub fn config(&self) -> (r: &Vec<u8>)
        ensures
            r@ == self@.last_config,
    {
        &self.last_config
    }

    /// Whether the window shows that a recording runs.
    pub fn is_recording(&self) -> (r: bool)
        ensures
            r == self@.recording,
    {
        self.recording
    }

    /// The frames since the last report.
    pub fn frames_since(&self) -> (r: u32)
        ensures
            r == self@.frames_since,
    {
        self.frames_since
    }
}

/// The packets that hold a picture are all but those that hold codec configuration, in order.
pub proof fn law_pictures_are_all_but_configuration(offered: Seq<PacketView>)
    ensures
        pictures(offered) == offered.filter(|p: PacketView| !p.is_config),
    decreases offered.len(),
{
    let keep = |p: PacketView| !p.is_config;
    if offered.len() == 0 {
        reveal(Seq::filter);
        assert(pictures(offered) =~= offered.filter(keep));
    } else {
        let (first, rest) = (seq![offered[0]], offered.drop_first());
        law_pictures_are_all_but_configuration(rest);
        assert(offered =~= first + rest);
        Seq::filter_distributes_over_add(first, rest, keep);
        assert(first.filter(keep) =~= if keep(offered[0]) {
            first
        } else {
            seq![]
        }) by {
            reveal_with_fuel(Seq::filter, 2);
            assert(first.drop_last() =~= seq![]);
        }
        assert(pictures(offered) =~= first.filter(keep) + rest.filter(keep));
    }
}

/// What stands in front of the first key frame holds none, and what follows begins with it.
pub proof fn law_first_key_frame_is_found(offered: Seq<PacketView>)
    ensures
        before_key(offered) <= offered.len(),
        forall|i: int| 0 <= i < before_key(offered) ==> !(#[trigger] offered[i]).is_key,
        before_key(offered) < offered.len() ==> offered[before_key(offered) as int].is_key,
    decreases offered.len(),
{
    if offered.len() > 0 && !offered[0].is_key {
        let rest = offered.drop_first();
        law_first_key_frame_is_found(rest);
        assert forall|i: int| 0 <= i < before_key(offered) implies !(
        #[trigger] offered[i]).is_key by {
            if i > 0 {
                assert(offered[i] == rest[i - 1]);
            }
        }
    }
}

/// What is to be mirrored is read back from the arguments of the server.
pub proof fn law_server_is_told_what_to_mirror(c: StreamConfig)
    ensures
        ({
            let args = c.options().args();
            &&& adb::says_number(args, "display_id="@, c.display_id)
            &&& adb::says_number(args, "max_size="@, c.max_size)
            &&& adb::says_number(args, "video_bit_rate="@, c.video_bit_rate)
            &&& adb::says_number(args, "max_fps="@, c.max_fps)
            &&& adb::says_text(args, "audio="@, text::truth(c.audio))
            &&& c.audio ==> adb::says_number(args, "audio_bit_rate="@, c.audio_bit_rate)
        }),
{
    adb::law_options_are_read_back(c.options());
}

/// One who has not seen the newest frame gets it, whatever was put in before it, and one who has
/// gets nothing; a frame that nobody took is replaced by the next, and one that was not handed out
/// stays.
pub proof fn law_newest_frame_replaces_the_one_before(
    slot: SlotView,
    older: FrameView,
    frame: FrameView,
    seen: u64,
)
    ensures
        ({
            let s = slot.published(older).published(frame);
            &&& seen != s.generation ==> s.newer(seen) == Some((frame, s.generation))
            &&& seen == s.generation ==> s.newer(seen) is None && s.after_take(seen) == s
            &&& s.generation != slot.published(older).generation
            &&& slot.published(older).generation != slot.generation
            &&& s.after_take(seen).generation == s.generation
        }),
{
}

/// A new recording is opened without word of how the one before it ended, and the end of a recording
/// is reported. Once a recording could not be written or the session is over, none is shown.
pub proof fn law_ends_are_reported<P>(state: LoopView<P>, path: P)
    ensures
        !state.start_action(path).report,
        state.stop_action().report && state.stop_action().open is None,
        !state.after(Step::WriteFailed).recording && !state.after(Step::WriteFailed).recorder,
        !state.after(Step::Finish).recording && !state.after(Step::Finish).recorder,
        state.after(Step::WriteFailed).pending == state.pending,
        state.after(Step::Opened(false)) == state,
{
}

/// A session knows the size of the frame that was decoded last, whatever happened since.
pub proof fn law_session_knows_the_latest_frame<P>(state: LoopView<P>, steps: Seq<Step<P>>, i: int)
    requires
        0 <= i < steps.len(),
        steps[i] is Frame,
        forall|j: int| i < j < steps.len() ==> !(#[trigger] steps[j] is Frame),
    ensures
        ({
            let s = state.after_all(steps);
            steps[i] matches Step::Frame { width, height } && s.frame_w == width && s.frame_h
                == height
        }),
    decreases steps.len(),
{
    if i < steps.len() - 1 {
        let less = steps.drop_last();
        assert forall|j: int| i < j < less.len() implies !(#[trigger] less[j] is Frame) by {
            assert(less[j] == steps[j]);
        }
        law_session_knows_the_latest_frame(state, less, i);
        assert(!(steps[steps.len() - 1] is Frame));
    }
}

/// A packet that is no configuration leaves what the session knows as it is.
pub proof fn law_pictures_tell_nothing_new<P>(state: LoopView<P>, p: PacketView)
    requires
        !p.is_config,
    ensures
        state.after(Step::Configure(p)) == state,
        state.open_for_packet(p) is None,
{
}

/// A session that has not begun knows nothing, shows nothing and has nothing to close.
pub proof fn law_session_begins_with_nothing<P>(nanos: u64, p: PacketView)
    requires
        nanos >= 500_000_000,
    ensures
        ({
            let s = LoopView::<P>::start();
            &&& s.report(nanos) == Some(
                Status::Streaming { width: 0, height: 0, rate: Some(Rate { frames: 0, nanos }) },
            )
            &&& !s.recorder && !s.recording && s.pending is None && s.last_config.len() == 0
            &&& !s.writes(p) && s.open_for_packet(p) is None && !s.stop_action().close
        }),
{
}

} // verus!
