//! AAC playback through the `ffmpeg` command line: access units go in behind ADTS headers, and
//! samples for the output device come out.
use crate::audioplay::{FeedAction, FeedView};
use crate::ffmpeg::{Adts, AdtsView};
use crate::text;
use vstd::prelude::*;

verus! {

/// A player and its decoder process, as far as packets are concerned.
#[derive(Debug)]
pub struct FfmpegPlayer {
    out_rate: u32,
    out_channels: u32,
    /// What the last AudioSpecificConfig said.
    adts: Option<Adts>,
    /// Whether there is a process that takes access units.
    live: bool,
}

/// The state of an [`FfmpegPlayer`].
pub struct FfmpegPlayerView {
    pub out_rate: u32,
    pub out_channels: u32,
    pub adts: Option<AdtsView>,
    pub live: bool,
}

impl View for FfmpegPlayer {
    type V = FfmpegPlayerView;

    closed spec fn view(&self) -> FfmpegPlayerView {
        FfmpegPlayerView {
            out_rate: self.out_rate,
            out_channels: self.out_channels,
            adts: match self.adts {
                Some(a) => Some(a@),
                None => None,
            },
            live: self.live,
        }
    }
}

impl FfmpegPlayerView {
    /// The player before its first packet.
    pub open spec fn start(out_rate: u32, out_channels: u32) -> FfmpegPlayerView {
        FfmpegPlayerView { out_rate, out_channels, adts: None, live: false }
    }

    /// What to do with a packet: a configuration calls for a new process, and an access unit goes
    /// to the process behind its header.
    pub open spec fn feed_action(self, data: Seq<u8>, is_config: bool) -> FeedView {
        if is_config {
            FeedView::Respawn
        } else {
            match self.adts {
                Some(a) if self.live => FeedView::Write(a.header_bytes(data.len() + 7int) + data),
                _ => FeedView::Skip,
            }
        }
    }

    /// The player once it got the packet. After a configuration it waits for the new process.
    pub open spec fn after_feed(self, data: Seq<u8>, is_config: bool) -> FfmpegPlayerView {
        if is_config {
            FfmpegPlayerView { adts: Some(AdtsView::of(data)), live: false, ..self }
        } else {
            self
        }
    }
}

impl FfmpegPlayerView {
    /// The arguments of the decoder process.
    pub open spec fn arguments(self) -> Seq<Seq<char>> {
        seq![
            "-f"@,
            "aac"@,
            "-i"@,
            "pipe:0"@,
            "-f"@,
            "f32le"@,
            "-ar"@,
            text::decimal(self.out_rate as nat),
            "-ac"@,
            text::decimal(self.out_channels as nat),
            "pipe:1"@,
        ]
    }
}

/// The process is told the rate and the channels of the output, whatever was fed to the player
/// before.
pub proof fn law_process_is_told_the_output(
    out_rate: u32,
    out_channels: u32,
    data: Seq<u8>,
    is_config: bool,
)
    ensures
        ({
            let s = FfmpegPlayerView::start(out_rate, out_channels);
            &&& text::option_number(s.arguments(), "-ar"@, out_rate)
            &&& text::option_number(s.arguments(), "-ac"@, out_channels)
            &&& s.arguments().len() == 11
            &&& !s.live && s.adts is None
            &&& s.after_feed(data, is_config).arguments() == s.arguments()
        }),
{
    let s = FfmpegPlayerView::start(out_rate, out_channels);
    let args = s.arguments();
    text::law_decimal_is_read_back(out_rate);
    text::law_decimal_is_read_back(out_channels);
    assert(args[6] == "-ar"@ && args[8] == "-ac"@);
}

impl FfmpegPlayer {
    /// A player on an output with this rate and so many channels.
    pub fn new(out_rate: u32, out_channels: u32) -> (r: FfmpegPlayer)
        ensures
            r@ == FfmpegPlayerView::start(out_rate, out_channels),
    {
        FfmpegPlayer { out_rate, out_channels, adts: None, live: false }
    }

    /// Takes an access unit, or the AudioSpecificConfig where `is_config` says so.
    pub fn feed(&mut self, data: &[u8], is_config: bool) -> (r: FeedAction)
        requires
            data@.len() + 7 <= usize::MAX,
        ensures
            r@ == old(self)@.feed_action(data@, is_config),
            final(self)@ == old(self)@.after_feed(data@, is_config),
    {
        if is_config {
            self.adts = Some(Adts::from_asc(data));
            self.live = false;
            return FeedAction::Respawn;
        }
        match self.adts {
            Some(a) => {
                if self.live {
                    FeedAction::Write(a.frame(data))
                } else {
                    FeedAction::Skip
                }
            },
            None => FeedAction::Skip,
        }
    }

    /// Takes note of a new process, and of whether it takes input.
    pub fn on_spawned(&mut self, takes_input: bool)
        ensures
            final(self)@ == (FfmpegPlayerView { live: takes_input, ..old(self)@ }),
    {
        self.live = takes_input;
    }

    /// Takes note that the process is gone. The next configuration calls for a new one.
    pub fn on_write_failed(&mut self)
        ensures
            final(self)@ == (FfmpegPlayerView { live: false, ..old(self)@ }),
    {
        self.live = false;
    }

    /// The arguments of the decoder process: ADTS in, samples of the output's rate and number of
    /// channels out.
    pub fn decoder_args(&self) -> (r: Vec<String>)
        ensures
            text::views(r@) =~= self@.arguments(),
            text::views(r@) =~= seq![
                "-f"@,
                "aac"@,
                "-i"@,
                "pipe:0"@,
                "-f"@,
                "f32le"@,
                "-ar"@,
                text::decimal(self@.out_rate as nat),
                "-ac"@,
                text::decimal(self@.out_channels as nat),
                "pipe:1"@,
            ],
    {
        vec![
            "-f".to_string(),
            "aac".to_string(),
            "-i".to_string(),
            "pipe:0".to_string(),
            "-f".to_string(),
            "f32le".to_string(),
            "-ar".to_string(),
            text::dec(self.out_rate as u64),
            "-ac".to_string(),
            text::dec(self.out_channels as u64),
            "pipe:1".to_string(),
        ]
    }
}

/// Whatever came before, after a configuration and a process that takes input, every access unit
/// is written behind a header that names this configuration, until the process is lost.
pub proof fn law_units_follow_config(player: FfmpegPlayerView, asc: Seq<u8>, au: Seq<u8>)
    ensures
        ({
            let ready = FfmpegPlayerView { live: true, ..player.after_feed(asc, true) };
            &&& ready.feed_action(au, false) == FeedView::Write(
                AdtsView::of(asc).header_bytes(au.len() + 7int) + au,
            )
            &&& ready.after_feed(au, false) == ready
        }),
{
}

/// Whatever a player was fed before, a configuration calls for a new process and takes the place of
/// the one before; units are skipped while there is no process that takes them, and they change
/// nothing.
pub proof fn law_units_wait_for_the_process(player: FfmpegPlayerView, asc: Seq<u8>, au: Seq<u8>)
    ensures
        player.feed_action(asc, true) is Respawn,
        player.after_feed(asc, true).adts == Some(AdtsView::of(asc)),
        !player.after_feed(asc, true).live,
        !player.live ==> player.feed_action(au, false) is Skip,
        player.adts is None ==> player.feed_action(au, false) is Skip,
        player.after_feed(au, false) == player,
        player.after_feed(asc, true).out_rate == player.out_rate,
        player.after_feed(asc, true).out_channels == player.out_channels,
{
}

} // verus!
