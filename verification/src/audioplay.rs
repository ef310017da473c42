//! AAC playback: what to do with each packet, and the queue of decoded samples.
pub mod ffmpeg;
pub mod mf;
pub mod queue;

use crate::audioplay::ffmpeg::{FfmpegPlayer, FfmpegPlayerView};
use crate::audioplay::mf::MfPlayer;
use crate::backend;
use crate::backend::Backend;
use vstd::prelude::*;

verus! {

/// What to do with a packet.
#[derive(Debug)]
pub enum FeedAction {
    /// Replace the ffmpeg process with a new one.
    Respawn,
    /// Write these bytes to the ffmpeg process.
    Write(Vec<u8>),
    /// Replace the Media Foundation decoder with one for this configuration.
    Rebuild,
    /// Hand the packet to the Media Foundation decoder, and queue what comes out.
    Decode,
    /// Nothing: there is no decoder yet, or none any more.
    Skip,
}

/// What a [`FeedAction`] says.
pub enum FeedView {
    Respawn,
    Write(Seq<u8>),
    Rebuild,
    Decode,
    Skip,
}

impl View for FeedAction {
    type V = FeedView;

    open spec fn view(&self) -> FeedView {
        match *self {
            FeedAction::Respawn => FeedView::Respawn,
            FeedAction::Write(b) => FeedView::Write(b@),
            FeedAction::Rebuild => FeedView::Rebuild,
            FeedAction::Decode => FeedView::Decode,
            FeedAction::Skip => FeedView::Skip,
        }
    }
}

/// Plays AAC, through either stack.
pub enum AacPlayer {
    Ffmpeg(FfmpegPlayer),
    Mf(MfPlayer),
}

/// The state of an [`AacPlayer`].
pub enum PlayerView {
    Ffmpeg(FfmpegPlayerView),
    /// Whether there is a decoder.
    Mf(bool),
}

impl View for AacPlayer {
    type V = PlayerView;

    open spec fn view(&self) -> PlayerView {
        match *self {
            AacPlayer::Ffmpeg(p) => PlayerView::Ffmpeg(p@),
            AacPlayer::Mf(p) => PlayerView::Mf(p@),
        }
    }
}

impl PlayerView {
    /// The player before its first packet, on an output with this rate and so many channels.
    pub open spec fn start(backend: Backend, out_rate: u32, out_channels: u32) -> PlayerView {
        match backend {
            Backend::Ffmpeg => PlayerView::Ffmpeg(FfmpegPlayerView::start(out_rate, out_channels)),
            Backend::MediaFoundation => PlayerView::Mf(false),
        }
    }

    /// What to do with a packet.
    pub open spec fn feed_action(self, data: Seq<u8>, is_config: bool) -> FeedView {
        match self {
            PlayerView::Ffmpeg(p) => p.feed_action(data, is_config),
            PlayerView::Mf(decoder) => mf::feed_action(decoder, is_config),
        }
    }

    /// The player once it got the packet.
    pub open spec fn after_feed(self, data: Seq<u8>, is_config: bool) -> PlayerView {
        match self {
            PlayerView::Ffmpeg(p) => PlayerView::Ffmpeg(p.after_feed(data, is_config)),
            PlayerView::Mf(decoder) => self,
        }
    }
}

impl AacPlayer {
    /// A player on an output with this rate and so many channels, on the stack that there is.
    pub fn new(ffmpeg: bool, windows: bool, out_rate: u32, out_channels: u32) -> (r: Result<
        AacPlayer,
        &'static str,
    >)
        ensures
            match r {
                Ok(p) => backend::backend_for(ffmpeg, windows) matches Some(b) && p@
                    == PlayerView::start(b, out_rate, out_channels),
                Err(e) => backend::backend_for(ffmpeg, windows) is None && e@
                    == "no audio backend — install ffmpeg and make sure it is on your PATH"@,
            },
    {
        match backend::choose_backend(ffmpeg, windows) {
            Some(Backend::Ffmpeg) => Ok(
                AacPlayer::Ffmpeg(FfmpegPlayer::new(out_rate, out_channels)),
            ),
            Some(Backend::MediaFoundation) => Ok(AacPlayer::Mf(MfPlayer::new())),
            None => Err("no audio backend — install ffmpeg and make sure it is on your PATH"),
        }
    }

    /// Takes an access unit, or the AudioSpecificConfig where `is_config` says so.
    pub fn feed(&mut self, data: &[u8], is_config: bool) -> (r: FeedAction)
        requires
            data@.len() + 7 <= usize::MAX,
        ensures
            r@ == old(self)@.feed_action(data@, is_config),
            final(self)@ == old(self)@.after_feed(data@, is_config),
    {
        match self {
            AacPlayer::Ffmpeg(p) => p.feed(data, is_config),
            AacPlayer::Mf(p) => p.feed(is_config),
        }
    }
}

/// Units are skipped until there is something to decode them with, and a configuration always
/// calls for a new decoder, on either stack.
pub proof fn law_units_wait_for_a_decoder(
    backend: Backend,
    out_rate: u32,
    out_channels: u32,
    asc: Seq<u8>,
    au: Seq<u8>,
)
    ensures
        ({
            let s = PlayerView::start(backend, out_rate, out_channels);
            &&& s.feed_action(au, false) is Skip
            &&& s.after_feed(au, false) == s
            &&& backend == Backend::Ffmpeg ==> s.feed_action(asc, true) is Respawn
                && s.after_feed(asc, true).feed_action(au, false) is Skip
            &&& backend == Backend::MediaFoundation ==> s.feed_action(asc, true) is Rebuild
            &&& PlayerView::Mf(true).feed_action(au, false) is Decode
        }),
{
}

} // verus!
