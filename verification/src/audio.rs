//! The audio socket: what its codec id calls for.
use crate::server;
use crate::server::AudioMeta;
use crate::text;
use vstd::prelude::*;

verus! {

/// What to do with an audio socket.
#[derive(Debug)]
pub enum AudioStart {
    /// Play what comes in.
    Play,
    /// The device does not capture audio. Video goes on alone.
    VideoOnly,
    /// Give up, with this message.
    Fail(String),
}

/// What an [`AudioStart`] says.
pub enum AudioStartView {
    Play,
    VideoOnly,
    Fail(Seq<char>),
}

impl View for AudioStart {
    type V = AudioStartView;

    open spec fn view(&self) -> AudioStartView {
        match *self {
            AudioStart::Play => AudioStartView::Play,
            AudioStart::VideoOnly => AudioStartView::VideoOnly,
            AudioStart::Fail(e) => AudioStartView::Fail(e@),
        }
    }
}

/// What a codec id calls for. AAC alone is played.
pub open spec fn start_for(codec_id: u32) -> AudioStartView {
    if codec_id == server::AUDIO_DISABLED {
        AudioStartView::VideoOnly
    } else if codec_id == server::AUDIO_CONFIG_ERROR {
        AudioStartView::Fail("device reported an audio configuration error"@)
    } else if codec_id == server::CODEC_ID_AAC {
        AudioStartView::Play
    } else {
        AudioStartView::Fail(
            "unexpected audio codec 0x"@ + text::hex(codec_id as nat, 8) + " (expected AAC)"@,
        )
    }
}

/// Decides what to do with an audio socket.
pub fn start(meta: &AudioMeta) -> (r: AudioStart)
    ensures
        r@ == start_for(meta.codec_id),
{
    if meta.codec_id == server::AUDIO_DISABLED {
        AudioStart::VideoOnly
    } else if meta.codec_id == server::AUDIO_CONFIG_ERROR {
        AudioStart::Fail("device reported an audio configuration error".to_string())
    } else if meta.codec_id == server::CODEC_ID_AAC {
        AudioStart::Play
    } else {
        let mut e = "unexpected audio codec 0x".to_string();
        e.append(text::hex_digits(meta.codec_id, 8).as_str());
        e.append(" (expected AAC)");
        AudioStart::Fail(e)
    }
}

/// Sound is played where the codec is AAC and nowhere else; a device that captures none still
/// shows its picture; and anything else is told apart by its message.
pub proof fn law_only_aac_is_played(id: u32)
    ensures
        start_for(id) is Play <==> server::codec_label(id) == "aac"@,
        start_for(id) is VideoOnly <==> server::codec_label(id) == "disabled"@,
        start_for(id) matches AudioStartView::Fail(e) ==> id == 1 || (exists|a: Seq<char>, b: Seq<char>|
            e == #[trigger] (a + text::hex(id as nat, 8) + b)),
{
    server::law_codecs_are_named_by_their_letters(id);
    reveal_strlit("aac");
    reveal_strlit("h264");
    reveal_strlit("opus");
    reveal_strlit("disabled");
    reveal_strlit("config-error");
    reveal_strlit("0x");
    assert("aac"@[0] == 'a' && "h264"@[0] == 'h' && "opus"@[0] == 'o' && "disabled"@[0] == 'd'
        && "config-error"@[0] == 'c');
    assert(("0x"@ + text::hex(id as nat, 8))[0] == '0');
    assert("unexpected audio codec 0x"@ + text::hex(id as nat, 8) + " (expected AAC)"@ == (
    "unexpected audio codec 0x"@ + text::hex(id as nat, 8) + " (expected AAC)"@));
}

} // verus!
