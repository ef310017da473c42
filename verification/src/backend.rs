//! Which of the two codec stacks does the work.
use vstd::prelude::*;

verus! {

/// A codec stack.
#[derive(Clone, Copy, Debug, PartialEq, Eq, Structural)]
pub enum Backend {
    /// The `ffmpeg` command line.
    Ffmpeg,
    /// Media Foundation, which is part of Windows.
    MediaFoundation,
}

/// The stack to use: ffmpeg wherever it is available, else what Windows has built in.
pub open spec fn backend_for(ffmpeg: bool, windows: bool) -> Option<Backend> {
    if ffmpeg {
        Some(Backend::Ffmpeg)
    } else if windows {
        Some(Backend::MediaFoundation)
    } else {
        None
    }
}

/// Chooses the stack.
pub fn choose_backend(ffmpeg: bool, windows: bool) -> (r: Option<Backend>)
    ensures
        r == backend_for(ffmpeg, windows),
{
    if ffmpeg {
        Some(Backend::Ffmpeg)
    } else if windows {
        Some(Backend::MediaFoundation)
    } else {
        None
    }
}

/// ffmpeg is used wherever it is there, what Windows has only where it is not, and nothing only
/// where neither is.
pub proof fn law_ffmpeg_comes_first(windows: bool, other: bool)
    ensures
        backend_for(true, windows) == Some(Backend::Ffmpeg),
        backend_for(false, true) == Some(Backend::MediaFoundation),
        backend_for(windows, other) is None <==> !windows && !other,
{
}

} // verus!
