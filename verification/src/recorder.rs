//! Recording: which stack writes the clip, and the numbers that both of them need.
pub mod ffmpeg;
pub mod mf;

use crate::backend;
use crate::backend::Backend;
use vstd::prelude::*;

verus! {

/// The bit rate of a clip for which none is asked, in bits per second.
pub const DEFAULT_BITRATE: u32 = 12_000_000;

/// The frame rate of a clip for which none is known.
pub const DEFAULT_FPS: u32 = 60;

/// The stack that writes a clip.
pub fn recorder_backend(ffmpeg: bool, windows: bool) -> (r: Result<Backend, &'static str>)
    ensures
        match r {
            Ok(b) => backend::backend_for(ffmpeg, windows) == Some(b),
            Err(e) => backend::backend_for(ffmpeg, windows) is None && e@
                == "no recorder backend — install ffmpeg and make sure it is on your PATH"@,
        },
{
    match backend::choose_backend(ffmpeg, windows) {
        Some(b) => Ok(b),
        None => Err("no recorder backend — install ffmpeg and make sure it is on your PATH"),
    }
}

/// A number that was asked for, or a default where that is 0.
pub open spec fn asked_or(asked: u32, default: u32) -> u32 {
    if asked > 0 {
        asked
    } else {
        default
    }
}

/// The frame rate of a clip.
pub fn clip_fps(fps_hint: u32) -> (r: u32)
    ensures
        r == asked_or(fps_hint, DEFAULT_FPS),
{
    if fps_hint > 0 {
        fps_hint
    } else {
        DEFAULT_FPS
    }
}

/// The bit rate of a clip.
pub fn clip_bitrate(bitrate: u32) -> (r: u32)
    ensures
        r == asked_or(bitrate, DEFAULT_BITRATE),
{
    if bitrate > 0 {
        bitrate
    } else {
        DEFAULT_BITRATE
    }
}

/// A side of a clip: H.264 needs even ones, and at least 2.
pub open spec fn even_side(n: u32) -> u32 {
    if n < 2 {
        2
    } else {
        (n - n % 2) as u32
    }
}

/// A side of a clip.
pub fn clip_side(n: u32) -> (r: u32)
    ensures
        r == even_side(n),
        r % 2 == 0,
        r >= 2,
{
    if n < 2 {
        2
    } else {
        n - n % 2
    }
}

/// The side of a clip is even and at least 2; where the picture has that much, it is at most one
/// pixel less.
pub proof fn law_sides_are_even(n: u32)
    ensures
        even_side(n) % 2 == 0,
        even_side(n) >= 2,
        n >= 2 ==> n - 1 <= even_side(n) <= n,
        n >= 2 && n % 2 == 0 ==> even_side(n) == n,
{
}

/// What was asked for stands, and 0 asks for nothing.
pub proof fn law_what_was_asked_stands(asked: u32, default: u32)
    ensures
        asked != 0 ==> asked_or(asked, default) == asked,
        asked == 0 ==> asked_or(asked, default) == default,
{
}

} // verus!
