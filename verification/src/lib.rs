//! Host side of a scrcpy client for the Meta Quest.
pub mod adb;
pub mod app;
pub mod audio;
pub mod audioplay;
pub mod backend;
pub mod bytes;
pub mod cli;
pub mod config;
pub mod decoder;
pub mod displays;
pub mod ffmpeg;
pub mod flat;
pub mod mft;
pub mod picture;
pub mod recorder;
pub mod server;
pub mod stream;
pub mod text;
pub mod xrsp;
