//! XRSP, the streaming protocol of the headset: so far, the framing of its packets.
pub mod frame;
