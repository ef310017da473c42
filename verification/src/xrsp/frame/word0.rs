//! The confirmed flag bits of the first word of a packet header.
use vstd::prelude::*;

verus! {

/// The packet carries a payload beyond the bare header.
pub const SIZED: u16 = 0x0008;

/// The "internal" variant of the packet version.
pub const INTERNAL: u16 = 0x0010;

} // verus!
