//! Power-of-two-equal values.
//!
//! A `Zequal` value approximates a signed or unsigned 128-bit integer by the
//! largest power of two not exceeding its magnitude, tagged with a sign.
//! Converting an integer to a `Zequal` and back yields that rounded-down
//! power of two with the original sign restored.

pub mod binary;
pub mod bits;
