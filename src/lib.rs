//! Ambient border lighting: a screen border unwrapped into a ring of sampled
//! regions, LEDs interpolated between neighbouring regions, and the framed
//! byte stream that drives the strip.

pub mod geometry;
pub mod color;
pub mod regions;
pub mod sampling;
pub mod blend;
pub mod leds;
pub mod wire;
pub mod fading;
