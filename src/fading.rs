//! Optional fading: the brightness shown follows the target brightness by at
//! most a fixed step per frame, scaling all three channels alike so the hue
//! is kept.

use vstd::prelude::*;
use crate::color::CRGB;

verus! {

/// Luminosity of a colour: the mean of its channels, truncated.
pub open spec fn luminosity_of(c: CRGB) -> int {
    (c.r + c.g + c.b) / 3
}

/// One step from `current` toward `target`, of at most `speed`.
pub open spec fn step_toward(current: int, target: int, speed: int) -> int {
    if current < target {
        if target - current <= speed {
            target
        } else {
            current + speed
        }
    } else {
        if current - target <= speed {
            target
        } else {
            current - speed
        }
    }
}

/// A channel scaled by `shown / target`, capped at 255.
pub open spec fn scaled_channel(v: u8, shown: int, target: int) -> u8 {
    let x = v * shown / target;
    if x > 255 {
        255
    } else {
        x as u8
    }
}

/// The luminosity shown on the previous frame.
#[derive(Clone, Copy, Debug, PartialEq, Eq)]
pub struct FadeState {
    pub current_luminosity: u32,
}

impl FadeState {
    /// Starts from black.
    pub fn new() -> (r: FadeState)
        ensures
            r.current_luminosity == 0,
    {
        FadeState { current_luminosity: 0 }
    }

    /// Moves the shown luminosity toward the target colour's by at most
    /// `fading_speed` and returns the target colour scaled to it. A black
    /// target is shown black at once.
    pub fn advance(&mut self, target: CRGB, fading_speed: u32) -> (r: CRGB)
        ensures
            luminosity_of(target) == 0 ==> r == (CRGB { r: 0, g: 0, b: 0 })
                && final(self).current_luminosity == 0,
            luminosity_of(target) > 0 ==> {
                let shown = step_toward(
                    old(self).current_luminosity as int,
                    luminosity_of(target),
                    fading_speed as int,
                );
                &&& final(self).current_luminosity == shown
                &&& r == (CRGB {
                    r: scaled_channel(target.r, shown, luminosity_of(target)),
                    g: scaled_channel(target.g, shown, luminosity_of(target)),
                    b: scaled_channel(target.b, shown, luminosity_of(target)),
                })
            },
    {
        let target_luminosity: u32 = (target.r as u32 + target.g as u32 + target.b as u32) / 3;
        if target_luminosity == 0 {
            self.current_luminosity = 0;
            return CRGB { r: 0, g: 0, b: 0 };
        }
        let current = self.current_luminosity;
        let shown: u32 = if current < target_luminosity {
            if target_luminosity - current <= fading_speed {
                target_luminosity
            } else {
                current + fading_speed
            }
        } else {
            if current - target_luminosity <= fading_speed {
                target_luminosity
            } else {
                current - fading_speed
            }
        };
        self.current_luminosity = shown;
        CRGB {
            r: scale_channel(target.r, shown, target_luminosity),
            g: scale_channel(target.g, shown, target_luminosity),
            b: scale_channel(target.b, shown, target_luminosity),
        }
    }
}

/// `scaled_channel` for a positive target.
fn scale_channel(v: u8, shown: u32, target: u32) -> (r: u8)
    requires
        target > 0,
    ensures
        r == scaled_channel(v, shown as int, target as int),
{
    proof {
        assert(v as int * shown as int <= 255 * 0xffff_ffff) by (nonlinear_arith)
            requires
                v <= 255,
                shown <= 0xffff_ffff,
        ;
    }
    let x: u64 = v as u64 * shown as u64 / target as u64;
    if x > 255 {
        255
    } else {
        x as u8
    }
}

} // verus!
