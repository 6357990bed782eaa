//! The byte frame sent to the strip: a start-of-frame byte, then for each LED
//! a start-of-LED byte and its three channels, capped below the marker values.

use vstd::prelude::*;
use crate::color::CRGB;
use crate::leds::Led;

verus! {

/// Opens a frame.
pub const FRAME_START: u8 = 255;

/// Opens one LED's three channel bytes.
pub const LED_START: u8 = 254;

/// Largest channel byte; the values above it are markers.
pub const MAX_CHANNEL: u8 = 252;

/// A channel capped at `MAX_CHANNEL`.
pub open spec fn clamp_channel(v: u8) -> u8 {
    if v < MAX_CHANNEL {
        v
    } else {
        MAX_CHANNEL
    }
}

/// A colour with each channel capped at `MAX_CHANNEL`.
pub open spec fn clamp_color(c: CRGB) -> CRGB {
    CRGB { r: clamp_channel(c.r), g: clamp_channel(c.g), b: clamp_channel(c.b) }
}

/// Index, in strip order, of the first LED sent for a starting corner: 0 for
/// the top-left corner, then the top-right, bottom-right and bottom-left
/// corners; any other value counts as 0.
pub open spec fn starting_led(start_corner: int, x_leds: int, y_leds: int) -> int {
    if start_corner == 1 {
        x_leds
    } else if start_corner == 2 {
        x_leds + y_leds
    } else if start_corner == 3 {
        2 * x_leds + y_leds
    } else {
        0
    }
}

/// The colours sent, in order: the LEDs rotated to begin at `start`, each
/// capped.
pub open spec fn wire_colors(leds: Seq<Led>, start: int) -> Seq<CRGB> {
    Seq::new(leds.len(), |i: int| clamp_color(leds[(i + start) % (leds.len() as int)].color))
}

/// `bytes` is the frame that carries `colors`.
pub open spec fn is_frame_of(bytes: Seq<u8>, colors: Seq<CRGB>) -> bool {
    &&& bytes.len() == 1 + 4 * colors.len()
    &&& bytes[0] == FRAME_START
    &&& forall|i: int| 0 <= i < colors.len() ==> #[trigger] bytes[1 + 4 * i] == LED_START
    &&& forall|i: int| 0 <= i < colors.len() ==> #[trigger] bytes[2 + 4 * i] == colors[i].r
    &&& forall|i: int| 0 <= i < colors.len() ==> #[trigger] bytes[3 + 4 * i] == colors[i].g
    &&& forall|i: int| 0 <= i < colors.len() ==> #[trigger] bytes[4 + 4 * i] == colors[i].b
}

/// Reads LED records (a start-of-LED byte and three channels at most
/// `MAX_CHANNEL`) until the bytes run out; `None` on anything else.
pub open spec fn decode_leds(body: Seq<u8>) -> Option<Seq<CRGB>>
    decreases body.len(),
{
    if body.len() == 0 {
        Some(Seq::empty())
    } else if body.len() >= 4 && body[0] == LED_START && body[1] <= MAX_CHANNEL && body[2]
        <= MAX_CHANNEL && body[3] <= MAX_CHANNEL {
        match decode_leds(body.subrange(4, body.len() as int)) {
            Some(rest) => Some(seq![CRGB { r: body[1], g: body[2], b: body[3] }] + rest),
            None => None,
        }
    } else {
        None
    }
}

/// Reads a frame: a start-of-frame byte, then LED records.
pub open spec fn decode_frame(bytes: Seq<u8>) -> Option<Seq<CRGB>> {
    if bytes.len() >= 1 && bytes[0] == FRAME_START {
        decode_leds(bytes.subrange(1, bytes.len() as int))
    } else {
        None
    }
}

/// Position of strip index `i + offset` on a strip of `n`, for an offset below `n`.
proof fn lemma_rotate_index(i: int, start: int, n: int, offset: int)
    requires
        0 <= i < n,
        0 <= start,
        offset == start % n,
    ensures
        (i + start) % n == if i < n - offset {
            i + offset
        } else {
            i - (n - offset)
        },
{
    vstd::arithmetic::div_mod::lemma_mod_bound(start, n);
    vstd::arithmetic::div_mod::lemma_add_mod_noop(i, start, n);
    vstd::arithmetic::div_mod::lemma_small_mod(i as nat, n as nat);
    if i < n - offset {
        vstd::arithmetic::div_mod::lemma_small_mod((i + offset) as nat, n as nat);
    } else {
        vstd::arithmetic::div_mod::lemma_mod_add_multiples_vanish(i + offset - n, n);
        vstd::arithmetic::div_mod::lemma_small_mod((i + offset - n) as nat, n as nat);
    }
}

/// Encodes the LEDs' colours as a frame, beginning at the LED of the starting
/// corner and wrapping around the strip, each channel capped at `MAX_CHANNEL`.
pub fn encode_frame(leds: &Vec<Led>, start_corner: u8, x_led_count: u32, y_led_count: u32) -> (r:
    Vec<u8>)
    ensures
        is_frame_of(
            r@,
            wire_colors(
                leds@,
                starting_led(start_corner as int, x_led_count as int, y_led_count as int),
            ),
        ),
{
    let ghost colors = wire_colors(
        leds@,
        starting_led(start_corner as int, x_led_count as int, y_led_count as int),
    );
    let mut values: Vec<u8> = Vec::new();
    values.push(FRAME_START);
    let starting: u64 = match start_corner {
        0 => 0,
        1 => x_led_count as u64,
        2 => x_led_count as u64 + y_led_count as u64,
        3 => 2 * x_led_count as u64 + y_led_count as u64,
        _ => 0,
    };
    let n = leds.len();
    let offset: usize = if n == 0 {
        0
    } else {
        (starting % (n as u64)) as usize
    };
    let mut idx: usize = 0;
    while idx < n
        invariant
            n == leds@.len(),
            colors == wire_colors(leds@, starting as int),
            n > 0 ==> offset == (starting as int) % (n as int),
            idx <= n,
            values@.len() == 1 + 4 * idx,
            values@[0] == FRAME_START,
            forall|i: int| 0 <= i < idx ==> #[trigger] values@[1 + 4 * i] == LED_START,
            forall|i: int| 0 <= i < idx ==> #[trigger] values@[2 + 4 * i] == colors[i].r,
            forall|i: int| 0 <= i < idx ==> #[trigger] values@[3 + 4 * i] == colors[i].g,
            forall|i: int| 0 <= i < idx ==> #[trigger] values@[4 + 4 * i] == colors[i].b,
        decreases n - idx,
    {
        proof {
            vstd::arithmetic::div_mod::lemma_mod_bound(starting as int, n as int);
            lemma_rotate_index(idx as int, starting as int, n as int, offset as int);
        }
        let j = if idx < n - offset {
            idx + offset
        } else {
            idx - (n - offset)
        };
        let c = leds[j].color;
        values.push(LED_START);
        values.push(if c.r < MAX_CHANNEL { c.r } else { MAX_CHANNEL });
        values.push(if c.g < MAX_CHANNEL { c.g } else { MAX_CHANNEL });
        values.push(if c.b < MAX_CHANNEL { c.b } else { MAX_CHANNEL });
        idx = idx + 1;
    }
    values
}

proof fn lemma_decode_leds(body: Seq<u8>, colors: Seq<CRGB>)
    requires
        body.len() == 4 * colors.len(),
        forall|i: int| 0 <= i < colors.len() ==> #[trigger] body[4 * i] == LED_START,
        forall|i: int| 0 <= i < colors.len() ==> #[trigger] body[1 + 4 * i] == colors[i].r,
        forall|i: int| 0 <= i < colors.len() ==> #[trigger] body[2 + 4 * i] == colors[i].g,
        forall|i: int| 0 <= i < colors.len() ==> #[trigger] body[3 + 4 * i] == colors[i].b,
        forall|i: int| 0 <= i < colors.len() ==> #[trigger] clamp_color(colors[i]) == colors[i],
    ensures
        decode_leds(body) == Some(colors),
    decreases colors.len(),
{
    if colors.len() > 0 {
        let rest = colors.subrange(1, colors.len() as int);
        let tail = body.subrange(4, body.len() as int);
        assert forall|i: int| 0 <= i < rest.len() implies #[trigger] tail[4 * i] == LED_START by {
            assert(tail[4 * i] == body[4 * (i + 1)]);
        }
        assert forall|i: int| 0 <= i < rest.len() implies #[trigger] tail[1 + 4 * i] == rest[i].r by {
            assert(tail[1 + 4 * i] == body[1 + 4 * (i + 1)]);
        }
        assert forall|i: int| 0 <= i < rest.len() implies #[trigger] tail[2 + 4 * i] == rest[i].g by {
            assert(tail[2 + 4 * i] == body[2 + 4 * (i + 1)]);
        }
        assert forall|i: int| 0 <= i < rest.len() implies #[trigger] tail[3 + 4 * i] == rest[i].b by {
            assert(tail[3 + 4 * i] == body[3 + 4 * (i + 1)]);
        }
        assert forall|i: int| 0 <= i < rest.len() implies #[trigger] clamp_color(rest[i]) == rest[i] by {
            assert(clamp_color(colors[i + 1]) == colors[i + 1]);
        }
        lemma_decode_leds(tail, rest);
        assert(body[(4 * 0) as int] == LED_START);
        assert(body[(1 + 4 * 0) as int] == colors[0].r);
        assert(body[(2 + 4 * 0) as int] == colors[0].g);
        assert(body[(3 + 4 * 0) as int] == colors[0].b);
        assert(clamp_color(colors[0]) == colors[0]);
        assert(seq![CRGB { r: body[1], g: body[2], b: body[3] }] + rest =~= colors);
    } else {
        assert(colors =~= Seq::empty());
    }
}

/// Decoding a frame by its markers gives back, LED by LED, the capped colours
/// that were encoded, in the order that begins at the starting corner's LED.
pub proof fn lemma_frame_round_trip(
    bytes: Seq<u8>,
    leds: Seq<Led>,
    start_corner: int,
    x_leds: int,
    y_leds: int,
)
    requires
        0 <= x_leds,
        0 <= y_leds,
        is_frame_of(bytes, wire_colors(leds, starting_led(start_corner, x_leds, y_leds))),
    ensures
        decode_frame(bytes) == Some(wire_colors(leds, starting_led(start_corner, x_leds, y_leds))),
        forall|i: int|
            0 <= i < leds.len() ==> #[trigger] wire_colors(
                leds,
                starting_led(start_corner, x_leds, y_leds),
            )[i] == clamp_color(
                leds[(i + starting_led(start_corner, x_leds, y_leds)) % (leds.len() as int)].color,
            ),
{
    let colors = wire_colors(leds, starting_led(start_corner, x_leds, y_leds));
    let body = bytes.subrange(1, bytes.len() as int);
    assert forall|i: int| 0 <= i < colors.len() implies #[trigger] body[4 * i] == LED_START by {
        assert(body[4 * i] == bytes[1 + 4 * i]);
    }
    assert forall|i: int| 0 <= i < colors.len() implies #[trigger] body[1 + 4 * i] == colors[i].r by {
        assert(body[1 + 4 * i] == bytes[2 + 4 * i]);
    }
    assert forall|i: int| 0 <= i < colors.len() implies #[trigger] body[2 + 4 * i] == colors[i].g by {
        assert(body[2 + 4 * i] == bytes[3 + 4 * i]);
    }
    assert forall|i: int| 0 <= i < colors.len() implies #[trigger] body[3 + 4 * i] == colors[i].b by {
        assert(body[3 + 4 * i] == bytes[4 + 4 * i]);
    }
    lemma_decode_leds(body, colors);
}

} // verus!
