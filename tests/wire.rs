use ambilight::blend::correct_channel;
use ambilight::color::CRGB;
use ambilight::leds::Led;
use ambilight::wire::{encode_frame, FRAME_START, LED_START, MAX_CHANNEL};

fn led(r: u8, g: u8, b: u8) -> Led {
    Led { box_idx: 0, linear_position: 0, color: CRGB { r, g, b } }
}

fn decode(bytes: &[u8]) -> Option<Vec<(u8, u8, u8)>> {
    if bytes.first() != Some(&255) || (bytes.len() - 1) % 4 != 0 {
        return None;
    }
    let mut out = Vec::new();
    for chunk in bytes[1..].chunks(4) {
        if chunk[0] != 254 || chunk[1..].iter().any(|&v| v > 252) {
            return None;
        }
        out.push((chunk[1], chunk[2], chunk[3]));
    }
    Some(out)
}

#[test]
fn markers_and_cap() {
    assert_eq!(FRAME_START, 255);
    assert_eq!(LED_START, 254);
    assert_eq!(MAX_CHANNEL, 252);
}

#[test]
fn frame_from_top_left_corner() {
    let leds = vec![led(1, 2, 3), led(4, 5, 6)];
    assert_eq!(encode_frame(&leds, 0, 1, 0), vec![255, 254, 1, 2, 3, 254, 4, 5, 6]);
}

#[test]
fn frame_rotates_to_the_starting_corner() {
    let leds = vec![led(0, 0, 0), led(1, 1, 1), led(2, 2, 2), led(3, 3, 3)];
    let bytes = encode_frame(&leds, 1, 1, 1);
    assert_eq!(decode(&bytes), Some(vec![(1, 1, 1), (2, 2, 2), (3, 3, 3), (0, 0, 0)]));
    let bytes = encode_frame(&leds, 2, 1, 1);
    assert_eq!(decode(&bytes), Some(vec![(2, 2, 2), (3, 3, 3), (0, 0, 0), (1, 1, 1)]));
    let bytes = encode_frame(&leds, 3, 1, 1);
    assert_eq!(decode(&bytes), Some(vec![(3, 3, 3), (0, 0, 0), (1, 1, 1), (2, 2, 2)]));
    let bytes = encode_frame(&leds, 9, 1, 1);
    assert_eq!(decode(&bytes), Some(vec![(0, 0, 0), (1, 1, 1), (2, 2, 2), (3, 3, 3)]));
}

#[test]
fn rotation_wraps_past_the_strip_length() {
    let leds = vec![led(0, 0, 0), led(1, 1, 1), led(2, 2, 2)];
    let bytes = encode_frame(&leds, 3, 2, 1);
    // 2 * 2 + 1 = 5, and 5 mod 3 = 2
    assert_eq!(decode(&bytes), Some(vec![(2, 2, 2), (0, 0, 0), (1, 1, 1)]));
}

#[test]
fn round_trip_recovers_capped_colours() {
    let leds = vec![led(255, 253, 252), led(254, 0, 251), led(10, 20, 30)];
    let bytes = encode_frame(&leds, 1, 1, 0);
    assert_eq!(decode(&bytes), Some(vec![(252, 0, 251), (10, 20, 30), (252, 252, 252)]));
}

#[test]
fn scenario_channel_253_never_reaches_the_wire() {
    let v = correct_channel(100, 100, 253);
    assert_eq!(v, 253);
    let leds = vec![led(v, v, v)];
    let bytes = encode_frame(&leds, 0, 1, 0);
    assert_eq!(bytes, vec![255, 254, 252, 252, 252]);
    assert!(bytes[1..].iter().all(|&b| b != 253 && b != 255));
}

#[test]
fn empty_strip_is_a_bare_frame_start() {
    assert_eq!(encode_frame(&Vec::new(), 2, 3, 4), vec![255]);
}
