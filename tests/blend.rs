use ambilight::blend::{blend_channel_value, blend_weight_of, correct_channel};

#[test]
fn blend_channel_values() {
    assert_eq!(blend_channel_value(50, 100, 200), 150);
    assert_eq!(blend_channel_value(33, 0, 255), 84);
    assert_eq!(blend_channel_value(0, 7, 200), 7);
    assert_eq!(blend_channel_value(100, 7, 200), 200);
    assert_eq!(blend_channel_value(50, 200, 100), 150);
}

#[test]
fn blend_weight_rises_then_restarts_at_centre() {
    assert_eq!(blend_weight_of(0, 283, 0), (false, 0));
    assert_eq!(blend_weight_of(0, 283, 70), (false, 49));
    assert_eq!(blend_weight_of(0, 283, 140), (false, 99));
    assert_eq!(blend_weight_of(0, 283, 141), (true, 0));
    assert_eq!(blend_weight_of(0, 283, 283), (true, 100));
    let mut previous = 0;
    for p in 0..141u32 {
        let (forward, t) = blend_weight_of(0, 283, p);
        assert!(!forward && t >= previous && t <= 100);
        previous = t;
    }
}

#[test]
fn single_position_span_has_weight_zero() {
    assert_eq!(blend_weight_of(5, 5, 5), (true, 0));
    assert_eq!(blend_weight_of(5, 6, 5), (true, 0));
    assert_eq!(blend_weight_of(5, 6, 6), (true, 100));
}

#[test]
fn correction_divides_after_multiplying() {
    assert_eq!(correct_channel(20, 120, 200), 48);
    assert_eq!(correct_channel(150, 1, 67), 1);
    assert_eq!(correct_channel(100, 100, 253), 253);
    assert_eq!(correct_channel(0, 100, 253), 0);
    assert_eq!(correct_channel(u32::MAX, u32::MAX, 255), 255);
    assert_eq!(correct_channel(100, 200, 200), 255);
    assert_eq!(correct_channel(100, 100, 255), 255);
}
