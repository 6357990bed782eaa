use ambilight::color::CRGB;
use ambilight::fading::FadeState;

#[test]
fn brightening_is_rate_limited() {
    let mut state = FadeState::new();
    let target = CRGB { r: 90, g: 90, b: 90 };
    assert_eq!(state.advance(target, 30), CRGB { r: 30, g: 30, b: 30 });
    assert_eq!(state.current_luminosity, 30);
    assert_eq!(state.advance(target, 30), CRGB { r: 60, g: 60, b: 60 });
    assert_eq!(state.advance(target, 30), target);
    assert_eq!(state.advance(target, 30), target);
}

#[test]
fn dimming_keeps_the_hue() {
    let mut state = FadeState { current_luminosity: 90 };
    let out = state.advance(CRGB { r: 60, g: 30, b: 0 }, 20);
    assert_eq!(state.current_luminosity, 70);
    assert_eq!(out, CRGB { r: 140, g: 70, b: 0 });
}

#[test]
fn bright_scale_is_capped() {
    let mut state = FadeState { current_luminosity: 200 };
    let out = state.advance(CRGB { r: 255, g: 0, b: 0 }, 10);
    assert_eq!(state.current_luminosity, 190);
    assert_eq!(out, CRGB { r: 255, g: 0, b: 0 });
}

#[test]
fn black_target_snaps_to_black() {
    let mut state = FadeState { current_luminosity: 120 };
    assert_eq!(state.advance(CRGB { r: 1, g: 1, b: 0 }, 5), CRGB { r: 0, g: 0, b: 0 });
    assert_eq!(state.current_luminosity, 0);
}
