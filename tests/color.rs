use ambilight::color::{mean_color, CRGB};

#[test]
fn mean_truncates_each_channel() {
    let samples = vec![CRGB { r: 10, g: 20, b: 30 }, CRGB { r: 20, g: 41, b: 60 }];
    assert_eq!(mean_color(&samples), vec![15, 30, 45]);
    let samples = vec![CRGB { r: 1, g: 0, b: 0 }, CRGB { r: 2, g: 0, b: 0 }];
    assert_eq!(mean_color(&samples), vec![1, 0, 0]);
}

#[test]
fn mean_of_identical_samples_is_that_color() {
    let c = CRGB { r: 37, g: 255, b: 3 };
    let samples = vec![c; 7];
    assert_eq!(mean_color(&samples), vec![37, 255, 3]);
}

#[test]
fn mean_of_one_sample() {
    let samples = vec![CRGB { r: 255, g: 0, b: 128 }];
    assert_eq!(mean_color(&samples), vec![255, 0, 128]);
}
