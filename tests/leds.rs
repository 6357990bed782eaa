use ambilight::blend::blend_weight_of;
use ambilight::color::CRGB;
use ambilight::geometry::ScreenGeometry;
use ambilight::leds::{color_leds, get_leds, new_led, Led};
use ambilight::regions::{get_boxes, Box};

fn screen() -> ScreenGeometry {
    ScreenGeometry { x_res: 2560, y_res: 1440 }
}

fn colored_boxes(s: &ScreenGeometry) -> Vec<Box> {
    let mut boxes = get_boxes(s, 9, 5, 200, 0, true);
    for (i, b) in boxes.iter_mut().enumerate() {
        b.color = CRGB { r: (i * 9) as u8, g: 255 - (i * 9) as u8, b: 100 };
    }
    boxes
}

#[test]
fn scenario_led_at_1278_resolves_to_region_4() {
    let s = screen();
    let boxes = get_boxes(&s, 9, 5, 200, 0, true);
    let led = new_led(&boxes, 1278, &s);
    assert_eq!(led.box_idx, 4);
    assert_eq!(led.linear_position, 1278);
    assert_eq!(led.color, CRGB { r: 0, g: 0, b: 0 });
    // centre 1136 + 283 / 2 = 1277; weight 100 * (1278 - 1277) / (1419 - 1277)
    assert_eq!(blend_weight_of(1136, 1419, 1278), (true, 0));
    assert_eq!(blend_weight_of(1136, 1419, 1277), (true, 0));
    assert_eq!(blend_weight_of(1136, 1419, 1348), (true, 50));
    assert_eq!(blend_weight_of(1136, 1419, 1419), (true, 100));
    assert_eq!(blend_weight_of(1136, 1419, 1136), (false, 0));
    assert_eq!(blend_weight_of(1136, 1419, 1206), (false, 49));
}

#[test]
fn leds_are_placed_in_strip_order_and_resolved() {
    let s = screen();
    let boxes = get_boxes(&s, 9, 5, 200, 0, true);
    let leds = get_leds(&boxes, 82, 47, &s);
    assert_eq!(leds.len(), 258);
    assert_eq!(leds[0].linear_position, 0);
    assert_eq!(leds[1].linear_position, 31);
    assert_eq!(leds[82].linear_position, 2560);
    assert_eq!(leds[83].linear_position, 2590);
    assert_eq!(leds[129].linear_position, 4048);
    assert_eq!(leds[257].linear_position, 7999);
    let mut last = 0;
    for (k, led) in leds.iter().enumerate() {
        let (start, end) = boxes[led.box_idx].get_linear_coord(&s);
        assert!(start <= led.linear_position && led.linear_position <= end);
        if k > 0 {
            assert!(led.linear_position > last);
        }
        last = led.linear_position;
    }
    assert_eq!(leds[0].box_idx, 0);
    assert_eq!(leds[257].box_idx, 27);
}

#[test]
fn more_leds_than_pixels_share_position_zero() {
    let s = ScreenGeometry { x_res: 4, y_res: 3 };
    let boxes = get_boxes(&s, 2, 1, 1, 0, true);
    let leds = get_leds(&boxes, 5, 1, &s);
    assert_eq!(leds.len(), 12);
    assert!(leds[..5].iter().all(|l| l.linear_position == 0 && l.box_idx == 0));
}

#[test]
fn led_at_ring_start_takes_last_region_colour() {
    let s = screen();
    let boxes = colored_boxes(&s);
    let mut led = new_led(&boxes, 0, &s);
    led.update_color(&boxes, &s, 100, 100, 100, 100);
    assert_eq!(led.color, boxes[27].color);
}

#[test]
fn led_at_ring_end_takes_first_region_colour() {
    let s = screen();
    let boxes = colored_boxes(&s);
    let mut led = new_led(&boxes, 7999, &s);
    assert_eq!(led.box_idx, 27);
    led.update_color(&boxes, &s, 100, 100, 100, 100);
    assert_eq!(led.color, boxes[0].color);
}

#[test]
fn led_between_two_regions_blends_them() {
    let s = screen();
    let mut boxes = get_boxes(&s, 9, 5, 200, 0, true);
    boxes[4].color = CRGB { r: 0, g: 200, b: 10 };
    boxes[5].color = CRGB { r: 200, g: 0, b: 10 };
    let mut led = new_led(&boxes, 1348, &s);
    led.update_color(&boxes, &s, 100, 100, 100, 100);
    assert_eq!(led.color, CRGB { r: 100, g: 100, b: 10 });
    for p in 1136..=1419u32 {
        let mut led = new_led(&boxes, p, &s);
        led.update_color(&boxes, &s, 100, 100, 100, 100);
        assert!(led.color.r <= 200 && led.color.g <= 200 && led.color.b <= 10);
    }
}

#[test]
fn correction_scales_each_channel() {
    let s = screen();
    let mut boxes = get_boxes(&s, 9, 5, 200, 0, true);
    for b in boxes.iter_mut() {
        b.color = CRGB { r: 200, g: 200, b: 200 };
    }
    let mut leds = vec![Led { box_idx: 4, linear_position: 1300, color: CRGB { r: 0, g: 0, b: 0 } }];
    color_leds(&mut leds, &boxes, &s, 20, 120, 100, 50);
    // 20 * 120 * 200 / 100 / 100 = 48; 20 * 100 * 200 / 10000 = 40; 20 * 50 * 200 / 10000 = 20
    assert_eq!(leds[0].color, CRGB { r: 48, g: 40, b: 20 });
    assert_eq!(leds[0].box_idx, 4);
    assert_eq!(leds[0].linear_position, 1300);
}

#[test]
fn channel_over_eight_bits_is_capped() {
    let s = screen();
    let mut boxes = get_boxes(&s, 9, 5, 200, 0, true);
    for b in boxes.iter_mut() {
        b.color = CRGB { r: 200, g: 200, b: 200 };
    }
    let mut led = new_led(&boxes, 10, &s);
    led.update_color(&boxes, &s, 100, 200, 100, 100);
    assert_eq!(led.color, CRGB { r: 255, g: 200, b: 200 });
}

#[test]
fn sides_without_leds_are_skipped() {
    let s = screen();
    let boxes = get_boxes(&s, 9, 5, 200, 0, true);
    let leds = get_leds(&boxes, 0, 2, &s);
    assert_eq!(leds.len(), 4);
    let positions: Vec<u32> = leds.iter().map(|l| l.linear_position).collect();
    assert_eq!(positions, vec![2560, 3280, 6560 + 1440 - 720 - 1, 7999]);
    assert!(get_leds(&boxes, 0, 0, &s).is_empty());
    let leds = get_leds(&boxes, 3, 0, &s);
    assert_eq!(leds.len(), 6);
    for led in leds.iter() {
        let (start, end) = boxes[led.box_idx].get_linear_coord(&s);
        assert!(start <= led.linear_position && led.linear_position <= end);
    }
}
