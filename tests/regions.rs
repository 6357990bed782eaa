use ambilight::color::CRGB;
use ambilight::geometry::{ScreenCoord, ScreenGeometry, ScreenSide};
use ambilight::regions::{color_boxes, get_boxes, layout_is_samplable, new_box};

fn screen() -> ScreenGeometry {
    ScreenGeometry { x_res: 2560, y_res: 1440 }
}

#[test]
fn scenario_regions_of_a_2560_by_1440_screen() {
    let s = screen();
    let boxes = get_boxes(&s, 9, 5, 200, 0, true);
    assert_eq!(boxes.len(), 28);
    assert_eq!(boxes[4].get_linear_coord(&s), (1136, 1419));
    assert_eq!(boxes[8].get_linear_coord(&s), (2272, 2559));
    assert_eq!(boxes[9].get_linear_coord(&s), (2560, 2847));
    assert_eq!(boxes[27].get_linear_coord(&s), (6560 + 4 * 288, 7999));
    assert_eq!(boxes[4].side, ScreenSide::Top);
    assert_eq!(boxes[4].screen_start, ScreenCoord { x: 1136, y: 0 });
    assert_eq!(boxes[4].screen_end, ScreenCoord { x: 1419, y: 200 });
    assert_eq!(boxes[9].screen_start, ScreenCoord { x: 2359, y: 0 });
    assert_eq!(boxes[9].screen_end, ScreenCoord { x: 2559, y: 287 });
}

#[test]
fn region_spans_partition_the_ring() {
    let s = screen();
    let boxes = get_boxes(&s, 9, 5, 200, 0, true);
    let mut next = 0u32;
    for b in boxes.iter() {
        let (start, end) = b.get_linear_coord(&s);
        assert_eq!(start, next);
        assert!(start <= end);
        next = end + 1;
    }
    assert_eq!(next, 8000);
}

#[test]
fn uneven_division_leaves_no_gap() {
    let s = ScreenGeometry { x_res: 10, y_res: 7 };
    let boxes = get_boxes(&s, 3, 2, 1, 0, true);
    let spans: Vec<(u32, u32)> = boxes.iter().map(|b| b.get_linear_coord(&s)).collect();
    assert_eq!(
        spans,
        vec![(0, 2), (3, 5), (6, 9), (10, 12), (13, 16), (17, 19), (20, 22), (23, 26), (27, 29), (30, 33)]
    );
}

#[test]
fn fixed_sampling_points_lie_in_their_rectangles() {
    let s = screen();
    let boxes = get_boxes(&s, 9, 5, 200, 10, false);
    for b in boxes.iter() {
        assert_eq!(b.sample_points.len(), 10);
        for p in b.sample_points.iter() {
            assert!(b.screen_start.x <= p.x && p.x < b.screen_end.x);
            assert!(b.screen_start.y <= p.y && p.y < b.screen_end.y);
        }
    }
}

#[test]
fn random_sampling_keeps_no_points() {
    let boxes = get_boxes(&screen(), 9, 5, 200, 10, true);
    assert!(boxes.iter().all(|b| b.sample_points.is_empty()));
}

#[test]
fn new_box_last_region_reaches_side_end() {
    let s = screen();
    let b = new_box(8, 9, 284, ScreenSide::Bottom, 200, &s);
    assert_eq!(b.get_linear_coord(&s), (4000 + 8 * 284, 6559));
    assert_eq!(b.color, CRGB { r: 0, g: 0, b: 0 });
    assert!(b.sample_points.is_empty());
}

#[test]
fn layout_validation() {
    let s = screen();
    assert!(layout_is_samplable(&s, 9, 5, 200));
    assert!(!layout_is_samplable(&s, 0, 5, 200));
    assert!(!layout_is_samplable(&s, 9, 0, 200));
    assert!(!layout_is_samplable(&s, 2000, 5, 200));
    assert!(!layout_is_samplable(&s, 9, 5, 0));
    assert!(!layout_is_samplable(&s, 9, 5, 1440));
    assert!(!layout_is_samplable(&ScreenGeometry { x_res: 0, y_res: 1440 }, 1, 1, 0));
}

#[test]
fn set_color_truncates_to_eight_bits() {
    let s = screen();
    let mut b = new_box(0, 9, 284, ScreenSide::Top, 200, &s);
    b.set_color_from_rgb_vec(vec![12, 300, 255]);
    assert_eq!(b.color, CRGB { r: 12, g: 44, b: 255 });
}

#[test]
fn boxes_take_the_mean_of_their_samples() {
    let s = screen();
    let mut boxes = get_boxes(&s, 1, 1, 1, 0, true);
    let mut samples = Vec::new();
    for i in 0..boxes.len() {
        let v = (i as u8) * 10;
        samples.push(vec![CRGB { r: v, g: 1, b: 255 }, CRGB { r: v + 2, g: 2, b: 255 }]);
    }
    color_boxes(&mut boxes, &samples);
    assert_eq!(boxes[0].color, CRGB { r: 1, g: 1, b: 255 });
    assert_eq!(boxes[3].color, CRGB { r: 31, g: 1, b: 255 });
    assert_eq!(boxes[3].get_linear_coord(&s), (6560, 7999));
}
