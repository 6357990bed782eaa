use ambilight::geometry::ScreenGeometry;
use ambilight::regions::get_boxes;
use ambilight::sampling::{frame_sampling_points, get_random_sampling, set_regular_sampling_points};

fn screen() -> ScreenGeometry {
    ScreenGeometry { x_res: 2560, y_res: 1440 }
}

#[test]
fn random_points_spread_inside_the_rectangle() {
    let boxes = get_boxes(&screen(), 9, 5, 200, 0, true);
    let b = &boxes[4];
    let points: Vec<_> = (0..64).map(|_| get_random_sampling(b)).collect();
    for p in points.iter() {
        assert!(1136 <= p.x && p.x < 1419);
        assert!(p.y < 200);
    }
    assert!(points.iter().any(|p| p.x != b.screen_start.x));
    assert!(points.iter().any(|p| p.y != b.screen_start.y));
}

#[test]
fn regular_points_are_appended_once() {
    let mut boxes = get_boxes(&screen(), 9, 5, 200, 0, true);
    set_regular_sampling_points(&mut boxes, 3);
    let first = boxes[2].sample_points.clone();
    set_regular_sampling_points(&mut boxes, 2);
    assert_eq!(boxes[2].sample_points.len(), 5);
    assert_eq!(boxes[2].sample_points[..3], first[..]);
}

#[test]
fn frame_points_reuse_fixed_points() {
    let boxes = get_boxes(&screen(), 9, 5, 200, 10, false);
    let points = frame_sampling_points(&boxes[12], 10, false);
    assert_eq!(points, boxes[12].sample_points);
    let points = frame_sampling_points(&boxes[12], 4, false);
    assert_eq!(points[..], boxes[12].sample_points[..4]);
}

#[test]
fn frame_points_under_random_sampling() {
    let boxes = get_boxes(&screen(), 9, 5, 200, 0, true);
    let b = &boxes[20];
    let points = frame_sampling_points(b, 6, true);
    assert_eq!(points.len(), 6);
    for p in points.iter() {
        assert!(b.screen_start.x <= p.x && p.x < b.screen_end.x);
        assert!(b.screen_start.y <= p.y && p.y < b.screen_end.y);
    }
}
