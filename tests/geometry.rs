use ambilight::geometry::{
    convert_linear_coord_to_screen_coord, get_side_from_linear, switch_corners, ScreenCoord,
    ScreenGeometry, ScreenSide,
};

fn screen() -> ScreenGeometry {
    ScreenGeometry { x_res: 2560, y_res: 1440 }
}

#[test]
fn side_offsets_follow_ring_order() {
    let s = screen();
    assert_eq!(ScreenSide::Top.get_offset(&s), 0);
    assert_eq!(ScreenSide::Right.get_offset(&s), 2560);
    assert_eq!(ScreenSide::Bottom.get_offset(&s), 4000);
    assert_eq!(ScreenSide::Left.get_offset(&s), 6560);
    assert_eq!(ScreenSide::Top.get_side_res(&s), 2560);
    assert_eq!(ScreenSide::Left.get_side_res(&s), 1440);
}

#[test]
fn border_coordinates_reverse_on_bottom_and_left() {
    let s = screen();
    assert_eq!(ScreenSide::Top.get_linear_from_border_coord(&s, 10), 10);
    assert_eq!(ScreenSide::Right.get_linear_from_border_coord(&s, 10), 2570);
    assert_eq!(ScreenSide::Bottom.get_linear_from_border_coord(&s, 10), 6549);
    assert_eq!(ScreenSide::Bottom.get_linear_from_border_coord(&s, 2559), 4000);
    assert_eq!(ScreenSide::Left.get_linear_from_border_coord(&s, 0), 7999);
    assert_eq!(ScreenSide::Left.get_linear_from_border_coord(&s, 1439), 6560);
}

#[test]
fn screen_coord_reads_its_side_coordinate() {
    let s = screen();
    let c = ScreenCoord { x: 100, y: 50 };
    assert_eq!(c.convert_to_linear_coord(&ScreenSide::Top, &s), 100);
    assert_eq!(c.convert_to_linear_coord(&ScreenSide::Right, &s), 2610);
    assert_eq!(c.convert_to_linear_coord(&ScreenSide::Bottom, &s), 6459);
    assert_eq!(c.convert_to_linear_coord(&ScreenSide::Left, &s), 7949);
}

#[test]
fn side_of_linear_positions() {
    let s = screen();
    assert_eq!(get_side_from_linear(0, &s), ScreenSide::Top);
    assert_eq!(get_side_from_linear(2559, &s), ScreenSide::Top);
    assert_eq!(get_side_from_linear(2560, &s), ScreenSide::Right);
    assert_eq!(get_side_from_linear(3999, &s), ScreenSide::Right);
    assert_eq!(get_side_from_linear(4000, &s), ScreenSide::Bottom);
    assert_eq!(get_side_from_linear(6560, &s), ScreenSide::Left);
    assert_eq!(get_side_from_linear(7999, &s), ScreenSide::Left);
}

#[test]
fn linear_to_screen_with_depth() {
    let s = screen();
    assert_eq!(convert_linear_coord_to_screen_coord(1136, &s, 0), ScreenCoord { x: 1136, y: 0 });
    assert_eq!(convert_linear_coord_to_screen_coord(1419, &s, 200), ScreenCoord { x: 1419, y: 200 });
    assert_eq!(convert_linear_coord_to_screen_coord(2560, &s, 0), ScreenCoord { x: 2559, y: 0 });
    assert_eq!(convert_linear_coord_to_screen_coord(2847, &s, 200), ScreenCoord { x: 2359, y: 287 });
    assert_eq!(convert_linear_coord_to_screen_coord(4000, &s, 10), ScreenCoord { x: 2559, y: 1429 });
    assert_eq!(convert_linear_coord_to_screen_coord(7999, &s, 10), ScreenCoord { x: 10, y: 0 });
}

#[test]
fn corners_are_ordered() {
    let (a, b) = switch_corners(ScreenCoord { x: 2559, y: 0 }, ScreenCoord { x: 2359, y: 287 });
    assert_eq!(a, ScreenCoord { x: 2359, y: 0 });
    assert_eq!(b, ScreenCoord { x: 2559, y: 287 });
}
