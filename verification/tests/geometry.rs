use dragshot::geometry::{Point, Region};

#[test]
fn region_from_top_left_to_bottom_right() {
    let r = Region::from_points(Point::new(100, 100), Point::new(300, 400));
    assert_eq!(r, Region { x: 100, y: 100, width: 200, height: 300 });
}

#[test]
fn region_is_symmetric_in_its_points() {
    let pairs = [
        ((100, 100), (300, 400)),
        ((300, 100), (100, 400)),
        ((-5, 7), (12, -9)),
        ((0, 0), (0, 0)),
        ((i32::MIN, i32::MAX), (i32::MAX, i32::MIN)),
    ];
    for (a, b) in pairs {
        let p1 = Point::new(a.0, a.1);
        let p2 = Point::new(b.0, b.1);
        assert_eq!(Region::from_points(p1, p2), Region::from_points(p2, p1));
    }
}

#[test]
fn region_takes_the_smaller_coordinates_as_origin() {
    let r = Region::from_points(Point::new(300, 50), Point::new(100, 400));
    assert_eq!(r.x, 100);
    assert_eq!(r.y, 50);
    assert_eq!(r.width, 200);
    assert_eq!(r.height, 350);
}

#[test]
fn region_with_negative_coordinates() {
    let r = Region::from_points(Point::new(-10, -20), Point::new(-30, 5));
    assert_eq!(r, Region { x: -30, y: -20, width: 20, height: 25 });
}

#[test]
fn region_across_the_whole_coordinate_range() {
    let r = Region::from_points(Point::new(i32::MIN, i32::MIN), Point::new(i32::MAX, i32::MAX));
    assert_eq!(r.x, i32::MIN);
    assert_eq!(r.y, i32::MIN);
    assert_eq!(r.width, u32::MAX);
    assert_eq!(r.height, u32::MAX);
    assert!(!r.is_degenerate());
}

#[test]
fn region_of_one_point_is_degenerate() {
    let r = Region::from_points(Point::new(50, 50), Point::new(50, 50));
    assert_eq!(r, Region { x: 50, y: 50, width: 0, height: 0 });
    assert!(r.is_degenerate());
}

#[test]
fn region_without_height_or_width_is_degenerate() {
    assert!(Region::from_points(Point::new(1, 5), Point::new(9, 5)).is_degenerate());
    assert!(Region::from_points(Point::new(4, 1), Point::new(4, 9)).is_degenerate());
    assert!(!Region::from_points(Point::new(4, 1), Point::new(5, 2)).is_degenerate());
}

#[test]
fn region_payload_lists_origin_then_size() {
    let r = Region::from_points(Point::new(7, 9), Point::new(3, 2));
    assert_eq!(r.payload(), (3, 2, 4, 7));
}

#[test]
fn cursor_query_gives_the_position_or_the_sentinel() {
    assert_eq!(Point::from_cursor_query(Some((12, -3))), Point { x: 12, y: -3 });
    assert_eq!(Point::from_cursor_query(None), Point { x: -1, y: -1 });
}
