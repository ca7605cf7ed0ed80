use badge_core::geometry::{distance, get_step, screen_center, unit_step, Point, Size};

#[test]
fn center_small_box() {
    let b = Size { width: 10, height: 8 };
    let s = Size { width: 128, height: 32 };
    let c = screen_center(b, s);
    assert_eq!(c, Point { x: 59, y: 12 });
    // Here both roundings agree with the halved span.
    assert_eq!(c.x, (128 - 10) / 2);
    assert_eq!(c.y, (32 - 8) / 2);
}

#[test]
fn center_box_larger_than_screen() {
    let b = Size { width: 200, height: 64 };
    let s = Size { width: 128, height: 32 };
    let c = screen_center(b, s);
    assert_eq!(c, Point { x: 64 - 100, y: 16 - 32 });
    assert!(c.x < 0 && c.y < 0);
}

#[test]
fn step_signs() {
    assert_eq!(get_step(0, 5), 1);
    assert_eq!(get_step(5, 5), 0);
    assert_eq!(get_step(9, 2), -1);
    let s = unit_step(Point { x: 3, y: -4 }, Point { x: -10, y: -4 });
    assert_eq!(s, Point { x: -1, y: 0 });
}

#[test]
fn distance_pythagorean() {
    assert_eq!(distance(Point { x: 0, y: 0 }, Point { x: 3, y: 4 }), 5);
}

#[test]
fn distance_rounds_to_nearest() {
    // sqrt(2) rounds down to 1, sqrt(50) rounds down to 7, sqrt(8) rounds up to 3.
    assert_eq!(distance(Point { x: 0, y: 0 }, Point { x: 1, y: 1 }), 1);
    assert_eq!(distance(Point { x: 0, y: 0 }, Point { x: 5, y: 5 }), 7);
    assert_eq!(distance(Point { x: 0, y: 0 }, Point { x: 2, y: 2 }), 3);
}

#[test]
fn distance_axis_aligned_is_exact() {
    assert_eq!(distance(Point { x: 4, y: 9 }, Point { x: 4, y: 9 }), 0);
    assert_eq!(distance(Point { x: 0, y: 0 }, Point { x: 0, y: 10 }), 10);
    assert_eq!(distance(Point { x: -7, y: 2 }, Point { x: 13, y: 2 }), 20);
}

#[test]
fn unit_steps_land_on_axis_aligned_target() {
    // Walking the per-axis unit step for the full frame count reaches an
    // axis-aligned target exactly.
    let from = Point { x: 20, y: 5 };
    let to = Point { x: 3, y: 5 };
    let d = distance(from, to);
    let s = unit_step(from, to);
    let mut p = from;
    for _ in 0..d {
        p = Point { x: p.x + s.x, y: p.y + s.y };
    }
    assert_eq!(p, to);
}
