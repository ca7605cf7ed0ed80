use badge_core::effects::{down, left_out, right, up};
use badge_core::geometry::{BoundingBox, Point, Size};
use badge_core::text::{scroll_down, scroll_left, scroll_right, scroll_up};

const SCREEN: Size = Size { width: 128, height: 32 };

#[test]
fn scroll_left_crosses_whole_screen() {
    let raw = Size { width: 128, height: 32 };
    let mut t = scroll_left(raw, SCREEN);
    assert_eq!(t.start, Point { x: 128, y: 0 });
    assert_eq!(t.step, Point { x: -1, y: 0 });
    // From x = 128 to x = -128: 256 frames.
    assert_eq!(t.total, 256);
    let mut count = 0;
    while t.advance().is_some() {
        count += 1;
    }
    assert_eq!(count, 256);
    assert_eq!(t.pos, Point { x: -128, y: 0 });
}

#[test]
fn scroll_right_mirrors_scroll_left() {
    let raw = Size { width: 64, height: 16 };
    let t = scroll_right(raw, SCREEN);
    assert_eq!(t.start, Point { x: -64, y: 8 });
    assert_eq!(t.step, Point { x: 1, y: 0 });
    assert_eq!(t.total, 192);
}

#[test]
fn scroll_up_is_vertical() {
    let raw = Size { width: 128, height: 32 };
    let t = scroll_up(raw, SCREEN);
    assert_eq!(t.start, Point { x: 0, y: 32 });
    assert_eq!(t.step, Point { x: 0, y: -1 });
    assert_eq!(t.total, 64);
}

#[test]
fn scroll_down_is_vertical() {
    let raw = Size { width: 32, height: 8 };
    let t = scroll_down(raw, SCREEN);
    assert_eq!(t.start, Point { x: 48, y: -8 });
    assert_eq!(t.step, Point { x: 0, y: 1 });
    assert_eq!(t.total, 40);
}

#[test]
fn full_pass_continues_from_center() {
    let d = BoundingBox {
        top_left: Point { x: 5, y: 5 },
        size: Size { width: 20, height: 10 },
    };
    let (first, second) = right(d, SCREEN);
    // In from the left edge to the center of a 20x10 box: (54, 11).
    assert_eq!(first.start, Point { x: -20, y: 11 });
    let center = Point { x: 54, y: 11 };
    let mut t = first;
    while t.advance().is_some() {}
    assert_eq!(t.pos, center);
    assert_eq!(second.start, center);
    assert_eq!(second.step, Point { x: 1, y: 0 });

    let (up_first, up_second) = up(d, SCREEN);
    assert_eq!(up_first.start, Point { x: 54, y: 32 });
    assert_eq!(up_second.start, center);
    let (down_first, down_second) = down(d, SCREEN);
    assert_eq!(down_first.start, Point { x: 54, y: -10 });
    assert_eq!(down_second.start, center);
}

#[test]
fn exit_starts_at_current_position() {
    let d = BoundingBox {
        top_left: Point { x: 54, y: 11 },
        size: Size { width: 20, height: 10 },
    };
    let t = left_out(d, SCREEN);
    assert_eq!(t.start, Point { x: 54, y: 11 });
    // Out past the left edge, vertically centered.
    let mut t = t;
    while t.advance().is_some() {}
    assert_eq!(t.pos, Point { x: -20, y: 11 });
}
