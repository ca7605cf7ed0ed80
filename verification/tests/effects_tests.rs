use badge_core::effects::{blink, left_in, type_text, BlinkPhase, Typewriter};
use badge_core::geometry::{BoundingBox, Point, Size};

#[test]
fn blink_ends_visible() {
    let plan = blink(3, true);
    assert_eq!(plan.len(), 7);
    for (i, p) in plan.iter().enumerate() {
        if i % 2 == 0 {
            assert_eq!(*p, BlinkPhase::Show);
        } else {
            assert_eq!(*p, BlinkPhase::Hide);
        }
    }
    assert_eq!(*plan.last().unwrap(), BlinkPhase::Show);
}

#[test]
fn blink_ends_hidden() {
    let plan = blink(2, false);
    assert_eq!(plan.len(), 4);
    assert_eq!(*plan.last().unwrap(), BlinkPhase::Hide);
}

#[test]
fn blink_zero_cycles() {
    assert!(blink(0, false).is_empty());
    assert_eq!(blink(0, true), vec![BlinkPhase::Show]);
}

#[test]
fn left_in_walks_to_center() {
    let d = BoundingBox {
        top_left: Point { x: 0, y: 0 },
        size: Size { width: 10, height: 10 },
    };
    let screen = Size { width: 128, height: 32 };
    let mut t = left_in(d, screen);
    // Center of a 10x10 box: (64-5, 16-5).
    assert_eq!(t.start, Point { x: 128, y: 11 });
    assert_eq!(t.step, Point { x: -1, y: 0 });
    assert_eq!(t.total, 69);
    let first = t.advance().unwrap();
    assert_eq!(first.pos, Point { x: 127, y: 11 });
    assert_eq!(first.eraser.top_left, Point { x: 126, y: 10 });
    assert_eq!(first.eraser.size, Size { width: 12, height: 12 });
    let mut frames = 1;
    while let Some(f) = t.advance() {
        frames += 1;
        assert_eq!(f.eraser.top_left.x, f.pos.x - 1);
        assert_eq!(f.eraser.top_left.y, f.pos.y - 1);
    }
    assert_eq!(frames, 69);
    assert_eq!(t.pos, Point { x: 59, y: 11 });
    assert!(t.advance().is_none());
}

fn letters(n: usize) -> Vec<char> {
    (0..n).map(|i| (b'a' + (i % 26) as u8) as char).collect()
}

#[test]
fn typewriter_full_line_unbroken() {
    let text = letters(25);
    let frames = type_text(&text);
    assert_eq!(frames.len(), 25);
    let last = &frames[24];
    assert_eq!(last.buffer, text);
    assert!(!last.buffer.contains(&'\n'));
    assert!(frames.iter().all(|f| !f.cleared));
}

#[test]
fn typewriter_breaks_before_twenty_sixth() {
    let text = letters(26);
    let frames = type_text(&text);
    assert_eq!(frames.len(), 26);
    let last = &frames[25];
    let breaks = last.buffer.iter().filter(|c| **c == '\n').count();
    assert_eq!(breaks, 1);
    assert_eq!(last.buffer[25], '\n');
    assert_eq!(last.buffer[26], text[25]);
    assert!(!frames[24].buffer.contains(&'\n'));
}

#[test]
fn typewriter_drops_oldest_line() {
    let text = letters(80);
    let frames = type_text(&text);
    // The display is cleared exactly while the 76th character arrives.
    for k in 0..75 {
        assert!(!frames[k].cleared, "frame {} should not clear", k);
    }
    assert!(frames[75].cleared);
    let mut expect: Vec<char> = Vec::new();
    expect.extend_from_slice(&text[25..50]);
    expect.push('\n');
    expect.extend_from_slice(&text[50..75]);
    expect.push('\n');
    expect.push(text[75]);
    assert_eq!(frames[75].buffer, expect);
}

#[test]
fn typewriter_window_stays_three_lines() {
    let text = letters(200);
    let frames = type_text(&text);
    for f in &frames {
        let breaks = f.buffer.iter().filter(|c| **c == '\n').count();
        assert!(breaks <= 2);
    }
    // Every later line boundary scrolls the window again.
    assert!(frames[100].cleared);
    assert!(frames[125].cleared);
    assert!(!frames[110].cleared);
}

#[test]
fn typewriter_feed_matches_type_text() {
    let text = letters(30);
    let frames = type_text(&text);
    let mut tw = Typewriter::new();
    for (k, c) in text.iter().enumerate() {
        let cleared = tw.feed(*c);
        assert_eq!(cleared, frames[k].cleared);
        assert_eq!(tw.buf, frames[k].buffer);
    }
}
