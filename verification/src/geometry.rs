//! Screen geometry: points, sizes, bounding boxes, centering and the
//! per-axis unit step used by the straight-line transitions.

use vstd::prelude::*;

verus! {

use vstd::math::abs;

/// A signed screen coordinate. The origin is the top-left corner of the
/// display; coordinates may lie off screen on any side.
#[derive(Clone, Copy, PartialEq, Eq, Structural, Debug)]
pub struct Point {
    pub x: i32,
    pub y: i32,
}

/// An unsigned extent in pixels.
#[derive(Clone, Copy, PartialEq, Eq, Structural, Debug)]
pub struct Size {
    pub width: u32,
    pub height: u32,
}

/// The minimal rectangle a drawable occupies: top-left corner plus extent.
#[derive(Clone, Copy, PartialEq, Eq, Structural, Debug)]
pub struct BoundingBox {
    pub top_left: Point,
    pub size: Size,
}

/// The x coordinate that centers a box of width `b.width` on a screen of
/// width `screen.width`: half the screen minus half the box, each rounded
/// down. A box wider than the screen yields a negative origin by design.
pub open spec fn center_x_spec(b: Size, screen: Size) -> int {
    screen.width as int / 2 - b.width as int / 2
}

/// The y counterpart of [`center_x_spec`].
pub open spec fn center_y_spec(b: Size, screen: Size) -> int {
    screen.height as int / 2 - b.height as int / 2
}

/// Top-left x that horizontally centers a box of size `b` within `screen`.
pub fn screen_center_x(b: Size, screen: Size) -> (x: i32)
    ensures
        x == center_x_spec(b, screen),
{
    (screen.width / 2) as i32 - (b.width / 2) as i32
}

/// Top-left y that vertically centers a box of size `b` within `screen`.
pub fn screen_center_y(b: Size, screen: Size) -> (y: i32)
    ensures
        y == center_y_spec(b, screen),
{
    (screen.height / 2) as i32 - (b.height / 2) as i32
}

/// The top-left point that centers a box of size `b` within `screen`.
pub fn screen_center(b: Size, screen: Size) -> (p: Point)
    ensures
        p.x == center_x_spec(b, screen),
        p.y == center_y_spec(b, screen),
{
    Point { x: screen_center_x(b, screen), y: screen_center_y(b, screen) }
}

/// Sign of `to - from`: the distance one animation frame advances a
/// coordinate.
pub open spec fn step_spec(from: int, to: int) -> int {
    if from < to {
        1
    } else if from == to {
        0
    } else {
        -1
    }
}

/// One-pixel step along a single axis, toward `to`.
pub fn get_step(from: i32, to: i32) -> (s: i32)
    ensures
        s == step_spec(from as int, to as int),
{
    if from < to {
        1
    } else if from == to {
        0
    } else {
        -1
    }
}

/// Per-axis one-pixel step from `from` toward `to`. Each coordinate is the
/// sign of the corresponding difference, so diagonal motion steps both axes
/// every frame.
pub fn unit_step(from: Point, to: Point) -> (s: Point)
    ensures
        s.x == step_spec(from.x as int, to.x as int),
        s.y == step_spec(from.y as int, to.y as int),
        -1 <= s.x <= 1,
        -1 <= s.y <= 1,
{
    Point { x: get_step(from.x, to.x), y: get_step(from.y, to.y) }
}

/// Largest natural number whose square does not exceed `n`.
pub open spec fn floor_sqrt(n: nat) -> nat
    decreases n,
{
    if n == 0 {
        0
    } else {
        let r = floor_sqrt((n - 1) as nat);
        if (r + 1) * (r + 1) <= n {
            r + 1
        } else {
            r
        }
    }
}

/// `floor_sqrt` really is the integer square root: its square is at most
/// `n` and the next square is beyond `n`.
pub proof fn lemma_floor_sqrt_bounds(n: nat)
    ensures
        floor_sqrt(n) * floor_sqrt(n) <= n,
        n < (floor_sqrt(n) + 1) * (floor_sqrt(n) + 1),
    decreases n,
{
    if n > 0 {
        lemma_floor_sqrt_bounds((n - 1) as nat);
        let r = floor_sqrt((n - 1) as nat);
        assert(r * r <= n - 1);
        assert(n - 1 < (r + 1) * (r + 1));
        if (r + 1) * (r + 1) <= n {
            assert(floor_sqrt(n) == r + 1);
            assert(n < (floor_sqrt(n) + 1) * (floor_sqrt(n) + 1)) by (nonlinear_arith)
                requires
                    n <= (r + 1) * (r + 1),
                    floor_sqrt(n) == r + 1,
                    r >= 0,
            ;
        } else {
            assert(floor_sqrt(n) == r);
            assert(n < (floor_sqrt(n) + 1) * (floor_sqrt(n) + 1)) by (nonlinear_arith)
                requires
                    n < (r + 1) * (r + 1),
                    floor_sqrt(n) == r,
            ;
        }
    } else {
        assert(floor_sqrt(0) == 0);
        assert(0 < (floor_sqrt(0nat) + 1) * (floor_sqrt(0nat) + 1)) by (nonlinear_arith)
            requires
                floor_sqrt(0nat) == 0,
        ;
    }
}

/// Only one natural number is squeezed between consecutive squares around `n`.
pub proof fn lemma_sqrt_unique(n: nat, r: nat)
    requires
        r * r <= n,
        n < (r + 1) * (r + 1),
    ensures
        r == floor_sqrt(n),
{
    lemma_floor_sqrt_bounds(n);
    let f = floor_sqrt(n);
    assert(r < f ==> (r + 1) * (r + 1) <= f * f) by (nonlinear_arith);
    assert(f < r ==> (f + 1) * (f + 1) <= r * r) by (nonlinear_arith);
}

/// The integer square root grows with its argument.
pub proof fn lemma_floor_sqrt_monotone(m: nat, n: nat)
    requires
        m <= n,
    ensures
        floor_sqrt(m) <= floor_sqrt(n),
{
    lemma_floor_sqrt_bounds(m);
    lemma_floor_sqrt_bounds(n);
    let a = floor_sqrt(m);
    let b = floor_sqrt(n);
    assert(b < a ==> (b + 1) * (b + 1) <= a * a) by (nonlinear_arith);
}

/// `sqrt(n)` rounded to the nearest integer: one more than the floor when
/// the fractional part is at least one half, which for naturals happens
/// exactly when `n` exceeds `floor * (floor + 1)`.
pub open spec fn round_sqrt(n: nat) -> nat {
    let r = floor_sqrt(n);
    if n > r * (r + 1) {
        r + 1
    } else {
        r
    }
}

/// Squared Euclidean distance between two points.
pub open spec fn dist2(a: Point, b: Point) -> int {
    (a.x - b.x) * (a.x - b.x) + (a.y - b.y) * (a.y - b.y)
}

/// Euclidean distance between two points, rounded to the nearest whole
/// pixel and saturated to `u32::MAX`. This is the frame count of a
/// straight-line transition.
pub open spec fn distance_spec(a: Point, b: Point) -> nat {
    if round_sqrt(dist2(a, b) as nat) > u32::MAX {
        u32::MAX as nat
    } else {
        round_sqrt(dist2(a, b) as nat)
    }
}

/// Binary search for the integer square root of `n`.
fn isqrt_u128(n: u128) -> (r: u128)
    ensures
        r == floor_sqrt(n as nat),
        r < 0x1_0000_0000_0000_0000,
{
    let mut lo: u128 = 0;
    let mut hi: u128 = 0x1_0000_0000_0000_0000;
    proof {
        assert((0x1_0000_0000_0000_0000 as int) * (0x1_0000_0000_0000_0000 as int) > u128::MAX as int);
    }
    while hi - lo > 1
        invariant
            lo < hi <= 0x1_0000_0000_0000_0000,
            lo * lo <= n as int,
            (n as int) < (hi as int) * (hi as int),
        decreases hi - lo,
    {
        let mid = lo + (hi - lo) / 2;
        proof {
            assert((mid as int) * (mid as int) <= u128::MAX as int) by (nonlinear_arith)
                requires
                    0 <= mid < 0x1_0000_0000_0000_0000,
            ;
        }
        if mid * mid <= n {
            lo = mid;
        } else {
            hi = mid;
        }
    }
    proof {
        lemma_sqrt_unique(n as nat, lo as nat);
    }
    lo
}

/// Absolute difference of two coordinates, computed without overflow.
fn abs_diff_i32(a: i32, b: i32) -> (d: u64)
    ensures
        d == if a >= b {
            a - b
        } else {
            b - a
        },
{
    let wide_a: i64 = a as i64;
    let wide_b: i64 = b as i64;
    if wide_a >= wide_b {
        (wide_a - wide_b) as u64
    } else {
        (wide_b - wide_a) as u64
    }
}

/// Number of frames a straight-line transition from `a` to `b` runs for:
/// the Euclidean distance rounded to the nearest whole pixel (saturated to
/// `u32::MAX`, which no on-screen pair of points comes near).
pub fn distance(a: Point, b: Point) -> (d: u32)
    ensures
        d == distance_spec(a, b),
{
    let dx = abs_diff_i32(a.x, b.x);
    let dy = abs_diff_i32(a.y, b.y);
    proof {
        assert(dx < 0x1_0000_0000 && dy < 0x1_0000_0000);
        assert((dx as int) * (dx as int) + (dy as int) * (dy as int) <= u128::MAX as int
            && (dx as int) * (dx as int) >= 0
            && (dy as int) * (dy as int) >= 0) by (nonlinear_arith)
            requires
                0 <= dx < 0x1_0000_0000,
                0 <= dy < 0x1_0000_0000,
        ;
        assert((dx as int) * (dx as int) == (a.x - b.x) * (a.x - b.x)) by (nonlinear_arith)
            requires
                dx == a.x - b.x || dx == b.x - a.x,
        ;
        assert((dy as int) * (dy as int) == (a.y - b.y) * (a.y - b.y)) by (nonlinear_arith)
            requires
                dy == a.y - b.y || dy == b.y - a.y,
        ;
    }
    let n: u128 = (dx as u128) * (dx as u128) + (dy as u128) * (dy as u128);
    assert(n == dist2(a, b));
    let r = isqrt_u128(n);
    proof {
        assert((r as int) * ((r as int) + 1) < u128::MAX as int) by (nonlinear_arith)
            requires
                0 <= r < 0x1_0000_0000_0000_0000,
        ;
    }
    let rounded: u128 = if n > r * (r + 1) {
        r + 1
    } else {
        r
    };
    assert(rounded == round_sqrt(dist2(a, b) as nat));
    if rounded > u32::MAX as u128 {
        u32::MAX
    } else {
        rounded as u32
    }
}

/// Where a straight-line transition leaves one coordinate: starting at
/// `from`, stepping `step_spec(from, to)` once per frame for
/// `distance_spec` frames. (Both axes share the one frame count, so the
/// shorter axis overshoots; see [`lemma_step_travel`].)
pub open spec fn travel_spec(from: int, to: int, frames: nat) -> int {
    from + frames * step_spec(from, to)
}

/// The frame count covers each axis: it is at least the absolute
/// coordinate difference on either axis.
pub proof fn lemma_distance_covers_axes(from: Point, to: Point)
    ensures
        distance_spec(from, to) >= abs(to.x - from.x),
        distance_spec(from, to) >= abs(to.y - from.y),
{
    assert((from.x - to.x) * (from.x - to.x) + (from.y - to.y) * (from.y - to.y) >= 0)
        by (nonlinear_arith);
    assert(dist2(from, to) >= 0);
    let n = dist2(from, to) as nat;
    let adx = abs(to.x - from.x);
    let ady = abs(to.y - from.y);
    assert(adx * adx <= n && adx * adx < (adx + 1) * (adx + 1)) by (nonlinear_arith)
        requires
            n == (from.x - to.x) * (from.x - to.x) + (from.y - to.y) * (from.y - to.y),
            adx == abs(to.x - from.x),
    ;
    assert(ady * ady <= n && ady * ady < (ady + 1) * (ady + 1)) by (nonlinear_arith)
        requires
            n == (from.x - to.x) * (from.x - to.x) + (from.y - to.y) * (from.y - to.y),
            ady == abs(to.y - from.y),
    ;
    lemma_sqrt_unique((adx * adx) as nat, adx as nat);
    lemma_sqrt_unique((ady * ady) as nat, ady as nat);
    lemma_floor_sqrt_monotone((adx * adx) as nat, n);
    lemma_floor_sqrt_monotone((ady * ady) as nat, n);
    assert(adx <= u32::MAX && ady <= u32::MAX);
}

/// After `distance_spec(from, to)` unit steps each coordinate has moved
/// monotonically from `from` past or onto `to`: an axis that starts level
/// with its target stays exactly on it, and any other axis ends beyond its
/// target by exactly the difference between the frame count and that axis's
/// own span.
pub proof fn lemma_step_travel(from: Point, to: Point)
    ensures
        from.x == to.x ==> travel_spec(from.x as int, to.x as int, distance_spec(from, to))
            == to.x,
        from.y == to.y ==> travel_spec(from.y as int, to.y as int, distance_spec(from, to))
            == to.y,
        from.x != to.x ==> abs(travel_spec(from.x as int, to.x as int, distance_spec(from, to))
            - to.x) == distance_spec(from, to) - abs(to.x - from.x),
        from.y != to.y ==> abs(travel_spec(from.y as int, to.y as int, distance_spec(from, to))
            - to.y) == distance_spec(from, to) - abs(to.y - from.y),
{
    lemma_distance_covers_axes(from, to);
}

/// Feeding `unit_step` back `distance_spec` times lands within one pixel of
/// the target on each axis, on inputs where the rounded Euclidean frame
/// count exceeds no axis's own span by more than one. (On other inputs the
/// shared frame count makes the shorter axis overshoot by more.)
pub proof fn lemma_unit_step_lands_near(from: Point, to: Point)
    requires
        from != to,
        from.x == to.x || distance_spec(from, to) <= abs(to.x - from.x) + 1,
        from.y == to.y || distance_spec(from, to) <= abs(to.y - from.y) + 1,
    ensures
        abs(travel_spec(from.x as int, to.x as int, distance_spec(from, to)) - to.x) <= 1,
        abs(travel_spec(from.y as int, to.y as int, distance_spec(from, to)) - to.y) <= 1,
{
    lemma_step_travel(from, to);
    if from.x == to.x {
        assert(distance_spec(from, to) * step_spec(from.x as int, to.x as int) == 0);
    }
    if from.y == to.y {
        assert(distance_spec(from, to) * step_spec(from.y as int, to.y as int) == 0);
    }
}

/// Centering agrees with the halved span `(screen - box) / 2` on an axis
/// whenever the box extent is even or the screen extent is odd; when an even
/// screen meets an odd box the two integer roundings differ by one pixel.
pub proof fn lemma_center_matches_halved_span(b: Size, screen: Size)
    requires
        b.width % 2 == 0 || screen.width % 2 == 1,
        b.height % 2 == 0 || screen.height % 2 == 1,
    ensures
        center_x_spec(b, screen) == (screen.width - b.width) / 2,
        center_y_spec(b, screen) == (screen.height - b.height) / 2,
{
}

} // verus!
