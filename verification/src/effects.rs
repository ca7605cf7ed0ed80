//! Animation engines. Each engine here is pure: it turns endpoints and
//! sizes into a plan of frames (positions to draw, regions to erase,
//! show/hide phases), and the caller that owns the display walks the plan,
//! drawing and flushing one frame at a time.

use vstd::prelude::*;

use crate::geometry::{
    distance, distance_spec, screen_center, step_spec, unit_step, BoundingBox, Point, Size,
};

verus! {

use vstd::math::abs;
use crate::geometry::{center_x_spec, center_y_spec, lemma_sqrt_unique,
    lemma_floor_sqrt_monotone, floor_sqrt, round_sqrt, dist2};

/// A product of a `nat` and a factor in `{-1, 0, 1}` is bounded by the `nat`.
proof fn lemma_mul_unit(k: nat, s: int)
    requires
        -1 <= s <= 1,
    ensures
        -(k as int) <= k * s <= k,
        s == 0 ==> k * s == 0,
        s == 1 ==> k * s == k,
        s == -1 ==> k * s == -(k as int),
{
    assert(-(k as int) <= k * s <= k && (s == 0 ==> k * s == 0) && (s == 1 ==> k * s == k) && (s
        == -1 ==> k * s == -(k as int))) by (nonlinear_arith)
        requires
            -1 <= s <= 1,
            k >= 0,
    ;
}

/// The frame count never exceeds the sum of the per-axis spans: the
/// rounded Euclidean distance is at most the taxicab distance.
pub proof fn lemma_distance_triangle(from: Point, to: Point)
    ensures
        distance_spec(from, to) <= abs(to.x - from.x) + abs(to.y - from.y),
{
    let adx = abs(to.x - from.x);
    let ady = abs(to.y - from.y);
    let s = adx + ady;
    assert(dist2(from, to) >= 0 && dist2(from, to) <= s * s && s * s <= s * (s + 1) && s * s < (s
        + 1) * (s + 1)) by (nonlinear_arith)
        requires
            dist2(from, to) == (from.x - to.x) * (from.x - to.x) + (from.y - to.y) * (from.y
                - to.y),
            adx == abs(to.x - from.x),
            ady == abs(to.y - from.y),
            s == adx + ady,
    ;
    let n = dist2(from, to) as nat;
    lemma_sqrt_unique((s * s) as nat, s as nat);
    lemma_floor_sqrt_monotone(n, (s * s) as nat);
    if floor_sqrt(n) == s {
        assert(round_sqrt(n) <= s);
    }
}

/// One step of a blink sequence: paint the drawable, or clear the screen.
#[derive(Clone, Copy, PartialEq, Eq, Structural, Debug)]
pub enum BlinkPhase {
    Show,
    Hide,
}

/// Plan alternately showing and hiding a drawable `times` times, one fixed
/// delay per phase. With `end_visible` the plan ends on an extra showing
/// phase, leaving the drawable drawn; without it the last phase hides, so
/// the drawable is left cleared.
pub fn blink(times: u32, end_visible: bool) -> (plan: Vec<BlinkPhase>)
    ensures
        plan@.len() == 2 * times + (if end_visible {
            1int
        } else {
            0int
        }),
        forall|i: int|
            0 <= i < plan@.len() ==> plan@[i] == (if i % 2 == 0 {
                BlinkPhase::Show
            } else {
                BlinkPhase::Hide
            }),
        plan@.len() > 0 ==> ((plan@[plan@.len() - 1] == BlinkPhase::Show) <==> end_visible),
{
    let mut plan: Vec<BlinkPhase> = Vec::new();
    let mut done: u32 = 0;
    while done < times
        invariant
            done <= times,
            plan@.len() == 2 * done,
            forall|i: int|
                0 <= i < plan@.len() ==> plan@[i] == (if i % 2 == 0 {
                    BlinkPhase::Show
                } else {
                    BlinkPhase::Hide
                }),
        decreases times - done,
    {
        plan.push(BlinkPhase::Show);
        plan.push(BlinkPhase::Hide);
        done = done + 1;
    }
    if end_visible {
        plan.push(BlinkPhase::Show);
    }
    plan
}

/// Characters per display line of the typewriter: a break is inserted
/// after every run of this many characters.
pub const LINE_COLS: usize = 25;

/// Inserted line breaks the typewriter keeps before it starts dropping the
/// oldest line; with this many breaks the visible window holds three
/// lines.
pub const VISIBLE_BREAKS: usize = 2;

/// How many line breaks the typewriter has inserted after revealing `n`
/// characters.
pub open spec fn typed_breaks(n: nat) -> nat {
    if n == 0 {
        0
    } else {
        ((n - 1) as nat) / (LINE_COLS as nat)
    }
}

/// Whether the typewriter clears the display while revealing the character
/// at index `i`: exactly when a break lands there and more than
/// [`VISIBLE_BREAKS`] breaks have then accumulated.
pub open spec fn clears_at(i: nat) -> bool {
    i > 0 && i % (LINE_COLS as nat) == 0 && i / (LINE_COLS as nat) > VISIBLE_BREAKS as nat
}

/// Index of the first line break in `s`, or `s.len()` if there is none.
pub open spec fn first_line_break(s: Seq<char>) -> int
    decreases s.len(),
{
    if s.len() == 0 {
        0
    } else if s[0] == '\n' {
        0
    } else {
        1 + first_line_break(s.skip(1))
    }
}

/// `first_line_break` finds a line break with nothing but plain characters
/// before it, or reports that the whole sequence is plain.
pub proof fn lemma_first_line_break(s: Seq<char>)
    ensures
        0 <= first_line_break(s) <= s.len(),
        first_line_break(s) < s.len() ==> s[first_line_break(s)] == '\n',
        forall|k: int| 0 <= k < first_line_break(s) ==> s[k] != '\n',
    decreases s.len(),
{
    if s.len() > 0 && s[0] != '\n' {
        lemma_first_line_break(s.skip(1));
        assert forall|k: int| 0 <= k < first_line_break(s) implies s[k] != '\n' by {
            if k > 0 {
                assert(s.skip(1)[k - 1] == s[k]);
            }
        }
    }
}

/// The buffer after the typewriter reveals one more character: `prev` is
/// the buffer so far, `i` the index of the incoming character `c`. At a
/// line-end the break is inserted first, and once the window is full the
/// oldest line is dropped with it.
pub open spec fn type_step(prev: Seq<char>, i: nat, c: char) -> Seq<char> {
    if i > 0 && i % (LINE_COLS as nat) == 0 {
        let with_break = prev.push('\n');
        if i / (LINE_COLS as nat) > VISIBLE_BREAKS as nat {
            with_break.skip(first_line_break(with_break) + 1).push(c)
        } else {
            with_break.push(c)
        }
    } else {
        prev.push(c)
    }
}

/// The typewriter's buffer after revealing the first `n` characters of
/// `s`.
pub open spec fn typed_buffer(s: Seq<char>, n: nat) -> Seq<char>
    decreases n,
{
    if n == 0 {
        Seq::empty()
    } else {
        type_step(typed_buffer(s, (n - 1) as nat), (n - 1) as nat, s[n - 1])
    }
}

/// One frame of a typewriter reveal: the buffer to draw, and whether the
/// display must be cleared before drawing it.
#[derive(Clone, PartialEq, Eq, Debug)]
pub struct TypeFrame {
    pub cleared: bool,
    pub buffer: Vec<char>,
}

/// The typewriter engine: reveals text one character at a time, wrapping
/// at [`LINE_COLS`] columns and scrolling the oldest line away once the
/// three-line window is full.
pub struct Typewriter {
    pub buf: Vec<char>,
    pub fed: usize,
    pub breaks: usize,
}

impl Typewriter {
    /// Internal consistency: the break counter matches the number of
    /// characters revealed.
    pub open spec fn wf(self) -> bool {
        self.breaks == typed_breaks(self.fed as nat)
    }

    /// A typewriter with nothing revealed yet.
    pub fn new() -> (t: Typewriter)
        ensures
            t.wf(),
            t.fed == 0,
            t.buf@ == Seq::<char>::empty(),
    {
        Typewriter { buf: Vec::new(), fed: 0, breaks: 0 }
    }

    /// Reveal one more character. Returns whether the display must be
    /// cleared (the window scrolled) before redrawing the buffer.
    pub fn feed(&mut self, c: char) -> (cleared: bool)
        requires
            old(self).wf(),
            old(self).fed < usize::MAX,
        ensures
            final(self).wf(),
            final(self).fed == old(self).fed + 1,
            cleared == clears_at(old(self).fed as nat),
            final(self).buf@ == type_step(old(self).buf@, old(self).fed as nat, c),
    {
        let mut cleared = false;
        if self.fed > 0 && self.fed % LINE_COLS == 0 {
            self.buf.push('\n');
            self.breaks = self.breaks + 1;
            if self.breaks > VISIBLE_BREAKS {
                cleared = true;
                let j = self.find_first_break();
                let blen = self.buf.len();
                let mut rest: Vec<char> = Vec::new();
                let mut m = j + 1;
                while m < self.buf.len()
                    invariant
                        j + 1 <= m <= self.buf@.len(),
                        rest@ == self.buf@.subrange(j + 1, m as int),
                    decreases self.buf.len() - m,
                {
                    rest.push(self.buf[m]);
                    assert(rest@ == self.buf@.subrange(j + 1, m + 1));
                    m = m + 1;
                }
                assert(rest@ == self.buf@.skip(j + 1));
                self.buf = rest;
            }
        }
        self.buf.push(c);
        self.fed = self.fed + 1;
        cleared
    }

    /// Index of the buffer's first line break. Callable only when the
    /// buffer's last character is a break, so one is sure to be found.
    fn find_first_break(&self) -> (j: usize)
        requires
            self.buf@.len() > 0,
            self.buf@[self.buf@.len() - 1] == '\n',
        ensures
            j == first_line_break(self.buf@),
            j < self.buf@.len(),
            self.buf@[j as int] == '\n',
    {
        proof {
            lemma_first_line_break(self.buf@);
        }
        let blen = self.buf.len();
        let mut j: usize = 0;
        while self.buf[j] != '\n'
            invariant
                blen == self.buf@.len(),
                0 <= j < self.buf@.len(),
                forall|k: int| 0 <= k < j ==> self.buf@[k] != '\n',
                self.buf@[self.buf@.len() - 1] == '\n',
            decreases self.buf@.len() - j,
        {
            j = j + 1;
        }
        proof {
            let fb = first_line_break(self.buf@);
            if fb < j {
                assert(self.buf@[fb] != '\n');
            }
            if fb > j {
                assert(self.buf@[j as int] != '\n');
            }
        }
        j
    }
}

/// Every frame of revealing `text` in full: frame `k` shows the buffer
/// after `k + 1` characters, preceded by a clear exactly when the window
/// scrolls.
pub fn type_text(text: &[char]) -> (frames: Vec<TypeFrame>)
    ensures
        frames@.len() == text@.len(),
        forall|k: int|
            0 <= k < frames@.len() ==> (#[trigger] frames@[k]).cleared == clears_at(k as nat)
                && frames@[k].buffer@ == typed_buffer(text@, (k + 1) as nat),
{
    let mut tw = Typewriter::new();
    let mut frames: Vec<TypeFrame> = Vec::new();
    let mut k: usize = 0;
    while k < text.len()
        invariant
            0 <= k <= text@.len(),
            tw.wf(),
            tw.fed == k,
            tw.buf@ == typed_buffer(text@, k as nat),
            frames@.len() == k,
            forall|i: int|
                0 <= i < k ==> (#[trigger] frames@[i]).cleared == clears_at(i as nat)
                    && frames@[i].buffer@ == typed_buffer(text@, (i + 1) as nat),
        decreases text@.len() - k,
    {
        let cleared = tw.feed(text[k]);
        let mut snapshot: Vec<char> = Vec::new();
        let mut m: usize = 0;
        while m < tw.buf.len()
            invariant
                0 <= m <= tw.buf@.len(),
                snapshot@ == tw.buf@.take(m as int),
            decreases tw.buf@.len() - m,
        {
            snapshot.push(tw.buf[m]);
            m = m + 1;
        }
        assert(snapshot@ == tw.buf@);
        frames.push(TypeFrame { cleared, buffer: snapshot });
        k = k + 1;
    }
    frames
}

/// Up to one full line, the typewriter inserts no break: the buffer is
/// exactly the revealed prefix.
pub proof fn lemma_typed_buffer_prefix(s: Seq<char>, n: nat)
    requires
        n <= LINE_COLS,
        n <= s.len(),
    ensures
        typed_buffer(s, n) == s.take(n as int),
    decreases n,
{
    if n == 0 {
        assert(typed_buffer(s, 0) =~= s.take(0));
    } else {
        lemma_typed_buffer_prefix(s, (n - 1) as nat);
        assert(typed_buffer(s, n) =~= s.take(n as int));
    }
}

/// The first break falls exactly before the character after one full
/// line: a text of [`LINE_COLS`] characters is revealed unbroken, and the
/// next character arrives on a fresh line.
pub proof fn lemma_typed_buffer_first_break(s: Seq<char>)
    requires
        s.len() >= LINE_COLS + 1,
    ensures
        typed_buffer(s, LINE_COLS as nat) == s.take(LINE_COLS as int),
        typed_buffer(s, (LINE_COLS + 1) as nat) == s.take(LINE_COLS as int).push('\n').push(
            s[LINE_COLS as int],
        ),
{
    lemma_typed_buffer_prefix(s, LINE_COLS as nat);
}

/// Between one and two full lines the buffer is the first line, a break,
/// and the tail so far.
proof fn lemma_typed_buffer_two_lines(s: Seq<char>, n: nat)
    requires
        LINE_COLS + 1 <= n <= 2 * LINE_COLS,
        n <= s.len(),
    ensures
        typed_buffer(s, n) == s.take(25) + seq!['\n'] + s.subrange(25, n as int),
    decreases n,
{
    if n == LINE_COLS + 1 {
        lemma_typed_buffer_first_break(s);
        assert(typed_buffer(s, n) =~= s.take(25) + seq!['\n'] + s.subrange(25, n as int));
    } else {
        lemma_typed_buffer_two_lines(s, (n - 1) as nat);
        assert(typed_buffer(s, n) =~= s.take(25) + seq!['\n'] + s.subrange(25, n as int));
    }
}

/// Between two and three full lines the buffer is the first three lines so
/// far, separated by breaks.
proof fn lemma_typed_buffer_three_lines(s: Seq<char>, n: nat)
    requires
        2 * LINE_COLS + 1 <= n <= 3 * LINE_COLS,
        n <= s.len(),
    ensures
        typed_buffer(s, n) == s.take(25) + seq!['\n'] + s.subrange(25, 50) + seq!['\n']
            + s.subrange(50, n as int),
    decreases n,
{
    if n == 2 * LINE_COLS + 1 {
        lemma_typed_buffer_two_lines(s, (2 * LINE_COLS) as nat);
        assert(typed_buffer(s, n) =~= s.take(25) + seq!['\n'] + s.subrange(25, 50) + seq!['\n']
            + s.subrange(50, n as int));
    } else {
        lemma_typed_buffer_three_lines(s, (n - 1) as nat);
        assert(typed_buffer(s, n) =~= s.take(25) + seq!['\n'] + s.subrange(25, 50) + seq!['\n']
            + s.subrange(50, n as int));
    }
}

/// Once the revealed text outgrows three lines, the window scrolls for the
/// first time: the display is cleared exactly while the character after
/// the third full line is revealed — never earlier — and the oldest line
/// is dropped, leaving the two younger lines and the newcomer on a fresh
/// line.
pub proof fn lemma_typewriter_scroll_drop(s: Seq<char>)
    requires
        s.len() >= 3 * LINE_COLS + 1,
        forall|k: int| 0 <= k <= 3 * LINE_COLS ==> s[k] != '\n',
    ensures
        clears_at((3 * LINE_COLS) as nat),
        forall|i: nat| i < 3 * LINE_COLS ==> !clears_at(i),
        typed_buffer(s, (3 * LINE_COLS + 1) as nat) == s.subrange(25, 50) + seq!['\n']
            + s.subrange(50, 75) + seq!['\n'] + seq![s[75]],
{
    lemma_typed_buffer_three_lines(s, (3 * LINE_COLS) as nat);
    let prev = typed_buffer(s, (3 * LINE_COLS) as nat);
    let with_break = prev.push('\n');
    lemma_first_line_break(with_break);
    let fb = first_line_break(with_break);
    assert(with_break[25] == '\n');
    assert(forall|k: int| 0 <= k < 25 ==> with_break[k] == s[k]);
    if fb < 25 {
        assert(with_break[fb] == '\n');
        assert(s[fb] != '\n');
    }
    if fb > 25 {
        assert(with_break[25] != '\n');
    }
    assert(fb == 25);
    assert(typed_buffer(s, (3 * LINE_COLS + 1) as nat) =~= s.subrange(25, 50) + seq!['\n']
        + s.subrange(50, 75) + seq!['\n'] + seq![s[75]]);
    assert forall|i: nat| i < 3 * LINE_COLS implies !clears_at(i) by {
        if i % (LINE_COLS as nat) == 0 && i > 0 {
            assert(i / (LINE_COLS as nat) <= VISIBLE_BREAKS as nat);
        }
    }
}

/// Number of line breaks in a buffer.
pub open spec fn break_count(s: Seq<char>) -> nat
    decreases s.len(),
{
    if s.len() == 0 {
        0
    } else {
        (if s[0] == '\n' {
            1nat
        } else {
            0nat
        }) + break_count(s.skip(1))
    }
}

/// Appending a character adds its own break, if it is one, and no other.
proof fn lemma_break_count_push(s: Seq<char>, c: char)
    ensures
        break_count(s.push(c)) == break_count(s) + (if c == '\n' {
            1nat
        } else {
            0nat
        }),
    decreases s.len(),
{
    if s.len() == 0 {
        assert(s.push(c)[0] == c);
        assert(s.push(c).skip(1) =~= Seq::<char>::empty());
        assert(break_count(s.push(c).skip(1)) == 0);
    } else {
        lemma_break_count_push(s.skip(1), c);
        assert(s.push(c).skip(1) =~= s.skip(1).push(c));
        assert(s.push(c)[0] == s[0]);
        assert(break_count(s.push(c)) == (if s[0] == '\n' {
            1nat
        } else {
            0nat
        }) + break_count(s.skip(1).push(c)));
    }
}

/// Dropping everything up to and including the first break removes
/// exactly one break.
proof fn lemma_break_count_drop_first(s: Seq<char>)
    requires
        first_line_break(s) < s.len(),
    ensures
        break_count(s.skip(first_line_break(s) + 1)) + 1 == break_count(s),
    decreases s.len(),
{
    lemma_first_line_break(s);
    if s[0] == '\n' {
    } else {
        lemma_first_line_break(s.skip(1));
        lemma_break_count_drop_first(s.skip(1));
        let fb = first_line_break(s);
        assert(s.skip(fb + 1) =~= s.skip(1).skip(fb));
    }
}

/// The scrolling window works: however much break-free text is revealed,
/// the buffer never holds more than [`VISIBLE_BREAKS`] inserted breaks, so
/// at most three lines are ever visible; until the window first fills the
/// break count grows one per completed line.
pub proof fn lemma_typewriter_window(s: Seq<char>, n: nat)
    requires
        n <= s.len(),
        forall|k: int| 0 <= k < n ==> s[k] != '\n',
    ensures
        break_count(typed_buffer(s, n)) == (if typed_breaks(n) <= VISIBLE_BREAKS as nat {
            typed_breaks(n)
        } else {
            VISIBLE_BREAKS as nat
        }),
    decreases n,
{
    if n == 0 {
    } else {
        lemma_typewriter_window(s, (n - 1) as nat);
        let i = (n - 1) as nat;
        let prev = typed_buffer(s, i);
        let c = s[n - 1];
        if i > 0 && i % (LINE_COLS as nat) == 0 {
            let with_break = prev.push('\n');
            lemma_break_count_push(prev, '\n');
            if i / (LINE_COLS as nat) > VISIBLE_BREAKS as nat {
                lemma_first_line_break(with_break);
                assert(with_break[with_break.len() - 1] == '\n');
                assert(first_line_break(with_break) < with_break.len());
                lemma_break_count_drop_first(with_break);
                lemma_break_count_push(
                    with_break.skip(first_line_break(with_break) + 1),
                    c,
                );
            } else {
                lemma_break_count_push(with_break, c);
            }
        } else {
            lemma_break_count_push(prev, c);
        }
    }
}

/// One frame of a straight-line transition: erase the slightly inflated
/// footprint at `eraser`, then draw the drawable with its top-left corner
/// at `pos`, then flush.
#[derive(Clone, Copy, PartialEq, Eq, Structural, Debug)]
pub struct ScrollFrame {
    pub eraser: BoundingBox,
    pub pos: Point,
}

/// A straight-line transition in progress: the drawable's current top-left
/// corner, the per-frame step, and how many frames remain. Obtained from
/// [`scroll`] and drained with [`Transition::advance`].
#[derive(Clone, Copy, PartialEq, Eq, Structural, Debug)]
pub struct Transition {
    pub start: Point,
    pub pos: Point,
    pub step: Point,
    pub size: Size,
    pub total: u32,
    pub remaining: u32,
}

impl Transition {
    /// Internal consistency: the step is a unit step, the current position
    /// lies `total - remaining` steps from the start, and every position the
    /// plan will visit (and its one-pixel-inflated eraser) stays
    /// representable.
    pub open spec fn wf(self) -> bool {
        &&& self.remaining <= self.total
        &&& -1 <= self.step.x <= 1
        &&& -1 <= self.step.y <= 1
        &&& self.pos.x == self.start.x + (self.total - self.remaining) * self.step.x
        &&& self.pos.y == self.start.y + (self.total - self.remaining) * self.step.y
        &&& i32::MIN < self.start.x
        &&& i32::MIN < self.start.y
        &&& i32::MIN < self.start.x + self.total * self.step.x <= i32::MAX
        &&& i32::MIN < self.start.y + self.total * self.step.y <= i32::MAX
        &&& self.size.width + 2 <= u32::MAX
        &&& self.size.height + 2 <= u32::MAX
    }

    /// Take one step toward the target: the next frame of the plan, or
    /// `None` once the transition has run its course.
    pub fn advance(&mut self) -> (f: Option<ScrollFrame>)
        requires
            old(self).wf(),
        ensures
            final(self).wf(),
            old(self).remaining == 0 ==> f is None && *final(self) == *old(self),
            old(self).remaining > 0 ==> {
                &&& final(self).remaining == old(self).remaining - 1
                &&& final(self).pos.x == old(self).pos.x + old(self).step.x
                &&& final(self).pos.y == old(self).pos.y + old(self).step.y
                &&& final(self).start == old(self).start
                &&& final(self).step == old(self).step
                &&& final(self).size == old(self).size
                &&& final(self).total == old(self).total
                &&& f == Some(
                    (ScrollFrame {
                        eraser: BoundingBox {
                            top_left: Point {
                                x: (final(self).pos.x - 1) as i32,
                                y: (final(self).pos.y - 1) as i32,
                            },
                            size: Size {
                                width: (old(self).size.width + 2) as u32,
                                height: (old(self).size.height + 2) as u32,
                            },
                        },
                        pos: final(self).pos,
                    }),
                )
            },
    {
        if self.remaining == 0 {
            return None;
        }
        proof {
            let k = (self.total - self.remaining) as nat;
            lemma_mul_unit(k, self.step.x as int);
            lemma_mul_unit((k + 1) as nat, self.step.x as int);
            lemma_mul_unit(self.total as nat, self.step.x as int);
            lemma_mul_unit(k, self.step.y as int);
            lemma_mul_unit((k + 1) as nat, self.step.y as int);
            lemma_mul_unit(self.total as nat, self.step.y as int);
        }
        let new_pos = Point { x: self.pos.x + self.step.x, y: self.pos.y + self.step.y };
        self.pos = new_pos;
        self.remaining = self.remaining - 1;
        Some(
            ScrollFrame {
                eraser: BoundingBox {
                    top_left: Point { x: new_pos.x - 1, y: new_pos.y - 1 },
                    size: Size { width: self.size.width + 2, height: self.size.height + 2 },
                },
                pos: new_pos,
            },
        )
    }
}

/// A fully drained transition has walked the whole plan: its position is
/// the start displaced by one unit step per frame, and on endpoints whose
/// frame count exceeds no axis's span by more than one it rests within a
/// pixel of the target on each axis.
pub proof fn lemma_transition_lands_near(t: Transition, from: Point, to: Point)
    requires
        t.wf(),
        t.remaining == 0,
        t.start == from,
        t.total == distance_spec(from, to),
        t.step.x == step_spec(from.x as int, to.x as int),
        t.step.y == step_spec(from.y as int, to.y as int),
        from != to,
        from.x == to.x || distance_spec(from, to) <= abs(to.x - from.x) + 1,
        from.y == to.y || distance_spec(from, to) <= abs(to.y - from.y) + 1,
    ensures
        abs(t.pos.x - to.x) <= 1,
        abs(t.pos.y - to.y) <= 1,
{
    crate::geometry::lemma_unit_step_lands_near(from, to);
    assert(t.pos.x == crate::geometry::travel_spec(
        from.x as int,
        to.x as int,
        distance_spec(from, to),
    ));
    assert(t.pos.y == crate::geometry::travel_spec(
        from.y as int,
        to.y as int,
        distance_spec(from, to),
    ));
}

/// The endpoints admit a transition whose every intermediate coordinate,
/// one-pixel eraser margin included, fits the coordinate types.
pub open spec fn scroll_fits(size: Size, from: Point, to: Point) -> bool {
    &&& size.width + 2 <= u32::MAX
    &&& size.height + 2 <= u32::MAX
    &&& i32::MIN < from.x
    &&& i32::MIN < from.y
    &&& i32::MIN < from.x + distance_spec(from, to) * step_spec(from.x as int, to.x as int)
        <= i32::MAX
    &&& i32::MIN < from.y + distance_spec(from, to) * step_spec(from.y as int, to.y as int)
        <= i32::MAX
}

/// Plan a straight-line move of a drawable of bounding box `d` from `from`
/// to `to`: one unit step per frame, for the rounded Euclidean distance
/// many frames, each frame trailing an eraser one pixel larger than the
/// drawable. The drawable is taken to be repositioned so its top-left
/// corner starts at `from`.
pub fn scroll(d: BoundingBox, from: Point, to: Point) -> (t: Transition)
    requires
        scroll_fits(d.size, from, to),
    ensures
        t.wf(),
        t.start == from,
        t.pos == from,
        t.size == d.size,
        t.total == distance_spec(from, to),
        t.remaining == t.total,
        t.step.x == step_spec(from.x as int, to.x as int),
        t.step.y == step_spec(from.y as int, to.y as int),
{
    let total = distance(from, to);
    let step = unit_step(from, to);
    proof {
        lemma_mul_unit(0, step.x as int);
        lemma_mul_unit(0, step.y as int);
    }
    Transition { start: from, pos: from, step, size: d.size, total, remaining: total }
}

/// A freshly planned transition for a drawable of size `size`, running
/// from `from` to `to`.
pub open spec fn is_scroll_plan(t: Transition, size: Size, from: Point, to: Point) -> bool {
    &&& t.wf()
    &&& t.size == size
    &&& t.start == from
    &&& t.pos == from
    &&& t.total == distance_spec(from, to)
    &&& t.remaining == t.total
    &&& t.step.x == step_spec(from.x as int, to.x as int)
    &&& t.step.y == step_spec(from.y as int, to.y as int)
}

/// Largest extent, in pixels, the transition planners accept for a screen
/// or drawable dimension. Far beyond any real panel; it keeps every
/// planned coordinate comfortably inside `i32`.
pub const MAX_DIM: u32 = 1_000_000;

/// Largest magnitude the transition planners accept for a drawable's
/// current coordinate.
pub const MAX_COORD: i32 = 2_000_000;

/// Screen and drawable extents small enough for transition planning.
pub open spec fn dims_ok(size: Size, screen: Size) -> bool {
    &&& size.width <= MAX_DIM
    &&& size.height <= MAX_DIM
    &&& screen.width <= MAX_DIM
    &&& screen.height <= MAX_DIM
}

/// A drawable position within the planners' coordinate budget.
pub open spec fn pos_ok(p: Point) -> bool {
    &&& -MAX_COORD <= p.x <= MAX_COORD
    &&& -MAX_COORD <= p.y <= MAX_COORD
}

/// The point that centers a box of size `b` on `screen`.
pub open spec fn center_point_spec(b: Size, screen: Size) -> Point {
    Point { x: center_x_spec(b, screen) as i32, y: center_y_spec(b, screen) as i32 }
}

/// Endpoints within the coordinate budget always admit a transition.
proof fn lemma_fits(size: Size, from: Point, to: Point)
    requires
        size.width <= MAX_DIM,
        size.height <= MAX_DIM,
        -3 * (MAX_COORD as int) <= from.x <= 3 * (MAX_COORD as int),
        -3 * (MAX_COORD as int) <= from.y <= 3 * (MAX_COORD as int),
        -3 * (MAX_COORD as int) <= to.x <= 3 * (MAX_COORD as int),
        -3 * (MAX_COORD as int) <= to.y <= 3 * (MAX_COORD as int),
    ensures
        scroll_fits(size, from, to),
{
    lemma_distance_triangle(from, to);
    lemma_mul_unit(distance_spec(from, to), step_spec(from.x as int, to.x as int));
    lemma_mul_unit(distance_spec(from, to), step_spec(from.y as int, to.y as int));
}

/// Plan sliding the drawable in from beyond the right edge to the screen
/// center, moving leftward.
pub fn left_in(d: BoundingBox, screen: Size) -> (t: Transition)
    requires
        dims_ok(d.size, screen),
    ensures
        is_scroll_plan(
            t,
            d.size,
            (Point { x: screen.width as i32, y: center_point_spec(d.size, screen).y }),
            center_point_spec(d.size, screen),
        ),
{
    let center = screen_center(d.size, screen);
    let from = Point { x: screen.width as i32, y: center.y };
    proof {
        lemma_fits(d.size, from, center);
    }
    scroll(d, from, center)
}

/// Plan sliding the drawable from its current position off past the left
/// edge, keeping it vertically centered.
pub fn left_out(d: BoundingBox, screen: Size) -> (t: Transition)
    requires
        dims_ok(d.size, screen),
        pos_ok(d.top_left),
    ensures
        is_scroll_plan(
            t,
            d.size,
            d.top_left,
            (Point {
                x: (-(d.size.width as int)) as i32,
                y: center_point_spec(d.size, screen).y,
            }),
        ),
{
    let center = screen_center(d.size, screen);
    let to = Point { x: -(d.size.width as i32), y: center.y };
    proof {
        lemma_fits(d.size, d.top_left, to);
    }
    scroll(d, d.top_left, to)
}

/// Plan the full leftward pass: in from the right edge to the center, then
/// out past the left edge.
pub fn left(d: BoundingBox, screen: Size) -> (t: (Transition, Transition))
    requires
        dims_ok(d.size, screen),
    ensures
        is_scroll_plan(
            t.0,
            d.size,
            (Point { x: screen.width as i32, y: center_point_spec(d.size, screen).y }),
            center_point_spec(d.size, screen),
        ),
        is_scroll_plan(
            t.1,
            d.size,
            center_point_spec(d.size, screen),
            (Point {
                x: (-(d.size.width as int)) as i32,
                y: center_point_spec(d.size, screen).y,
            }),
        ),
{
    let first = left_in(d, screen);
    let landed = BoundingBox {
        top_left: screen_center(d.size, screen),
        size: d.size,
    };
    let second = left_out(landed, screen);
    (first, second)
}

/// Plan sliding the drawable in from beyond the left edge to the screen
/// center, moving rightward.
pub fn right_in(d: BoundingBox, screen: Size) -> (t: Transition)
    requires
        dims_ok(d.size, screen),
    ensures
        is_scroll_plan(
            t,
            d.size,
            (Point {
                x: (-(d.size.width as int)) as i32,
                y: center_point_spec(d.size, screen).y,
            }),
            center_point_spec(d.size, screen),
        ),
{
    let center = screen_center(d.size, screen);
    let from = Point { x: -(d.size.width as i32), y: center.y };
    proof {
        lemma_fits(d.size, from, center);
    }
    scroll(d, from, center)
}

/// Plan sliding the drawable from its current position off past the right
/// edge, keeping it vertically centered.
pub fn right_out(d: BoundingBox, screen: Size) -> (t: Transition)
    requires
        dims_ok(d.size, screen),
        pos_ok(d.top_left),
    ensures
        is_scroll_plan(
            t,
            d.size,
            d.top_left,
            (Point { x: screen.width as i32, y: center_point_spec(d.size, screen).y }),
        ),
{
    let center = screen_center(d.size, screen);
    let to = Point { x: screen.width as i32, y: center.y };
    proof {
        lemma_fits(d.size, d.top_left, to);
    }
    scroll(d, d.top_left, to)
}

/// Plan the full rightward pass: in from the left edge to the center, then
/// out past the right edge.
pub fn right(d: BoundingBox, screen: Size) -> (t: (Transition, Transition))
    requires
        dims_ok(d.size, screen),
    ensures
        is_scroll_plan(
            t.0,
            d.size,
            (Point {
                x: (-(d.size.width as int)) as i32,
                y: center_point_spec(d.size, screen).y,
            }),
            center_point_spec(d.size, screen),
        ),
        is_scroll_plan(
            t.1,
            d.size,
            center_point_spec(d.size, screen),
            (Point { x: screen.width as i32, y: center_point_spec(d.size, screen).y }),
        ),
{
    let first = right_in(d, screen);
    let landed = BoundingBox {
        top_left: screen_center(d.size, screen),
        size: d.size,
    };
    let second = right_out(landed, screen);
    (first, second)
}

/// Plan sliding the drawable in from below the bottom edge up to the
/// screen center.
pub fn up_in(d: BoundingBox, screen: Size) -> (t: Transition)
    requires
        dims_ok(d.size, screen),
    ensures
        is_scroll_plan(
            t,
            d.size,
            (Point { x: center_point_spec(d.size, screen).x, y: screen.height as i32 }),
            center_point_spec(d.size, screen),
        ),
{
    let center = screen_center(d.size, screen);
    let from = Point { x: center.x, y: screen.height as i32 };
    proof {
        lemma_fits(d.size, from, center);
    }
    scroll(d, from, center)
}

/// Plan sliding the drawable from its current position up past the top
/// edge, keeping it horizontally centered.
pub fn up_out(d: BoundingBox, screen: Size) -> (t: Transition)
    requires
        dims_ok(d.size, screen),
        pos_ok(d.top_left),
    ensures
        is_scroll_plan(
            t,
            d.size,
            d.top_left,
            (Point {
                x: center_point_spec(d.size, screen).x,
                y: (-(d.size.height as int)) as i32,
            }),
        ),
{
    let center = screen_center(d.size, screen);
    let to = Point { x: center.x, y: -(d.size.height as i32) };
    proof {
        lemma_fits(d.size, d.top_left, to);
    }
    scroll(d, d.top_left, to)
}

/// Plan the full upward pass: in from the bottom edge to the center, then
/// out past the top edge.
pub fn up(d: BoundingBox, screen: Size) -> (t: (Transition, Transition))
    requires
        dims_ok(d.size, screen),
    ensures
        is_scroll_plan(
            t.0,
            d.size,
            (Point { x: center_point_spec(d.size, screen).x, y: screen.height as i32 }),
            center_point_spec(d.size, screen),
        ),
        is_scroll_plan(
            t.1,
            d.size,
            center_point_spec(d.size, screen),
            (Point {
                x: center_point_spec(d.size, screen).x,
                y: (-(d.size.height as int)) as i32,
            }),
        ),
{
    let first = up_in(d, screen);
    let landed = BoundingBox {
        top_left: screen_center(d.size, screen),
        size: d.size,
    };
    let second = up_out(landed, screen);
    (first, second)
}

/// Plan sliding the drawable in from above the top edge down to the screen
/// center.
pub fn down_in(d: BoundingBox, screen: Size) -> (t: Transition)
    requires
        dims_ok(d.size, screen),
    ensures
        is_scroll_plan(
            t,
            d.size,
            (Point {
                x: center_point_spec(d.size, screen).x,
                y: (-(d.size.height as int)) as i32,
            }),
            center_point_spec(d.size, screen),
        ),
{
    let center = screen_center(d.size, screen);
    let from = Point { x: center.x, y: -(d.size.height as i32) };
    proof {
        lemma_fits(d.size, from, center);
    }
    scroll(d, from, center)
}

/// Plan sliding the drawable from its current position down past the
/// bottom edge, keeping it horizontally centered.
pub fn down_out(d: BoundingBox, screen: Size) -> (t: Transition)
    requires
        dims_ok(d.size, screen),
        pos_ok(d.top_left),
    ensures
        is_scroll_plan(
            t,
            d.size,
            d.top_left,
            (Point { x: center_point_spec(d.size, screen).x, y: screen.height as i32 }),
        ),
{
    let center = screen_center(d.size, screen);
    let to = Point { x: center.x, y: screen.height as i32 };
    proof {
        lemma_fits(d.size, d.top_left, to);
    }
    scroll(d, d.top_left, to)
}

/// Plan the full downward pass: in from the top edge to the center, then
/// out past the bottom edge.
pub fn down(d: BoundingBox, screen: Size) -> (t: (Transition, Transition))
    requires
        dims_ok(d.size, screen),
    ensures
        is_scroll_plan(
            t.0,
            d.size,
            (Point {
                x: center_point_spec(d.size, screen).x,
                y: (-(d.size.height as int)) as i32,
            }),
            center_point_spec(d.size, screen),
        ),
        is_scroll_plan(
            t.1,
            d.size,
            center_point_spec(d.size, screen),
            (Point { x: center_point_spec(d.size, screen).x, y: screen.height as i32 }),
        ),
{
    let first = down_in(d, screen);
    let landed = BoundingBox {
        top_left: screen_center(d.size, screen),
        size: d.size,
    };
    let second = down_out(landed, screen);
    (first, second)
}

} // verus!
