//! The sub-pixel frame buffer.
//!
//! Each pixel holds a *brightness key*: a brightness between 0 and 1.1
//! encoded as a `u32` whose integer order is the order of the brightnesses
//! (the IEEE-754 single-precision bit pattern of a non-negative brightness,
//! with zero for black). The buffer only compares and stores keys.
use vstd::prelude::*;

verus! {

/// The key of the brightest value a pixel may hold (brightness 1.1).
pub const MAX_KEY: u32 = 0x3F8C_CCCD;

/// A `width` by `height` grid of brightness keys, stored row by row.
pub struct FrameBuffer {
    pub width: usize,
    pub height: usize,
    pub pixels: Vec<u32>,
}

/// A brightness key limited to the brightest value a pixel may hold.
pub open spec fn clamp_key(v: u32) -> u32 {
    if v <= MAX_KEY { v } else { MAX_KEY }
}

/// The distance between two coordinates.
pub open spec fn abs_diff(a: int, b: int) -> int {
    if a <= b { b - a } else { a - b }
}

/// The coordinate `k` steps from `a` in the direction of `b`.
pub open spec fn toward(a: int, b: int, k: int) -> int {
    if a < b { a + k } else { a - k }
}

/// The number of steps of the line from `(x0, y0)` to `(x1, y1)`: the
/// longer of its two extents. The line has one more point than steps.
pub open spec fn line_steps(x0: int, y0: int, x1: int, y1: int) -> int {
    let adx = abs_diff(x0, x1);
    let ady = abs_diff(y0, y1);
    if adx >= ady { adx } else { ady }
}

/// Point `k` of the line from `(x0, y0)` to `(x1, y1)`: `k` steps along
/// the longer extent, and along the shorter one the nearest whole number to
/// the proportional distance, a half rounded up.
pub open spec fn line_point(x0: int, y0: int, x1: int, y1: int, k: int) -> (int, int) {
    let adx = abs_diff(x0, x1);
    let ady = abs_diff(y0, y1);
    if adx >= ady {
        let j = if adx == 0 { 0 } else { (2 * k * ady + adx) / (2 * adx) };
        (toward(x0, x1, k), toward(y0, y1, j))
    } else {
        (toward(x0, x1, (2 * k * adx + ady) / (2 * ady)), toward(y0, y1, k))
    }
}

/// The coordinate differences are small enough for the stepping
/// arithmetic of `draw_line` to stay within `isize`.
pub open spec fn line_fits(x0: int, y0: int, x1: int, y1: int) -> bool {
    3 * abs_diff(x0, x1) <= isize::MAX && 3 * abs_diff(y0, y1) <= isize::MAX
}

impl FrameBuffer {
    /// The pixel vector has one entry per grid position.
    pub open spec fn wf(&self) -> bool {
        self.pixels@.len() == self.width * self.height
    }

    /// Whether `(x, y)` names a pixel of the grid.
    pub open spec fn in_bounds(&self, x: int, y: int) -> bool {
        0 <= x < self.width && 0 <= y < self.height
    }

    /// The key at column `x` of row `y`.
    pub open spec fn pixel(&self, x: int, y: int) -> u32 {
        self.pixels@[y * self.width + x]
    }

    /// Whether `set_pixel` would compute a storage index for `(x, y)`:
    /// `x` within the width, and `y` below the height.
    pub open spec fn addresses(&self, x: int, y: int) -> bool {
        0 <= x < (self.width as isize) && y < (self.height as isize)
    }

    /// A black buffer of the given size.
    pub fn new(width: usize, height: usize) -> (fb: FrameBuffer)
        requires
            width * height <= usize::MAX,
        ensures
            fb.width == width,
            fb.height == height,
            fb.wf(),
            forall|i: int| 0 <= i < fb.pixels@.len() ==> fb.pixels@[i] == 0,
    {
        FrameBuffer { width, height, pixels: vec![0u32; width * height] }
    }

    /// Changes the size; every pixel of the new grid is black.
    pub fn resize(&mut self, width: usize, height: usize)
        requires
            width * height <= usize::MAX,
        ensures
            final(self).width == width,
            final(self).height == height,
            final(self).wf(),
            forall|i: int| 0 <= i < final(self).pixels@.len() ==> final(self).pixels@[i] == 0,
    {
        self.width = width;
        self.height = height;
        self.pixels = vec![0u32; width * height];
    }

    /// Stores `key`, limited to `MAX_KEY`, at `(x, y)` when that pixel lies
    /// in the grid; does nothing otherwise. A negative row with a column
    /// inside the width is refused, as no storage index exists for it.
    pub fn set_pixel(&mut self, x: isize, y: isize, key: u32)
        requires
            old(self).wf(),
            old(self).addresses(x as int, y as int) ==> y >= 0,
        ensures
            final(self).width == old(self).width,
            final(self).height == old(self).height,
            final(self).wf(),
            old(self).addresses(x as int, y as int) ==> final(self).pixels@ == old(self).pixels@.update(
                y * old(self).width + x,
                clamp_key(key),
            ),
            !old(self).addresses(x as int, y as int) ==> final(self).pixels@ == old(self).pixels@,
    {
        proof {
            lemma_cast_below(self.width);
            lemma_cast_below(self.height);
        }
        if x >= 0 && x < self.width as isize && y < self.height as isize {
            let row = y as usize;
            let col = x as usize;
            assert(col < self.width && row < self.height);
            proof {
                lemma_index_in_grid(col as int, row as int, self.width as int, self.height as int);
            }
            assert(row * self.width + col < self.pixels.len());
            let idx = row * self.width + col;
            let v = if key <= MAX_KEY { key } else { MAX_KEY };
            self.pixels.set(idx, v);
        }
    }

    /// Whether point `k` of the line falls in the grid at storage index `i`.
    pub open spec fn line_marks(&self, x0: int, y0: int, x1: int, y1: int, k: int, i: int) -> bool {
        let p = line_point(x0, y0, x1, y1, k);
        &&& self.addresses(p.0, p.1)
        &&& p.1 * self.width + p.0 == i
    }

    /// Whether one of the first `n` points of the line falls at storage index `i`.
    pub open spec fn line_covers(&self, x0: int, y0: int, x1: int, y1: int, n: int, i: int) -> bool {
        exists|k: int| 0 <= k < n && #[trigger] self.line_marks(x0, y0, x1, y1, k, i)
    }

    /// No point of the line has a column inside the width and a negative row.
    pub open spec fn line_drawable(&self, x0: int, y0: int, x1: int, y1: int) -> bool {
        forall|k: int|
            0 <= k <= line_steps(x0, y0, x1, y1) ==> {
                let p = #[trigger] line_point(x0, y0, x1, y1, k);
                self.addresses(p.0, p.1) ==> p.1 >= 0
            }
    }

    /// Draws the line from `(x0, y0)` to `(x1, y1)` with Bresenham's
    /// algorithm: every point of the line that lies in the grid gets `key`
    /// (limited to `MAX_KEY`); every other pixel keeps its key.
    pub fn draw_line(&mut self, x0: isize, y0: isize, x1: isize, y1: isize, key: u32)
        requires
            old(self).wf(),
            line_fits(x0 as int, y0 as int, x1 as int, y1 as int),
            old(self).line_drawable(x0 as int, y0 as int, x1 as int, y1 as int),
        ensures
            final(self).width == old(self).width,
            final(self).height == old(self).height,
            final(self).wf(),
            forall|i: int|
                0 <= i < old(self).pixels@.len() ==> final(self).pixels@[i] == if old(
                    self,
                ).line_covers(
                    x0 as int,
                    y0 as int,
                    x1 as int,
                    y1 as int,
                    line_steps(x0 as int, y0 as int, x1 as int, y1 as int) + 1,
                    i,
                ) {
                    clamp_key(key)
                } else {
                    old(self).pixels@[i]
                },
    {
        let ghost g = *self;
        let ghost (gx0, gy0, gx1, gy1) = (x0 as int, y0 as int, x1 as int, y1 as int);
        let ghost adx = abs_diff(gx0, gx1);
        let ghost ady = abs_diff(gy0, gy1);
        let ghost steps = line_steps(gx0, gy0, gx1, gy1);
        let dx: isize = if x1 >= x0 { x1 - x0 } else { x0 - x1 };
        let dy: isize = -(if y1 >= y0 { y1 - y0 } else { y0 - y1 });
        let sx: isize = if x0 < x1 { 1 } else { -1 };
        let sy: isize = if y0 < y1 { 1 } else { -1 };
        let mut err: isize = dx + dy;

        let mut x = x0;
        let mut y = y0;
        let ghost mut i: int = 0;
        let ghost mut j: int = 0;
        let ghost mut k: int = 0;
        let ghost mut d: int = 0;

        loop
            invariant_except_break
                gx0 == x0 as int && gy0 == y0 as int && gx1 == x1 as int && gy1 == y1 as int,
                adx == abs_diff(gx0, gx1),
                ady == abs_diff(gy0, gy1),
                steps == line_steps(gx0, gy0, gx1, gy1),
                g.wf(),
                line_fits(gx0, gy0, gx1, gy1),
                g.line_drawable(gx0, gy0, gx1, gy1),
                self.width == g.width,
                self.height == g.height,
                self.wf(),
                dx == adx,
                dy == -ady,
                sx == (if x0 < x1 { 1int } else { -1int }),
                sy == (if y0 < y1 { 1int } else { -1int }),
                x == toward(gx0, gx1, i),
                y == toward(gy0, gy1, j),
                0 <= i <= adx,
                0 <= j <= ady,
                d == i * ady - j * adx,
                err == adx - ady - d,
                adx >= ady ==> i == k && (adx > 0 ==> -adx <= 2 * d < adx),
                adx < ady ==> j == k && -ady < 2 * d <= ady,
                0 <= k <= steps,
                forall|n: int|
                    0 <= n < g.pixels@.len() ==> self.pixels@[n] == if g.line_covers(
                        gx0,
                        gy0,
                        gx1,
                        gy1,
                        k,
                        n,
                    ) {
                        clamp_key(key)
                    } else {
                        g.pixels@[n]
                    },
            ensures
                self.width == g.width,
                self.height == g.height,
                self.wf(),
                forall|n: int|
                    0 <= n < g.pixels@.len() ==> self.pixels@[n] == if g.line_covers(
                        gx0,
                        gy0,
                        gx1,
                        gy1,
                        steps + 1,
                        n,
                    ) {
                        clamp_key(key)
                    } else {
                        g.pixels@[n]
                    },
            decreases steps - k,
        {
            proof {
                lemma_line_point_from_progress(gx0, gy0, gx1, gy1, k, i, j, d);
            }
            let ghost before = *self;
            self.set_pixel(x, y, key);
            proof {
                assert(line_point(gx0, gy0, gx1, gy1, k) == (x as int, y as int));
                assert forall|n: int| 0 <= n < g.pixels@.len() implies self.pixels@[n] == if g.line_covers(
                    gx0, gy0, gx1, gy1, k + 1, n) { clamp_key(key) } else { g.pixels@[n] } by {
                    if g.line_marks(gx0, gy0, gx1, gy1, k, n) {
                        assert(g.line_covers(gx0, gy0, gx1, gy1, k + 1, n));
                    } else {
                        if g.line_covers(gx0, gy0, gx1, gy1, k + 1, n) {
                            let w = choose|w: int| 0 <= w < k + 1 && #[trigger] g.line_marks(gx0, gy0, gx1, gy1, w, n);
                            assert(g.line_covers(gx0, gy0, gx1, gy1, k, n));
                        }
                        if g.line_covers(gx0, gy0, gx1, gy1, k, n) {
                            let w = choose|w: int| 0 <= w < k && #[trigger] g.line_marks(gx0, gy0, gx1, gy1, w, n);
                            assert(g.line_covers(gx0, gy0, gx1, gy1, k + 1, n));
                        }
                        if before.addresses(x as int, y as int) {
                            lemma_cast_below(g.width);
                            lemma_cast_below(g.height);
                            lemma_index_in_grid(x as int, y as int, g.width as int, g.height as int);
                        }
                        assert(self.pixels@[n] == before.pixels@[n]);
                    }
                }
            }
            if x == x1 && y == y1 {
                proof {
                    lemma_line_ends_at_target(gx0, gy0, gx1, gy1, k);
                }
                break;
            }
            proof {
                lemma_line_ends_at_target(gx0, gy0, gx1, gy1, steps);
                lemma_bresenham_step(adx, ady, i, j, k, d);
            }
            let e2 = 2 * err;
            if e2 >= dy {
                err += dy;
                x += sx;
                proof {
                    i = i + 1;
                    d = d + ady;
                }
            }
            if e2 <= dx {
                err += dx;
                y += sy;
                proof {
                    j = j + 1;
                    d = d - adx;
                }
            }
            proof {
                k = k + 1;
            }
        }
    }

    /// Whether the segment from point `s` to point `s + 1` of `pts` falls at storage index `i`.
    pub open spec fn segment_covers(&self, pts: Seq<(isize, isize)>, s: int, i: int) -> bool {
        let (x0, y0) = (pts[s].0 as int, pts[s].1 as int);
        let (x1, y1) = (pts[s + 1].0 as int, pts[s + 1].1 as int);
        self.line_covers(x0, y0, x1, y1, line_steps(x0, y0, x1, y1) + 1, i)
    }

    /// Whether one of the first `n` segments of `pts` falls at storage index `i`.
    pub open spec fn polyline_covers(&self, pts: Seq<(isize, isize)>, n: int, i: int) -> bool {
        exists|s: int| 0 <= s < n && #[trigger] self.segment_covers(pts, s, i)
    }

    /// Every segment of `pts` can be drawn with `draw_line`.
    pub open spec fn polyline_drawable(&self, pts: Seq<(isize, isize)>) -> bool {
        forall|s: int|
            0 <= s < pts.len() - 1 ==> {
                let (x0, y0) = (pts[s].0 as int, pts[s].1 as int);
                let (x1, y1) = (#[trigger] pts[s + 1].0 as int, pts[s + 1].1 as int);
                line_fits(x0, y0, x1, y1) && self.line_drawable(x0, y0, x1, y1)
            }
    }

    /// Traces the path through `pts`: draws the line from each point to the
    /// next, so every pixel on one of those lines gets `key` (limited to
    /// `MAX_KEY`) and every other pixel keeps its key.
    pub fn draw_polyline(&mut self, pts: &Vec<(isize, isize)>, key: u32)
        requires
            old(self).wf(),
            old(self).polyline_drawable(pts@),
        ensures
            final(self).width == old(self).width,
            final(self).height == old(self).height,
            final(self).wf(),
            forall|i: int|
                0 <= i < old(self).pixels@.len() ==> final(self).pixels@[i] == if old(self).polyline_covers(
                    pts@,
                    pts@.len() - 1,
                    i,
                ) {
                    clamp_key(key)
                } else {
                    old(self).pixels@[i]
                },
    {
        let ghost g = *self;
        let mut s: usize = 1;
        while s < pts.len()
            invariant
                g.wf(),
                g.polyline_drawable(pts@),
                self.width == g.width,
                self.height == g.height,
                self.wf(),
                1 <= s,
                s <= pts@.len() || s == 1,
                forall|i: int|
                    0 <= i < g.pixels@.len() ==> self.pixels@[i] == if g.polyline_covers(pts@, s - 1, i) {
                        clamp_key(key)
                    } else {
                        g.pixels@[i]
                    },
            decreases pts@.len() - s,
        {
            let (x0, y0) = pts[s - 1];
            let (x1, y1) = pts[s];
            let ghost before = *self;
            proof {
                assert(pts@[(s - 1) + 1] == pts@[s as int]);
                lemma_covers_same_size(g, before, x0 as int, y0 as int, x1 as int, y1 as int);
            }
            self.draw_line(x0, y0, x1, y1, key);
            proof {
                let n = line_steps(x0 as int, y0 as int, x1 as int, y1 as int) + 1;
                assert forall|i: int| 0 <= i < g.pixels@.len() implies self.pixels@[i] == if g.polyline_covers(
                    pts@, s as int, i) { clamp_key(key) } else { g.pixels@[i] } by {
                    assert(g.segment_covers(pts@, s - 1, i) == g.line_covers(x0 as int, y0 as int, x1 as int, y1 as int, n, i));
                    if g.polyline_covers(pts@, s - 1, i) {
                        let w = choose|w: int| 0 <= w < s - 1 && #[trigger] g.segment_covers(pts@, w, i);
                        assert(g.polyline_covers(pts@, s as int, i));
                    }
                    if g.segment_covers(pts@, s - 1, i) {
                        assert(g.polyline_covers(pts@, s as int, i));
                    }
                    if g.polyline_covers(pts@, s as int, i) && !g.segment_covers(pts@, s - 1, i) {
                        let w = choose|w: int| 0 <= w < s && #[trigger] g.segment_covers(pts@, w, i);
                        assert(g.polyline_covers(pts@, s - 1, i));
                    }
                }
            }
            s = s + 1;
        }
        proof {
            if pts@.len() == 0 {
                assert forall|i: int| !g.polyline_covers(pts@, -1, i) && !g.polyline_covers(pts@, 0, i) by {}
            }
        }
    }

}

/// A stored key never exceeds `MAX_KEY`, and a key within it is stored as is.
pub proof fn lemma_clamp_key(v: u32)
    ensures
        clamp_key(v) <= MAX_KEY,
        v <= MAX_KEY ==> clamp_key(v) == v,
{
}

/// The line starts at `(x0, y0)` and ends at `(x1, y1)`.
pub proof fn lemma_line_endpoints(x0: int, y0: int, x1: int, y1: int)
    ensures
        line_point(x0, y0, x1, y1, 0) == (x0, y0),
        line_point(x0, y0, x1, y1, line_steps(x0, y0, x1, y1)) == (x1, y1),
{
    let adx = abs_diff(x0, x1);
    let ady = abs_diff(y0, y1);
    assert(2 * 0 * ady == 0 && 2 * 0 * adx == 0) by (nonlinear_arith);
    assert(0 * (2 * adx) == 0 && 0 * (2 * ady) == 0) by (nonlinear_arith);
    if adx >= ady && adx > 0 {
        vstd::arithmetic::div_mod::lemma_fundamental_div_mod_converse(adx, 2 * adx, 0, adx);
    } else if adx < ady {
        vstd::arithmetic::div_mod::lemma_fundamental_div_mod_converse(ady, 2 * ady, 0, ady);
    }
    lemma_line_ends_at_target(x0, y0, x1, y1, line_steps(x0, y0, x1, y1));
}

/// The rounded offset along the shorter extent grows by zero or one per
/// step and stays within that extent.
proof fn lemma_offset_step(k: int, minor: int, major: int)
    requires
        major > 0,
        0 <= minor <= major,
        0 <= k < major,
    ensures
        0 <= (2 * k * minor + major) / (2 * major),
        (2 * k * minor + major) / (2 * major) <= (2 * (k + 1) * minor + major) / (2 * major),
        (2 * (k + 1) * minor + major) / (2 * major) <= (2 * k * minor + major) / (2 * major) + 1,
        (2 * (k + 1) * minor + major) / (2 * major) <= minor,
{
    let a = 2 * k * minor + major;
    let b = 2 * (k + 1) * minor + major;
    let c = 2 * major;
    assert(b == a + 2 * minor) by (nonlinear_arith)
        requires
            a == 2 * k * minor + major,
            b == 2 * (k + 1) * minor + major,
    ;
    assert(0 <= a) by (nonlinear_arith)
        requires
            0 <= k,
            0 <= minor,
            major > 0,
            a == 2 * k * minor + major,
    ;
    assert(b <= 2 * major * minor + major) by (nonlinear_arith)
        requires
            k + 1 <= major,
            0 <= minor,
            b == 2 * (k + 1) * minor + major,
    ;
    vstd::arithmetic::div_mod::lemma_fundamental_div_mod(a, c);
    vstd::arithmetic::div_mod::lemma_fundamental_div_mod(b, c);
    let qa = a / c;
    let qb = b / c;
    vstd::arithmetic::div_mod::lemma_div_pos_is_pos(a, c);
    vstd::arithmetic::div_mod::lemma_div_is_ordered(a, b, c);
    vstd::arithmetic::div_mod::lemma_div_is_ordered(b, 2 * major * minor + major, c);
    assert(2 * major * minor + major == minor * c + major) by (nonlinear_arith)
        requires
            c == 2 * major,
    ;
    vstd::arithmetic::div_mod::lemma_fundamental_div_mod_converse(2 * major * minor + major, c, minor, major);
    assert(qb <= qa + 1) by (nonlinear_arith)
        requires
            a == c * qa + a % c,
            b == c * qb + b % c,
            0 <= a % c < c,
            0 <= b % c < c,
            b == a + 2 * minor,
            2 * minor <= c,
    ;
}

/// Consecutive points of the line are neighbours: each step moves exactly
/// one along the longer extent and at most one along the shorter, always
/// toward the target.
pub proof fn lemma_line_step(x0: int, y0: int, x1: int, y1: int, k: int)
    requires
        0 <= k < line_steps(x0, y0, x1, y1),
    ensures
        ({
            let p = line_point(x0, y0, x1, y1, k);
            let q = line_point(x0, y0, x1, y1, k + 1);
            &&& abs_diff(p.0, q.0) <= 1
            &&& abs_diff(p.1, q.1) <= 1
            &&& abs_diff(p.0, q.0) + abs_diff(p.1, q.1) >= 1
            &&& abs_diff(q.0, x1) <= abs_diff(p.0, x1)
            &&& abs_diff(q.1, y1) <= abs_diff(p.1, y1)
        }),
{
    let adx = abs_diff(x0, x1);
    let ady = abs_diff(y0, y1);
    if adx >= ady {
        lemma_offset_step(k, ady, adx);
    } else {
        lemma_offset_step(k, adx, ady);
    }
}

/// Every point of the line lies in the rectangle spanned by its endpoints.
pub proof fn lemma_line_in_box(x0: int, y0: int, x1: int, y1: int, k: int)
    requires
        0 <= k <= line_steps(x0, y0, x1, y1),
    ensures
        ({
            let p = line_point(x0, y0, x1, y1, k);
            &&& abs_diff(x0, p.0) + abs_diff(p.0, x1) == abs_diff(x0, x1)
            &&& abs_diff(y0, p.1) + abs_diff(p.1, y1) == abs_diff(y0, y1)
        }),
{
    let adx = abs_diff(x0, x1);
    let ady = abs_diff(y0, y1);
    if adx >= ady {
        if k < adx {
            lemma_offset_step(k, ady, adx);
        } else if adx > 0 {
            lemma_line_ends_at_target(x0, y0, x1, y1, k);
        }
    } else {
        if k < ady {
            lemma_offset_step(k, adx, ady);
        } else {
            lemma_line_ends_at_target(x0, y0, x1, y1, k);
        }
    }
}

/// A line whose endpoints both lie on non-negative rows never reaches a
/// negative row, so it can be drawn on any buffer.
pub proof fn lemma_line_drawable(fb: FrameBuffer, x0: int, y0: int, x1: int, y1: int)
    requires
        y0 >= 0,
        y1 >= 0,
    ensures
        fb.line_drawable(x0, y0, x1, y1),
{
    assert forall|k: int| 0 <= k <= line_steps(x0, y0, x1, y1) implies {
        let p = #[trigger] line_point(x0, y0, x1, y1, k);
        fb.addresses(p.0, p.1) ==> p.1 >= 0
    } by {
        lemma_line_in_box(x0, y0, x1, y1, k);
    }
}

/// Both endpoints of a drawn line get the key when they lie in the grid.
pub proof fn lemma_line_covers_endpoints(fb: FrameBuffer, x0: int, y0: int, x1: int, y1: int)
    ensures
        fb.addresses(x0, y0) && y0 >= 0 ==> fb.line_covers(
            x0, y0, x1, y1, line_steps(x0, y0, x1, y1) + 1, y0 * fb.width + x0),
        fb.addresses(x1, y1) && y1 >= 0 ==> fb.line_covers(
            x0, y0, x1, y1, line_steps(x0, y0, x1, y1) + 1, y1 * fb.width + x1),
{
    lemma_line_endpoints(x0, y0, x1, y1);
    let n = line_steps(x0, y0, x1, y1);
    assert(fb.line_marks(x0, y0, x1, y1, 0, y0 * fb.width + x0) ==> fb.line_covers(x0, y0, x1, y1, n + 1, y0 * fb.width + x0));
    assert(fb.line_marks(x0, y0, x1, y1, n, y1 * fb.width + x1) ==> fb.line_covers(x0, y0, x1, y1, n + 1, y1 * fb.width + x1));
}

/// On a grid within `isize` reach, a drawn line covers the pixel at
/// `(x, y)` exactly when `(x, y)` is one of its first `n` points.
pub proof fn lemma_line_covers_pixel(fb: FrameBuffer, x0: int, y0: int, x1: int, y1: int, n: int, x: int, y: int)
    requires
        fb.width <= isize::MAX,
        fb.height <= isize::MAX,
        fb.in_bounds(x, y),
    ensures
        fb.line_covers(x0, y0, x1, y1, n, y * fb.width + x) <==> exists|k: int|
            0 <= k < n && #[trigger] line_point(x0, y0, x1, y1, k) == (x, y),
{
    lemma_cast_below(fb.width);
    lemma_cast_below(fb.height);
    let w = fb.width as int;
    let h = fb.height as int;
    if fb.line_covers(x0, y0, x1, y1, n, y * w + x) {
        let k = choose|k: int| 0 <= k < n && #[trigger] fb.line_marks(x0, y0, x1, y1, k, y * w + x);
        let p = line_point(x0, y0, x1, y1, k);
        if p.1 < 0 {
            assert(p.1 * w + p.0 < 0) by (nonlinear_arith)
                requires
                    p.1 < 0,
                    0 <= p.0 < w,
            ;
            assert(0 <= y * w) by (nonlinear_arith)
                requires
                    0 <= y,
                    0 <= w,
            ;
        } else {
            lemma_grid_index_unique(p.0, p.1, x, y, w, h);
        }
    }
    if exists|k: int| 0 <= k < n && #[trigger] line_point(x0, y0, x1, y1, k) == (x, y) {
        let k = choose|k: int| 0 <= k < n && #[trigger] line_point(x0, y0, x1, y1, k) == (x, y);
        assert(fb.line_marks(x0, y0, x1, y1, k, y * w + x));
    }
}

/// A pixel in the grid (within `isize` reach) is addressed by its coordinates.
pub proof fn lemma_addresses_in_bounds(fb: FrameBuffer, x: int, y: int)
    requires
        fb.width <= isize::MAX,
        fb.height <= isize::MAX,
    ensures
        fb.addresses(x, y) && y >= 0 <==> fb.in_bounds(x, y),
{
    lemma_cast_below(fb.width);
    lemma_cast_below(fb.height);
}

/// Which storage indices a line covers depends only on the buffer's size.
proof fn lemma_covers_same_size(a: FrameBuffer, b: FrameBuffer, x0: int, y0: int, x1: int, y1: int)
    requires
        a.width == b.width,
        a.height == b.height,
    ensures
        forall|n: int, i: int| a.line_covers(x0, y0, x1, y1, n, i) == b.line_covers(x0, y0, x1, y1, n, i),
        a.line_drawable(x0, y0, x1, y1) == b.line_drawable(x0, y0, x1, y1),
{
    assert forall|n: int, i: int| a.line_covers(x0, y0, x1, y1, n, i) == b.line_covers(x0, y0, x1, y1, n, i) by {
        if a.line_covers(x0, y0, x1, y1, n, i) {
            let k = choose|k: int| 0 <= k < n && #[trigger] a.line_marks(x0, y0, x1, y1, k, i);
            assert(b.line_marks(x0, y0, x1, y1, k, i));
        }
        if b.line_covers(x0, y0, x1, y1, n, i) {
            let k = choose|k: int| 0 <= k < n && #[trigger] b.line_marks(x0, y0, x1, y1, k, i);
            assert(a.line_marks(x0, y0, x1, y1, k, i));
        }
    }
}

/// The rounded proportional offset of the shorter extent: when
/// `k * minor - q * major` lies within half a `major` of zero (the lower
/// bound included), `q` is the quotient the line's definition uses.
proof fn lemma_rounded_offset(k: int, minor: int, major: int, q: int)
    requires
        major > 0,
        -major <= 2 * (k * minor - q * major) < major,
    ensures
        q == (2 * k * minor + major) / (2 * major),
{
    let r = 2 * (k * minor - q * major) + major;
    assert(2 * k * minor + major == q * (2 * major) + r) by (nonlinear_arith)
        requires
            r == 2 * (k * minor - q * major) + major,
    ;
    vstd::arithmetic::div_mod::lemma_fundamental_div_mod_converse(
        2 * k * minor + major,
        2 * major,
        q,
        r,
    );
}

/// After `k` iterations of the stepping loop, with `i` and `j` steps taken
/// along x and y and `d == i * ady - j * adx`, the pen stands on point `k`
/// of the line.
proof fn lemma_line_point_from_progress(x0: int, y0: int, x1: int, y1: int, k: int, i: int, j: int, d: int)
    requires
        0 <= i <= abs_diff(x0, x1),
        0 <= j <= abs_diff(y0, y1),
        d == i * abs_diff(y0, y1) - j * abs_diff(x0, x1),
        abs_diff(x0, x1) >= abs_diff(y0, y1) ==> i == k && (abs_diff(x0, x1) > 0 ==> -abs_diff(x0, x1) <= 2 * d < abs_diff(x0, x1)),
        abs_diff(x0, x1) < abs_diff(y0, y1) ==> j == k && -abs_diff(y0, y1) < 2 * d <= abs_diff(y0, y1),
    ensures
        line_point(x0, y0, x1, y1, k) == (toward(x0, x1, i), toward(y0, y1, j)),
{
    let adx = abs_diff(x0, x1);
    let ady = abs_diff(y0, y1);
    if adx >= ady {
        if adx > 0 {
            lemma_rounded_offset(k, ady, adx, j);
        }
    } else {
        assert(-ady <= 2 * (k * adx - i * ady) < ady);
        lemma_rounded_offset(k, adx, ady, i);
    }
}

/// The line reaches `(x1, y1)` at its last point and not before.
proof fn lemma_line_ends_at_target(x0: int, y0: int, x1: int, y1: int, k: int)
    requires
        0 <= k <= line_steps(x0, y0, x1, y1),
    ensures
        line_point(x0, y0, x1, y1, k) == (x1, y1) <==> k == line_steps(x0, y0, x1, y1),
{
    let adx = abs_diff(x0, x1);
    let ady = abs_diff(y0, y1);
    if adx >= ady {
        if adx > 0 {
            assert(2 * adx * ady + adx == ady * (2 * adx) + adx) by (nonlinear_arith);
            vstd::arithmetic::div_mod::lemma_fundamental_div_mod_converse(
                2 * adx * ady + adx,
                2 * adx,
                ady,
                adx,
            );
        }
    } else {
        assert(2 * ady * adx + ady == adx * (2 * ady) + ady) by (nonlinear_arith);
        vstd::arithmetic::div_mod::lemma_fundamental_div_mod_converse(
            2 * ady * adx + ady,
            2 * ady,
            adx,
            ady,
        );
    }
}

/// One iteration of the stepping loop before the target: along the longer
/// extent the pen always moves, and it never moves past the target along
/// either axis.
proof fn lemma_bresenham_step(adx: int, ady: int, i: int, j: int, k: int, d: int)
    requires
        0 <= i <= adx,
        0 <= j <= ady,
        d == i * ady - j * adx,
        adx >= ady ==> i == k && (adx > 0 ==> -adx <= 2 * d < adx),
        adx < ady ==> j == k && -ady < 2 * d <= ady,
        k < (if adx >= ady { adx } else { ady }),
    ensures
        adx >= ady ==> 2 * (adx - ady - d) >= -ady,
        adx < ady ==> 2 * (adx - ady - d) <= adx,
        2 * (adx - ady - d) >= -ady ==> i < adx,
        2 * (adx - ady - d) <= adx ==> j < ady,
        (i + 1) * ady == i * ady + ady,
        (j + 1) * adx == j * adx + adx,
{
    assert((i + 1) * ady == i * ady + ady) by (nonlinear_arith);
    assert((j + 1) * adx == j * adx + adx) by (nonlinear_arith);
    if i == adx && 2 * (adx - ady - d) >= -ady {
        // then j < ady, so d == adx * (ady - j) >= adx
        assert(adx * ady - j * adx == adx * (ady - j)) by (nonlinear_arith);
        if j < ady {
            assert(adx * (ady - j) >= adx) by (nonlinear_arith)
                requires
                    j < ady,
                    adx >= 0,
            ;
        }
    }
    if j == ady && 2 * (adx - ady - d) <= adx {
        assert(i * ady - ady * adx == -(ady * (adx - i))) by (nonlinear_arith);
        if i < adx {
            assert(ady * (adx - i) >= ady) by (nonlinear_arith)
                requires
                    i < adx,
                    ady >= 0,
            ;
        }
    }
}

/// Distinct positions of a grid have distinct row-major indices.
pub proof fn lemma_grid_index_unique(x1: int, y1: int, x2: int, y2: int, w: int, h: int)
    requires
        0 <= x1 < w,
        0 <= y1 < h,
        0 <= x2 < w,
        0 <= y2 < h,
    ensures
        y1 * w + x1 == y2 * w + x2 <==> x1 == x2 && y1 == y2,
{
    if y1 * w + x1 == y2 * w + x2 && y1 != y2 {
        assert((y1 - y2) * w == x2 - x1) by (nonlinear_arith)
            requires
                y1 * w + x1 == y2 * w + x2,
        ;
        if y1 > y2 {
            assert((y1 - y2) * w >= w) by (nonlinear_arith)
                requires
                    y1 - y2 >= 1,
                    w > 0,
            ;
        } else {
            assert((y2 - y1) * w >= w) by (nonlinear_arith)
                requires
                    y2 - y1 >= 1,
                    w > 0,
            ;
            assert((y1 - y2) * w == -((y2 - y1) * w)) by (nonlinear_arith);
        }
    }
}

/// A size converted to `isize` never exceeds the size itself, and stays
/// equal to it when it fits.
proof fn lemma_cast_below(n: usize)
    ensures
        (n as isize) as int <= n as int,
        n as int <= isize::MAX ==> (n as isize) as int == n as int,
{
    assert(((n as isize) as usize) == n) by (bit_vector);
}

/// The row-major index of a grid position lies inside the grid's storage.
pub proof fn lemma_index_in_grid(x: int, y: int, w: int, h: int)
    requires
        0 <= x < w,
        0 <= y < h,
    ensures
        0 <= y * w + x < w * h,
        y * w + x <= y * w + w,
{
    assert(y * w + x < w * h) by (nonlinear_arith)
        requires
            0 <= x < w,
            0 <= y < h,
    ;
    assert(0 <= y * w) by (nonlinear_arith)
        requires
            0 <= x < w,
            0 <= y,
    ;
}

} // verus!
