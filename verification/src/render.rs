//! Terminal cells and the rendering of the frame buffer into them.
use vstd::prelude::*;
use crate::framebuffer::FrameBuffer;
use crate::palette::Rgb;

verus! {

/// The key of brightness 0.01: a sub-pixel glows only above it.
pub const LIT_KEY: u32 = 0x3C23_D70A;

/// One character cell of the terminal and its foreground colour.
#[derive(Copy, Clone, Debug, PartialEq, Eq, Structural)]
pub struct TermCell {
    pub ch: char,
    pub fg: Rgb,
}

impl Default for TermCell {
    /// A blank cell: a space in black.
    fn default() -> (c: TermCell)
        ensures
            c == blank_cell(),
    {
        TermCell { ch: ' ', fg: Rgb(0, 0, 0) }
    }
}

/// A space in black.
pub open spec fn blank_cell() -> TermCell {
    TermCell { ch: ' ', fg: Rgb(0, 0, 0) }
}

/// A `width` by `height` grid of terminal cells, stored row by row.
pub struct TerminalBuffer {
    pub width: usize,
    pub height: usize,
    pub cells: Vec<TermCell>,
}

/// The braille dot bit of sub-pixel `(dx, dy)` of a cell (two columns,
/// four rows): dots 1-3 and 7 down the left column, 4-6 and 8 down the right.
pub open spec fn dot_bit(dx: int, dy: int) -> u32 {
    if dx == 0 {
        if dy == 0 { 0x01 } else if dy == 1 { 0x02 } else if dy == 2 { 0x04 } else { 0x40 }
    } else {
        if dy == 0 { 0x08 } else if dy == 1 { 0x10 } else if dy == 2 { 0x20 } else { 0x80 }
    }
}

/// Whether pixel `(px, py)` lies in the frame buffer and glows.
pub open spec fn lit(fb: FrameBuffer, px: int, py: int) -> bool {
    px < fb.width && py < fb.height && fb.pixel(px, py) > LIT_KEY
}

/// Whether dot `m` (row `m / 2`, column `m % 2`) of cell `(tx, ty)` glows.
pub open spec fn dot_lit(fb: FrameBuffer, tx: int, ty: int, m: int) -> bool {
    lit(fb, 2 * tx + m % 2, 4 * ty + m / 2)
}

/// The key of dot `m` of cell `(tx, ty)`.
pub open spec fn dot_key(fb: FrameBuffer, tx: int, ty: int, m: int) -> u32 {
    fb.pixel(2 * tx + m % 2, 4 * ty + m / 2)
}

/// The braille bits of the first `n` dots of cell `(tx, ty)`, taken row by row.
pub open spec fn cell_bits(fb: FrameBuffer, tx: int, ty: int, n: int) -> u32
    decreases n,
{
    if n <= 0 {
        0
    } else {
        let rest = cell_bits(fb, tx, ty, n - 1);
        if dot_lit(fb, tx, ty, n - 1) { rest | dot_bit((n - 1) % 2, (n - 1) / 2) } else { rest }
    }
}

/// The brightest key among the glowing first `n` dots of cell `(tx, ty)`, or 0.
pub open spec fn cell_peak(fb: FrameBuffer, tx: int, ty: int, n: int) -> u32
    decreases n,
{
    if n <= 0 {
        0
    } else {
        let rest = cell_peak(fb, tx, ty, n - 1);
        let v = dot_key(fb, tx, ty, n - 1);
        if dot_lit(fb, tx, ty, n - 1) && v > rest { v } else { rest }
    }
}

/// The character of a cell whose glowing dots are `bits`: a space when no
/// dot glows, else the braille pattern U+2800 + `bits`.
pub open spec fn braille_char(bits: u32) -> char {
    if bits == 0 { ' ' } else { (0x2800 + bits) as char }
}

/// The sub-pixel arithmetic of `render_braille` fits in `usize`.
pub open spec fn braille_fits(tb: TerminalBuffer) -> bool {
    tb.width > 0 && tb.height > 0 ==> 2 * tb.width <= usize::MAX + 1 && 4 * tb.height <= usize::MAX + 1
}

/// Whether `(c, r)` lies in the `bw` by `bh` rectangle at `(bx, by)`.
pub open spec fn in_rect(bx: int, by: int, bw: int, bh: int, c: int, r: int) -> bool {
    bx <= c < bx + bw && by <= r < by + bh
}

/// The character of cell `(c, r)` of a box drawn on the rectangle at
/// `(bx, by)`: line-drawing corners and edges around a blank inside.
pub open spec fn box_char(bx: int, by: int, bw: int, bh: int, c: int, r: int) -> char {
    let right = bx + bw - 1;
    let bottom = by + bh - 1;
    if r == by {
        if c == bx { '\u{250C}' } else if c == right { '\u{2510}' } else { '\u{2500}' }
    } else if r == bottom {
        if c == bx { '\u{2514}' } else if c == right { '\u{2518}' } else { '\u{2500}' }
    } else if c == bx || c == right {
        '\u{2502}'
    } else {
        ' '
    }
}

/// The character of the box cell in column `c` of row `r`.
fn box_char_at(bx: usize, by: usize, bw: usize, bh: usize, c: usize, r: usize) -> (ch: char)
    requires
        bx <= c < bx + bw,
        by <= r < by + bh,
        bx + bw <= usize::MAX,
        by + bh <= usize::MAX,
    ensures
        ch == box_char(bx as int, by as int, bw as int, bh as int, c as int, r as int),
{
    let right = bx + bw - 1;
    let bottom = by + bh - 1;
    if r == by {
        if c == bx { '\u{250C}' } else if c == right { '\u{2510}' } else { '\u{2500}' }
    } else if r == bottom {
        if c == bx { '\u{2514}' } else if c == right { '\u{2518}' } else { '\u{2500}' }
    } else if c == bx || c == right {
        '\u{2502}'
    } else {
        ' '
    }
}

/// The row-major index of position `p` in a grid `w` cells wide.
pub open spec fn pos_index(p: (usize, usize), w: int) -> int {
    p.1 * w + p.0
}

/// `list` names, in increasing index order, exactly the positions below
/// index `limit` of a grid `w` cells wide where `cur` and `prev` differ.
pub open spec fn lists_changes(
    cur: Seq<TermCell>,
    prev: Seq<TermCell>,
    w: int,
    limit: int,
    list: Seq<(usize, usize)>,
) -> bool {
    &&& forall|k: int|
        0 <= k < list.len() ==> {
            &&& (#[trigger] list[k]).0 < w
            &&& 0 <= pos_index(list[k], w) < limit
            &&& cur[pos_index(list[k], w)] != prev[pos_index(list[k], w)]
        }
    &&& forall|k1: int, k2: int|
        0 <= k1 < k2 < list.len() ==> pos_index(#[trigger] list[k1], w) < pos_index(#[trigger] list[k2], w)
    &&& forall|n: int|
        0 <= n < limit && #[trigger] cur[n] != prev[n] ==> exists|k: int|
            0 <= k < list.len() && pos_index(#[trigger] list[k], w) == n
}

/// `char::from_u32`: the character with the given scalar value, or `None`
/// when the value is a surrogate or lies above U+10FFFF (as its
/// documentation states).
#[verifier::external_body]
fn char_from_u32(v: u32) -> (c: Option<char>)
    ensures
        (v <= 0xD7FF || 0xE000 <= v <= 0x10FFFF) ==> c == Some(v as char),
        !(v <= 0xD7FF || 0xE000 <= v <= 0x10FFFF) ==> c is None,
{
    char::from_u32(v)
}

/// The braille bit of sub-pixel `(dx, dy)`.
fn dot_bit_of(dx: usize, dy: usize) -> (b: u32)
    requires
        dx < 2,
        dy < 4,
    ensures
        b == dot_bit(dx as int, dy as int),
{
    if dx == 0 {
        if dy == 0 { 0x01 } else if dy == 1 { 0x02 } else if dy == 2 { 0x04 } else { 0x40 }
    } else {
        if dy == 0 { 0x08 } else if dy == 1 { 0x10 } else if dy == 2 { 0x20 } else { 0x80 }
    }
}

/// The dot bits and the peak key of cell `(tx, ty)`.
fn scan_cell(fb: &FrameBuffer, tx: usize, ty: usize) -> (r: (u32, u32))
    requires
        fb.wf(),
        2 * tx + 1 <= usize::MAX,
        4 * ty + 3 <= usize::MAX,
    ensures
        r.0 == cell_bits(*fb, tx as int, ty as int, 8),
        r.1 == cell_peak(*fb, tx as int, ty as int, 8),
        r.0 < 0x100,
{
    let mut braille_bits: u32 = 0;
    let mut max_key: u32 = 0;
    for dy in 0..4usize
        invariant
            fb.wf(),
            2 * tx + 1 <= usize::MAX,
            4 * ty + 3 <= usize::MAX,
            braille_bits == cell_bits(*fb, tx as int, ty as int, 2 * dy),
            max_key == cell_peak(*fb, tx as int, ty as int, 2 * dy),
            braille_bits < 0x100,
    {
        for dx in 0..2usize
            invariant
                fb.wf(),
                dy < 4,
                2 * tx + 1 <= usize::MAX,
                4 * ty + 3 <= usize::MAX,
                braille_bits == cell_bits(*fb, tx as int, ty as int, 2 * dy + dx),
                max_key == cell_peak(*fb, tx as int, ty as int, 2 * dy + dx),
                braille_bits < 0x100,
        {
            let px = tx * 2 + dx;
            let py = ty * 4 + dy;
            let ghost m: int = 2 * dy + dx;
            assert(m % 2 == dx && m / 2 == dy);
            if px < fb.width && py < fb.height {
                proof {
                    crate::framebuffer::lemma_index_in_grid(px as int, py as int, fb.width as int, fb.height as int);
                }
                assert(py * fb.width + px < fb.pixels.len());
                let key = fb.pixels[py * fb.width + px];
                if key > LIT_KEY {
                    let bit = dot_bit_of(dx, dy);
                    assert(braille_bits < 0x100 && bit < 0x100 ==> (braille_bits | bit) < 0x100) by (bit_vector);
                    braille_bits = braille_bits | bit;
                    if key > max_key {
                        max_key = key;
                    }
                }
            }
        }
    }
    (braille_bits, max_key)
}

impl TerminalBuffer {
    /// The cell vector has one entry per grid position.
    pub open spec fn wf(&self) -> bool {
        self.cells@.len() == self.width * self.height
    }

    /// The cell at column `x` of row `y`.
    pub open spec fn cell(&self, x: int, y: int) -> TermCell {
        self.cells@[y * self.width + x]
    }

    /// A grid of blank cells.
    pub fn new(width: usize, height: usize) -> (tb: TerminalBuffer)
        requires
            width * height <= usize::MAX,
        ensures
            tb.width == width,
            tb.height == height,
            tb.wf(),
            forall|i: int| 0 <= i < tb.cells@.len() ==> tb.cells@[i] == blank_cell(),
    {
        TerminalBuffer { width, height, cells: vec![TermCell::default(); width * height] }
    }

    /// Renders the frame buffer in braille: cell `(tx, ty)` covers the two
    /// by four sub-pixels from `(2 tx, 4 ty)`; its character shows the dots
    /// that glow, and its colour is what `color_of` gives for the brightest
    /// glowing dot's key (0 when none glows).
    pub fn render_braille<F: Fn(u32) -> Rgb>(&mut self, fb: &FrameBuffer, color_of: F)
        requires
            old(self).wf(),
            fb.wf(),
            braille_fits(*old(self)),
            forall|k: u32| color_of.requires((k,)),
        ensures
            final(self).width == old(self).width,
            final(self).height == old(self).height,
            final(self).wf(),
            forall|tx: int, ty: int|
                0 <= tx < final(self).width && 0 <= ty < final(self).height ==> {
                    &&& (#[trigger] final(self).cell(tx, ty)).ch == braille_char(cell_bits(*fb, tx, ty, 8))
                    &&& color_of.ensures((cell_peak(*fb, tx, ty, 8),), final(self).cell(tx, ty).fg)
                },
    {
        let width = self.width;
        let height = self.height;
        for ty in 0..height
            invariant
                self.width == width,
                self.height == height,
                self.wf(),
                fb.wf(),
                braille_fits(*self),
                forall|k: u32| color_of.requires((k,)),
                forall|cx: int, cy: int|
                    0 <= cx < width && 0 <= cy < ty ==> {
                        &&& (#[trigger] self.cell(cx, cy)).ch == braille_char(cell_bits(*fb, cx, cy, 8))
                        &&& color_of.ensures((cell_peak(*fb, cx, cy, 8),), self.cell(cx, cy).fg)
                    },
        {
            for tx in 0..width
                invariant
                    self.width == width,
                    self.height == height,
                    0 <= ty < height,
                    self.wf(),
                    fb.wf(),
                    braille_fits(*self),
                    forall|k: u32| color_of.requires((k,)),
                    forall|cx: int, cy: int|
                        0 <= cx < width && 0 <= cy < ty ==> {
                            &&& (#[trigger] self.cell(cx, cy)).ch == braille_char(cell_bits(*fb, cx, cy, 8))
                            &&& color_of.ensures((cell_peak(*fb, cx, cy, 8),), self.cell(cx, cy).fg)
                        },
                    forall|cx: int|
                        0 <= cx < tx ==> {
                            &&& (#[trigger] self.cell(cx, ty as int)).ch == braille_char(cell_bits(*fb, cx, ty as int, 8))
                            &&& color_of.ensures((cell_peak(*fb, cx, ty as int, 8),), self.cell(cx, ty as int).fg)
                        },
            {
                let (braille_bits, max_key) = scan_cell(fb, tx, ty);
                let ch = if braille_bits == 0 {
                    ' '
                } else {
                    match char_from_u32(0x2800 + braille_bits) {
                        Some(c) => c,
                        None => ' ',
                    }
                };
                let fg = color_of(max_key);
                proof {
                    crate::framebuffer::lemma_index_in_grid(tx as int, ty as int, width as int, height as int);
                }
                assert(ty * self.width + tx < self.cells.len());
                let idx = ty * self.width + tx;
                let ghost old_tb = *self;
                self.cells.set(idx, TermCell { ch, fg });
                proof {
                    assert forall|cx: int, cy: int|
                        0 <= cx < width && 0 <= cy < height && (cx, cy) != (tx as int, ty as int) implies
                        #[trigger] self.cell(cx, cy) == old_tb.cell(cx, cy) by {
                        crate::framebuffer::lemma_grid_index_unique(cx, cy, tx as int, ty as int, width as int, height as int);
                        crate::framebuffer::lemma_index_in_grid(cx, cy, width as int, height as int);
                    }
                    assert(self.cell(tx as int, ty as int) == TermCell { ch, fg });
                    assert(ch == braille_char(cell_bits(*fb, tx as int, ty as int, 8)));
                    assert forall|cx: int, cy: int|
                        0 <= cx < width && 0 <= cy < ty implies {
                            &&& (#[trigger] self.cell(cx, cy)).ch == braille_char(cell_bits(*fb, cx, cy, 8))
                            &&& color_of.ensures((cell_peak(*fb, cx, cy, 8),), self.cell(cx, cy).fg)
                        } by {
                        assert(self.cell(cx, cy) == old_tb.cell(cx, cy));
                    }
                    assert forall|cx: int|
                        0 <= cx < tx + 1 implies {
                            &&& (#[trigger] self.cell(cx, ty as int)).ch == braille_char(cell_bits(*fb, cx, ty as int, 8))
                            &&& color_of.ensures((cell_peak(*fb, cx, ty as int, 8),), self.cell(cx, ty as int).fg)
                        } by {
                        if cx < tx {
                            assert(self.cell(cx, ty as int) == old_tb.cell(cx, ty as int));
                        }
                    }
                }
            }
        }
    }

    /// Writes `text` from column `x` of row `y`, one character per cell in
    /// `color`; what falls outside the grid is cut off.
    pub fn draw_text(&mut self, x: usize, y: usize, text: &str, color: Rgb)
        requires
            old(self).wf(),
        ensures
            final(self).width == old(self).width,
            final(self).height == old(self).height,
            final(self).wf(),
            forall|cx: int, cy: int|
                0 <= cx < old(self).width && 0 <= cy < old(self).height ==> #[trigger] final(self).cell(cx, cy)
                    == if cy == y && x <= cx < x + text@.len() {
                    TermCell { ch: text@[cx - x], fg: color }
                } else {
                    old(self).cell(cx, cy)
                },
    {
        let ghost start = *self;
        let width = self.width;
        let height = self.height;
        if y < height && x < width {
            let len = text.unicode_len();
            let mut i: usize = 0;
            while i < len && i < width - x
                invariant
                    x < width,
                    i <= width - x,
                    self.width == width,
                    self.height == height,
                    start.width == width,
                    start.height == height,
                    self.wf(),
                    y < height,
                    len == text@.len(),
                    i <= len,
                    forall|cx: int, cy: int|
                        0 <= cx < width && 0 <= cy < height ==> #[trigger] self.cell(cx, cy)
                            == if cy == y && x <= cx < x + i {
                            TermCell { ch: text@[cx - x], fg: color }
                        } else {
                            start.cell(cx, cy)
                        },
                decreases len - i,
            {
                let col = x + i;
                let ch = text.get_char(i);
                proof {
                    crate::framebuffer::lemma_index_in_grid(col as int, y as int, width as int, height as int);
                }
                assert(y * width + col < self.cells.len());
                let idx = y * width + col;
                let ghost before = *self;
                self.cells.set(idx, TermCell { ch, fg: color });
                proof {
                    assert forall|cx: int, cy: int|
                        0 <= cx < width && 0 <= cy < height && (cx, cy) != (col as int, y as int) implies
                        #[trigger] self.cell(cx, cy) == before.cell(cx, cy) by {
                        crate::framebuffer::lemma_grid_index_unique(cx, cy, col as int, y as int, width as int, height as int);
                        crate::framebuffer::lemma_index_in_grid(cx, cy, width as int, height as int);
                    }
                }
                i = i + 1;
            }
        }
    }

    /// Draws a `w` by `h` box with its top-left corner at `(x, y)` in
    /// `color`, clearing its inside, and writes `title` into its top edge
    /// from the third column; what falls outside the grid is cut off.
    pub fn draw_box(&mut self, x: usize, y: usize, w: usize, h: usize, title: &str, color: Rgb)
        requires
            old(self).wf(),
            x + w <= usize::MAX,
            y + h <= usize::MAX,
            x + 2 <= usize::MAX,
        ensures
            final(self).width == old(self).width,
            final(self).height == old(self).height,
            final(self).wf(),
            forall|cx: int, cy: int|
                0 <= cx < old(self).width && 0 <= cy < old(self).height ==> #[trigger] final(self).cell(cx, cy)
                    == if cy == y && x + 2 <= cx < x + 2 + title@.len() {
                    TermCell { ch: title@[cx - x - 2], fg: color }
                } else if in_rect(x as int, y as int, w as int, h as int, cx, cy) {
                    TermCell { ch: box_char(x as int, y as int, w as int, h as int, cx, cy), fg: color }
                } else {
                    old(self).cell(cx, cy)
                },
    {
        let ghost start = *self;
        let width = self.width;
        let height = self.height;
        let right = if x + w < width { x + w } else { width };
        let bottom = if y + h < height { y + h } else { height };
        let mut r = y;
        while r < bottom
            invariant
                self.width == width,
                self.height == height,
                start.width == width,
                start.height == height,
                self.wf(),
                right == (if x + w < width { x + w } else { width as int }),
                bottom == (if y + h < height { y + h } else { height as int }),
                y <= r,
                x + w <= usize::MAX,
                y + h <= usize::MAX,
                r <= bottom || r == y,
                forall|cx: int, cy: int|
                    0 <= cx < width && 0 <= cy < height ==> #[trigger] self.cell(cx, cy)
                        == if in_rect(x as int, y as int, w as int, h as int, cx, cy) && cy < r {
                        TermCell { ch: box_char(x as int, y as int, w as int, h as int, cx, cy), fg: color }
                    } else {
                        start.cell(cx, cy)
                    },
            decreases bottom - r,
        {
            let mut c = x;
            while c < right
                invariant
                    self.width == width,
                    self.height == height,
                    start.width == width,
                    start.height == height,
                    self.wf(),
                    right == (if x + w < width { x + w } else { width as int }),
                    bottom == (if y + h < height { y + h } else { height as int }),
                    y <= r < bottom,
                    x + w <= usize::MAX,
                    y + h <= usize::MAX,
                    x <= c,
                    c <= right || c == x,
                    forall|cx: int, cy: int|
                        0 <= cx < width && 0 <= cy < height ==> #[trigger] self.cell(cx, cy)
                            == if in_rect(x as int, y as int, w as int, h as int, cx, cy) && (cy < r || (cy == r && cx < c)) {
                            TermCell { ch: box_char(x as int, y as int, w as int, h as int, cx, cy), fg: color }
                        } else {
                            start.cell(cx, cy)
                        },
                decreases right - c,
            {
                let ch = box_char_at(x, y, w, h, c, r);
                proof {
                    crate::framebuffer::lemma_index_in_grid(c as int, r as int, width as int, height as int);
                }
                assert(r * width + c < self.cells.len());
                let idx = r * width + c;
                let ghost before = *self;
                self.cells.set(idx, TermCell { ch, fg: color });
                proof {
                    assert forall|cx: int, cy: int|
                        0 <= cx < width && 0 <= cy < height && (cx, cy) != (c as int, r as int) implies
                        #[trigger] self.cell(cx, cy) == before.cell(cx, cy) by {
                        crate::framebuffer::lemma_grid_index_unique(cx, cy, c as int, r as int, width as int, height as int);
                        crate::framebuffer::lemma_index_in_grid(cx, cy, width as int, height as int);
                    }
                }
                c = c + 1;
            }
            assert forall|cx: int, cy: int|
                0 <= cx < width && 0 <= cy < height && in_rect(x as int, y as int, w as int, h as int, cx, cy)
                    && cy == r implies cx < c by {
            }
            r = r + 1;
        }
        self.draw_text(x + 2, y, title, color);
    }

    /// Brings `prev` (the screen as last drawn) up to date with this buffer
    /// and returns the `(column, row)` positions whose cells changed, row by
    /// row: the cells a terminal has to redraw.
    pub fn sync_changes(&self, prev: &mut TerminalBuffer) -> (changed: Vec<(usize, usize)>)
        requires
            self.wf(),
            old(prev).wf(),
            old(prev).width == self.width,
            old(prev).height == self.height,
        ensures
            final(prev).width == self.width,
            final(prev).height == self.height,
            final(prev).cells@ == self.cells@,
            lists_changes(self.cells@, old(prev).cells@, self.width as int, self.cells@.len() as int, changed@),
    {
        let ghost old_cells = prev.cells@;
        let width = self.width;
        let height = self.height;
        let mut changed: Vec<(usize, usize)> = Vec::new();
        let mut y: usize = 0;
        while y < height
            invariant
                self.wf(),
                self.width == width,
                self.height == height,
                prev.width == width,
                prev.height == height,
                prev.cells@.len() == old_cells.len(),
                old_cells.len() == width * height,
                y <= height,
                forall|n: int|
                    0 <= n < old_cells.len() ==> #[trigger] prev.cells@[n] == if n < y * width {
                        self.cells@[n]
                    } else {
                        old_cells[n]
                    },
                lists_changes(self.cells@, old_cells, width as int, y * width, changed@),
            decreases height - y,
        {
            let mut x: usize = 0;
            while x < width
                invariant
                    self.wf(),
                    self.width == width,
                    self.height == height,
                    prev.width == width,
                    prev.height == height,
                    prev.cells@.len() == old_cells.len(),
                    old_cells.len() == width * height,
                    y < height,
                    x <= width,
                    forall|n: int|
                        0 <= n < old_cells.len() ==> #[trigger] prev.cells@[n] == if n < y * width + x {
                            self.cells@[n]
                        } else {
                            old_cells[n]
                        },
                    lists_changes(self.cells@, old_cells, width as int, y * width + x, changed@),
                decreases width - x,
            {
                proof {
                    crate::framebuffer::lemma_index_in_grid(x as int, y as int, width as int, height as int);
                }
                assert(y * width + x < self.cells.len());
                let idx = y * width + x;
                let current = self.cells[idx];
                if current != prev.cells[idx] {
                    let ghost before = changed@;
                    changed.push((x, y));
                    prev.cells.set(idx, current);
                    proof {
                        assert(changed@[before.len() as int] == (x, y));
                        assert forall|n: int|
                            0 <= n < idx + 1 && #[trigger] self.cells@[n] != old_cells[n] implies exists|k: int|
                                0 <= k < changed@.len() && pos_index(#[trigger] changed@[k], width as int) == n by {
                            if n < idx {
                                let k = choose|k: int|
                                    0 <= k < before.len() && pos_index(#[trigger] before[k], width as int) == n;
                                assert(changed@[k] == before[k]);
                            } else {
                                assert(pos_index(changed@[before.len() as int], width as int) == n);
                            }
                        }
                    }
                }
                x = x + 1;
            }
            proof {
                assert((y + 1) * width == y * width + width) by (nonlinear_arith);
            }
            y = y + 1;
        }
        proof {
            assert(height * width == width * height) by (nonlinear_arith);
        }
        changed
    }

}

/// The braille bits of eight dot states, combined as the renderer combines
/// them (row by row, left dot first).
pub open spec fn bits_of_dots(b0: bool, b1: bool, b2: bool, b3: bool, b4: bool, b5: bool, b6: bool, b7: bool) -> u32 {
    let v0: u32 = if b0 { 0u32 | 0x01 } else { 0 };
    let v1: u32 = if b1 { v0 | 0x08 } else { v0 };
    let v2: u32 = if b2 { v1 | 0x02 } else { v1 };
    let v3: u32 = if b3 { v2 | 0x10 } else { v2 };
    let v4: u32 = if b4 { v3 | 0x04 } else { v3 };
    let v5: u32 = if b5 { v4 | 0x20 } else { v4 };
    let v6: u32 = if b6 { v5 | 0x40 } else { v5 };
    if b7 { v6 | 0x80 } else { v6 }
}

proof fn lemma_bits_of_dots(b0: bool, b1: bool, b2: bool, b3: bool, b4: bool, b5: bool, b6: bool, b7: bool, v: u32)
    by (bit_vector)
    requires
        v == bits_of_dots(b0, b1, b2, b3, b4, b5, b6, b7),
    ensures
        (v & 0x01 != 0) == b0,
        (v & 0x08 != 0) == b1,
        (v & 0x02 != 0) == b2,
        (v & 0x10 != 0) == b3,
        (v & 0x04 != 0) == b4,
        (v & 0x20 != 0) == b5,
        (v & 0x40 != 0) == b6,
        (v & 0x80 != 0) == b7,
        v < 0x100,
{
}

/// The character of a braille cell shows exactly its glowing dots: the
/// bit of sub-pixel `(dx, dy)` is set just when that sub-pixel glows, and
/// the cell is blank just when none of its eight sub-pixels glows.
pub proof fn lemma_braille_dots(fb: FrameBuffer, tx: int, ty: int)
    ensures
        forall|dx: int, dy: int|
            0 <= dx < 2 && 0 <= dy < 4 ==> (cell_bits(fb, tx, ty, 8) & #[trigger] dot_bit(dx, dy) != 0) == lit(
                fb,
                2 * tx + dx,
                4 * ty + dy,
            ),
        cell_bits(fb, tx, ty, 8) == 0 <==> forall|dx: int, dy: int|
            0 <= dx < 2 && 0 <= dy < 4 ==> !#[trigger] lit(fb, 2 * tx + dx, 4 * ty + dy),
        cell_bits(fb, tx, ty, 8) < 0x100,
{
    reveal_with_fuel(cell_bits, 9);
    let b0 = dot_lit(fb, tx, ty, 0);
    let b1 = dot_lit(fb, tx, ty, 1);
    let b2 = dot_lit(fb, tx, ty, 2);
    let b3 = dot_lit(fb, tx, ty, 3);
    let b4 = dot_lit(fb, tx, ty, 4);
    let b5 = dot_lit(fb, tx, ty, 5);
    let b6 = dot_lit(fb, tx, ty, 6);
    let b7 = dot_lit(fb, tx, ty, 7);
    let v = cell_bits(fb, tx, ty, 8);
    assert(dot_bit(0, 0) == 0x01 && dot_bit(1, 0) == 0x08 && dot_bit(0, 1) == 0x02 && dot_bit(1, 1) == 0x10);
    assert(dot_bit(0, 2) == 0x04 && dot_bit(1, 2) == 0x20 && dot_bit(0, 3) == 0x40 && dot_bit(1, 3) == 0x80);
    assert(cell_bits(fb, tx, ty, 1) == if b0 { 0u32 | 0x01 } else { 0 });
    assert(v == bits_of_dots(b0, b1, b2, b3, b4, b5, b6, b7));
    lemma_bits_of_dots(b0, b1, b2, b3, b4, b5, b6, b7, v);
    assert(b0 == lit(fb, 2 * tx + 0, 4 * ty + 0));
    assert(b1 == lit(fb, 2 * tx + 1, 4 * ty + 0));
    assert(b2 == lit(fb, 2 * tx + 0, 4 * ty + 1));
    assert(b3 == lit(fb, 2 * tx + 1, 4 * ty + 1));
    assert(b4 == lit(fb, 2 * tx + 0, 4 * ty + 2));
    assert(b5 == lit(fb, 2 * tx + 1, 4 * ty + 2));
    assert(b6 == lit(fb, 2 * tx + 0, 4 * ty + 3));
    assert(b7 == lit(fb, 2 * tx + 1, 4 * ty + 3));
    if v == 0 {
        assert forall|dx: int, dy: int| 0 <= dx < 2 && 0 <= dy < 4 implies !#[trigger] lit(fb, 2 * tx + dx, 4 * ty + dy) by {
            let d = dot_bit(dx, dy);
            assert(v & d == 0) by (bit_vector)
                requires
                    v == 0u32,
            ;
        }
    } else {
        assert(v & 0x01 != 0 || v & 0x08 != 0 || v & 0x02 != 0 || v & 0x10 != 0 || v & 0x04 != 0 || v & 0x20 != 0
            || v & 0x40 != 0 || v & 0x80 != 0) by (bit_vector)
            requires
                v != 0u32,
                v < 0x100u32,
        ;
    }
}

/// The colour key of a cell is the brightest key among its glowing dots,
/// or 0 when none glows.
pub proof fn lemma_braille_peak(fb: FrameBuffer, tx: int, ty: int)
    ensures
        forall|m: int| 0 <= m < 8 && #[trigger] dot_lit(fb, tx, ty, m) ==> dot_key(fb, tx, ty, m) <= cell_peak(fb, tx, ty, 8),
        cell_peak(fb, tx, ty, 8) == 0 || exists|m: int|
            0 <= m < 8 && #[trigger] dot_lit(fb, tx, ty, m) && dot_key(fb, tx, ty, m) == cell_peak(fb, tx, ty, 8),
{
    lemma_peak_upto(fb, tx, ty, 8);
}

proof fn lemma_peak_upto(fb: FrameBuffer, tx: int, ty: int, n: int)
    requires
        0 <= n,
    ensures
        forall|m: int| 0 <= m < n && #[trigger] dot_lit(fb, tx, ty, m) ==> dot_key(fb, tx, ty, m) <= cell_peak(fb, tx, ty, n),
        cell_peak(fb, tx, ty, n) == 0 || exists|m: int|
            0 <= m < n && #[trigger] dot_lit(fb, tx, ty, m) && dot_key(fb, tx, ty, m) == cell_peak(fb, tx, ty, n),
    decreases n,
{
    if n > 0 {
        lemma_peak_upto(fb, tx, ty, n - 1);
        if cell_peak(fb, tx, ty, n) != 0 && cell_peak(fb, tx, ty, n) != cell_peak(fb, tx, ty, n - 1) {
            assert(dot_lit(fb, tx, ty, n - 1));
        }
    }
}

/// Once `sync_changes` has brought the previous screen up to date, syncing
/// again finds nothing to redraw.
pub proof fn lemma_sync_settles(cur: Seq<TermCell>, w: int, limit: int, list: Seq<(usize, usize)>)
    requires
        lists_changes(cur, cur, w, limit, list),
    ensures
        list.len() == 0,
{
    if list.len() > 0 {
        assert(list[0].0 < w);
    }
}


/// The braille dot numbering: dots 1, 2, 3 and 7 run down the left column
/// of a cell and dots 4, 5, 6 and 8 down the right, dot `n` being bit `n - 1`.
pub proof fn lemma_dot_bit_table()
    ensures
        dot_bit(0, 0) == 0x01 && dot_bit(0, 1) == 0x02 && dot_bit(0, 2) == 0x04 && dot_bit(0, 3) == 0x40,
        dot_bit(1, 0) == 0x08 && dot_bit(1, 1) == 0x10 && dot_bit(1, 2) == 0x20 && dot_bit(1, 3) == 0x80,
{
}

/// A cell of dot bits `bits` shows the braille character whose code is
/// U+2800 plus `bits`, and a space when no dot is set; different bit
/// patterns give different characters.
pub proof fn lemma_braille_char_code(bits: u32, other: u32)
    requires
        bits < 0x100,
        other < 0x100,
    ensures
        bits == 0 ==> braille_char(bits) == ' ',
        bits != 0 ==> braille_char(bits) as u32 == 0x2800 + bits,
        bits != other ==> braille_char(bits) != braille_char(other),
{
}

/// The character rendered for cell `(tx, ty)` is a space when none of its
/// sub-pixels glows; otherwise its code lies in the braille block and, less
/// U+2800, has the bit of sub-pixel `(dx, dy)` set exactly when that
/// sub-pixel glows.
pub proof fn lemma_braille_cell_char(fb: FrameBuffer, tx: int, ty: int)
    ensures
        ({
            let ch = braille_char(cell_bits(fb, tx, ty, 8));
            &&& (forall|dx: int, dy: int| 0 <= dx < 2 && 0 <= dy < 4 ==> !#[trigger] lit(fb, 2 * tx + dx, 4 * ty + dy))
                ==> ch == ' '
            &&& (exists|dx: int, dy: int| 0 <= dx < 2 && 0 <= dy < 4 && #[trigger] lit(fb, 2 * tx + dx, 4 * ty + dy))
                ==> {
                &&& 0x2800 < (ch as u32) && (ch as u32) < 0x2900
                &&& forall|dx: int, dy: int|
                    0 <= dx < 2 && 0 <= dy < 4 ==> ((((ch as u32) - 0x2800) as u32 & #[trigger] dot_bit(dx, dy))
                        != 0) == lit(fb, 2 * tx + dx, 4 * ty + dy)
            }
        }),
{
    lemma_braille_dots(fb, tx, ty);
    let bits = cell_bits(fb, tx, ty, 8);
    lemma_braille_char_code(bits, 0);
    if bits != 0 {
        assert((((braille_char(bits) as u32) - 0x2800) as u32) == bits);
    }
}

/// Whether a position lies in a box depends only on its offset from the
/// box's corner.
pub proof fn lemma_in_rect_offsets(bx: int, by: int, bw: int, bh: int, c: int, r: int)
    ensures
        in_rect(bx, by, bw, bh, c, r) <==> 0 <= c - bx < bw && 0 <= r - by < bh,
{
}

/// A box of at least two by two cells is a closed frame around its corner
/// `(bx, by)`: the four corners at its first and last column and row,
/// horizontal edges between them on the first and last rows, vertical
/// edges on the first and last columns, and blanks inside; the frame looks
/// the same wherever it is placed.
pub proof fn lemma_box_frame(bx: int, by: int, bw: int, bh: int, c: int, r: int)
    requires
        bw >= 2,
        bh >= 2,
        0 <= c - bx < bw,
        0 <= r - by < bh,
    ensures
        box_char(bx, by, bw, bh, c, r) == box_char(0, 0, bw, bh, c - bx, r - by),
        ({
            let dc = c - bx;
            let dr = r - by;
            let ch = box_char(bx, by, bw, bh, c, r);
            &&& dr == 0 && dc == 0 ==> ch == '\u{250C}'
            &&& dr == 0 && dc == bw - 1 ==> ch == '\u{2510}'
            &&& dr == bh - 1 && dc == 0 ==> ch == '\u{2514}'
            &&& dr == bh - 1 && dc == bw - 1 ==> ch == '\u{2518}'
            &&& (dr == 0 || dr == bh - 1) && 0 < dc < bw - 1 ==> ch == '\u{2500}'
            &&& 0 < dr < bh - 1 && (dc == 0 || dc == bw - 1) ==> ch == '\u{2502}'
            &&& 0 < dr < bh - 1 && 0 < dc < bw - 1 ==> ch == ' '
        }),
{
}

} // verus!
