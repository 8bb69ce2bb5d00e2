//! Glyph encoders and the frame that samples a board through a viewport.

use crate::gol::{lemma_row_col, Board, Grid, Mask, Point};
use vstd::prelude::*;

verus! {

/// A way to pack a small block of cells into one character.
#[derive(Copy, Clone, Debug, PartialEq, Eq, Structural)]
pub enum Charset {
    /// Two columns by four rows, drawn as a braille pattern.
    Braille,
    /// Two by two, drawn with quadrant block elements.
    Block,
    /// One cell, drawn as a blank when alive.
    Blank,
    /// One cell, drawn as the letter `A` when alive.
    Ascii,
}

/// `char::from_u32` of std: the character whose scalar value is `i`, and
/// nothing where `i` is a surrogate or lies past U+10FFFF.
pub assume_specification[ char::from_u32 ](i: u32) -> (c: Option<char>)
    ensures
        c == if i <= 0xD7FF || (0xE000 <= i && i <= 0x10FFFF) {
            Some(i as char)
        } else {
            None::<char>
        },
;

/// `cells`, given row by row at width `w`, read column by column.
pub open spec fn transposed<T>(cells: Seq<T>, w: int, h: int) -> Seq<T> {
    Seq::new(cells.len(), |n: int| cells[(n % h) * w + n / h])
}

/// The number whose binary digit `n` is set exactly when `dots[n]` is.
pub open spec fn dot_mask(dots: Seq<bool>) -> nat
    decreases dots.len(),
{
    if dots.len() == 0 {
        0
    } else {
        2 * dot_mask(dots.skip(1)) + if dots[0] {
            1nat
        } else {
            0nat
        }
    }
}

/// The quadrant glyph for a two by two block, or `bg` when all four are dead.
pub open spec fn block_glyph(tl: bool, tr: bool, bl: bool, br: bool, bg: char) -> char {
    match (tl, tr, bl, br) {
        (true, true, true, true) => '█',
        (true, true, true, false) => '▛',
        (true, true, false, true) => '▜',
        (true, false, true, true) => '▙',
        (false, true, true, true) => '▟',
        (true, true, false, false) => '▀',
        (false, false, true, true) => '▄',
        (false, true, false, true) => '▐',
        (true, false, true, false) => '▌',
        (true, false, false, true) => '▚',
        (false, true, true, false) => '▞',
        (true, false, false, false) => '▘',
        (false, true, false, false) => '▝',
        (false, false, true, false) => '▖',
        (false, false, false, true) => '▗',
        (false, false, false, false) => bg,
    }
}

/// Whether `c` is one of the fifteen quadrant block elements.
pub open spec fn is_quadrant_glyph(c: char) -> bool {
    ||| c == '█'
    ||| c == '▛'
    ||| c == '▜'
    ||| c == '▙'
    ||| c == '▟'
    ||| c == '▀'
    ||| c == '▄'
    ||| c == '▐'
    ||| c == '▌'
    ||| c == '▚'
    ||| c == '▞'
    ||| c == '▘'
    ||| c == '▝'
    ||| c == '▖'
    ||| c == '▗'
}

/// Over the sixteen two by two blocks: the block with nothing alive is
/// drawn as the background, every other block as a quadrant element, no
/// two of them as the same one, and so never as a background that is not
/// itself a quadrant element.
pub proof fn lemma_block_glyphs_distinct(bg: char, a: Seq<bool>, b: Seq<bool>)
    requires
        a.len() == 4,
        b.len() == 4,
    ensures
        !a[0] && !a[1] && !a[2] && !a[3] ==> Charset::Block.glyph(bg, a) == bg,
        a[0] || a[1] || a[2] || a[3] ==> is_quadrant_glyph(Charset::Block.glyph(bg, a)),
        (a[0] || a[1] || a[2] || a[3]) && !is_quadrant_glyph(bg) ==> Charset::Block.glyph(bg, a)
            != bg,
        (a[0] || a[1] || a[2] || a[3]) && (b[0] || b[1] || b[2] || b[3]) && Charset::Block.glyph(
            bg,
            a,
        ) == Charset::Block.glyph(bg, b) ==> a =~= b,
{
}

impl Charset {
    /// Columns and rows of cells under one glyph.
    pub open spec fn cell_scale(self) -> (u32, u32) {
        match self {
            Charset::Braille => (2, 4),
            Charset::Block => (2, 2),
            Charset::Blank => (1, 1),
            Charset::Ascii => (1, 1),
        }
    }

    /// How many cells one glyph stands for: the columns times the rows.
    pub open spec fn block_len(self) -> nat {
        match self {
            Charset::Braille => 8,
            Charset::Block => 4,
            Charset::Blank => 1,
            Charset::Ascii => 1,
        }
    }

    /// The character that stands for `cells`, a row-major block of
    /// `block_len()` cells, over the background `bg`.
    pub open spec fn glyph(self, bg: char, cells: Seq<bool>) -> char {
        match self {
            Charset::Braille => {
                let mask = dot_mask(transposed(cells, 2, 4));
                if mask == 0 {
                    bg
                } else {
                    (0x2800 + mask) as char
                }
            },
            Charset::Block => block_glyph(cells[0], cells[1], cells[2], cells[3], bg),
            Charset::Blank => if cells[0] {
                ' '
            } else {
                bg
            },
            Charset::Ascii => if cells[0] {
                'A'
            } else {
                bg
            },
        }
    }

    /// The braille dot mask of `alive`: dot `n` of the column-major order
    /// is binary digit `n`.
    pub fn calc_braille_offset(self, alive: &Vec<bool>) -> (mask: u8)
        requires
            alive@.len() == self.block_len(),
        ensures
            mask == dot_mask(
                transposed(alive@, self.cell_scale().0 as int, self.cell_scale().1 as int),
            ),
    {
        let (w, h) = self.scale();
        proof {
            lemma_block_len(self);
        }
        let dots = transpose(alive, w, h);
        assert(dots@ =~= transposed(alive@, w as int, h as int));
        let mut mask: u32 = 0;
        let mut i: usize = dots.len();
        proof {
            vstd::arithmetic::power2::lemma2_to64();
            assert(dots@.skip(i as int).len() == 0);
        }
        while i > 0
            invariant
                i <= dots@.len() <= 8,
                mask == dot_mask(dots@.skip(i as int)),
                mask < vstd::arithmetic::power2::pow2((dots@.len() - i) as nat),
            decreases i,
        {
            proof {
                vstd::arithmetic::power2::lemma2_to64();
                vstd::arithmetic::power2::lemma_pow2_unfold((dots@.len() - i + 1) as nat);
                vstd::arithmetic::power2::lemma_pow2_strictly_increases(
                    (dots@.len() - i) as nat,
                    8,
                );
                assert(dots@.skip(i - 1).skip(1) =~= dots@.skip(i as int));
            }
            i = i - 1;
            mask = 2 * mask + if dots[i] {
                1
            } else {
                0
            };
        }
        proof {
            vstd::arithmetic::power2::lemma2_to64();
            if dots@.len() < 8 {
                vstd::arithmetic::power2::lemma_pow2_strictly_increases(dots@.len(), 8);
            }
            assert(dots@.skip(0) =~= dots@);
        }
        mask as u8
    }

    /// The character for one block of cells; `bg` stands for a block with
    /// nothing alive in it.
    pub fn encode(self, bg: char, alive: &Vec<bool>) -> (ch: char)
        requires
            alive@.len() == self.block_len(),
        ensures
            ch == self.glyph(bg, alive@),
    {
        match self {
            Charset::Braille => {
                let off = self.calc_braille_offset(alive) as u32;
                if off == 0 {
                    bg
                } else {
                    char::from_u32(0x2800u32 + off).unwrap()
                }
            },
            Charset::Block => {
                if alive[0] && alive[1] && alive[2] && alive[3] {
                    '█'
                } else if alive[0] && alive[1] && alive[2] {
                    '▛'
                } else if alive[0] && alive[1] && alive[3] {
                    '▜'
                } else if alive[0] && alive[2] && alive[3] {
                    '▙'
                } else if alive[1] && alive[2] && alive[3] {
                    '▟'
                } else if alive[0] && alive[1] {
                    '▀'
                } else if alive[2] && alive[3] {
                    '▄'
                } else if alive[1] && alive[3] {
                    '▐'
                } else if alive[0] && alive[2] {
                    '▌'
                } else if alive[0] && alive[3] {
                    '▚'
                } else if alive[1] && alive[2] {
                    '▞'
                } else if alive[0] {
                    '▘'
                } else if alive[1] {
                    '▝'
                } else if alive[2] {
                    '▖'
                } else if alive[3] {
                    '▗'
                } else {
                    bg
                }
            },
            Charset::Blank => {
                if alive[0] {
                    ' '
                } else {
                    bg
                }
            },
            Charset::Ascii => {
                if alive[0] {
                    'A'
                } else {
                    bg
                }
            },
        }
    }

    /// Columns and rows of cells under one glyph.
    pub fn scale(self) -> (s: (u32, u32))
        ensures
            s == self.cell_scale(),
    {
        match self {
            Charset::Braille => (2, 4),
            Charset::Block => (2, 2),
            Charset::Blank => (1, 1),
            Charset::Ascii => (1, 1),
        }
    }
}

/// A glyph stands for as many cells as its columns times its rows.
pub proof fn lemma_block_len(cs: Charset)
    ensures
        cs.block_len() == cs.cell_scale().0 * cs.cell_scale().1,
        0 < cs.cell_scale().0 <= 2,
        0 < cs.cell_scale().1 <= 4,
{
    let (w, h) = cs.cell_scale();
    assert(w * h == cs.block_len()) by (nonlinear_arith)
        requires
            (w == 2 && h == 4 && cs.block_len() == 8) || (w == 2 && h == 2 && cs.block_len() == 4)
                || (w == 1 && h == 1 && cs.block_len() == 1),
    ;
}

/// Reorders a row-major `w` by `h` block into column-major order. Each
/// item of the result is a clone of the item it stands for: for cells and
/// numbers that is the item itself.
pub fn transpose<T: Clone>(v: &Vec<T>, w: u32, h: u32) -> (out: Vec<T>)
    requires
        v@.len() == w * h,
    ensures
        out@.len() == v@.len(),
        forall|n: int|
            0 <= n < out@.len() ==> cloned(transposed(v@, w as int, h as int)[n], #[trigger] out@[n]),
{
    let ghost want = transposed(v@, w as int, h as int);
    let n = v.len();
    let mut out: Vec<T> = Vec::with_capacity(n);
    let mut x: u32 = 0;
    while x < w
        invariant
            v@.len() == w * h,
            n == w * h,
            x <= w,
            want == transposed(v@, w as int, h as int),
            out@.len() == x * h,
            forall|k: int| 0 <= k < out@.len() ==> cloned(want[k], #[trigger] out@[k]),
            x * h <= w * h,
        decreases w - x,
    {
        let mut y: u32 = 0;
        proof {
            assert((x + 1) * h <= w * h) by (nonlinear_arith)
                requires
                    x < w,
            ;
            assert((x + 1) * h == x * h + h) by (nonlinear_arith);
        }
        while y < h
            invariant
                v@.len() == w * h,
                n == w * h,
                x < w,
                y <= h,
                x * h + h <= w * h,
                want == transposed(v@, w as int, h as int),
                out@.len() == x * h + y,
                forall|k: int| 0 <= k < out@.len() ==> cloned(want[k], #[trigger] out@[k]),
            decreases h - y,
        {
            proof {
                lemma_row_col(x * h + y, x as int, y as int, h as int);
                assert(y * w + x < w * h) by (nonlinear_arith)
                    requires
                        y < h,
                        x < w,
                ;
            }
            let at = y as usize * w as usize + x as usize;
            let item = v[at].clone();
            assert(cloned(want[x * h + y], item));
            out.push(item);
            y = y + 1;
        }
        x = x + 1;
    }
    assert(out@.len() == v@.len()) by {
        assert(x * h == w * h) by (nonlinear_arith)
            requires
                x == w,
        ;
    }
    out
}

/// Where the glyphs of a frame go: how many fit, and the blank margin
/// that centers them in the viewport.
pub struct Layout {
    pub cols: int,
    pub rows: int,
    pub left: int,
    pub top: int,
}

impl Layout {
    /// The four machine numbers that hold this layout.
    pub open spec fn measures(self, cols: u32, rows: u32, left: u32, top: u32) -> bool {
        &&& self.cols == cols
        &&& self.rows == rows
        &&& self.left == left
        &&& self.top == top
    }
}

/// The layout of `g` seen through `view` with the glyphs of `cs`: as many
/// glyph columns and rows as both the viewport and the board supply,
/// moved in by half of what the viewport has left over.
pub open spec fn layout(g: Grid, view: Mask, cs: Charset) -> Layout {
    let cols = vstd::math::min(view.w as int, g.width as int / cs.cell_scale().0 as int);
    let rows = vstd::math::min(view.h as int, g.height() as int / cs.cell_scale().1 as int);
    Layout { cols, rows, left: (view.w - cols) / 2, top: (view.h - rows) / 2 }
}

/// The cell at board position `(x, y)` as a frame shows it: dead outside
/// the clipped and centered bounds, both far edges counted as inside.
pub open spec fn sample(g: Grid, view: Mask, cs: Charset, x: int, y: int) -> bool {
    let l = layout(g, view, cs);
    let x0 = l.left + view.x;
    let y0 = l.top + view.y;
    &&& x0 <= x <= x0 + l.left + l.cols * cs.cell_scale().0
    &&& y0 <= y <= y0 + l.top + l.rows * cs.cell_scale().1
    &&& g.at(x, y)
}

/// The cells under the glyph at viewport position `(x, y)`, row by row.
pub open spec fn sub_block(g: Grid, view: Mask, cs: Charset, x: int, y: int) -> Seq<bool> {
    let sx = cs.cell_scale().0 as int;
    let sy = cs.cell_scale().1 as int;
    Seq::new(
        cs.block_len(),
        |i: int| sample(g, view, cs, x * sx + i % sx + view.x, y * sy + i / sx + view.y),
    )
}

/// The glyphs of the frame, row by row.
pub open spec fn body(g: Grid, view: Mask, bg: char, cs: Charset) -> Seq<(Point, char)> {
    let l = layout(g, view, cs);
    Seq::new(
        (l.cols * l.rows) as nat,
        |i: int|
            {
                let x = l.left + i % l.cols;
                let y = l.top + i / l.cols;
                (Point { x: x as i64, y: y as i64 }, cs.glyph(bg, sub_block(g, view, cs, x, y)))
            },
    )
}

/// The left and right border, present where the glyphs are narrower than
/// the viewport: for each row below the first, a bar on either side.
pub open spec fn side_border(g: Grid, view: Mask, cs: Charset) -> Seq<(Point, char)> {
    let l = layout(g, view, cs);
    if l.cols < view.w && l.rows > 1 {
        Seq::new(
            (2 * (l.rows - 1)) as nat,
            |i: int|
                (
                    Point {
                        x: (if i % 2 == 0 {
                            l.left
                        } else {
                            l.left + l.cols
                        }) as i64,
                        y: (l.top + 1 + i / 2) as i64,
                    },
                    '│',
                ),
        )
    } else {
        Seq::empty()
    }
}

/// The top and bottom border, present where the glyphs are shorter than
/// the viewport: for each column right of the first, a bar above and below.
pub open spec fn cap_border(g: Grid, view: Mask, cs: Charset) -> Seq<(Point, char)> {
    let l = layout(g, view, cs);
    if l.rows < view.h && l.cols > 1 {
        Seq::new(
            (2 * (l.cols - 1)) as nat,
            |i: int|
                (
                    Point {
                        x: (l.left + 1 + i / 2) as i64,
                        y: (if i % 2 == 0 {
                            l.top
                        } else {
                            l.top + l.rows
                        }) as i64,
                    },
                    '─',
                ),
        )
    } else {
        Seq::empty()
    }
}

/// The four corners of the box, present where the glyphs fall short of
/// the viewport on both axes.
pub open spec fn corners(g: Grid, view: Mask, cs: Charset) -> Seq<(Point, char)> {
    let l = layout(g, view, cs);
    if l.rows < view.h && l.cols < view.w {
        seq![
            (Point { x: l.left as i64, y: l.top as i64 }, '┌'),
            (Point { x: l.left as i64, y: (l.top + l.rows) as i64 }, '└'),
            (Point { x: (l.left + l.cols) as i64, y: l.top as i64 }, '┐'),
            (Point { x: (l.left + l.cols) as i64, y: (l.top + l.rows) as i64 }, '┘'),
        ]
    } else {
        Seq::empty()
    }
}

/// Everything a frame draws: the glyphs, then the borders, then the corners.
pub open spec fn rendered(g: Grid, view: Mask, bg: char, cs: Charset) -> Seq<(Point, char)> {
    body(g, view, bg, cs) + side_border(g, view, cs) + cap_border(g, view, cs) + corners(
        g,
        view,
        cs,
    )
}

/// A board that falls short of the viewport on both axes is drawn whole,
/// centered, and boxed: the glyphs there are of the board fill the
/// rectangle that starts half the spare room in from the viewport's corner,
/// the bars follow, and the last four entries are the four corners.
pub proof fn lemma_small_board_is_boxed(g: Grid, view: Mask, bg: char, cs: Charset)
    requires
        g.wf(),
        g.width / (cs.cell_scale().0 as nat) < view.w,
        g.height() / (cs.cell_scale().1 as nat) < view.h,
    ensures
        layout(g, view, cs).cols == g.width / (cs.cell_scale().0 as nat),
        layout(g, view, cs).rows == g.height() / (cs.cell_scale().1 as nat),
        layout(g, view, cs).left == (view.w - layout(g, view, cs).cols) / 2,
        layout(g, view, cs).top == (view.h - layout(g, view, cs).rows) / 2,
        forall|i: int|
            0 <= i < body(g, view, bg, cs).len() ==> {
                let at = (#[trigger] rendered(g, view, bg, cs)[i]).0;
                let l = layout(g, view, cs);
                &&& l.left <= at.x < l.left + l.cols
                &&& l.top <= at.y < l.top + l.rows
            },
        rendered(g, view, bg, cs).len() == body(g, view, bg, cs).len() + side_border(
            g,
            view,
            cs,
        ).len() + cap_border(g, view, cs).len() + 4,
        rendered(g, view, bg, cs).skip(rendered(g, view, bg, cs).len() - 4) == corners(
            g,
            view,
            cs,
        ),
        corners(g, view, cs).len() == 4,
        corners(g, view, cs)[0].1 == '┌',
        corners(g, view, cs)[1].1 == '└',
        corners(g, view, cs)[2].1 == '┐',
        corners(g, view, cs)[3].1 == '┘',
{
    let l = layout(g, view, cs);
    let all = rendered(g, view, bg, cs);
    assert(all.skip(all.len() - 4) =~= corners(g, view, cs));
    assert forall|i: int| 0 <= i < body(g, view, bg, cs).len() implies {
        let at = (#[trigger] rendered(g, view, bg, cs)[i]).0;
        &&& l.left <= at.x < l.left + l.cols
        &&& l.top <= at.y < l.top + l.rows
    } by {
        assert(all[i] == body(g, view, bg, cs)[i]);
        assert(l.cols > 0) by (nonlinear_arith)
            requires
                0 <= i < l.cols * l.rows,
                l.cols >= 0,
        ;
        vstd::arithmetic::div_mod::lemma_fundamental_div_mod(i, l.cols);
        assert(0 <= i / l.cols < l.rows) by (nonlinear_arith)
            requires
                0 <= i < l.cols * l.rows,
                l.cols > 0,
                i == l.cols * (i / l.cols) + i % l.cols,
                0 <= i % l.cols < l.cols,
        ;
    }
}

/// One board seen through one viewport.
pub struct Frame {
    pts: Board,
    view: Mask,
}

impl Frame {
    /// The board this frame shows.
    pub closed spec fn grid(&self) -> Grid {
        self.pts@
    }

    /// The viewport this frame shows it through.
    pub closed spec fn viewport(&self) -> Mask {
        self.view
    }

    /// The frame that shows `pts` through `view`.
    pub fn new(pts: Board, view: Mask) -> (frame: Frame)
        ensures
            frame.grid() == pts@,
            frame.viewport() == view,
    {
        Frame { pts, view }
    }

    /// Glyph columns, glyph rows, left margin and top margin.
    fn measure(&self, charset: Charset) -> (m: (u32, u32, u32, u32))
        requires
            self.grid().wf(),
        ensures
            layout(self.grid(), self.viewport(), charset).measures(m.0, m.1, m.2, m.3),
    {
        let (sx, sy) = charset.scale();
        let across = self.pts.width() / sx;
        let down = self.pts.height() / sy;
        let cols = if self.view.w < across {
            self.view.w
        } else {
            across
        };
        let rows = if self.view.h < down {
            self.view.h
        } else {
            down
        };
        (cols, rows, (self.view.w - cols) / 2, (self.view.h - rows) / 2)
    }

    /// The cells under the glyph at viewport position `(x, y)`.
    fn gather(&self, charset: Charset, x: u32, y: u32) -> (cells: Vec<bool>)
        requires
            self.grid().wf(),
            self.grid().height() > 0,
        ensures
            cells@ == sub_block(self.grid(), self.viewport(), charset, x as int, y as int),
    {
        let (sx, sy) = charset.scale();
        let (cols, rows, left, top) = self.measure(charset);
        let x0: i64 = left as i64 + self.view.x as i64;
        let y0: i64 = top as i64 + self.view.y as i64;
        assert(0 <= cols * sx <= 0xffff_ffff * 2 && 0 <= rows * sy <= 0xffff_ffff * 4)
            by (nonlinear_arith)
            requires
                0 <= cols <= 0xffff_ffff,
                0 <= rows <= 0xffff_ffff,
                0 <= sx <= 2,
                0 <= sy <= 4,
        ;
        let x1: i64 = x0 + left as i64 + cols as i64 * sx as i64;
        let y1: i64 = y0 + top as i64 + rows as i64 * sy as i64;
        let ghost want = sub_block(self.grid(), self.viewport(), charset, x as int, y as int);
        let mut cells: Vec<bool> = Vec::with_capacity(8);
        let mut oy: u32 = 0;
        while oy < sy
            invariant
                self.grid().wf(),
                self.grid().height() > 0,
                (sx, sy) == charset.cell_scale(),
                layout(self.grid(), self.viewport(), charset).measures(cols, rows, left, top),
                x0 == left + self.view.x,
                y0 == top + self.view.y,
                x1 == x0 + left + cols * sx,
                y1 == y0 + top + rows * sy,
                want == sub_block(self.grid(), self.viewport(), charset, x as int, y as int),
                oy <= sy,
                cells@ == want.take(oy * sx),
            decreases sy - oy,
        {
            let mut ox: u32 = 0;
            while ox < sx
                invariant
                    self.grid().wf(),
                    self.grid().height() > 0,
                    (sx, sy) == charset.cell_scale(),
                    layout(self.grid(), self.viewport(), charset).measures(cols, rows, left, top),
                    x0 == left + self.view.x,
                    y0 == top + self.view.y,
                    x1 == x0 + left + cols * sx,
                    y1 == y0 + top + rows * sy,
                    want == sub_block(self.grid(), self.viewport(), charset, x as int, y as int),
                    oy < sy,
                    ox <= sx,
                    cells@ == want.take(oy * sx + ox),
                decreases sx - ox,
            {
                assert(0 <= x * sx <= 0xffff_ffff * 2 && 0 <= y * sy <= 0xffff_ffff * 4)
                    by (nonlinear_arith)
                    requires
                        0 <= x <= 0xffff_ffff,
                        0 <= y <= 0xffff_ffff,
                        0 <= sx <= 2,
                        0 <= sy <= 4,
                ;
                let px: i64 = x as i64 * sx as i64 + ox as i64 + self.view.x as i64;
                let py: i64 = y as i64 * sy as i64 + oy as i64 + self.view.y as i64;
                let alive = px >= x0 && px <= x1 && py >= y0 && py <= y1 && self.pts.get(
                    Point { x: px, y: py },
                );
                proof {
                    lemma_block_len(charset);
                    lemma_row_col(oy * sx + ox, oy as int, ox as int, sx as int);
                    assert(oy * sx + ox < sx * sy) by (nonlinear_arith)
                        requires
                            oy < sy,
                            ox < sx,
                    ;
                    assert(want.len() == sx * sy);
                    assert(want[oy * sx + ox] == alive);
                }
                cells.push(alive);
                ox = ox + 1;
                assert(cells@ =~= want.take(oy * sx + ox));
            }
            oy = oy + 1;
            assert(oy * sx == (oy - 1) * sx + sx) by (nonlinear_arith);
        }
        assert(cells@ =~= want) by {
            lemma_block_len(charset);
            assert(oy * sx == sx * sy) by (nonlinear_arith)
                requires
                    oy == sy,
            ;
        }
        cells
    }

    /// The glyphs of the frame, row by row.
    fn render_body(&self, background: char, charset: Charset) -> (out: Vec<(Point, char)>)
        requires
            self.grid().wf(),
        ensures
            out@ == body(self.grid(), self.viewport(), background, charset),
    {
        let (cols, rows, left, top) = self.measure(charset);
        let ghost want = body(self.grid(), self.viewport(), background, charset);
        let mut out: Vec<(Point, char)> = Vec::new();
        let mut r: u32 = 0;
        while r < rows
            invariant
                self.grid().wf(),
                layout(self.grid(), self.viewport(), charset).measures(cols, rows, left, top),
                want == body(self.grid(), self.viewport(), background, charset),
                r <= rows,
                out@ == want.take(r * cols),
            decreases rows - r,
        {
            let mut c: u32 = 0;
            assert(self.grid().height() > 0);
            while c < cols
                invariant
                    self.grid().wf(),
                    self.grid().height() > 0,
                    layout(self.grid(), self.viewport(), charset).measures(cols, rows, left, top),
                    want == body(self.grid(), self.viewport(), background, charset),
                    r < rows,
                    c <= cols,
                    out@ == want.take(r * cols + c),
                decreases cols - c,
            {
                let x = left + c;
                let y = top + r;
                let cells = self.gather(charset, x, y);
                let ch = charset.encode(background, &cells);
                proof {
                    lemma_row_col(r * cols + c, r as int, c as int, cols as int);
                    assert(r * cols + c < cols * rows) by (nonlinear_arith)
                        requires
                            r < rows,
                            c < cols,
                    ;
                    assert(want[r * cols + c] == (Point { x: x as i64, y: y as i64 }, ch));
                }
                out.push((Point { x: x as i64, y: y as i64 }, ch));
                c = c + 1;
                assert(out@ =~= want.take(r * cols + c));
            }
            r = r + 1;
            assert(r * cols == (r - 1) * cols + cols) by (nonlinear_arith);
        }
        assert(out@ =~= want) by {
            assert(r * cols == cols * rows) by (nonlinear_arith)
                requires
                    r == rows,
            ;
        }
        out
    }

    /// The bars left and right of the glyphs.
    fn render_sides(&self, charset: Charset) -> (out: Vec<(Point, char)>)
        requires
            self.grid().wf(),
        ensures
            out@ == side_border(self.grid(), self.viewport(), charset),
    {
        let (cols, rows, left, top) = self.measure(charset);
        let ghost want = side_border(self.grid(), self.viewport(), charset);
        let mut out: Vec<(Point, char)> = Vec::new();
        if cols < self.view.w && rows > 1 {
            let mut k: u32 = 0;
            while k < rows - 1
                invariant
                    layout(self.grid(), self.viewport(), charset).measures(cols, rows, left, top),
                    want == side_border(self.grid(), self.viewport(), charset),
                    cols < self.view.w,
                    rows > 1,
                    rows <= self.view.h,
                    k <= rows - 1,
                    out@ == want.take(2 * k),
                decreases rows - 1 - k,
            {
                let y = top as i64 + 1 + k as i64;
                out.push((Point { x: left as i64, y }, '│'));
                out.push((Point { x: left as i64 + cols as i64, y }, '│'));
                k = k + 1;
                assert(out@ =~= want.take(2 * k));
            }
            assert(out@ =~= want);
        }
        out
    }

    /// The bars above and below the glyphs.
    fn render_caps(&self, charset: Charset) -> (out: Vec<(Point, char)>)
        requires
            self.grid().wf(),
        ensures
            out@ == cap_border(self.grid(), self.viewport(), charset),
    {
        let (cols, rows, left, top) = self.measure(charset);
        let ghost want = cap_border(self.grid(), self.viewport(), charset);
        let mut out: Vec<(Point, char)> = Vec::new();
        if rows < self.view.h && cols > 1 {
            let mut k: u32 = 0;
            while k < cols - 1
                invariant
                    layout(self.grid(), self.viewport(), charset).measures(cols, rows, left, top),
                    want == cap_border(self.grid(), self.viewport(), charset),
                    rows < self.view.h,
                    cols > 1,
                    cols <= self.view.w,
                    k <= cols - 1,
                    out@ == want.take(2 * k),
                decreases cols - 1 - k,
            {
                let x = left as i64 + 1 + k as i64;
                out.push((Point { x, y: top as i64 }, '─'));
                out.push((Point { x, y: top as i64 + rows as i64 }, '─'));
                k = k + 1;
                assert(out@ =~= want.take(2 * k));
            }
            assert(out@ =~= want);
        }
        out
    }

    /// The corners of the box around the glyphs.
    fn render_corners(&self, charset: Charset) -> (out: Vec<(Point, char)>)
        requires
            self.grid().wf(),
        ensures
            out@ == corners(self.grid(), self.viewport(), charset),
    {
        let (cols, rows, left, top) = self.measure(charset);
        let mut out: Vec<(Point, char)> = Vec::new();
        if rows < self.view.h && cols < self.view.w {
            let x0 = left as i64;
            let y0 = top as i64;
            let x1 = left as i64 + cols as i64;
            let y1 = top as i64 + rows as i64;
            out.push((Point { x: x0, y: y0 }, '┌'));
            out.push((Point { x: x0, y: y1 }, '└'));
            out.push((Point { x: x1, y: y0 }, '┐'));
            out.push((Point { x: x1, y: y1 }, '┘'));
            assert(out@ =~= corners(self.grid(), self.viewport(), charset));
        }
        out
    }

    /// Draws the frame: one glyph per block of cells, row by row, then the
    /// border bars and corners where the board is smaller than the viewport.
    pub fn render(&self, background: char, charset: Charset) -> (out: Vec<(Point, char)>)
        requires
            self.grid().wf(),
        ensures
            out@ == rendered(self.grid(), self.viewport(), background, charset),
    {
        let mut out = self.render_body(background, charset);
        let mut sides = self.render_sides(charset);
        let mut caps = self.render_caps(charset);
        let mut ends = self.render_corners(charset);
        out.append(&mut sides);
        out.append(&mut caps);
        out.append(&mut ends);
        out
    }

    /// Draws the frame with quadrant blocks over a blank background.
    pub fn render_box(&self) -> (out: Vec<(Point, char)>)
        requires
            self.grid().wf(),
        ensures
            out@ == rendered(self.grid(), self.viewport(), ' ', Charset::Block),
    {
        self.render(' ', Charset::Block)
    }
}

impl core::ops::Deref for Frame {
    type Target = Board;

    /// The board behind the frame.
    fn deref(&self) -> (board: &Board)
        ensures
            board@ == self.grid(),
    {
        &self.pts
    }
}

impl core::ops::DerefMut for Frame {
    /// The board behind the frame, to change: the frame shows whatever is
    /// left in it.
    fn deref_mut(&mut self) -> (board: &mut Board)
        ensures
            board@ == old(self).grid(),
            final(self).grid() == final(board)@,
            final(self).viewport() == old(self).viewport(),
    {
        &mut self.pts
    }
}

} // verus!
