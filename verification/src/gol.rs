//! The board model: points, viewport rectangles, and the toroidal grid.

use vstd::prelude::*;

verus! {

/// A signed position. It may lie outside a board until it is normalized.
#[derive(Clone, Copy, Debug, PartialEq, Eq, PartialOrd, Ord, Structural)]
pub struct Point {
    pub x: i64,
    pub y: i64,
}

/// A rectangle with origin `(x, y)` and extent `(w, h)`.
#[derive(Clone, Copy, Debug)]
pub struct Mask {
    pub x: u32,
    pub y: u32,
    pub w: u32,
    pub h: u32,
}

/// The mathematical content of a board: a width and row-major cells.
pub struct Grid {
    pub width: nat,
    pub cells: Seq<bool>,
}

impl Grid {
    /// The cells form whole rows, and the cell count fits in 32 bits.
    pub open spec fn wf(self) -> bool {
        &&& self.width > 0
        &&& self.cells.len() % self.width == 0
        &&& self.cells.len() <= u32::MAX
    }

    /// How many rows the cells make.
    pub open spec fn height(self) -> nat {
        self.cells.len() / self.width
    }

    /// The flat index of the cell that `(x, y)` wraps onto.
    pub open spec fn index_of(self, x: int, y: int) -> int {
        (y % (self.height() as int)) * self.width + x % (self.width as int)
    }

    /// The cell at `(x, y)`, read on the torus.
    pub open spec fn at(self, x: int, y: int) -> bool {
        self.cells[self.index_of(x, y)]
    }

    /// The same grid with the cell that `(x, y)` wraps onto replaced.
    pub open spec fn with_cell(self, x: int, y: int, alive: bool) -> Grid {
        Grid { width: self.width, cells: self.cells.update(self.index_of(x, y), alive) }
    }

    /// The Moore neighborhood of `(x, y)`: east, west, south, north,
    /// north-east, south-east, north-west, south-west. Rows grow southward.
    pub open spec fn neighbors(self, x: int, y: int) -> Seq<bool> {
        seq![
            self.at(x + 1, y),
            self.at(x - 1, y),
            self.at(x, y + 1),
            self.at(x, y - 1),
            self.at(x + 1, y - 1),
            self.at(x + 1, y + 1),
            self.at(x - 1, y - 1),
            self.at(x - 1, y + 1),
        ]
    }

    /// The `w` by `h` window whose top-left cell is `(x, y)`, read on the torus.
    pub open spec fn window(self, x: int, y: int, w: int, h: int) -> Grid {
        Grid {
            width: w as nat,
            cells: Seq::new((w * h) as nat, |i: int| self.at(x + i % w, y + i / w)),
        }
    }

    /// Every cell paired with its column and row.
    pub open spec fn pixels(self) -> Seq<(Point, bool)> {
        Seq::new(
            self.cells.len(),
            |i: int|
                (
                    Point { x: (i % (self.width as int)) as i64, y: (i / (self.width as int)) as i64 },
                    self.cells[i],
                ),
        )
    }
}

/// How many cells of `cells` are alive.
pub open spec fn live_count(cells: Seq<bool>) -> nat
    decreases cells.len(),
{
    if cells.len() == 0 {
        0
    } else {
        live_count(cells.drop_last()) + if cells.last() {
            1nat
        } else {
            0nat
        }
    }
}

/// On a non-empty grid every coordinate wraps onto a cell of the buffer.
pub proof fn lemma_index_in_range(g: Grid, x: int, y: int)
    requires
        g.wf(),
        g.height() > 0,
    ensures
        0 <= x % (g.width as int) < g.width,
        0 <= y % (g.height() as int) < g.height(),
        0 <= g.index_of(x, y) < g.cells.len(),
        g.width * g.height() == g.cells.len(),
{
    let w = g.width as int;
    let h = g.height() as int;
    let n = g.cells.len() as int;
    vstd::arithmetic::div_mod::lemma_fundamental_div_mod(n, w);
    let r = y % h;
    let c = x % w;
    assert(r * w + c < h * w) by (nonlinear_arith)
        requires
            0 <= r < h,
            0 <= c < w,
    ;
    assert(0 <= r * w + c) by (nonlinear_arith)
        requires
            0 <= r,
            0 <= c,
            0 < w,
    ;
    assert(w * h == h * w) by (nonlinear_arith);
}

impl Point {
    /// Wraps the point onto a `w` by `h` torus.
    pub fn remap(&mut self, w: i64, h: i64)
        requires
            w > 0,
            h > 0,
        ensures
            final(self).x == (old(self).x as int) % (w as int),
            final(self).y == (old(self).y as int) % (h as int),
    {
        self.x = wrap(self.x, w);
        self.y = wrap(self.y, h);
    }
}

impl core::ops::Add for Point {
    type Output = Point;

    /// The sum, coordinate by coordinate.
    fn add(self, rhs: Point) -> (sum: Point) {
        Point { x: self.x + rhs.x, y: self.y + rhs.y }
    }
}

impl vstd::std_specs::ops::AddSpecImpl for Point {
    open spec fn obeys_add_spec() -> bool {
        true
    }

    open spec fn add_req(self, rhs: Point) -> bool {
        &&& i64::MIN <= self.x + rhs.x <= i64::MAX
        &&& i64::MIN <= self.y + rhs.y <= i64::MAX
    }

    open spec fn add_spec(self, rhs: Point) -> Point {
        Point { x: (self.x + rhs.x) as i64, y: (self.y + rhs.y) as i64 }
    }
}

impl From<(i64, i64)> for Point {
    /// The point with the pair's first number as `x` and its second as `y`.
    fn from(pair: (i64, i64)) -> (pt: Point) {
        Point { x: pair.0, y: pair.1 }
    }
}

impl vstd::std_specs::convert::FromSpecImpl<(i64, i64)> for Point {
    open spec fn obeys_from_spec() -> bool {
        true
    }

    open spec fn from_spec(pair: (i64, i64)) -> Point {
        Point { x: pair.0, y: pair.1 }
    }
}

/// The representative of `v` modulo `m` in `[0, m)`.
pub fn wrap(v: i64, m: i64) -> (r: i64)
    requires
        m > 0,
    ensures
        r == (v as int) % (m as int),
        0 <= r < m,
{
    let t = v % m;
    proof {
        if v < 0 {
            let q = (-v) / (m as int);
            let r = (-v) % (m as int);
            vstd::arithmetic::div_mod::lemma_fundamental_div_mod(-v, m as int);
            if r == 0 {
                assert(v == (-q) * m + 0) by (nonlinear_arith)
                    requires
                        -v == m * q + r,
                        r == 0,
                ;
                vstd::arithmetic::div_mod::lemma_fundamental_div_mod_converse(
                    v as int,
                    m as int,
                    -q,
                    0,
                );
            } else {
                assert(v == (-q - 1) * m + (m - r)) by (nonlinear_arith)
                    requires
                        -v == m * q + r,
                ;
                vstd::arithmetic::div_mod::lemma_fundamental_div_mod_converse(
                    v as int,
                    m as int,
                    -q - 1,
                    m - r,
                );
            }
        }
    }
    if t < 0 {
        t + m
    } else {
        t
    }
}

/// Shifting a coordinate before or after wrapping reads the same cell.
pub proof fn lemma_at_shift(g: Grid, x: int, y: int, dx: int, dy: int)
    requires
        g.wf(),
        g.height() > 0,
    ensures
        g.at(x % (g.width as int) + dx, y % (g.height() as int) + dy) == g.at(x + dx, y + dy),
        g.index_of(x % (g.width as int) + dx, y % (g.height() as int) + dy) == g.index_of(
            x + dx,
            y + dy,
        ),
{
    let w = g.width as int;
    let h = g.height() as int;
    vstd::arithmetic::div_mod::lemma_add_mod_noop(x, dx, w);
    vstd::arithmetic::div_mod::lemma_add_mod_noop(x % w, dx, w);
    vstd::arithmetic::div_mod::lemma_mod_twice(x, w);
    vstd::arithmetic::div_mod::lemma_add_mod_noop(y, dy, h);
    vstd::arithmetic::div_mod::lemma_add_mod_noop(y % h, dy, h);
    vstd::arithmetic::div_mod::lemma_mod_twice(y, h);
}

/// Reading a board at any coordinate, negative or past the edge, reads the
/// cell at the coordinate's representative in `[0, width) x [0, height)`,
/// and coordinates a whole number of widths and heights apart read the
/// same cell.
pub proof fn lemma_access_is_toroidal(g: Grid, x: int, y: int, i: int, j: int)
    requires
        g.wf(),
        g.height() > 0,
    ensures
        0 <= x % (g.width as int) < g.width,
        0 <= y % (g.height() as int) < g.height(),
        g.at(x, y) == g.at(x % (g.width as int), y % (g.height() as int)),
        g.at(x, y) == g.cells[(y % (g.height() as int)) * g.width + x % (g.width as int)],
        g.at(x + i * g.width, y + j * g.height()) == g.at(x, y),
{
    let w = g.width as int;
    let h = g.height() as int;
    lemma_index_in_range(g, x, y);
    vstd::arithmetic::div_mod::lemma_mod_twice(x, w);
    vstd::arithmetic::div_mod::lemma_mod_twice(y, h);
    vstd::arithmetic::div_mod::lemma_mod_multiples_vanish(i, x, w);
    vstd::arithmetic::div_mod::lemma_mod_multiples_vanish(j, y, h);
    assert(x + i * w == w * i + x) by (nonlinear_arith);
    assert(y + j * h == h * j + y) by (nonlinear_arith);
}

/// A rectangle contains its four edges: every point on the left column,
/// the right column, the top row and the bottom row is inside, and the
/// points one step beyond them are not.
pub proof fn lemma_mask_edges_inclusive(m: Mask, x: int, y: int)
    ensures
        m.y <= y <= m.y + m.h ==> m.covers(m.x as int, y) && m.covers(m.x + m.w, y),
        m.x <= x <= m.x + m.w ==> m.covers(x, m.y as int) && m.covers(x, m.y + m.h),
        !m.covers(m.x - 1, y),
        !m.covers(m.x + m.w + 1, y),
        !m.covers(x, m.y - 1),
        !m.covers(x, m.y + m.h + 1),
{
}

impl Mask {
    /// Whether `(x, y)` lies in the rectangle, all four edges included.
    pub open spec fn covers(self, x: int, y: int) -> bool {
        &&& self.x <= x <= self.x + self.w
        &&& self.y <= y <= self.y + self.h
    }

    /// The column just past the extent.
    pub fn right(&self) -> (r: u32)
        requires
            self.x + self.w <= u32::MAX,
        ensures
            r == self.x + self.w,
    {
        self.x + self.w
    }

    /// The row just past the extent.
    pub fn bottom(&self) -> (r: u32)
        requires
            self.y + self.h <= u32::MAX,
        ensures
            r == self.y + self.h,
    {
        self.y + self.h
    }

    /// Containment test that counts the right and bottom edges as inside.
    pub fn contains(&self, pt: &Point) -> (inside: bool)
        ensures
            inside == self.covers(pt.x as int, pt.y as int),
    {
        let left: i64 = self.x as i64;
        let top: i64 = self.y as i64;
        pt.x >= left && pt.x <= left + self.w as i64 && pt.y >= top && pt.y <= top + self.h as i64
    }

    /// The distance between the vertical extent and the vertical origin.
    pub fn dy(&self) -> (d: u32)
        ensures
            d == if self.h >= self.y {
                self.h - self.y
            } else {
                self.y - self.h
            },
    {
        if self.h >= self.y {
            self.h - self.y
        } else {
            self.y - self.h
        }
    }

    /// The distance between the horizontal extent and the horizontal origin.
    pub fn dx(&self) -> (d: u32)
        ensures
            d == if self.w >= self.x {
                self.w - self.x
            } else {
                self.x - self.w
            },
    {
        if self.w >= self.x {
            self.w - self.x
        } else {
            self.x - self.w
        }
    }

    /// The rectangle of board cells under a rectangle of glyphs: the extent
    /// grows by the glyph's cell scale, the origin stays.
    pub fn scale(&self, factor: (u32, u32)) -> (scaled: Mask)
        requires
            self.w * factor.0 <= u32::MAX,
            self.h * factor.1 <= u32::MAX,
        ensures
            scaled.x == self.x,
            scaled.y == self.y,
            scaled.w == self.w * factor.0,
            scaled.h == self.h * factor.1,
    {
        Mask { x: self.x, y: self.y, w: self.w * factor.0, h: self.h * factor.1 }
    }
}

/// Why a window could not be cut out of a board.
#[derive(Clone, Copy, Debug, PartialEq, Eq, Structural)]
pub enum SliceError {
    /// The rectangle has no columns, so it cannot form rows.
    EmptyWidth,
    /// The rectangle holds more cells than a board can.
    TooLarge,
}

/// A well-formed grid with a cell has a row.
pub proof fn lemma_nonempty_has_rows(g: Grid)
    requires
        g.wf(),
        g.cells.len() > 0,
    ensures
        g.height() > 0,
{
    vstd::arithmetic::div_mod::lemma_fundamental_div_mod(g.cells.len() as int, g.width as int);
    assert(g.width * g.height() > 0);
    assert(g.height() != 0) by (nonlinear_arith)
        requires
            g.width * g.height() > 0,
    ;
}

/// A flat index splits into the row and column it was built from.
pub proof fn lemma_row_col(i: int, row: int, col: int, w: int)
    requires
        0 <= col < w,
        i == row * w + col,
    ensures
        i / w == row,
        i % w == col,
{
    vstd::arithmetic::div_mod::lemma_fundamental_div_mod_converse(i, w, row, col);
}

/// A toroidal grid of cells in row-major order.
#[derive(Debug)]
pub struct Board {
    buf: Vec<bool>,
    width: u32,
}

impl View for Board {
    type V = Grid;

    closed spec fn view(&self) -> Grid {
        Grid { width: self.width as nat, cells: self.buf@ }
    }
}

impl Clone for Board {
    fn clone(&self) -> (copy: Self)
        ensures
            copy@ == self@,
    {
        let mut buf: Vec<bool> = Vec::with_capacity(self.buf.len());
        let mut i: usize = 0;
        while i < self.buf.len()
            invariant
                i <= self.buf.len(),
                buf@ == self.buf@.take(i as int),
            decreases self.buf.len() - i,
        {
            buf.push(self.buf[i]);
            i = i + 1;
            assert(buf@ =~= self.buf@.take(i as int));
        }
        assert(buf@ =~= self.buf@);
        Board { buf, width: self.width }
    }
}

impl Board {
    /// The board holds whole rows and at most `u32::MAX` cells.
    pub open spec fn wf(&self) -> bool {
        self@.wf()
    }

    /// A board of the given width over `buf`, which must hold whole rows.
    pub fn new(width: u32, buf: Vec<bool>) -> (board: Board)
        requires
            width > 0,
            buf@.len() % (width as nat) == 0,
            buf@.len() <= u32::MAX,
        ensures
            board.wf(),
            board@ == (Grid { width: width as nat, cells: buf@ }),
    {
        Board { width, buf }
    }

    /// Gives up the board for its cells, in row-major order.
    pub fn into_cells(self) -> (cells: Vec<bool>)
        ensures
            cells@ == self@.cells,
    {
        self.buf
    }

    /// How many cells a row holds.
    pub fn width(&self) -> (w: u32)
        ensures
            w == self@.width,
    {
        self.width
    }

    /// How many rows the buffer holds.
    pub fn height(&self) -> (h: u32)
        requires
            self.wf(),
        ensures
            h == self@.height(),
    {
        let rows = self.buf.len() / (self.width as usize);
        proof {
            vstd::arithmetic::div_mod::lemma_div_is_ordered_by_denominator(
                self.buf@.len() as int,
                1,
                self.width as int,
            );
            vstd::arithmetic::div_mod::lemma_div_basics_2(self.buf@.len() as int);
        }
        rows as u32
    }

    /// The flat index of the cell that `pt` wraps onto.
    pub fn pt_to_index(&self, pt: Point) -> (index: usize)
        requires
            self.wf(),
            self@.height() > 0,
        ensures
            index == self@.index_of(pt.x as int, pt.y as int),
            index < self@.cells.len(),
    {
        let w = self.width as i64;
        let h = self.height() as i64;
        let col = wrap(pt.x, w);
        let row = wrap(pt.y, h);
        proof {
            lemma_index_in_range(self@, pt.x as int, pt.y as int);
        }
        (row * w + col) as usize
    }

    /// The cell at `pt`, read on the torus.
    pub fn get(&self, pt: Point) -> (alive: bool)
        requires
            self.wf(),
            self@.height() > 0,
        ensures
            alive == self@.at(pt.x as int, pt.y as int),
    {
        let index = self.pt_to_index(pt);
        self.buf[index]
    }

    /// Replaces the cell that `pt` wraps onto.
    pub fn set(&mut self, pt: Point, alive: bool)
        requires
            old(self).wf(),
            old(self)@.height() > 0,
        ensures
            final(self).wf(),
            final(self)@ == old(self)@.with_cell(pt.x as int, pt.y as int, alive),
    {
        let index = self.pt_to_index(pt);
        self.buf.set(index, alive);
    }

    /// The eight cells around `pt`, in the order of `Grid::neighbors`.
    pub fn neighbors(&self, pt: &Point) -> (around: [bool; 8])
        requires
            self.wf(),
            self@.height() > 0,
        ensures
            around@ == self@.neighbors(pt.x as int, pt.y as int),
    {
        let w = self.width as i64;
        let h = self.height() as i64;
        let x = wrap(pt.x, w);
        let y = wrap(pt.y, h);
        proof {
            lemma_at_shift(self@, pt.x as int, pt.y as int, 1, 0);
            lemma_at_shift(self@, pt.x as int, pt.y as int, -1, 0);
            lemma_at_shift(self@, pt.x as int, pt.y as int, 0, 1);
            lemma_at_shift(self@, pt.x as int, pt.y as int, 0, -1);
            lemma_at_shift(self@, pt.x as int, pt.y as int, 1, -1);
            lemma_at_shift(self@, pt.x as int, pt.y as int, 1, 1);
            lemma_at_shift(self@, pt.x as int, pt.y as int, -1, -1);
            lemma_at_shift(self@, pt.x as int, pt.y as int, -1, 1);
        }
        let around = [
            self.get(Point { x: x + 1, y }),
            self.get(Point { x: x - 1, y }),
            self.get(Point { x, y: y + 1 }),
            self.get(Point { x, y: y - 1 }),
            self.get(Point { x: x + 1, y: y - 1 }),
            self.get(Point { x: x + 1, y: y + 1 }),
            self.get(Point { x: x - 1, y: y - 1 }),
            self.get(Point { x: x - 1, y: y + 1 }),
        ];
        assert(around@ =~= self@.neighbors(pt.x as int, pt.y as int));
        around
    }

    /// A new board holding the cells under `sect`, read on the torus.
    pub fn slice(&self, sect: &Mask) -> (cut: Result<Board, SliceError>)
        requires
            self.wf(),
            self@.cells.len() > 0 || sect.w * sect.h == 0,
        ensures
            match cut {
                Ok(board) => {
                    &&& sect.w > 0
                    &&& sect.w * sect.h <= u32::MAX
                    &&& board.wf()
                    &&& board@ == self@.window(
                        sect.x as int,
                        sect.y as int,
                        sect.w as int,
                        sect.h as int,
                    )
                },
                Err(SliceError::EmptyWidth) => sect.w == 0,
                Err(SliceError::TooLarge) => sect.w > 0 && sect.w * sect.h > u32::MAX,
            },
    {
        if sect.w == 0 {
            return Err(SliceError::EmptyWidth);
        }
        assert(sect.w * sect.h <= 0xffff_ffff * 0xffff_ffff) by (nonlinear_arith)
            requires
                sect.w <= 0xffff_ffff,
                sect.h <= 0xffff_ffff,
        ;
        let total: u64 = sect.w as u64 * sect.h as u64;
        if total > u32::MAX as u64 {
            return Err(SliceError::TooLarge);
        }
        let ghost g = self@;
        let ghost want = g.window(sect.x as int, sect.y as int, sect.w as int, sect.h as int);
        let mut out: Vec<bool> = Vec::with_capacity(total as usize);
        let mut row: u32 = 0;
        while row < sect.h
            invariant
                self.wf(),
                g == self@,
                sect.w > 0,
                total == sect.w * sect.h,
                total <= u32::MAX,
                total > 0 ==> g.cells.len() > 0,
                row <= sect.h,
                want == g.window(sect.x as int, sect.y as int, sect.w as int, sect.h as int),
                out@ == want.cells.take(row * sect.w),
                row * sect.w <= total,
            decreases sect.h - row,
        {
            let mut col: u32 = 0;
            proof {
                assert((row + 1) * sect.w <= sect.w * sect.h) by (nonlinear_arith)
                    requires
                        row < sect.h,
                        sect.w > 0,
                ;
                assert((row + 1) * sect.w == row * sect.w + sect.w) by (nonlinear_arith);
                assert(g.cells.len() > 0);
                lemma_nonempty_has_rows(g);
            }
            while col < sect.w
                invariant
                    self.wf(),
                    g == self@,
                    g.height() > 0,
                    sect.w > 0,
                    total == sect.w * sect.h,
                    total <= u32::MAX,
                    row < sect.h,
                    col <= sect.w,
                    row * sect.w + sect.w <= total,
                    want == g.window(sect.x as int, sect.y as int, sect.w as int, sect.h as int),
                    out@ == want.cells.take(row * sect.w + col),
                decreases sect.w - col,
            {
                let cell = self.get(
                    Point { x: sect.x as i64 + col as i64, y: sect.y as i64 + row as i64 },
                );
                proof {
                    lemma_row_col(row * sect.w + col, row as int, col as int, sect.w as int);
                    assert(want.cells[row * sect.w + col] == cell);
                }
                out.push(cell);
                col = col + 1;
                assert(out@ =~= want.cells.take(row * sect.w + col));
            }
            row = row + 1;
        }
        proof {
            assert(row * sect.w == total) by (nonlinear_arith)
                requires
                    row == sect.h,
                    total == sect.w * sect.h,
            ;
            assert(out@ =~= want.cells);
            vstd::arithmetic::div_mod::lemma_mod_multiples_basic(sect.h as int, sect.w as int);
            assert(sect.w * sect.h == sect.h * sect.w) by (nonlinear_arith);
        }
        Ok(Board { buf: out, width: sect.w })
    }

    /// Every cell with its column and row, in buffer order.
    pub fn pixels(&self) -> (all: Vec<(Point, bool)>)
        requires
            self.wf(),
        ensures
            all@ == self@.pixels(),
    {
        let ghost g = self@;
        let mut all: Vec<(Point, bool)> = Vec::with_capacity(self.buf.len());
        let mut i: usize = 0;
        while i < self.buf.len()
            invariant
                self.wf(),
                g == self@,
                i <= self.buf.len(),
                all@ == g.pixels().take(i as int),
            decreases self.buf.len() - i,
        {
            let x = (i % self.width as usize) as i64;
            let y = (i / self.width as usize) as i64;
            all.push((Point { x, y }, self.buf[i]));
            i = i + 1;
            assert(all@ =~= g.pixels().take(i as int));
        }
        assert(all@ =~= g.pixels());
        all
    }

    /// Every cell with its column and row, in buffer order, each to be
    /// written through: what is left in a cell when the borrows end is
    /// what the board holds there.
    pub fn pixels_mut(&mut self) -> (all: Vec<(Point, &mut bool)>)
        requires
            old(self).wf(),
        ensures
            all@.len() == old(self)@.cells.len(),
            forall|i: int|
                0 <= i < all@.len() ==> (#[trigger] all@[i]).0 == old(self)@.pixels()[i].0
                    && *all@[i].1 == old(self)@.cells[i],
            final(self).wf(),
            final(self)@.width == old(self)@.width,
            final(self)@.cells == Seq::new(all@.len(), |i: int| *final(all@[i].1)),
    {
        let ghost g = self@;
        let width = self.width as usize;
        let cells = self.buf.as_mut_slice();
        let ghost fin = final(cells)@;
        let mut all: Vec<(Point, &mut bool)> = Vec::new();
        let mut rest: &mut [bool] = cells;
        let mut at: usize = 0;
        while rest.len() > 0
            invariant
                g.wf(),
                width == g.width,
                at == all@.len(),
                at + rest@.len() == g.cells.len(),
                rest@ == g.cells.skip(at as int),
                forall|i: int|
                    0 <= i < all@.len() ==> (#[trigger] all@[i]).0 == g.pixels()[i].0 && *all@[i].1
                        == g.cells[i],
                fin == Seq::new(all@.len(), |i: int| *final(all@[i].1)) + final(rest)@,
            decreases rest@.len(),
        {
            let ghost done = Seq::new(all@.len(), |i: int| *final(all@[i].1));
            let (head, tail) = rest.split_at_mut(1);
            let first = head.first_mut().unwrap();
            let ghost last = *final(first);
            let pt = Point { x: (at % width) as i64, y: (at / width) as i64 };
            all.push((pt, first));
            rest = tail;
            at = at + 1;
            proof {
                let now = Seq::new(all@.len(), |i: int| *final(all@[i].1));
                assert(now =~= done.push(last));
                assert(fin =~= now + final(rest)@);
            }
        }
        proof {
            let now = Seq::new(all@.len(), |i: int| *final(all@[i].1));
            assert(fin =~= now);
        }
        all
    }

    /// How many cells are alive.
    pub fn alive(&self) -> (count: usize)
        ensures
            count == live_count(self@.cells),
    {
        let mut count: usize = 0;
        let mut i: usize = 0;
        while i < self.buf.len()
            invariant
                i <= self.buf.len(),
                count <= i,
                count == live_count(self.buf@.take(i as int)),
            decreases self.buf.len() - i,
        {
            assert(self.buf@.take(i + 1).drop_last() =~= self.buf@.take(i as int));
            if self.buf[i] {
                count = count + 1;
            }
            i = i + 1;
        }
        assert(self.buf@.take(i as int) =~= self.buf@);
        count
    }
}

impl core::ops::Index<Point> for Board {
    type Output = bool;

    /// The cell at `index`, read on the torus.
    fn index(&self, index: Point) -> (cell: &bool)
        ensures
            *cell == self@.at(index.x as int, index.y as int),
    {
        let at = self.pt_to_index(index);
        &self.buf[at]
    }
}

impl vstd::std_specs::core::IndexSpecImpl<Point> for Board {
    open spec fn index_req(&self, index: &Point) -> bool {
        self.wf() && self@.height() > 0
    }
}

} // verus!
