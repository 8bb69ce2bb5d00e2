//! The generation step: the rule of Life applied to every cell, with the
//! rows of the board handed out in chunks to a pool of workers.

use crate::gol::{
    lemma_at_shift, lemma_index_in_range, lemma_row_col, live_count, Board, Grid, Point,
};
use rayon::iter::{IndexedParallelIterator, ParallelIterator};
use rayon::slice::ParallelSliceMut;
use vstd::prelude::*;

verus! {

/// How many of the eight cells around `(x, y)` are alive.
pub open spec fn live_neighbors(g: Grid, x: int, y: int) -> nat {
    live_count(g.neighbors(x, y))
}

/// The rule of Life: a cell is alive in the next generation when it has
/// three live neighbors, or is alive now and has two.
pub open spec fn next_cell(g: Grid, x: int, y: int) -> bool {
    let n = live_neighbors(g, x, y);
    n == 3 || (g.at(x, y) && n == 2)
}

/// The cell of the next generation that lands at flat index `i`.
pub open spec fn next_at(g: Grid, i: int) -> bool {
    next_cell(g, i % (g.width as int), i / (g.width as int))
}

/// The generation after `g`.
pub open spec fn next_generation(g: Grid) -> Grid {
    Grid { width: g.width, cells: Seq::new(g.cells.len(), |i: int| next_at(g, i)) }
}

/// The next generation, read on the torus at any coordinate, holds what
/// the rule gives for that coordinate.
pub proof fn lemma_next_generation_at(g: Grid, x: int, y: int)
    requires
        g.wf(),
        g.height() > 0,
    ensures
        next_generation(g).wf(),
        next_generation(g).height() == g.height(),
        next_generation(g).at(x, y) == next_cell(g, x, y),
{
    let w = g.width as int;
    let h = g.height() as int;
    let n = next_generation(g);
    let cx = x % w;
    let cy = y % h;
    lemma_index_in_range(g, x, y);
    lemma_row_col(g.index_of(x, y), cy, cx, w);
    assert(n.index_of(x, y) == g.index_of(x, y));
    assert(n.at(x, y) == next_cell(g, cx, cy));
    lemma_at_shift(g, x, y, 0, 0);
    lemma_at_shift(g, x, y, 1, 0);
    lemma_at_shift(g, x, y, -1, 0);
    lemma_at_shift(g, x, y, 0, 1);
    lemma_at_shift(g, x, y, 0, -1);
    lemma_at_shift(g, x, y, 1, -1);
    lemma_at_shift(g, x, y, 1, 1);
    lemma_at_shift(g, x, y, -1, -1);
    lemma_at_shift(g, x, y, -1, 1);
    assert(g.neighbors(cx, cy) =~= g.neighbors(x, y));
}

/// A live cell with no live neighbor is dead in the next generation.
pub proof fn lemma_lonely_cell_dies(g: Grid, x: int, y: int)
    requires
        g.wf(),
        g.height() > 0,
        g.at(x, y),
        live_neighbors(g, x, y) == 0,
    ensures
        !next_generation(g).at(x, y),
{
    lemma_next_generation_at(g, x, y);
}

/// Whether the cell at `pt` is alive in the next generation.
pub fn calc_px(board: &Board, pt: &Point) -> (alive: bool)
    requires
        board.wf(),
        board@.height() > 0,
    ensures
        alive == next_cell(board@, pt.x as int, pt.y as int),
{
    let around = board.neighbors(pt);
    let mut count: usize = 0;
    let mut i: usize = 0;
    while i < 8
        invariant
            i <= 8,
            count <= i,
            count == live_count(around@.take(i as int)),
        decreases 8 - i,
    {
        assert(around@.take(i + 1).drop_last() =~= around@.take(i as int));
        if around[i] {
            count = count + 1;
        }
        i = i + 1;
    }
    assert(around@.take(8) =~= around@);
    let imalive = board.get(*pt);
    if !imalive && count == 3 {
        true
    } else if imalive && (count < 2 || count > 3) {
        false
    } else {
        imalive
    }
}

/// Fills `cells`, the chunk of the next generation that starts at flat
/// index `k * chunk`.
pub fn step_chunk(board: &Board, k: usize, chunk: usize, cells: &mut [bool])
    requires
        board.wf(),
        k * chunk + old(cells)@.len() <= board@.cells.len(),
    ensures
        final(cells)@.len() == old(cells)@.len(),
        forall|j: int|
            0 <= j < old(cells)@.len() ==> final(cells)@[j] == next_at(board@, k * chunk + j),
{
    let n = cells.len();
    let w = board.width() as usize;
    let start = k * chunk;
    let mut j: usize = 0;
    while j < n
        invariant
            board.wf(),
            w == board@.width,
            start == k * chunk,
            n == cells@.len(),
            start + n <= board@.cells.len(),
            j <= n,
            forall|i: int| 0 <= i < j ==> cells@[i] == next_at(board@, start + i),
        decreases n - j,
    {
        let at = start + j;
        proof {
            crate::gol::lemma_nonempty_has_rows(board@);
            vstd::arithmetic::div_mod::lemma_fundamental_div_mod(at as int, w as int);
            assert(0 <= at as int / w as int <= at) by (nonlinear_arith)
                requires
                    0 <= at,
                    0 < w,
            ;
        }
        let pt = Point { x: (at % w) as i64, y: (at / w) as i64 };
        let alive = calc_px(board, &pt);
        let ghost before = cells@;
        cells[j] = alive;
        assert(cells@ == before.update(j as int, alive));
        j = j + 1;
    }
}

/// Why no next generation was computed.
#[derive(Clone, Copy, Debug, PartialEq, Eq, Structural)]
pub enum TurnError {
    /// The rows cannot be shared out among zero workers.
    NoWorkers,
}

/// The rows each worker takes when `threads` workers share `height` rows:
/// the quotient, rounded up.
pub open spec fn rows_per_chunk(height: nat, threads: nat) -> nat {
    ((height + threads - 1) / (threads as int)) as nat
}

/// The cells that the worker of chunk `k` writes when the buffer is cut
/// every `chunk` cells: the rule applied to its own run of the buffer,
/// which is shorter only for the last chunk.
pub open spec fn chunk_cells(g: Grid, chunk: int, k: int) -> Seq<bool> {
    let start = k * chunk;
    let end = vstd::math::min(start + chunk, g.cells.len() as int);
    Seq::new((end - start) as nat, |j: int| next_at(g, start + j))
}

/// The first `n` chunks, one after the other.
pub open spec fn joined_chunks(g: Grid, chunk: int, n: nat) -> Seq<bool>
    decreases n,
{
    if n == 0 {
        Seq::empty()
    } else {
        joined_chunks(g, chunk, (n - 1) as nat) + chunk_cells(g, chunk, n - 1)
    }
}

/// The next generation as `threads` workers build it: each takes
/// `rows_per_chunk` whole rows, and their chunks are laid end to end.
pub open spec fn partitioned_generation(g: Grid, threads: nat) -> Grid {
    let chunk = rows_per_chunk(g.height(), threads) * g.width;
    Grid {
        width: g.width,
        cells: if chunk == 0 {
            Seq::empty()
        } else {
            joined_chunks(g, chunk as int, ((g.cells.len() + chunk - 1) / (chunk as int)) as nat)
        },
    }
}

/// The first `n` chunks hold the first `n * chunk` cells of the next
/// generation, or all of them where there are fewer.
pub proof fn lemma_joined_chunks(g: Grid, chunk: int, n: nat)
    requires
        chunk > 0,
        (n - 1) * chunk < g.cells.len() || n == 0,
    ensures
        joined_chunks(g, chunk, n) == Seq::new(
            vstd::math::min(n * chunk, g.cells.len() as int) as nat,
            |i: int| next_at(g, i),
        ),
    decreases n,
{
    let len = g.cells.len() as int;
    let want = Seq::new(vstd::math::min(n * chunk, len) as nat, |i: int| next_at(g, i));
    if n == 0 {
        assert(joined_chunks(g, chunk, n) =~= want);
    } else {
        let m = (n - 1) as nat;
        assert(n * chunk == m * chunk + chunk) by (nonlinear_arith)
            requires
                m == n - 1,
        ;
        if m > 0 {
            assert((m - 1) * chunk < m * chunk) by (nonlinear_arith)
                requires
                    chunk > 0,
            ;
        }
        lemma_joined_chunks(g, chunk, m);
        assert(joined_chunks(g, chunk, n) =~= want);
    }
}

/// Sharing the rows out among workers changes nothing: for every positive
/// worker count the chunks, laid end to end, are the next generation as
/// one worker computes it cell after cell.
pub proof fn lemma_partition_is_sequential(g: Grid, threads: nat)
    requires
        g.wf(),
        threads > 0,
    ensures
        partitioned_generation(g, threads) == next_generation(g),
{
    let len = g.cells.len() as int;
    let w = g.width as int;
    vstd::arithmetic::div_mod::lemma_fundamental_div_mod(len, w);
    if g.height() == 0 {
        assert(rows_per_chunk(g.height(), threads) == 0) by {
            vstd::arithmetic::div_mod::lemma_basic_div(threads - 1, threads as int);
        }
        assert(rows_per_chunk(g.height(), threads) * g.width == 0) by (nonlinear_arith)
            requires
                rows_per_chunk(g.height(), threads) == 0,
        ;
        assert(len == 0) by (nonlinear_arith)
            requires
                len == w * (len / w) + len % w,
                len / w == 0,
                len % w == 0,
        ;
        assert(partitioned_generation(g, threads).cells =~= next_generation(g).cells);
    } else {
        lemma_chunk_rows(g.height(), threads);
        let rows = rows_per_chunk(g.height(), threads);
        let chunk = (rows * g.width) as int;
        assert(chunk > 0) by (nonlinear_arith)
            requires
                chunk == rows * g.width,
                rows > 0,
                g.width > 0,
        ;
        let n = (len + chunk - 1) / chunk;
        let r = (len + chunk - 1) % chunk;
        vstd::arithmetic::div_mod::lemma_fundamental_div_mod(len + chunk - 1, chunk);
        assert(n >= 1 && (n - 1) * chunk < len && n * chunk >= len) by (nonlinear_arith)
            requires
                len + chunk - 1 == chunk * n + r,
                0 <= r < chunk,
                len > 0,
        ;
        lemma_joined_chunks(g, chunk, n as nat);
        assert(vstd::math::min(n * chunk, len) == len);
        assert(partitioned_generation(g, threads).cells == joined_chunks(g, chunk, n as nat));
        assert(partitioned_generation(g, threads).cells =~= next_generation(g).cells);
    }
}

/// Any two positive worker counts give the same next generation.
pub proof fn lemma_worker_count_unobservable(g: Grid, a: nat, b: nat)
    requires
        g.wf(),
        a > 0,
        b > 0,
    ensures
        partitioned_generation(g, a) == partitioned_generation(g, b),
{
    lemma_partition_is_sequential(g, a);
    lemma_partition_is_sequential(g, b);
}

/// The flat index of cell `j` of chunk `k`.
pub open spec fn chunk_index(k: int, chunk: int, j: int) -> int {
    k * chunk + j
}

/// Splits `out` into consecutive chunks of `chunk` cells, the last one
/// possibly shorter, with rayon's `par_chunks_mut`, numbers them with
/// `enumerate`, and has `for_each` run `step_chunk` once on every chunk.
/// The contract is what `step_chunk` leaves in each chunk; that the pool
/// runs it on each of them exactly once is taken from rayon.
#[verifier::external_body]
fn fill_chunks(board: &Board, chunk: usize, out: &mut Vec<bool>)
    requires
        board.wf(),
        chunk > 0,
        old(out)@.len() == board@.cells.len(),
    ensures
        final(out)@.len() == old(out)@.len(),
        forall|k: int, j: int|
            0 <= k && 0 <= j < chunk && k * chunk + j < old(out)@.len() ==> final(out)@[#[trigger] chunk_index(
                k,
                chunk as int,
                j,
            )] == next_at(board@, k * chunk + j),
{
    out.par_chunks_mut(chunk).enumerate().for_each(
        |(k, cells)| step_chunk(board, k, chunk, cells),
    );
}

/// The generation after `board`, computed by workers that each fill a run
/// of whole rows. The result does not depend on how many workers share
/// the rows.
pub fn run_turn(board: Board, threads: u32) -> (turn: Result<Board, TurnError>)
    requires
        board.wf(),
    ensures
        match turn {
            Ok(next) => {
                &&& threads > 0
                &&& next.wf()
                &&& next@ == next_generation(board@)
                &&& next@ == partitioned_generation(board@, threads as nat)
            },
            Err(TurnError::NoWorkers) => threads == 0,
        },
{
    if threads == 0 {
        return Err(TurnError::NoWorkers);
    }
    proof {
        lemma_partition_is_sequential(board@, threads as nat);
    }
    let width = board.width();
    let height = board.height();
    if height == 0 {
        proof {
            vstd::arithmetic::div_mod::lemma_fundamental_div_mod(
                board@.cells.len() as int,
                board@.width as int,
            );
            assert(board@.cells =~= next_generation(board@).cells);
        }
        return Ok(board);
    }
    let rows = ((height as u64 + threads as u64 - 1) / threads as u64) as u32;
    proof {
        lemma_chunk_rows(height as nat, threads as nat);
        crate::gol::lemma_index_in_range(board@, 0, 0);
        assert(rows * width <= height * width) by (nonlinear_arith)
            requires
                rows <= height,
                0 <= width,
        ;
        assert(rows * width > 0) by (nonlinear_arith)
            requires
                rows > 0,
                width > 0,
        ;
        assert(height * width == width * height) by (nonlinear_arith);
    }
    let chunk = rows as usize * width as usize;
    let mut out = board.clone().into_cells();
    fill_chunks(&board, chunk, &mut out);
    proof {
        assert forall|i: int| 0 <= i < out@.len() implies out@[i] == next_at(board@, i) by {
            let k = i / (chunk as int);
            let j = i % (chunk as int);
            vstd::arithmetic::div_mod::lemma_fundamental_div_mod(i, chunk as int);
            assert(k * chunk == chunk * k) by (nonlinear_arith);
            assert(k >= 0) by (nonlinear_arith)
                requires
                    k == i / (chunk as int),
                    i >= 0,
                    chunk > 0,
            ;
            assert(chunk_index(k, chunk as int, j) == i);
        }
        assert(out@ =~= next_generation(board@).cells);
    }
    Ok(Board::new(width, out))
}

/// Rounding the share of rows up leaves every worker at least one row and
/// no worker more than all of them.
pub proof fn lemma_chunk_rows(height: nat, threads: nat)
    requires
        height > 0,
        threads > 0,
    ensures
        0 < rows_per_chunk(height, threads) <= height,
        rows_per_chunk(height, threads) * threads >= height,
{
    let t = threads as int;
    let n = height + threads - 1;
    vstd::arithmetic::div_mod::lemma_fundamental_div_mod(n, t);
    let q = n / t;
    let r = n % t;
    assert(q >= 1) by (nonlinear_arith)
        requires
            n == t * q + r,
            0 <= r < t,
            n >= t,
    ;
    assert(q <= height) by (nonlinear_arith)
        requires
            n == t * q + r,
            0 <= r,
            t >= 1,
            n == height + t - 1,
            q >= 1,
    ;
    assert(q * t >= height) by (nonlinear_arith)
        requires
            n == t * q + r,
            r < t,
            n == height + t - 1,
    ;
}

} // verus!
