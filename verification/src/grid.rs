//! The mathematical model of the grid: a torus of cells and the generation
//! step on it.

use vstd::prelude::*;
use crate::cell::{CellState, flipped, rule};
use crate::modulo::{floored_mod, lemma_floored_mod, lemma_floored_mod_unique};

verus! {

/// A grid as a sequence of rows, each a sequence of cell states.
pub type Grid = Seq<Seq<CellState>>;

/// `g` has `height` rows of `width` cells each.
pub open spec fn rectangular(g: Grid, height: nat, width: nat) -> bool {
    &&& g.len() == height
    &&& forall|i: int| 0 <= i < g.len() ==> (#[trigger] g[i]).len() == width
}

/// The grid of the given size in which every cell is dead.
pub open spec fn dead_grid(height: nat, width: nat) -> Grid {
    Seq::new(height, |i: int| Seq::new(width, |j: int| CellState::Dead))
}

/// The index in `0..n` that `k` wraps around to.
#[verifier::opaque]
pub open spec fn wrap(k: int, n: int) -> int
    recommends
        n > 0,
{
    floored_mod(k, n)
}

/// The cell that `(row, col)` wraps around to on a torus of `height` rows
/// and `width` columns.
pub open spec fn wrapped(row: int, col: int, height: int, width: int) -> (int, int)
    recommends
        height > 0,
        width > 0,
{
    (wrap(row, height), wrap(col, width))
}

/// The eight cells around `(i, j)` on the torus, row by row. On a torus of
/// fewer than three rows or columns some cell comes more than once.
pub open spec fn neighbourhood(i: int, j: int, height: int, width: int) -> Seq<(int, int)>
    recommends
        height > 0,
        width > 0,
{
    seq![
        wrapped(i - 1, j - 1, height, width),
        wrapped(i - 1, j, height, width),
        wrapped(i - 1, j + 1, height, width),
        wrapped(i, j - 1, height, width),
        wrapped(i, j + 1, height, width),
        wrapped(i + 1, j - 1, height, width),
        wrapped(i + 1, j, height, width),
        wrapped(i + 1, j + 1, height, width),
    ]
}

/// 1 if the cell `at` is alive in `g`, else 0.
pub open spec fn alive_at(g: Grid, at: (int, int)) -> int {
    if g[at.0][at.1] == CellState::Alive {
        1
    } else {
        0
    }
}

/// The number of live cells among the eight around `(i, j)` on the torus,
/// each counted as often as it comes in the neighbourhood.
#[verifier::opaque]
pub open spec fn live_neighbours(g: Grid, i: int, j: int) -> int {
    let around = neighbourhood(i, j, g.len() as int, g[i].len() as int);
    alive_at(g, around[0]) + alive_at(g, around[1]) + alive_at(g, around[2]) + alive_at(
        g,
        around[3],
    ) + alive_at(g, around[4]) + alive_at(g, around[5]) + alive_at(g, around[6]) + alive_at(
        g,
        around[7],
    )
}

/// The next generation: every cell goes by the rule, on the live neighbours
/// that it has in `g`.
pub open spec fn step(g: Grid) -> Grid {
    Seq::new(
        g.len(),
        |i: int| Seq::new(g[i].len(), |j: int| rule(g[i][j], live_neighbours(g, i, j))),
    )
}

/// `g` after `n` generations.
pub open spec fn steps(g: Grid, n: nat) -> Grid
    decreases n,
{
    if n == 0 {
        g
    } else {
        step(steps(g, (n - 1) as nat))
    }
}

/// `g` with the cell at `(i, j)` flipped.
pub open spec fn toggled(g: Grid, i: int, j: int) -> Grid
    recommends
        0 <= i < g.len(),
        0 <= j < g[i].len(),
{
    g.update(i, g[i].update(j, flipped(g[i][j])))
}

/// On the torus an index in range stays, the one before the first is the
/// last, and the one after the last is the first.
pub proof fn lemma_wrap(i: int, n: int)
    requires
        0 <= i < n,
    ensures
        wrap(i, n) == i,
        wrap(i - 1, n) == if i == 0 { n - 1 } else { i - 1 },
        wrap(i + 1, n) == if i == n - 1 { 0 } else { i + 1 },
        0 <= wrap(i - 1, n) < n,
        0 <= wrap(i + 1, n) < n,
{
    reveal(wrap);
    lemma_floored_mod_unique(i, n, 0, i);
    if i == 0 {
        lemma_floored_mod_unique(i - 1, n, -1, n - 1);
    } else {
        lemma_floored_mod_unique(i - 1, n, 0, i - 1);
    }
    if i == n - 1 {
        lemma_floored_mod_unique(i + 1, n, 1, 0);
    } else {
        lemma_floored_mod_unique(i + 1, n, 0, i + 1);
    }
}

/// Whatever index is wrapped, the result is an index of the ring.
pub proof fn lemma_wrap_in_range(k: int, n: int)
    requires
        n > 0,
    ensures
        0 <= wrap(k, n) < n,
{
    reveal(wrap);
    lemma_floored_mod(k, n);
}

/// The neighbourhood of any cell lies in the grid: no index is negative or
/// past the end.
pub proof fn lemma_neighbourhood_in_range(i: int, j: int, height: int, width: int)
    requires
        height > 0,
        width > 0,
    ensures
        neighbourhood(i, j, height, width).len() == 8,
        forall|k: int|
            0 <= k < 8 ==> {
                let at = #[trigger] neighbourhood(i, j, height, width)[k];
                0 <= at.0 < height && 0 <= at.1 < width
            },
{
    lemma_wrap_in_range(i - 1, height);
    lemma_wrap_in_range(i, height);
    lemma_wrap_in_range(i + 1, height);
    lemma_wrap_in_range(j - 1, width);
    lemma_wrap_in_range(j, width);
    lemma_wrap_in_range(j + 1, width);
}

/// The neighbourhood of the corner cell `(0, 0)` reaches round the edges to
/// the last row and the last column.
pub proof fn lemma_corner_neighbourhood(height: int, width: int)
    requires
        height >= 2,
        width >= 2,
    ensures
        neighbourhood(0, 0, height, width) == seq![
            (height - 1, width - 1),
            (height - 1, 0),
            (height - 1, 1),
            (0, width - 1),
            (0, 1),
            (1, width - 1),
            (1, 0),
            (1, 1),
        ],
{
    lemma_wrap(0, height);
    lemma_wrap(0, width);
}

/// In the next generation every cell is what the rule makes of its state
/// and of its live neighbours in this one.
pub proof fn lemma_step_cell(g: Grid, i: int, j: int)
    requires
        0 <= i < g.len(),
        0 <= j < g[i].len(),
    ensures
        step(g)[i][j] == rule(g[i][j], live_neighbours(g, i, j)),
        0 <= live_neighbours(g, i, j) <= 8,
{
    reveal(live_neighbours);
}

} // verus!
