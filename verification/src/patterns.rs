//! Two patterns whose fate is known: the block, which stays, and the
//! blinker, which turns and turns back.

use vstd::prelude::*;
use crate::cell::CellState;
use crate::grid::{Grid, lemma_wrap, live_neighbours, step, steps, wrap};

verus! {

/// `k` is `r` or the index after it on a ring of `n`.
#[verifier::opaque]
pub open spec fn in_pair(k: int, r: int, n: int) -> bool {
    k == r || k == wrap(r + 1, n)
}

/// `k` is `c` or the index before or after it on a ring of `n`.
#[verifier::opaque]
pub open spec fn in_triple(k: int, c: int, n: int) -> bool {
    k == wrap(c - 1, n) || k == c || k == wrap(c + 1, n)
}

/// The grid with a block whose upper left cell is `(r, c)`: that cell, the
/// one to its right and the two below them are alive, all others dead.
pub open spec fn block(height: nat, width: nat, r: int, c: int) -> Grid {
    Seq::new(
        height,
        |i: int|
            Seq::new(
                width,
                |j: int|
                    if in_pair(i, r, height as int) && in_pair(j, c, width as int) {
                        CellState::Alive
                    } else {
                        CellState::Dead
                    },
            ),
    )
}

/// The grid with a horizontal blinker centred at `(r, c)`: that cell and the
/// ones to its left and right are alive, all others dead.
pub open spec fn blinker_across(height: nat, width: nat, r: int, c: int) -> Grid {
    Seq::new(
        height,
        |i: int|
            Seq::new(
                width,
                |j: int|
                    if i == r && in_triple(j, c, width as int) {
                        CellState::Alive
                    } else {
                        CellState::Dead
                    },
            ),
    )
}

/// The grid with a vertical blinker centred at `(r, c)`: that cell and the
/// ones above and below it are alive, all others dead.
pub open spec fn blinker_down(height: nat, width: nat, r: int, c: int) -> Grid {
    Seq::new(
        height,
        |i: int|
            Seq::new(
                width,
                |j: int|
                    if in_triple(i, r, height as int) && j == c {
                        CellState::Alive
                    } else {
                        CellState::Dead
                    },
            ),
    )
}

/// Around an index of a pair lies exactly one other index of the pair, and
/// around any other index at most one.
proof fn lemma_pair_profile(i: int, r: int, n: int)
    requires
        n >= 4,
        0 <= i < n,
        0 <= r < n,
    ensures
        in_pair(i, r, n) ==> in_pair(wrap(i - 1, n), r, n) != in_pair(wrap(i + 1, n), r, n),
        !in_pair(i, r, n) ==> !(in_pair(wrap(i - 1, n), r, n) && in_pair(wrap(i + 1, n), r, n)),
{
    reveal(in_pair);
    lemma_wrap(i, n);
    lemma_wrap(r, n);
}

/// The two indices around an index differ from it, and from each other.
proof fn lemma_single_profile(i: int, n: int)
    requires
        n >= 3,
        0 <= i < n,
    ensures
        wrap(i - 1, n) != i,
        wrap(i + 1, n) != i,
        wrap(i - 1, n) != wrap(i + 1, n),
{
    lemma_wrap(i, n);
}

/// Around the middle of a triple lie its two other indices, around each of
/// these exactly one index of the triple, and around any other index at
/// most one. The triple is the middle and the indices that have it beside
/// them.
proof fn lemma_triple_profile(j: int, c: int, n: int)
    requires
        n >= 5,
        0 <= j < n,
        0 <= c < n,
    ensures
        in_triple(j, c, n) <==> (j == c || wrap(j - 1, n) == c || wrap(j + 1, n) == c),
        j == c ==> in_triple(wrap(j - 1, n), c, n) && in_triple(wrap(j + 1, n), c, n),
        in_triple(j, c, n) && j != c ==> in_triple(wrap(j - 1, n), c, n) != in_triple(
            wrap(j + 1, n),
            c,
            n,
        ),
        !in_triple(j, c, n) ==> !(in_triple(wrap(j - 1, n), c, n) && in_triple(
            wrap(j + 1, n),
            c,
            n,
        )),
{
    reveal(in_triple);
    lemma_wrap(j, n);
    lemma_wrap(c, n);
}

/// The indices of a cell of the grid wrap to themselves, and the four
/// indices around them are indices of the grid.
proof fn lemma_around_in_range(i: int, j: int, height: int, width: int)
    requires
        0 <= i < height,
        0 <= j < width,
    ensures
        wrap(i, height) == i,
        wrap(j, width) == j,
        0 <= wrap(i - 1, height) < height,
        0 <= wrap(i + 1, height) < height,
        0 <= wrap(j - 1, width) < width,
        0 <= wrap(j + 1, width) < width,
{
    lemma_wrap(i, height);
    lemma_wrap(j, width);
}

/// A block on an otherwise dead grid of at least four rows and columns is
/// the same in the next generation.
pub proof fn lemma_block_is_still(height: nat, width: nat, r: int, c: int)
    requires
        height >= 4,
        width >= 4,
        0 <= r < height,
        0 <= c < width,
    ensures
        step(block(height, width, r, c)) == block(height, width, r, c),
{
    let g = block(height, width, r, c);
    assert forall|i: int, j: int| 0 <= i < height && 0 <= j < width implies #[trigger] step(
        g,
    )[i][j] == g[i][j] by {
        lemma_around_in_range(i, j, height as int, width as int);
        lemma_pair_profile(i, r, height as int);
        lemma_pair_profile(j, c, width as int);
        reveal(live_neighbours);
    }
    assert(step(g) =~~= g);
}

/// The block stays as it is for any number of generations.
pub proof fn lemma_block_stays(height: nat, width: nat, r: int, c: int, n: nat)
    requires
        height >= 4,
        width >= 4,
        0 <= r < height,
        0 <= c < width,
    ensures
        steps(block(height, width, r, c), n) == block(height, width, r, c),
    decreases n,
{
    if n > 0 {
        lemma_block_stays(height, width, r, c, (n - 1) as nat);
        lemma_block_is_still(height, width, r, c);
    }
}

/// On an otherwise dead grid of at least five rows and columns a horizontal
/// blinker is a vertical one in the next generation.
pub proof fn lemma_blinker_turns_down(height: nat, width: nat, r: int, c: int)
    requires
        height >= 5,
        width >= 5,
        0 <= r < height,
        0 <= c < width,
    ensures
        step(blinker_across(height, width, r, c)) == blinker_down(height, width, r, c),
{
    let across = blinker_across(height, width, r, c);
    let down = blinker_down(height, width, r, c);
    assert forall|i: int, j: int| 0 <= i < height && 0 <= j < width implies #[trigger] step(
        across,
    )[i][j] == down[i][j] by {
        lemma_around_in_range(i, j, height as int, width as int);
        lemma_single_profile(i, height as int);
        lemma_triple_profile(i, r, height as int);
        lemma_triple_profile(j, c, width as int);
        reveal(live_neighbours);
    }
    assert(step(across) =~~= down);
}

/// And a vertical blinker is a horizontal one in the next generation.
pub proof fn lemma_blinker_turns_across(height: nat, width: nat, r: int, c: int)
    requires
        height >= 5,
        width >= 5,
        0 <= r < height,
        0 <= c < width,
    ensures
        step(blinker_down(height, width, r, c)) == blinker_across(height, width, r, c),
{
    let across = blinker_across(height, width, r, c);
    let down = blinker_down(height, width, r, c);
    assert forall|i: int, j: int| 0 <= i < height && 0 <= j < width implies #[trigger] step(
        down,
    )[i][j] == across[i][j] by {
        lemma_around_in_range(i, j, height as int, width as int);
        lemma_single_profile(j, width as int);
        lemma_triple_profile(j, c, width as int);
        lemma_triple_profile(i, r, height as int);
        reveal(live_neighbours);
    }
    assert(step(down) =~~= across);
}

/// The blinker has period two: a horizontal one is vertical after one
/// generation and horizontal again after two.
pub proof fn lemma_blinker_period_two(height: nat, width: nat, r: int, c: int)
    requires
        height >= 5,
        width >= 5,
        0 <= r < height,
        0 <= c < width,
    ensures
        steps(blinker_across(height, width, r, c), 1) == blinker_down(height, width, r, c),
        steps(blinker_across(height, width, r, c), 2) == blinker_across(height, width, r, c),
{
    lemma_blinker_turns_down(height, width, r, c);
    lemma_blinker_turns_across(height, width, r, c);
    reveal_with_fuel(steps, 3);
}

} // verus!
