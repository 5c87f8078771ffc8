//! What a change of the grid puts on the screen: the writes for the cells
//! that changed, and none for the others.

use vstd::prelude::*;
use crate::cell::{CellState, glyph_of};
use crate::grid::{Grid, rectangular};

verus! {

/// One character written at a position of the terminal. Positions count
/// from 1: `x` is the column, `y` the row.
#[derive(Clone, Copy, Debug, PartialEq, Eq, Structural)]
pub struct CellWrite {
    pub x: u16,
    pub y: u16,
    pub glyph: char,
}

impl CellWrite {
    /// The position is one of a terminal of the given size.
    pub open spec fn within(self, width: nat, height: nat) -> bool {
        1 <= self.x <= width && 1 <= self.y <= height
    }
}

/// Every one of `writes` is at a position of a terminal of the given size.
pub open spec fn all_within(writes: Seq<CellWrite>, width: nat, height: nat) -> bool {
    forall|k: int| 0 <= k < writes.len() ==> (#[trigger] writes[k]).within(width, height)
}

/// The write that shows the cell at `(row, col)` of the grid in `state`.
pub open spec fn write_for(row: int, col: int, state: CellState) -> CellWrite {
    CellWrite { x: (col + 1) as u16, y: (row + 1) as u16, glyph: glyph_of(state) }
}

/// The writes for the cells among the first `upto` of row `row` that differ
/// between `before` and `after`, from left to right.
pub open spec fn row_changes(before: Grid, after: Grid, row: int, upto: int) -> Seq<CellWrite>
    decreases upto,
{
    if upto <= 0 {
        Seq::empty()
    } else {
        let earlier = row_changes(before, after, row, upto - 1);
        if before[row][upto - 1] != after[row][upto - 1] {
            earlier.push(write_for(row, upto - 1, after[row][upto - 1]))
        } else {
            earlier
        }
    }
}

/// The writes for the cells in the first `upto` rows that differ between
/// `before` and `after`, row by row.
pub open spec fn rows_changes(before: Grid, after: Grid, upto: int) -> Seq<CellWrite>
    decreases upto,
{
    if upto <= 0 {
        Seq::empty()
    } else {
        rows_changes(before, after, upto - 1) + row_changes(
            before,
            after,
            upto - 1,
            before[upto - 1].len() as int,
        )
    }
}

/// The writes that bring a screen showing `before` to show `after`: one for
/// each cell whose state differs, with the glyph of its state in `after`,
/// and none for a cell that stays as it is.
pub open spec fn changes(before: Grid, after: Grid) -> Seq<CellWrite> {
    rows_changes(before, after, before.len() as int)
}

/// The cell `at` differs between `before` and `after`.
pub open spec fn changed(before: Grid, after: Grid, at: (int, int)) -> bool {
    &&& 0 <= at.0 < before.len()
    &&& 0 <= at.1 < before[at.0].len()
    &&& before[at.0][at.1] != after[at.0][at.1]
}

/// The cells among the first `upto` of row `row` that differ between
/// `before` and `after`.
pub open spec fn row_changed(before: Grid, after: Grid, row: int, upto: int) -> Set<(int, int)> {
    Set::new(|at: (int, int)| at.0 == row && at.1 < upto && changed(before, after, at))
}

/// The cells in the first `upto` rows that differ between `before` and
/// `after`.
pub open spec fn rows_changed(before: Grid, after: Grid, upto: int) -> Set<(int, int)> {
    Set::new(|at: (int, int)| at.0 < upto && changed(before, after, at))
}

/// The cells whose state differs between `before` and `after`.
pub open spec fn changed_cells(before: Grid, after: Grid) -> Set<(int, int)> {
    Set::new(|at: (int, int)| changed(before, after, at))
}

/// `write` is the write for one of `cells`, with the glyph of that cell's
/// state in `after`.
pub open spec fn shows_one_of(write: CellWrite, cells: Set<(int, int)>, after: Grid) -> bool {
    exists|at: (int, int)| #[trigger]
        cells.contains(at) && write == write_for(at.0, at.1, after[at.0][at.1])
}

/// `writes` and `cells` belong together: there are as many writes as cells,
/// each write is that of one of the cells, and each of the cells has its
/// write.
pub open spec fn writes_match(writes: Seq<CellWrite>, cells: Set<(int, int)>, after: Grid) -> bool {
    &&& cells.finite()
    &&& writes.len() == cells.len()
    &&& forall|k: int| 0 <= k < writes.len() ==> shows_one_of(#[trigger] writes[k], cells, after)
    &&& forall|at: (int, int)| #[trigger]
        cells.contains(at) ==> writes.contains(write_for(at.0, at.1, after[at.0][at.1]))
}

/// The writes for the start of a row are those of its changed cells.
proof fn lemma_row_changes(before: Grid, after: Grid, row: int, upto: int)
    requires
        0 <= row < before.len(),
        upto <= before[row].len(),
    ensures
        writes_match(
            row_changes(before, after, row, upto),
            row_changed(before, after, row, upto),
            after,
        ),
    decreases upto,
{
    let cells = row_changed(before, after, row, upto);
    let writes = row_changes(before, after, row, upto);
    if upto <= 0 {
        assert(cells =~= Set::<(int, int)>::empty());
    } else {
        lemma_row_changes(before, after, row, upto - 1);
        let earlier_cells = row_changed(before, after, row, upto - 1);
        let earlier = row_changes(before, after, row, upto - 1);
        let last = (row, upto - 1);
        if changed(before, after, last) {
            let write = write_for(row, upto - 1, after[row][upto - 1]);
            assert(cells =~= earlier_cells.insert(last));
            assert forall|k: int| 0 <= k < writes.len() implies shows_one_of(
                #[trigger] writes[k],
                cells,
                after,
            ) by {
                if k < earlier.len() {
                    assert(shows_one_of(earlier[k], earlier_cells, after));
                    let at = choose|at: (int, int)| #[trigger]
                        earlier_cells.contains(at) && earlier[k] == write_for(
                            at.0,
                            at.1,
                            after[at.0][at.1],
                        );
                    assert(cells.contains(at));
                } else {
                    assert(cells.contains(last));
                }
            }
            assert forall|at: (int, int)| #[trigger] cells.contains(at) implies writes.contains(
                write_for(at.0, at.1, after[at.0][at.1]),
            ) by {
                if at == last {
                    assert(writes[earlier.len() as int] == write);
                } else {
                    let k = choose|k: int|
                        0 <= k < earlier.len() && earlier[k] == write_for(
                            at.0,
                            at.1,
                            after[at.0][at.1],
                        );
                    assert(writes[k] == earlier[k]);
                }
            }
        } else {
            assert(cells =~= earlier_cells);
        }
    }
}

/// The writes for the first rows are those of their changed cells.
proof fn lemma_rows_changes(before: Grid, after: Grid, upto: int)
    requires
        upto <= before.len(),
    ensures
        writes_match(rows_changes(before, after, upto), rows_changed(before, after, upto), after),
    decreases upto,
{
    let cells = rows_changed(before, after, upto);
    let writes = rows_changes(before, after, upto);
    if upto <= 0 {
        assert(cells =~= Set::<(int, int)>::empty());
    } else {
        let row = upto - 1;
        let width = before[row].len() as int;
        lemma_rows_changes(before, after, row);
        lemma_row_changes(before, after, row, width);
        let earlier_cells = rows_changed(before, after, row);
        let earlier = rows_changes(before, after, row);
        let row_cells = row_changed(before, after, row, width);
        let row_writes = row_changes(before, after, row, width);
        assert(cells =~= earlier_cells + row_cells);
        vstd::set_lib::lemma_set_disjoint_lens(earlier_cells, row_cells);
        assert forall|k: int| 0 <= k < writes.len() implies shows_one_of(
            #[trigger] writes[k],
            cells,
            after,
        ) by {
            let part = if k < earlier.len() {
                assert(shows_one_of(earlier[k], earlier_cells, after));
                earlier_cells
            } else {
                assert(shows_one_of(row_writes[k - earlier.len()], row_cells, after));
                row_cells
            };
            let at = choose|at: (int, int)| #[trigger]
                part.contains(at) && writes[k] == write_for(at.0, at.1, after[at.0][at.1]);
            assert(cells.contains(at));
        }
        assert forall|at: (int, int)| #[trigger] cells.contains(at) implies writes.contains(
            write_for(at.0, at.1, after[at.0][at.1]),
        ) by {
            let write = write_for(at.0, at.1, after[at.0][at.1]);
            if at.0 == row {
                let k = choose|k: int| 0 <= k < row_writes.len() && row_writes[k] == write;
                assert(writes[earlier.len() + k] == write);
            } else {
                let k = choose|k: int| 0 <= k < earlier.len() && earlier[k] == write;
                assert(writes[k] == write);
            }
        }
    }
}

/// Rendering by difference: a change of the grid in exactly `K` cells gives
/// exactly `K` writes. Each write is that of a cell that changed, with the
/// glyph of its new state, each cell that changed has its write, and a cell
/// that did not change has none.
pub proof fn lemma_changes(before: Grid, after: Grid)
    ensures
        writes_match(changes(before, after), changed_cells(before, after), after),
{
    lemma_rows_changes(before, after, before.len() as int);
    assert(changed_cells(before, after) =~= rows_changed(before, after, before.len() as int));
}

/// Where nothing changes nothing is written.
pub proof fn lemma_still_writes_nothing(g: Grid)
    ensures
        changes(g, g) == Seq::<CellWrite>::empty(),
{
    lemma_changes(g, g);
    assert(changed_cells(g, g) =~= Set::<(int, int)>::empty());
}

/// What the terminal shows: the character at each position, row by row.
pub type Screen = Seq<Seq<char>>;

/// The screen that shows `g`: at each position the glyph of the cell there.
pub open spec fn picture(g: Grid) -> Screen {
    Seq::new(g.len(), |i: int| Seq::new(g[i].len(), |j: int| glyph_of(g[i][j])))
}

/// `screen` after `write`.
pub open spec fn put(screen: Screen, write: CellWrite) -> Screen {
    screen.update(write.y - 1, screen[write.y - 1].update(write.x - 1, write.glyph))
}

/// `screen` after `writes`, one after the other.
pub open spec fn painted(screen: Screen, writes: Seq<CellWrite>) -> Screen
    decreases writes.len(),
{
    if writes.len() == 0 {
        screen
    } else {
        put(painted(screen, writes.drop_last()), writes.last())
    }
}

/// To paint two runs of writes in a row is to paint the one, then the other.
pub proof fn lemma_painted_concat(screen: Screen, first: Seq<CellWrite>, second: Seq<CellWrite>)
    ensures
        painted(screen, first + second) == painted(painted(screen, first), second),
    decreases second.len(),
{
    if second.len() == 0 {
        assert(first + second == first);
    } else {
        lemma_painted_concat(screen, first, second.drop_last());
        assert((first + second).drop_last() == first + second.drop_last());
    }
}

/// The grid halfway through a change: the cells of the rows before `row`
/// and the first `col` cells of `row` are as in `after`, the others as in
/// `before`.
pub open spec fn halfway(before: Grid, after: Grid, row: int, col: int) -> Grid {
    Seq::new(
        before.len(),
        |i: int|
            Seq::new(
                before[i].len(),
                |j: int|
                    if i < row || (i == row && j < col) {
                        after[i][j]
                    } else {
                        before[i][j]
                    },
            ),
    )
}

/// The writes for the start of a row bring the screen from the start of
/// the row to where they end.
proof fn lemma_row_changes_paint(
    before: Grid,
    after: Grid,
    height: nat,
    width: nat,
    row: int,
    upto: int,
)
    requires
        rectangular(before, height, width),
        rectangular(after, height, width),
        width <= u16::MAX,
        height <= u16::MAX,
        0 <= row < height,
        0 <= upto <= width,
    ensures
        painted(picture(halfway(before, after, row, 0)), row_changes(before, after, row, upto))
            == picture(halfway(before, after, row, upto)),
    decreases upto,
{
    if upto > 0 {
        lemma_row_changes_paint(before, after, height, width, row, upto - 1);
        let start = picture(halfway(before, after, row, 0));
        let earlier = row_changes(before, after, row, upto - 1);
        let reached = picture(halfway(before, after, row, upto - 1));
        let goal = picture(halfway(before, after, row, upto));
        if before[row][upto - 1] != after[row][upto - 1] {
            let write = write_for(row, upto - 1, after[row][upto - 1]);
            assert(earlier.push(write).drop_last() == earlier);
            assert(put(reached, write) =~~= goal);
        } else {
            assert(reached =~~= goal);
        }
    }
}

/// The writes for the first rows bring the screen to where they end.
proof fn lemma_rows_changes_paint(before: Grid, after: Grid, height: nat, width: nat, upto: int)
    requires
        rectangular(before, height, width),
        rectangular(after, height, width),
        width <= u16::MAX,
        height <= u16::MAX,
        0 <= upto <= height,
    ensures
        painted(picture(before), rows_changes(before, after, upto)) == picture(
            halfway(before, after, upto, 0),
        ),
    decreases upto,
{
    if upto <= 0 {
        assert(halfway(before, after, 0, 0) =~~= before);
    } else {
        let row = upto - 1;
        lemma_rows_changes_paint(before, after, height, width, row);
        lemma_row_changes_paint(before, after, height, width, row, width as int);
        lemma_painted_concat(
            picture(before),
            rows_changes(before, after, row),
            row_changes(before, after, row, width as int),
        );
        assert(halfway(before, after, row, width as int) =~~= halfway(before, after, upto, 0));
    }
}

/// The writes of a change keep the screen in step with the grid: on a
/// screen that shows `before` they give the screen that shows `after`.
pub proof fn lemma_changes_paint(before: Grid, after: Grid, height: nat, width: nat)
    requires
        rectangular(before, height, width),
        rectangular(after, height, width),
        width <= u16::MAX,
        height <= u16::MAX,
    ensures
        painted(picture(before), changes(before, after)) == picture(after),
{
    lemma_rows_changes_paint(before, after, height, width, height as int);
    assert(halfway(before, after, height as int, 0) =~~= after);
}

} // verus!
