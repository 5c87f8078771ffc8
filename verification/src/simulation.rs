//! The simulation engine: the grid, the play/pause flag and the commands
//! that act on them.

use vstd::prelude::*;
use crate::cell::{Cell, CellState};
use crate::command::{
    SimulationEvent, first_quit, first_quit_from, has_quit, heeded, lemma_first_quit_from,
};
use crate::grid::{Grid, dead_grid, lemma_wrap, live_neighbours, step, wrap};
use crate::modulo::ModuloSignedExt;
use crate::screen::{CellWrite, all_within, changes, row_changes, rows_changes};
use crate::state::SimulationState;

verus! {

/// Writes `state` as the previous state of the cell at `(i, j)`.
fn set_previous(cells: &mut Vec<Vec<Cell>>, i: usize, j: usize, state: CellState)
    requires
        i < old(cells).len(),
        j < old(cells)[i as int].len(),
    ensures
        final(cells).len() == old(cells).len(),
        forall|r: int|
            0 <= r < old(cells).len() ==> (#[trigger] final(cells)[r]).len() == old(cells)[r].len(),
        forall|r: int, c: int|
            0 <= r < old(cells).len() && 0 <= c < old(cells)[r].len() ==> (
            #[trigger] final(cells)[r][c]) == if r == i && c == j {
                Cell { previous_state: state, ..old(cells)[r][c] }
            } else {
                old(cells)[r][c]
            },
    no_unwind
{
    cells[i][j].previous_state = state;
}

/// Writes `state` as the current state of the cell at `(i, j)`.
fn set_current(cells: &mut Vec<Vec<Cell>>, i: usize, j: usize, state: CellState)
    requires
        i < old(cells).len(),
        j < old(cells)[i as int].len(),
    ensures
        final(cells).len() == old(cells).len(),
        forall|r: int|
            0 <= r < old(cells).len() ==> (#[trigger] final(cells)[r]).len() == old(cells)[r].len(),
        forall|r: int, c: int|
            0 <= r < old(cells).len() && 0 <= c < old(cells)[r].len() ==> (
            #[trigger] final(cells)[r][c]) == if r == i && c == j {
                Cell { current_state: state, ..old(cells)[r][c] }
            } else {
                old(cells)[r][c]
            },
    no_unwind
{
    cells[i][j].current_state = state;
}

/// What the engine hands back from the commands it was given: the writes
/// to put on the screen, and whether a `Quit` was among the commands.
#[derive(Debug)]
pub struct Report {
    pub writes: Vec<CellWrite>,
    pub quit: bool,
}

/// The batches as sequences.
pub open spec fn batches_of(batches: Seq<Vec<SimulationEvent>>) -> Seq<Seq<SimulationEvent>> {
    Seq::new(batches.len(), |b: int| batches[b]@)
}

pub struct Simulation {
    running: bool,
    term_width: u16,
    term_height: u16,
    cells: Vec<Vec<Cell>>,
}

impl View for Simulation {
    type V = SimulationState;

    closed spec fn view(&self) -> SimulationState {
        SimulationState {
            running: self.running,
            width: self.term_width as nat,
            height: self.term_height as nat,
            grid: self.current(),
        }
    }
}

impl Simulation {
    #[verifier::type_invariant]
    spec fn shaped(&self) -> bool {
        &&& self.cells.len() == self.term_height
        &&& forall|i: int|
            0 <= i < self.cells.len() ==> (#[trigger] self.cells[i]).len() == self.term_width
    }

    /// The current state of every cell.
    spec fn current(&self) -> Grid {
        Seq::new(
            self.cells.len() as nat,
            |i: int| Seq::new(self.cells[i].len() as nat, |j: int| self.cells[i][j].current_state),
        )
    }

    /// The snapshot that the generation step reads.
    spec fn snapshot(&self) -> Grid {
        Seq::new(
            self.cells.len() as nat,
            |i: int| Seq::new(self.cells[i].len() as nat, |j: int| self.cells[i][j].previous_state),
        )
    }

    /// A paused simulation on a grid of `height` rows and `width` columns
    /// of dead cells.
    pub fn new(width: u16, height: u16) -> (sim: Simulation)
        ensures
            sim@ == (SimulationState {
                running: false,
                width: width as nat,
                height: height as nat,
                grid: dead_grid(height as nat, width as nat),
            }),
            sim@.well_formed(),
    {
        let mut cells: Vec<Vec<Cell>> = Vec::with_capacity(height as usize);
        let mut i: usize = 0;
        while i < height as usize
            invariant
                i <= height,
                cells.len() == i,
                forall|r: int| 0 <= r < i ==> (#[trigger] cells[r]).len() == width,
                forall|r: int, c: int|
                    0 <= r < i && 0 <= c < width ==> (#[trigger] cells[r][c]).current_state
                        == CellState::Dead,
            decreases height - i,
        {
            let mut row: Vec<Cell> = Vec::with_capacity(width as usize);
            let mut j: usize = 0;
            while j < width as usize
                invariant
                    j <= width,
                    row.len() == j,
                    forall|c: int| 0 <= c < j ==> (#[trigger] row[c]).current_state == CellState::Dead,
                decreases width - j,
            {
                row.push(Cell::dead());
                j += 1;
            }
            cells.push(row);
            i += 1;
        }
        let sim = Simulation { running: false, term_width: width, term_height: height, cells };
        assert(sim.current() =~~= dead_grid(height as nat, width as nat));
        sim
    }

    /// The number of live cells around `(i, j)` in the snapshot.
    fn count_neighbours(&self, i: usize, j: usize) -> (n: u8)
        requires
            i < self.term_height,
            j < self.term_width,
        ensures
            n == live_neighbours(self.snapshot(), i as int, j as int),
    {
        proof {
            reveal(live_neighbours);
            reveal(wrap);
            use_type_invariant(self);
            lemma_wrap(i as int, self.term_height as int);
            lemma_wrap(j as int, self.term_width as int);
        }
        let si: i32 = i as i32;
        let sj: i32 = j as i32;
        let s_term_height: i32 = self.term_height as i32;
        let s_term_width: i32 = self.term_width as i32;
        let up: usize = (si - 1).modulo(s_term_height) as usize;
        let down: usize = (si + 1).modulo(s_term_height) as usize;
        let left: usize = (sj - 1).modulo(s_term_width) as usize;
        let right: usize = (sj + 1).modulo(s_term_width) as usize;
        let mut neighbours: u8 = 0;
        if self.cells[up][left].previous_state == CellState::Alive {
            neighbours += 1;
        }
        if self.cells[up][j].previous_state == CellState::Alive {
            neighbours += 1;
        }
        if self.cells[up][right].previous_state == CellState::Alive {
            neighbours += 1;
        }
        if self.cells[i][left].previous_state == CellState::Alive {
            neighbours += 1;
        }
        if self.cells[i][right].previous_state == CellState::Alive {
            neighbours += 1;
        }
        if self.cells[down][left].previous_state == CellState::Alive {
            neighbours += 1;
        }
        if self.cells[down][j].previous_state == CellState::Alive {
            neighbours += 1;
        }
        if self.cells[down][right].previous_state == CellState::Alive {
            neighbours += 1;
        }
        neighbours
    }

    /// Copies every cell's current state into its previous state.
    fn take_snapshot(&mut self)
        ensures
            final(self).current() == old(self).current(),
            final(self).snapshot() == old(self).current(),
            final(self).running == old(self).running,
            final(self).term_width == old(self).term_width,
            final(self).term_height == old(self).term_height,
    {
        proof {
            use_type_invariant(&*self);
        }
        let height: usize = self.term_height as usize;
        let width: usize = self.term_width as usize;
        let mut i: usize = 0;
        while i < height
            invariant
                i <= height,
                height == self.term_height,
                width == self.term_width,
                self.running == old(self).running,
                self.term_width == old(self).term_width,
                self.term_height == old(self).term_height,
                self.cells.len() == height,
                forall|r: int| 0 <= r < height ==> (#[trigger] self.cells[r]).len() == width,
                self.current() == old(self).current(),
                forall|r: int, c: int|
                    0 <= r < i && 0 <= c < width ==> (#[trigger] self.cells[r][c]).previous_state
                        == self.cells[r][c].current_state,
            decreases height - i,
        {
            let mut j: usize = 0;
            while j < width
                invariant
                    i < height,
                    j <= width,
                    height == self.term_height,
                    width == self.term_width,
                    self.running == old(self).running,
                    self.term_width == old(self).term_width,
                    self.term_height == old(self).term_height,
                    self.cells.len() == height,
                    forall|r: int| 0 <= r < height ==> (#[trigger] self.cells[r]).len() == width,
                    self.current() == old(self).current(),
                    forall|r: int, c: int|
                        0 <= r < i && 0 <= c < width ==> (
                        #[trigger] self.cells[r][c]).previous_state
                            == self.cells[r][c].current_state,
                    forall|c: int|
                        0 <= c < j ==> (#[trigger] self.cells[i as int][c]).previous_state
                            == self.cells[i as int][c].current_state,
                decreases width - j,
            {
                let ghost before = self.current();
                let state = self.cells[i][j].current_state;
                set_previous(&mut self.cells, i, j, state);
                assert(self.current() =~~= before);
                j += 1;
            }
            i += 1;
        }
        assert(self.snapshot() =~~= self.current());
    }

    /// One generation step. Every cell goes by the rule on the neighbours it
    /// had before the step, whatever the step has already written, and the
    /// writes returned are those for the cells that changed, in row order.
    pub fn tick(&mut self) -> (writes: Vec<CellWrite>)
        ensures
            final(self)@ == old(self)@.stepped(),
            final(self)@.well_formed(),
            writes@ == changes(old(self)@.grid, final(self)@.grid),
            all_within(writes@, old(self)@.width, old(self)@.height),
    {
        self.take_snapshot();
        proof {
            use_type_invariant(&*self);
        }
        let ghost before = self.snapshot();
        let ghost after = step(before);
        let height: usize = self.term_height as usize;
        let width: usize = self.term_width as usize;
        let mut writes: Vec<CellWrite> = Vec::new();
        let mut i: usize = 0;
        while i < height
            invariant
                i <= height,
                height == self.term_height,
                width == self.term_width,
                self.running == old(self).running,
                self.term_width == old(self).term_width,
                self.term_height == old(self).term_height,
                self.cells.len() == height,
                forall|r: int| 0 <= r < height ==> (#[trigger] self.cells[r]).len() == width,
                before == old(self).current(),
                after == step(before),
                self.snapshot() == before,
                forall|r: int, c: int|
                    0 <= r < height && 0 <= c < width ==> (
                    #[trigger] self.cells[r][c]).current_state == if r < i {
                        after[r][c]
                    } else {
                        before[r][c]
                    },
                writes@ == rows_changes(before, after, i as int),
                all_within(writes@, width as nat, height as nat),
            decreases height - i,
        {
            let mut j: usize = 0;
            while j < width
                invariant
                    i < height,
                    j <= width,
                    height == self.term_height,
                    width == self.term_width,
                    self.running == old(self).running,
                    self.term_width == old(self).term_width,
                    self.term_height == old(self).term_height,
                    self.cells.len() == height,
                    forall|r: int| 0 <= r < height ==> (#[trigger] self.cells[r]).len() == width,
                    before == old(self).current(),
                    after == step(before),
                    self.snapshot() == before,
                    forall|r: int, c: int|
                        0 <= r < height && 0 <= c < width ==> (
                        #[trigger] self.cells[r][c]).current_state == if r < i || (r == i && c
                            < j) {
                            after[r][c]
                        } else {
                            before[r][c]
                        },
                    writes@ == rows_changes(before, after, i as int) + row_changes(
                        before,
                        after,
                        i as int,
                        j as int,
                    ),
                    all_within(writes@, width as nat, height as nat),
                decreases width - j,
            {
                let neighbours = self.count_neighbours(i, j);
                let state = self.cells[i][j].current_state;
                let next = state.next(neighbours);
                if next != state {
                    let ghost snapshot = self.snapshot();
                    set_current(&mut self.cells, i, j, next);
                    assert(self.snapshot() =~~= snapshot);
                    writes.push(
                        CellWrite { x: (j + 1) as u16, y: (i + 1) as u16, glyph: next.glyph() },
                    );
                }
                j += 1;
            }
            i += 1;
        }
        assert(self.current() =~~= after);
        writes
    }

    /// Flips the cell at the terminal position `(x, y)` and returns the
    /// write that shows it.
    pub fn toggle_cell(&mut self, x: u16, y: u16) -> (write: CellWrite)
        requires
            old(self)@.on_screen(x, y),
        ensures
            final(self)@ == old(self)@.toggled(x, y),
            final(self)@.well_formed(),
            write == old(self)@.toggle_write(x, y),
            write.within(old(self)@.width, old(self)@.height),
    {
        proof {
            use_type_invariant(&*self);
        }
        let row: usize = (y - 1) as usize;
        let col: usize = (x - 1) as usize;
        let next = self.cells[row][col].current_state.flip();
        set_current(&mut self.cells, row, col, next);
        assert(self.current() =~~= crate::grid::toggled(
            old(self).current(),
            row as int,
            col as int,
        ));
        CellWrite { x, y, glyph: next.glyph() }
    }

    /// Applies one command. `Quit` leaves the simulation as it is: to end
    /// the loop is the caller's part.
    pub fn apply(&mut self, event: SimulationEvent) -> (write: Option<CellWrite>)
        requires
            old(self)@.accepts(event),
        ensures
            final(self)@ == old(self)@.applied(event),
            final(self)@.well_formed(),
            match write {
                Some(w) => old(self)@.written(event) == seq![w] && w.within(
                    old(self)@.width,
                    old(self)@.height,
                ),
                None => old(self)@.written(event) == Seq::<CellWrite>::empty(),
            },
    {
        proof {
            use_type_invariant(&*self);
        }
        match event {
            SimulationEvent::Quit => None,
            SimulationEvent::TogglePlayback => {
                self.running = !self.running;
                None
            },
            SimulationEvent::ToggleCellAt(x, y) => Some(self.toggle_cell(x, y)),
        }
    }

    /// Drains a batch of pending commands: applies them in order up to the
    /// first `Quit`, which ends the batch, and discards what comes after it.
    pub fn drain(&mut self, events: &Vec<SimulationEvent>) -> (report: Report)
        requires
            old(self)@.accepts_all(events@),
        ensures
            final(self)@ == old(self)@.drained(events@),
            final(self)@.well_formed(),
            report.writes@ == old(self)@.drain_writes(events@),
            report.quit == has_quit(events@),
            all_within(report.writes@, old(self)@.width, old(self)@.height),
    {
        proof {
            use_type_invariant(&*self);
        }
        let mut writes: Vec<CellWrite> = Vec::new();
        let mut k: usize = 0;
        while k < events.len()
            invariant
                k <= events.len(),
                first_quit(events@) == first_quit_from(events@, k as int),
                old(self)@.accepts_all(events@),
                self@.width == old(self)@.width,
                self@.height == old(self)@.height,
                self@.well_formed(),
                self@ == old(self)@.after_all(events@.take(k as int)),
                writes@ == old(self)@.writes_of(events@.take(k as int)),
                all_within(writes@, old(self)@.width, old(self)@.height),
            decreases events.len() - k,
        {
            let event = events[k];
            proof {
                lemma_first_quit_from(events@, k as int);
                assert(events@.take(k + 1).drop_last() == events@.take(k as int));
            }
            if event == SimulationEvent::Quit {
                return Report { writes, quit: true };
            }
            match self.apply(event) {
                Some(write) => writes.push(write),
                None => {},
            }
            k += 1;
        }
        proof {
            assert(events@.take(k as int) == events@);
        }
        Report { writes, quit: false }
    }

    /// Brings the simulation to the main loop's poll: a generation step if
    /// it runs, nothing if it is paused.
    pub fn advance(&mut self) -> (writes: Vec<CellWrite>)
        ensures
            final(self)@ == old(self)@.advanced(),
            final(self)@.well_formed(),
            writes@ == old(self)@.advance_writes(),
            all_within(writes@, old(self)@.width, old(self)@.height),
    {
        proof {
            use_type_invariant(&*self);
        }
        if self.running {
            self.tick()
        } else {
            Vec::new()
        }
    }

    /// One turn of the main loop on the batch of commands that its poll
    /// found.
    pub fn cycle(&mut self, batch: &Vec<SimulationEvent>) -> (report: Report)
        requires
            old(self)@.accepts_all(batch@),
        ensures
            final(self)@ == old(self)@.cycled(batch@).state,
            final(self)@.well_formed(),
            report.writes@ == old(self)@.cycled(batch@).writes,
            report.quit == old(self)@.cycled(batch@).quit,
            all_within(report.writes@, old(self)@.width, old(self)@.height),
    {
        let mut writes = self.advance();
        let mut drained = self.drain(batch);
        writes.append(&mut drained.writes);
        Report { writes, quit: drained.quit }
    }

    /// The main loop over the batches that its polls find, one for each
    /// turn. It ends with the turn that meets a `Quit`; nothing of a later
    /// batch is then looked at.
    pub fn run(&mut self, batches: &Vec<Vec<SimulationEvent>>) -> (report: Report)
        requires
            old(self)@.accepts_batches(batches_of(batches@)),
        ensures
            final(self)@ == old(self)@.ran(batches_of(batches@)).state,
            final(self)@.well_formed(),
            report.writes@ == old(self)@.ran(batches_of(batches@)).writes,
            report.quit == old(self)@.ran(batches_of(batches@)).quit,
            all_within(report.writes@, old(self)@.width, old(self)@.height),
    {
        proof {
            use_type_invariant(&*self);
        }
        let ghost all = batches_of(batches@);
        let mut writes: Vec<CellWrite> = Vec::new();
        let mut b: usize = 0;
        assert(all.skip(0) == all);
        while b < batches.len()
            invariant
                b <= batches.len(),
                all == batches_of(batches@),
                self@.well_formed(),
                self@.width == old(self)@.width,
                self@.height == old(self)@.height,
                old(self)@.accepts_batches(all.skip(b as int)),
                old(self)@.ran(all).state == self@.ran(all.skip(b as int)).state,
                old(self)@.ran(all).writes == writes@ + self@.ran(all.skip(b as int)).writes,
                old(self)@.ran(all).quit == self@.ran(all.skip(b as int)).quit,
                all_within(writes@, old(self)@.width, old(self)@.height),
            decreases batches.len() - b,
        {
            proof {
                let rest = all.skip(b as int);
                assert(rest[0] == batches[b as int]@);
                assert(rest.drop_first() == all.skip(b + 1));
                self@.advanced().lemma_after_all_keeps_size(heeded(rest[0]));
            }
            let mut turn = self.cycle(&batches[b]);
            writes.append(&mut turn.writes);
            if turn.quit {
                return Report { writes, quit: true };
            }
            b += 1;
        }
        Report { writes, quit: false }
    }

    /// Whether the simulation runs or is paused.
    pub fn is_running(&self) -> (r: bool)
        ensures
            r == self@.running,
    {
        self.running
    }

    /// The number of columns.
    pub fn width(&self) -> (r: u16)
        ensures
            r == self@.width,
    {
        self.term_width
    }

    /// The number of rows.
    pub fn height(&self) -> (r: u16)
        ensures
            r == self@.height,
    {
        self.term_height
    }

    /// The state of the cell at the terminal position `(x, y)`, if there is
    /// such a position.
    pub fn cell_at(&self, x: u16, y: u16) -> (r: Option<CellState>)
        ensures
            self@.well_formed(),
            r == if self@.on_screen(x, y) {
                Some(self@.grid[y - 1][x - 1])
            } else {
                None
            },
    {
        proof {
            use_type_invariant(self);
        }
        if 1 <= x && x <= self.term_width && 1 <= y && y <= self.term_height {
            Some(self.cells[(y - 1) as usize][(x - 1) as usize].current_state)
        } else {
            None
        }
    }

    /// Whether `event` can be applied: whether the cell it toggles, if it
    /// toggles one, is on the screen.
    pub fn accepts(&self, event: SimulationEvent) -> (r: bool)
        ensures
            r == self@.accepts(event),
    {
        match event {
            SimulationEvent::ToggleCellAt(x, y) => 1 <= x && x <= self.term_width && 1 <= y && y
                <= self.term_height,
            _ => true,
        }
    }
}

} // verus!
