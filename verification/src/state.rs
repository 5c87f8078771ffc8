//! The simulation as a mathematical value, and what commands and generation
//! steps make of it.

use vstd::prelude::*;
use crate::cell::{flipped, glyph_of};
use crate::command::{
    SimulationEvent, has_quit, heeded, lemma_first_quit_is, lemma_heeded_has_no_quit,
    lemma_heeded_stops_at_quit,
};
use crate::grid::{Grid, rectangular, step, toggled};
use crate::screen::{
    CellWrite, changes, lemma_changes_paint, lemma_painted_concat, painted, picture, put,
};

verus! {

/// What a simulation is to its users: whether it runs, the size of the
/// terminal it was made for, and the state of every cell.
pub struct SimulationState {
    pub running: bool,
    pub width: nat,
    pub height: nat,
    pub grid: Grid,
}

/// Where the main loop has come to: the state, the writes that led to it,
/// and whether a `Quit` has ended the loop.
pub struct Outcome {
    pub state: SimulationState,
    pub writes: Seq<CellWrite>,
    pub quit: bool,
}

impl SimulationState {
    /// The grid has the terminal's size.
    pub open spec fn well_formed(self) -> bool {
        &&& self.width <= u16::MAX
        &&& self.height <= u16::MAX
        &&& rectangular(self.grid, self.height, self.width)
    }

    /// `(x, y)` is a position of the terminal.
    pub open spec fn on_screen(self, x: u16, y: u16) -> bool {
        1 <= x <= self.width && 1 <= y <= self.height
    }

    /// `event` can be applied: a cell to toggle is on the screen.
    pub open spec fn accepts(self, event: SimulationEvent) -> bool {
        match event {
            SimulationEvent::ToggleCellAt(x, y) => self.on_screen(x, y),
            _ => true,
        }
    }

    /// The state after one generation step.
    pub open spec fn stepped(self) -> SimulationState {
        SimulationState { grid: step(self.grid), ..self }
    }

    /// The writes of one generation step.
    pub open spec fn step_writes(self) -> Seq<CellWrite> {
        changes(self.grid, step(self.grid))
    }

    /// The state with the cell at the terminal position `(x, y)` flipped.
    pub open spec fn toggled(self, x: u16, y: u16) -> SimulationState
        recommends
            self.on_screen(x, y),
    {
        SimulationState { grid: toggled(self.grid, y - 1, x - 1), ..self }
    }

    /// The write that shows the flipped cell.
    pub open spec fn toggle_write(self, x: u16, y: u16) -> CellWrite
        recommends
            self.on_screen(x, y),
    {
        CellWrite { x, y, glyph: glyph_of(flipped(self.grid[y - 1][x - 1])) }
    }

    /// The state after `event`.
    pub open spec fn applied(self, event: SimulationEvent) -> SimulationState {
        match event {
            SimulationEvent::Quit => self,
            SimulationEvent::TogglePlayback => SimulationState { running: !self.running, ..self },
            SimulationEvent::ToggleCellAt(x, y) => self.toggled(x, y),
        }
    }

    /// The writes that `event` causes.
    pub open spec fn written(self, event: SimulationEvent) -> Seq<CellWrite> {
        match event {
            SimulationEvent::ToggleCellAt(x, y) => seq![self.toggle_write(x, y)],
            _ => Seq::empty(),
        }
    }

    /// The state after every one of `events`, in their order.
    pub open spec fn after_all(self, events: Seq<SimulationEvent>) -> SimulationState
        decreases events.len(),
    {
        if events.len() == 0 {
            self
        } else {
            self.after_all(events.drop_last()).applied(events.last())
        }
    }

    /// The writes that `events` cause, in their order.
    pub open spec fn writes_of(self, events: Seq<SimulationEvent>) -> Seq<CellWrite>
        decreases events.len(),
    {
        if events.len() == 0 {
            Seq::empty()
        } else {
            self.writes_of(events.drop_last()) + self.after_all(events.drop_last()).written(
                events.last(),
            )
        }
    }

    /// Every command of `events` that is acted upon can be applied.
    pub open spec fn accepts_all(self, events: Seq<SimulationEvent>) -> bool {
        forall|k: int| 0 <= k < heeded(events).len() ==> self.accepts(#[trigger] events[k])
    }

    /// The state after a batch of pending commands was drained: the commands
    /// before the first `Quit` were applied, the rest discarded.
    pub open spec fn drained(self, events: Seq<SimulationEvent>) -> SimulationState {
        self.after_all(heeded(events))
    }

    /// The writes of draining `events`.
    pub open spec fn drain_writes(self, events: Seq<SimulationEvent>) -> Seq<CellWrite> {
        self.writes_of(heeded(events))
    }

    /// The state when the main loop comes to its poll: one generation later
    /// if the simulation runs, else as it is.
    pub open spec fn advanced(self) -> SimulationState {
        if self.running {
            self.stepped()
        } else {
            self
        }
    }

    /// The writes of getting there.
    pub open spec fn advance_writes(self) -> Seq<CellWrite> {
        if self.running {
            self.step_writes()
        } else {
            Seq::empty()
        }
    }

    /// One turn of the main loop: a generation step if the simulation runs,
    /// then the pending commands.
    pub open spec fn cycled(self, batch: Seq<SimulationEvent>) -> Outcome {
        Outcome {
            state: self.advanced().drained(batch),
            writes: self.advance_writes() + self.advanced().drain_writes(batch),
            quit: has_quit(batch),
        }
    }

    /// The main loop over the batches of commands that its polls find, one
    /// batch for each turn: it ends with the turn that meets a `Quit`, or
    /// when there is no batch left.
    pub open spec fn ran(self, batches: Seq<Seq<SimulationEvent>>) -> Outcome
        decreases batches.len(),
    {
        if batches.len() == 0 {
            Outcome { state: self, writes: Seq::empty(), quit: false }
        } else {
            let turn = self.cycled(batches[0]);
            if has_quit(batches[0]) {
                turn
            } else {
                let rest = turn.state.ran(batches.drop_first());
                Outcome { writes: turn.writes + rest.writes, ..rest }
            }
        }
    }

    /// Every command that the main loop acts upon can be applied.
    pub open spec fn accepts_batches(self, batches: Seq<Seq<SimulationEvent>>) -> bool
        decreases batches.len(),
    {
        batches.len() > 0 ==> {
            &&& self.accepts_all(batches[0])
            &&& !has_quit(batches[0]) ==> self.accepts_batches(batches.drop_first())
        }
    }

    /// Commands never change the size of the terminal.
    pub proof fn lemma_after_all_keeps_size(self, events: Seq<SimulationEvent>)
        ensures
            self.after_all(events).width == self.width,
            self.after_all(events).height == self.height,
        decreases events.len(),
    {
        if events.len() > 0 {
            self.lemma_after_all_keeps_size(events.drop_last());
        }
    }

    /// Toggling a cell twice in a row brings it back to the state it had.
    /// Two writes are issued for its position, of which one shows the cell
    /// alive and the other shows it dead.
    pub proof fn lemma_toggle_twice(self, x: u16, y: u16)
        requires
            self.well_formed(),
            self.on_screen(x, y),
        ensures
            self.toggled(x, y).toggled(x, y) == self,
            self.drained(
                seq![SimulationEvent::ToggleCellAt(x, y), SimulationEvent::ToggleCellAt(x, y)],
            ) == self,
            self.drain_writes(
                seq![SimulationEvent::ToggleCellAt(x, y), SimulationEvent::ToggleCellAt(x, y)],
            ) == seq![self.toggle_write(x, y), self.toggled(x, y).toggle_write(x, y)],
            self.toggle_write(x, y) == (CellWrite {
                x,
                y,
                glyph: glyph_of(flipped(self.grid[y - 1][x - 1])),
            }),
            self.toggled(x, y).toggle_write(x, y) == (CellWrite {
                x,
                y,
                glyph: glyph_of(self.grid[y - 1][x - 1]),
            }),
            self.toggle_write(x, y).glyph != self.toggled(x, y).toggle_write(x, y).glyph,
    {
        let toggle = SimulationEvent::ToggleCellAt(x, y);
        let twice = seq![toggle, toggle];
        assert(self.toggled(x, y).toggled(x, y).grid =~~= self.grid);
        lemma_first_quit_is(twice, 2);
        reveal_with_fuel(SimulationState::after_all, 3);
        reveal_with_fuel(SimulationState::writes_of, 3);
    }

    /// Once a `Quit` is drained no later command of the batch is applied:
    /// commands added behind a batch that holds a `Quit` change neither the
    /// state nor the writes.
    pub proof fn lemma_drain_stops_at_quit(
        self,
        events: Seq<SimulationEvent>,
        later: Seq<SimulationEvent>,
    )
        requires
            has_quit(events),
        ensures
            self.drained(events + later) == self.drained(events),
            self.drain_writes(events + later) == self.drain_writes(events),
            self.cycled(events + later) == self.cycled(events),
            self.cycled(events).quit,
    {
        lemma_heeded_stops_at_quit(events, later);
    }

    /// The main loop has ended with a `Quit` exactly if one of the batches
    /// holds one.
    pub proof fn lemma_ran_quit(self, batches: Seq<Seq<SimulationEvent>>)
        ensures
            self.ran(batches).quit <==> exists|b: int|
                0 <= b < batches.len() && has_quit(#[trigger] batches[b]),
        decreases batches.len(),
    {
        if batches.len() > 0 {
            let rest = batches.drop_first();
            let next = self.cycled(batches[0]).state;
            next.lemma_ran_quit(rest);
            if !has_quit(batches[0]) {
                if next.ran(rest).quit {
                    let b = choose|b: int| 0 <= b < rest.len() && has_quit(#[trigger] rest[b]);
                    assert(has_quit(batches[b + 1]));
                }
                if exists|b: int| 0 <= b < batches.len() && has_quit(#[trigger] batches[b]) {
                    let b = choose|b: int| 0 <= b < batches.len() && has_quit(#[trigger] batches[b]);
                    assert(has_quit(rest[b - 1]));
                }
            }
        }
    }

    /// Once a `Quit` is drained nothing that comes after it is applied, be
    /// it in the same batch or in a later one: whatever is added behind the
    /// batch that holds the `Quit`, and whatever batches follow it, the main
    /// loop ends in the same state with the same writes.
    pub proof fn lemma_run_stops_at_quit(
        self,
        earlier: Seq<Seq<SimulationEvent>>,
        batch: Seq<SimulationEvent>,
        rest: Seq<SimulationEvent>,
        later: Seq<Seq<SimulationEvent>>,
    )
        requires
            has_quit(batch),
        ensures
            self.ran(earlier.push(batch + rest) + later) == self.ran(earlier.push(batch)),
            self.ran(earlier.push(batch)).quit,
        decreases earlier.len(),
    {
        let long = earlier.push(batch + rest) + later;
        let short = earlier.push(batch);
        if earlier.len() == 0 {
            self.lemma_drain_stops_at_quit(batch, rest);
        } else if !has_quit(earlier[0]) {
            let next = self.cycled(earlier[0]).state;
            assert(long.drop_first() == earlier.drop_first().push(batch + rest) + later);
            assert(short.drop_first() == earlier.drop_first().push(batch));
            next.lemma_run_stops_at_quit(earlier.drop_first(), batch, rest, later);
        }
    }

    /// Commands keep the shape of the grid.
    pub proof fn lemma_after_all_well_formed(self, events: Seq<SimulationEvent>)
        requires
            self.well_formed(),
            forall|k: int| 0 <= k < events.len() ==> self.accepts(#[trigger] events[k]),
        ensures
            self.after_all(events).well_formed(),
            self.after_all(events).width == self.width,
            self.after_all(events).height == self.height,
        decreases events.len(),
    {
        if events.len() > 0 {
            self.lemma_after_all_well_formed(events.drop_last());
        }
    }

    /// The writes of a generation step keep the screen in step with the
    /// grid.
    pub proof fn lemma_step_keeps_screen(self)
        requires
            self.well_formed(),
        ensures
            painted(picture(self.grid), self.step_writes()) == picture(self.stepped().grid),
    {
        lemma_changes_paint(self.grid, step(self.grid), self.height, self.width);
    }

    /// The write of a toggle keeps the screen in step with the grid.
    pub proof fn lemma_toggle_keeps_screen(self, x: u16, y: u16)
        requires
            self.well_formed(),
            self.on_screen(x, y),
        ensures
            put(picture(self.grid), self.toggle_write(x, y)) == picture(self.toggled(x, y).grid),
    {
        assert(put(picture(self.grid), self.toggle_write(x, y)) =~~= picture(
            self.toggled(x, y).grid,
        ));
    }

    /// The writes of commands keep the screen in step with the grid.
    pub proof fn lemma_commands_keep_screen(self, events: Seq<SimulationEvent>)
        requires
            self.well_formed(),
            forall|k: int| 0 <= k < events.len() ==> self.accepts(#[trigger] events[k]),
        ensures
            painted(picture(self.grid), self.writes_of(events)) == picture(
                self.after_all(events).grid,
            ),
        decreases events.len(),
    {
        if events.len() > 0 {
            let earlier = events.drop_last();
            let last = events.last();
            let reached = self.after_all(earlier);
            self.lemma_commands_keep_screen(earlier);
            self.lemma_after_all_well_formed(earlier);
            lemma_painted_concat(picture(self.grid), self.writes_of(earlier), reached.written(last));
            match last {
                SimulationEvent::ToggleCellAt(x, y) => {
                    reached.lemma_toggle_keeps_screen(x, y);
                    reveal_with_fuel(painted, 2);
                },
                _ => {},
            }
        }
    }

    /// The screen never falls out of step with the grid: whatever the main
    /// loop does, the writes it issues bring a screen that showed the grid
    /// it started from to show the grid it ends with.
    pub proof fn lemma_run_keeps_screen(self, batches: Seq<Seq<SimulationEvent>>)
        requires
            self.well_formed(),
            self.accepts_batches(batches),
        ensures
            self.ran(batches).state.well_formed(),
            painted(picture(self.grid), self.ran(batches).writes) == picture(
                self.ran(batches).state.grid,
            ),
        decreases batches.len(),
    {
        if batches.len() > 0 {
            let batch = batches[0];
            let moved = self.advanced();
            let turn = self.cycled(batch);
            if self.running {
                self.lemma_step_keeps_screen();
            }
            lemma_heeded_has_no_quit(batch);
            assert forall|k: int| 0 <= k < heeded(batch).len() implies moved.accepts(
                #[trigger] heeded(batch)[k],
            ) by {
            }
            moved.lemma_commands_keep_screen(heeded(batch));
            moved.lemma_after_all_well_formed(heeded(batch));
            lemma_painted_concat(
                picture(self.grid),
                self.advance_writes(),
                moved.drain_writes(batch),
            );
            if !has_quit(batch) {
                let rest = batches.drop_first();
                turn.state.lemma_accepts_batches_by_size(self, rest);
                turn.state.lemma_run_keeps_screen(rest);
                lemma_painted_concat(picture(self.grid), turn.writes, turn.state.ran(rest).writes);
            }
        }
    }

    /// Whether commands can be applied depends on the size of the terminal
    /// alone.
    pub proof fn lemma_accepts_batches_by_size(
        self,
        other: SimulationState,
        batches: Seq<Seq<SimulationEvent>>,
    )
        requires
            self.width == other.width,
            self.height == other.height,
        ensures
            self.accepts_batches(batches) == other.accepts_batches(batches),
        decreases batches.len(),
    {
        if batches.len() > 0 {
            self.lemma_accepts_batches_by_size(other, batches.drop_first());
            assert(self.accepts_all(batches[0]) == other.accepts_all(batches[0])) by {
                assert forall|e: SimulationEvent| self.accepts(e) == other.accepts(e) by {}
            }
        }
    }
}

} // verus!
