//! The commands that the input side sends to the simulation.

use vstd::prelude::*;

verus! {

/// A command for the simulation. The coordinates of `ToggleCellAt` are the
/// terminal's: the column `x` and the row `y`, both counted from 1.
#[derive(Clone, Copy, Debug, PartialEq, Eq, Structural)]
pub enum SimulationEvent {
    Quit,
    TogglePlayback,
    ToggleCellAt(u16, u16),
}

/// The index of the first `Quit` among `events` at or after `from`, or the
/// length of `events` where there is none.
pub open spec fn first_quit_from(events: Seq<SimulationEvent>, from: int) -> int
    decreases events.len() - from,
{
    if from >= events.len() || events[from] == SimulationEvent::Quit {
        from
    } else {
        first_quit_from(events, from + 1)
    }
}

/// The index of the first `Quit` among `events`, or their number where
/// there is none.
pub open spec fn first_quit(events: Seq<SimulationEvent>) -> int {
    first_quit_from(events, 0)
}

/// There is a `Quit` among `events`.
pub open spec fn has_quit(events: Seq<SimulationEvent>) -> bool {
    first_quit(events) < events.len()
}

/// The commands that are acted upon: those before the first `Quit`.
pub open spec fn heeded(events: Seq<SimulationEvent>) -> Seq<SimulationEvent> {
    events.take(first_quit(events))
}

/// What `first_quit_from` finds: an index from `from` to the length, with no
/// `Quit` between `from` and it, and a `Quit` at it unless it is the length.
pub proof fn lemma_first_quit_from(events: Seq<SimulationEvent>, from: int)
    requires
        0 <= from <= events.len(),
    ensures
        from <= first_quit_from(events, from) <= events.len(),
        forall|k: int|
            from <= k < first_quit_from(events, from) ==> events[k] != SimulationEvent::Quit,
        first_quit_from(events, from) < events.len() ==> events[first_quit_from(events, from)]
            == SimulationEvent::Quit,
    decreases events.len() - from,
{
    if from < events.len() && events[from] != SimulationEvent::Quit {
        lemma_first_quit_from(events, from + 1);
    }
}

/// The first `Quit` is found at `at` when there is none before it and
/// either one at it or nothing there.
pub proof fn lemma_first_quit_is(events: Seq<SimulationEvent>, at: int)
    requires
        0 <= at <= events.len(),
        forall|k: int| 0 <= k < at ==> events[k] != SimulationEvent::Quit,
        at < events.len() ==> events[at] == SimulationEvent::Quit,
    ensures
        first_quit(events) == at,
{
    lemma_first_quit_from(events, 0);
}

/// What follows a `Quit` is not acted upon: commands added behind a
/// sequence that holds a `Quit` change nothing about what is heeded.
pub proof fn lemma_heeded_stops_at_quit(events: Seq<SimulationEvent>, later: Seq<SimulationEvent>)
    requires
        has_quit(events),
    ensures
        has_quit(events + later),
        first_quit(events + later) == first_quit(events),
        heeded(events + later) == heeded(events),
{
    lemma_first_quit_from(events, 0);
    lemma_first_quit_is(events + later, first_quit(events));
}

/// The commands that are heeded are the first of the commands, and no
/// `Quit` is among them.
pub proof fn lemma_heeded_has_no_quit(events: Seq<SimulationEvent>)
    ensures
        heeded(events).len() == first_quit(events),
        heeded(events).len() <= events.len(),
        forall|k: int| 0 <= k < heeded(events).len() ==> #[trigger] heeded(events)[k] == events[k],
        forall|k: int|
            0 <= k < heeded(events).len() ==> #[trigger] heeded(events)[k] != SimulationEvent::Quit,
{
    lemma_first_quit_from(events, 0);
}

} // verus!
