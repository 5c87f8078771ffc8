//! The input side: what the terminal reports, and the commands made of it.

use vstd::prelude::*;
use crate::command::{
    SimulationEvent, first_quit, has_quit, lemma_first_quit_from, lemma_first_quit_is,
    lemma_heeded_stops_at_quit,
};

verus! {

/// What the terminal reports, as far as the simulation looks at it: a
/// character key, the escape key, a mouse button pressed or held at the
/// column `x` and row `y` of the terminal (counted from 1), or anything
/// else.
#[derive(Clone, Copy, Debug, PartialEq, Eq, Structural)]
pub enum InputEvent {
    Char(char),
    Esc,
    Press(u16, u16),
    Hold(u16, u16),
    Other,
}

/// The command that an input stands for, if it stands for one: the space
/// bar toggles playback, `q` and escape quit, and the mouse toggles the cell
/// it is pressed or held on.
pub open spec fn command_for(input: InputEvent) -> Option<SimulationEvent> {
    match input {
        InputEvent::Char(c) => if c == ' ' {
            Some(SimulationEvent::TogglePlayback)
        } else if c == 'q' {
            Some(SimulationEvent::Quit)
        } else {
            None
        },
        InputEvent::Esc => Some(SimulationEvent::Quit),
        InputEvent::Press(x, y) => Some(SimulationEvent::ToggleCellAt(x, y)),
        InputEvent::Hold(x, y) => Some(SimulationEvent::ToggleCellAt(x, y)),
        InputEvent::Other => None,
    }
}

/// The commands for `inputs`, in their order, inputs that stand for none
/// left out.
pub open spec fn commands_for(inputs: Seq<InputEvent>) -> Seq<SimulationEvent>
    decreases inputs.len(),
{
    if inputs.len() == 0 {
        Seq::empty()
    } else {
        match command_for(inputs.last()) {
            Some(command) => commands_for(inputs.drop_last()).push(command),
            None => commands_for(inputs.drop_last()),
        }
    }
}

/// What the listener sends for `inputs`: their commands up to the first
/// `Quit` and that `Quit`, after which it sends nothing.
pub open spec fn sent_for(inputs: Seq<InputEvent>) -> Seq<SimulationEvent> {
    let commands = commands_for(inputs);
    if has_quit(commands) {
        commands.take(first_quit(commands) + 1)
    } else {
        commands
    }
}

/// The command that one input stands for.
pub fn interpret(input: InputEvent) -> (command: Option<SimulationEvent>)
    ensures
        command == command_for(input),
{
    match input {
        InputEvent::Char(' ') => Some(SimulationEvent::TogglePlayback),
        InputEvent::Press(x, y) | InputEvent::Hold(x, y) => Some(
            SimulationEvent::ToggleCellAt(x, y),
        ),
        InputEvent::Char('q') | InputEvent::Esc => Some(SimulationEvent::Quit),
        _ => None,
    }
}

/// The listener over a recorded sequence of inputs: the commands it sends,
/// which end with the first `Quit`.
pub fn listen(inputs: &Vec<InputEvent>) -> (sent: Vec<SimulationEvent>)
    ensures
        sent@ == sent_for(inputs@),
{
    let mut sent: Vec<SimulationEvent> = Vec::new();
    let mut k: usize = 0;
    while k < inputs.len()
        invariant
            k <= inputs.len(),
            sent@ == commands_for(inputs@.take(k as int)),
            !has_quit(sent@),
        decreases inputs.len() - k,
    {
        proof {
            assert(inputs@.take(k + 1).drop_last() == inputs@.take(k as int));
            lemma_first_quit_from(sent@, 0);
        }
        match interpret(inputs[k]) {
            Some(command) => {
                let ghost before = sent@;
                sent.push(command);
                proof {
                    if command == SimulationEvent::Quit {
                        lemma_first_quit_is(sent@, before.len() as int);
                        lemma_commands_prefix(inputs@, k + 1);
                        lemma_heeded_stops_at_quit(
                            sent@,
                            commands_for(inputs@).skip(sent@.len() as int),
                        );
                        assert(sent@ + commands_for(inputs@).skip(sent@.len() as int)
                            == commands_for(inputs@));
                    } else {
                        lemma_first_quit_is(sent@, sent@.len() as int);
                    }
                }
                if command == SimulationEvent::Quit {
                    return sent;
                }
            },
            None => {},
        }
        k += 1;
    }
    proof {
        assert(inputs@.take(k as int) == inputs@);
    }
    sent
}

/// The commands for the first inputs are the first of the commands for all
/// of them.
pub proof fn lemma_commands_prefix(inputs: Seq<InputEvent>, upto: int)
    requires
        0 <= upto <= inputs.len(),
    ensures
        commands_for(inputs.take(upto)).len() <= commands_for(inputs).len(),
        commands_for(inputs.take(upto)) == commands_for(inputs).take(
            commands_for(inputs.take(upto)).len() as int,
        ),
    decreases inputs.len() - upto,
{
    if upto == inputs.len() {
        assert(inputs.take(upto) == inputs);
    } else {
        lemma_commands_prefix(inputs, upto + 1);
        assert(inputs.take(upto + 1).drop_last() == inputs.take(upto));
    }
}

/// The listener sends at most one `Quit`, and it is the last thing it
/// sends.
pub proof fn lemma_sent_ends_with_quit(inputs: Seq<InputEvent>)
    ensures
        forall|k: int|
            0 <= k < sent_for(inputs).len() - 1 ==> #[trigger] sent_for(inputs)[k]
                != SimulationEvent::Quit,
        has_quit(commands_for(inputs)) ==> sent_for(inputs).len() > 0 && sent_for(inputs).last()
            == SimulationEvent::Quit,
        !has_quit(commands_for(inputs)) ==> !has_quit(sent_for(inputs)),
{
    lemma_first_quit_from(commands_for(inputs), 0);
}

} // verus!
