//! The core of a terminal Game of Life.
//!
//! A [`Simulation`] owns a grid of cells on a torus, as large as the
//! terminal it was made for, and a play/pause flag. Commands toggle cells
//! and playback; a generation step applies the rule of Life to every cell
//! at once. Whatever changes a cell yields a [`CellWrite`] for it, and
//! nothing else does, so that a screen fed with these writes always shows
//! the grid.
//!
//! - [`modulo`]: the floored modulo that wraps indices around the edges
//! - [`cell`]: the states of a cell and the rule
//! - [`grid`]: the torus and the generation step, as mathematics
//! - [`screen`]: the writes that a change of the grid calls for
//! - [`render`]: the writes as characters for the terminal
//! - [`command`], [`input`]: the commands and the inputs they come from
//! - [`state`]: what commands and steps make of a simulation, as mathematics
//! - [`simulation`]: the engine itself
//! - [`patterns`]: the block and the blinker

pub mod cell;
pub mod command;
pub mod grid;
pub mod input;
pub mod modulo;
pub mod patterns;
pub mod render;
pub mod screen;
pub mod simulation;
pub mod state;

pub use cell::{Cell, CellState};
pub use command::SimulationEvent;
pub use input::InputEvent;
pub use modulo::ModuloSignedExt;
pub use screen::CellWrite;
pub use simulation::{Report, Simulation};
