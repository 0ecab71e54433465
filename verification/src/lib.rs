//! A predator-prey cellular automaton on a wrapping grid.
//!
//! Fish and sharks live on the cells of a rectangular ocean whose edges are
//! glued together. Every tick each fish swims to a free neighbouring cell, each
//! shark hunts a neighbouring fish or swims on and loses energy, and animals
//! whose breeding time has come leave a young one behind.
//!
//! The rules are stated as functions on mathematical grids in [`model`] and
//! [`tick`]; the executable code in [`field`] and [`board`] is proved to
//! compute exactly those functions.
use vstd::prelude::*;

pub mod board;
pub mod chance;
pub mod field;
pub mod model;
pub mod tick;

pub use board::Board;

verus! {

/// The error of a simulation step: the ocean has lost one of its species.
#[derive(Debug, PartialEq, Eq)]
pub struct SimulationError(pub String);

impl SimulationError {
    /// The text of the error.
    pub fn message(&self) -> (text: &String)
        ensures
            *text == self.0,
    {
        &self.0
    }
}

} // verus!
