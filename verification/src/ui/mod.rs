//! The decisions behind the panels of the user interface.

use vstd::prelude::*;

pub mod firmware;
pub mod motor;

verus! {

/// Top-level navigation panels.
#[derive(Debug, Clone, Copy, PartialEq, Eq, Structural)]
pub enum Panel {
    Connection,
    Firmware,
    MotorControl,
    Graphs,
    Configuration,
    Log,
}

} // verus!
