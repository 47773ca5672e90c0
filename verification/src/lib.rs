//! Core logic of the NEVC-MTR1 motor driver controller: the SCPI protocol
//! text, the firmware configuration model and its encodings, serial port
//! classification, and the state machine behind the user interface.

pub mod scpi;
pub mod serial;
pub mod text;
pub mod app;
pub mod firmware;
pub mod ui;
