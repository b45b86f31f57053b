//! Chip-select (SPI-style) bus: simultaneous transfers, sequenced under one
//! assertion of the select line.
pub mod blocking;
pub mod bus;
pub mod laws;
pub mod outcome;
pub mod plan;
pub mod recorder;
pub mod sequencer;

pub use bus::{Bus, Event};
pub use recorder::Recorder;
pub use sequencer::{Sequencer, Step};
