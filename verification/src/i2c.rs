//! Addressed (I2C-style) bus: error taxonomy, addressing, and the
//! transaction sequencer.
pub mod address;
pub mod blocking;
pub mod bus;
pub mod laws;
pub mod outcome;
pub mod plan;
pub mod recorder;
pub mod sequencer;

pub use crate::error::{Error, ErrorKind, Fault, NoAcknowledgeSource};
pub use address::{Address, AddressMode, Direction, SevenBitAddress, TenBitAddress};
pub use bus::Bus;
pub use recorder::{Entry, Recorded, Recorder};
pub use sequencer::{Sequencer, Step};
