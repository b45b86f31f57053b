//! Transaction engine for master-mode peripheral buses.
//!
//! A transaction is an ordered list of read and write operations that goes
//! over the wire as one unit. The engine turns the list into calls of a few
//! bus primitives and makes them in order, stopping at the first that
//! fails.
//!
//! * [`i2c`] is the addressed bus: start, repeated start at each change of
//!   direction, stop, and the rule for the last acknowledgement.
//! * [`spi`] is the chip-select bus: one assertion of the select line over
//!   all operations, and transfers that read and write at the same time.
//! * [`error`] is the classification of faults that both share.
//!
//! Each bus comes in the same parts. `plan` says which calls an operation
//! list turns into. `sequencer` hands those calls out one by one, for any
//! driver, blocking or not. `bus` is the interface of a backend, with the
//! record of calls that the contracts are stated over. `blocking` drives a
//! backend through a transaction and offers the single-operation entry
//! points. `outcome` and `laws` state what holds of every transaction.
//! `recorder` is a scripted backend to run the engine against.
pub mod error;
pub mod i2c;
pub mod spi;
