//! The bus primitives that the sequencer composes, and the record of the
//! calls made to them.
use vstd::prelude::*;
use crate::error::Error;
use crate::i2c::address::{Address, Direction};
use crate::i2c::plan::Call;

verus! {

/// One call of a bus primitive, as it went.
pub struct Event<E> {
    /// The primitive and what was handed to it.
    pub call: Call,
    /// What the buffer of a receive held when the call returned; empty for
    /// every other primitive.
    pub received: Seq<u8>,
    /// What the call returned.
    pub outcome: Result<(), E>,
}

/// The physical operations of a bus in master mode.
///
/// A backend keeps a record of the calls made to it, in order, each with its
/// outcome. The record is what transactions are specified against: a
/// primitive is called if and only if the record grows by that call.
pub trait Bus {
    /// The error of this backend.
    type Error: Error;

    /// Every call made to this backend so far, oldest first.
    spec fn trace(&self) -> Seq<Event<Self::Error>>;

    /// Emits a start condition and the address with the direction.
    fn begin(&mut self, direction: Direction, address: Address) -> (outcome: Result<
        (),
        Self::Error,
    >)
        ensures
            final(self).trace() == old(self).trace().push(
                Event { call: Call::Begin(direction, address), received: Seq::empty(), outcome },
            ),
    ;

    /// Emits a repeated start and the address with the direction.
    fn continue_with(&mut self, direction: Direction, address: Address) -> (outcome: Result<
        (),
        Self::Error,
    >)
        ensures
            final(self).trace() == old(self).trace().push(
                Event {
                    call: Call::ContinueWith(direction, address),
                    received: Seq::empty(),
                    outcome,
                },
            ),
    ;

    /// Emits a stop condition.
    fn end(&mut self) -> (outcome: Result<(), Self::Error>)
        ensures
            final(self).trace() == old(self).trace().push(
                Event { call: Call::End, received: Seq::empty(), outcome },
            ),
    ;

    /// Transmits `bytes`.
    fn send(&mut self, bytes: &[u8]) -> (outcome: Result<(), Self::Error>)
        ensures
            final(self).trace() == old(self).trace().push(
                Event { call: Call::Send(bytes@), received: Seq::empty(), outcome },
            ),
    ;

    /// Receives enough bytes to fill `buffer`. With `last_byte_no_ack` the
    /// last of them is not acknowledged.
    fn receive(&mut self, buffer: &mut [u8], last_byte_no_ack: bool) -> (outcome: Result<
        (),
        Self::Error,
    >)
        ensures
            final(buffer)@.len() == old(buffer)@.len(),
            final(self).trace() == old(self).trace().push(
                Event {
                    call: Call::Receive { len: old(buffer)@.len(), last_byte_no_ack },
                    received: final(buffer)@,
                    outcome,
                },
            ),
    ;
}

} // verus!
