//! The primitives of a chip-select bus, and the record of the calls made
//! to them.
use vstd::prelude::*;
use crate::error::Error;
use crate::spi::plan::Call;

verus! {

/// One call of a bus primitive, as it went.
#[derive(Debug, PartialEq, Eq)]
pub enum Event<Word, E> {
    /// The select line was asserted, or the attempt failed.
    Select(Result<(), E>),
    /// One word-time: what went out (`None` for padding), and what came
    /// in, or how it failed.
    Exchange(Option<Word>, Result<Word, E>),
    /// The select line was released, or the attempt failed.
    Deselect(Result<(), E>),
}

impl<Word, E> Event<Word, E> {
    /// The primitive and what was handed to it.
    pub open spec fn call(self) -> Call<Word> {
        match self {
            Event::Select(_) => Call::Select,
            Event::Exchange(outgoing, _) => Call::Exchange(outgoing),
            Event::Deselect(_) => Call::Deselect,
        }
    }

    /// The error that the call returned, if it failed.
    pub open spec fn error(self) -> Option<E> {
        match self {
            Event::Select(Err(error)) => Some(error),
            Event::Exchange(_, Err(error)) => Some(error),
            Event::Deselect(Err(error)) => Some(error),
            _ => None,
        }
    }

    /// The word that came in, for an exchange that succeeded.
    pub open spec fn incoming(self) -> Word {
        self->Exchange_1->Ok_0
    }
}

/// The physical operations of a chip-select bus in master mode.
///
/// As on the addressed bus, a backend keeps a record of the calls made to
/// it, and transactions are specified against that record.
pub trait Bus<Word: 'static + Copy> {
    /// The error of this backend.
    type Error: Error;

    /// Every call made to this backend so far, oldest first.
    spec fn trace(&self) -> Seq<Event<Word, Self::Error>>;

    /// Asserts the select line.
    fn select(&mut self) -> (outcome: Result<(), Self::Error>)
        ensures
            final(self).trace() == old(self).trace().push(Event::Select(outcome)),
    ;

    /// Runs one word-time: transmits `outgoing`, or padding of the
    /// backend's choice for `None`, and returns the word that came in.
    fn exchange(&mut self, outgoing: Option<Word>) -> (incoming: Result<Word, Self::Error>)
        ensures
            final(self).trace() == old(self).trace().push(Event::Exchange(outgoing, incoming)),
    ;

    /// Releases the select line.
    fn deselect(&mut self) -> (outcome: Result<(), Self::Error>)
        ensures
            final(self).trace() == old(self).trace().push(Event::Deselect(outcome)),
    ;
}

} // verus!
