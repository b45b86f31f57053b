//! Error taxonomy: every backend error normalizes to an [`ErrorKind`].
use vstd::prelude::*;

verus! {

/// Which acknowledgement was missing.
#[derive(Debug, Copy, Clone, Eq, PartialEq, Structural, Ord, PartialOrd, Hash)]
pub enum NoAcknowledgeSource {
    /// The device did not acknowledge its address; it may be absent.
    Address,
    /// The device did not acknowledge a data byte; it may be busy.
    Data,
    /// One of the two, but the hardware cannot tell which.
    Unknown,
}

/// The common classification of bus faults.
#[derive(Debug, Copy, Clone, Eq, PartialEq, Structural, Ord, PartialOrd, Hash)]
#[non_exhaustive]
pub enum ErrorKind {
    /// Protocol framing violation, e.g. a start or stop condition at the
    /// wrong clock pulse.
    BusFault,
    /// Multi-master contention was lost.
    ArbitrationLoss,
    /// The peer did not acknowledge.
    NoAcknowledge(NoAcknowledgeSource),
    /// The receive buffer of the peripheral was overrun.
    Overrun,
    /// Anything else; the error value itself may say more.
    Other,
}

impl NoAcknowledgeSource {
    /// The text of [`NoAcknowledgeSource::message`].
    pub open spec fn message_text(self) -> Seq<char> {
        match self {
            NoAcknowledgeSource::Address => "The device did not acknowledge its address"@,
            NoAcknowledgeSource::Data => "The device did not acknowledge the data"@,
            NoAcknowledgeSource::Unknown =>
                "The device did not acknowledge its address or the data"@,
        }
    }

    /// A one-line description for humans.
    pub fn message(&self) -> (text: String)
        ensures
            text@ == self.message_text(),
    {
        match self {
            NoAcknowledgeSource::Address => "The device did not acknowledge its address".to_owned(),
            NoAcknowledgeSource::Data => "The device did not acknowledge the data".to_owned(),
            NoAcknowledgeSource::Unknown => {
                "The device did not acknowledge its address or the data".to_owned()
            },
        }
    }
}

impl ErrorKind {
    /// The text of [`ErrorKind::message`].
    pub open spec fn message_text(self) -> Seq<char> {
        match self {
            ErrorKind::BusFault => "Bus error occurred"@,
            ErrorKind::ArbitrationLoss => "The arbitration was lost"@,
            ErrorKind::NoAcknowledge(source) => source.message_text(),
            ErrorKind::Overrun => "The peripheral receive buffer was overrun"@,
            ErrorKind::Other =>
                "A different error occurred. The original error may contain more information"@,
        }
    }

    /// A one-line description for humans. A missing acknowledgement is
    /// described by its source.
    pub fn message(&self) -> (text: String)
        ensures
            text@ == self.message_text(),
    {
        match self {
            ErrorKind::BusFault => "Bus error occurred".to_owned(),
            ErrorKind::ArbitrationLoss => "The arbitration was lost".to_owned(),
            ErrorKind::NoAcknowledge(source) => source.message(),
            ErrorKind::Overrun => "The peripheral receive buffer was overrun".to_owned(),
            ErrorKind::Other => {
                "A different error occurred. The original error may contain more information"
                    .to_owned()
            },
        }
    }
}

/// An implementation-specific error that normalizes to an [`ErrorKind`].
///
/// `kind` is a function of the error value alone: it performs no I/O and
/// gives the same answer whenever it is asked.
pub trait Error: core::fmt::Debug {
    /// The classification of this error, as a specification.
    spec fn kind_of(&self) -> ErrorKind;

    /// Normalizes the error.
    fn kind(&self) -> (kind: ErrorKind)
        ensures
            kind == self.kind_of(),
    ;
}

/// The error of a backend that cannot fail. No value of it exists, so its
/// kind is never asked for.
impl Error for core::convert::Infallible {
    open spec fn kind_of(&self) -> ErrorKind {
        ErrorKind::Other
    }

    fn kind(&self) -> (kind: ErrorKind) {
        ErrorKind::Other
    }
}

impl Error for ErrorKind {
    open spec fn kind_of(&self) -> ErrorKind {
        *self
    }

    fn kind(&self) -> (kind: ErrorKind) {
        *self
    }
}

/// What a transaction reports: either the transaction itself was malformed,
/// or a bus primitive failed and its error is passed on unchanged.
#[derive(Debug, Eq, PartialEq)]
pub enum Fault<E> {
    /// The operation list was empty; no primitive was invoked.
    EmptyTransaction,
    /// The first error a bus primitive returned.
    Bus(E),
}

impl<E: Error> Error for Fault<E> {
    open spec fn kind_of(&self) -> ErrorKind {
        match self {
            Fault::EmptyTransaction => ErrorKind::Other,
            Fault::Bus(e) => e.kind_of(),
        }
    }

    fn kind(&self) -> (kind: ErrorKind) {
        match self {
            Fault::EmptyTransaction => ErrorKind::Other,
            Fault::Bus(e) => e.kind(),
        }
    }
}

} // verus!
