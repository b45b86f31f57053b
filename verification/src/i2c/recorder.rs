//! A bus that records the calls made to it and plays back a script: which
//! calls fail, and which bytes a device delivers.
use vstd::prelude::*;
use crate::i2c::address::{Address, Direction};
use crate::i2c::bus::{Bus, Event};
use crate::error::ErrorKind;
use crate::i2c::plan::Call;

verus! {

/// A call as the recorder keeps it.
#[derive(Debug, PartialEq, Eq)]
pub enum Recorded {
    /// `begin` with this direction and address.
    Begin(Direction, Address),
    /// `continue_with` with this direction and address.
    ContinueWith(Direction, Address),
    /// `send` with these bytes.
    Send(Vec<u8>),
    /// `receive` with a buffer of `len` bytes.
    Receive { len: usize, last_byte_no_ack: bool },
    /// `end`.
    End,
}

impl View for Recorded {
    type V = Call;

    open spec fn view(&self) -> Call {
        match self {
            Recorded::Begin(direction, address) => Call::Begin(*direction, *address),
            Recorded::ContinueWith(direction, address) => Call::ContinueWith(*direction, *address),
            Recorded::Send(bytes) => Call::Send(bytes@),
            Recorded::Receive { len, last_byte_no_ack } => Call::Receive {
                len: *len as nat,
                last_byte_no_ack: *last_byte_no_ack,
            },
            Recorded::End => Call::End,
        }
    }
}

/// A recorded call with what it delivered and how it went.
#[derive(Debug, PartialEq, Eq)]
pub struct Entry {
    /// The call.
    pub call: Recorded,
    /// What a receive left in its buffer; empty for every other call.
    pub received: Vec<u8>,
    /// What the call returned.
    pub outcome: Result<(), ErrorKind>,
}

impl View for Entry {
    type V = Event<ErrorKind>;

    open spec fn view(&self) -> Event<ErrorKind> {
        Event { call: self.call@, received: self.received@, outcome: self.outcome }
    }
}

/// The bytes of `buffer` after a receive that delivers from `incoming`,
/// starting at its index `from`: byte `j` is `incoming[from + j]`, and zero
/// where the script has run out.
pub open spec fn delivered(incoming: Seq<u8>, from: int, len: nat) -> Seq<u8> {
    Seq::new(
        len,
        |j: int|
            if from + j < incoming.len() {
                incoming[from + j]
            } else {
                0u8
            },
    )
}

/// A scripted bus.
///
/// Call number `k` (counting from zero, over all primitives) fails with
/// `faults[k]` if the script has such an entry and it is `Some`; every
/// other call succeeds. A receive that succeeds takes the next bytes of
/// `incoming`, and zeroes once they are used up; one that fails leaves its
/// buffer alone and takes nothing.
#[derive(Debug)]
pub struct Recorder {
    entries: Vec<Entry>,
    incoming: Vec<u8>,
    taken: usize,
    faults: Vec<Option<ErrorKind>>,
}

impl Recorder {
    /// The recorded calls, oldest first.
    pub closed spec fn recorded(self) -> Seq<Event<ErrorKind>> {
        Seq::new(self.entries@.len(), |k: int| self.entries@[k]@)
    }

    /// The bytes that the script delivers.
    pub closed spec fn script(self) -> Seq<u8> {
        self.incoming@
    }

    /// How many bytes of the script were delivered.
    pub closed spec fn consumed(self) -> nat {
        if self.taken <= self.incoming@.len() {
            self.taken as nat
        } else {
            self.incoming@.len()
        }
    }

    /// The outcome that the script has for call number `k`.
    pub closed spec fn scripted(self, k: int) -> Result<(), ErrorKind> {
        if 0 <= k < self.faults@.len() && self.faults@[k] is Some {
            Err(self.faults@[k]->Some_0)
        } else {
            Ok(())
        }
    }

    /// A recorder that has seen no call, with its script.
    pub fn new(incoming: Vec<u8>, faults: Vec<Option<ErrorKind>>) -> (recorder: Recorder)
        ensures
            recorder.recorded() == Seq::<Event<ErrorKind>>::empty(),
            recorder.script() == incoming@,
            recorder.consumed() == 0,
            forall|k: int|
                #[trigger] recorder.scripted(k) == (if 0 <= k < faults@.len()
                    && faults@[k] is Some {
                    Err(faults@[k]->Some_0)
                } else {
                    Ok(())
                }),
    {
        let recorder = Recorder { entries: Vec::new(), incoming, taken: 0, faults };
        recorder
    }

    /// The recorded calls, oldest first.
    pub fn entries(&self) -> (entries: &Vec<Entry>)
        ensures
            entries@.len() == self.recorded().len(),
            forall|k: int|
                0 <= k < entries@.len() ==> (#[trigger] entries@[k])@ == self.recorded()[k],
    {
        &self.entries
    }

    /// The outcome of the call that comes next.
    fn verdict(&self) -> (outcome: Result<(), ErrorKind>)
        ensures
            outcome == self.scripted(self.recorded().len() as int),
    {
        let k: usize = self.entries.len();
        if k < self.faults.len() {
            match self.faults[k] {
                Some(kind) => Err(kind),
                None => Ok(()),
            }
        } else {
            Ok(())
        }
    }

    /// Records a call that delivered nothing.
    fn record(&mut self, call: Recorded) -> (outcome: Result<(), ErrorKind>)
        ensures
            outcome == old(self).scripted(old(self).recorded().len() as int),
            final(self).recorded() == old(self).recorded().push(
                Event { call: call@, received: Seq::empty(), outcome },
            ),
            final(self).script() == old(self).script(),
            final(self).consumed() == old(self).consumed(),
            forall|k: int| final(self).scripted(k) == old(self).scripted(k),
    {
        let outcome = self.verdict();
        self.entries.push(Entry { call, received: Vec::new(), outcome });
        outcome
    }
}

impl Bus for Recorder {
    type Error = ErrorKind;

    open spec fn trace(&self) -> Seq<Event<ErrorKind>> {
        self.recorded()
    }

    fn begin(&mut self, direction: Direction, address: Address) -> (outcome: Result<(), ErrorKind>)
        ensures
            outcome == old(self).scripted(old(self).recorded().len() as int),
            final(self).script() == old(self).script(),
            final(self).consumed() == old(self).consumed(),
            forall|k: int| final(self).scripted(k) == old(self).scripted(k),
    {
        self.record(Recorded::Begin(direction, address))
    }

    fn continue_with(&mut self, direction: Direction, address: Address) -> (outcome: Result<
        (),
        ErrorKind,
    >)
        ensures
            outcome == old(self).scripted(old(self).recorded().len() as int),
            final(self).script() == old(self).script(),
            final(self).consumed() == old(self).consumed(),
            forall|k: int| final(self).scripted(k) == old(self).scripted(k),
    {
        self.record(Recorded::ContinueWith(direction, address))
    }

    fn end(&mut self) -> (outcome: Result<(), ErrorKind>)
        ensures
            outcome == old(self).scripted(old(self).recorded().len() as int),
            final(self).script() == old(self).script(),
            final(self).consumed() == old(self).consumed(),
            forall|k: int| final(self).scripted(k) == old(self).scripted(k),
    {
        self.record(Recorded::End)
    }

    fn send(&mut self, bytes: &[u8]) -> (outcome: Result<(), ErrorKind>)
        ensures
            outcome == old(self).scripted(old(self).recorded().len() as int),
            final(self).script() == old(self).script(),
            final(self).consumed() == old(self).consumed(),
            forall|k: int| final(self).scripted(k) == old(self).scripted(k),
    {
        let mut copy: Vec<u8> = Vec::new();
        let mut i: usize = 0;
        while i < bytes.len()
            invariant
                i <= bytes.len(),
                copy@ == bytes@.take(i as int),
            decreases bytes.len() - i,
        {
            copy.push(bytes[i]);
            i = i + 1;
        }
        assert(bytes@.take(bytes.len() as int) =~= bytes@);
        self.record(Recorded::Send(copy))
    }

    fn receive(&mut self, buffer: &mut [u8], last_byte_no_ack: bool) -> (outcome: Result<
        (),
        ErrorKind,
    >)
        ensures
            outcome == old(self).scripted(old(self).recorded().len() as int),
            final(self).script() == old(self).script(),
            forall|k: int| final(self).scripted(k) == old(self).scripted(k),
            outcome is Err ==> final(buffer)@ == old(buffer)@ && final(self).consumed() == old(
                self,
            ).consumed(),
            outcome is Ok ==> final(buffer)@ == delivered(
                old(self).script(),
                old(self).consumed() as int,
                old(buffer)@.len(),
            ),
            outcome is Ok ==> final(self).consumed() == (if old(self).consumed() + old(
                buffer,
            )@.len() <= old(self).script().len() {
                old(self).consumed() + old(buffer)@.len()
            } else {
                old(self).script().len()
            }),
    {
        let outcome = self.verdict();
        let len: usize = buffer.len();
        let ghost from = self.consumed() as int;
        if outcome.is_ok() {
            let mut j: usize = 0;
            while j < len
                invariant
                    j <= len,
                    len == buffer@.len(),
                    len == old(buffer)@.len(),
                    self.incoming == old(self).incoming,
                    self.entries == old(self).entries,
                    self.faults == old(self).faults,
                    self.consumed() == (if from + j <= self.incoming.len() {
                        from + j
                    } else {
                        self.incoming.len() as int
                    }),
                    forall|k: int|
                        0 <= k < j ==> #[trigger] buffer@[k] == delivered(
                            self.incoming@,
                            from,
                            len as nat,
                        )[k],
                decreases len - j,
            {
                if self.taken < self.incoming.len() {
                    buffer[j] = self.incoming[self.taken];
                    self.taken = self.taken + 1;
                } else {
                    buffer[j] = 0;
                }
                j = j + 1;
            }
        }
        let mut copy: Vec<u8> = Vec::new();
        let mut i: usize = 0;
        while i < len
            invariant
                i <= len,
                len == buffer@.len(),
                copy@ == buffer@.take(i as int),
            decreases len - i,
        {
            copy.push(buffer[i]);
            i = i + 1;
        }
        assert(buffer@.take(len as int) =~= buffer@);
        let call = Recorded::Receive { len, last_byte_no_ack };
        self.entries.push(Entry { call, received: copy, outcome });
        outcome
    }
}

} // verus!
