//! A chip-select bus that records the calls made to it and plays back a
//! script: which calls fail, and which words a device delivers.
use vstd::prelude::*;
use crate::error::ErrorKind;
use crate::spi::bus::{Bus, Event};

verus! {

/// A scripted bus.
///
/// Call number `k` (counting from zero, over all primitives) fails with
/// `faults[k]` if the script has such an entry and it is `Some`; every
/// other call succeeds. An exchange that succeeds brings in the next word
/// of `incoming`, and the idle word once they are used up.
#[derive(Debug)]
pub struct Recorder<Word> {
    entries: Vec<Event<Word, ErrorKind>>,
    incoming: Vec<Word>,
    taken: usize,
    idle: Word,
    faults: Vec<Option<ErrorKind>>,
}

impl<Word: 'static + Copy> Recorder<Word> {
    /// The recorded calls, oldest first.
    pub closed spec fn recorded(self) -> Seq<Event<Word, ErrorKind>> {
        self.entries@
    }

    /// The words that the script delivers.
    pub closed spec fn script(self) -> Seq<Word> {
        self.incoming@
    }

    /// The word that comes in once the script has run out.
    pub closed spec fn idle_word(self) -> Word {
        self.idle
    }

    /// How many words of the script were delivered.
    pub closed spec fn consumed(self) -> nat {
        if self.taken <= self.incoming@.len() {
            self.taken as nat
        } else {
            self.incoming@.len()
        }
    }

    /// The outcome that the script has for call number `k`.
    pub closed spec fn scripted(self, k: int) -> Result<(), ErrorKind> {
        if 0 <= k < self.faults@.len() && self.faults@[k] is Some {
            Err(self.faults@[k]->Some_0)
        } else {
            Ok(())
        }
    }

    /// A recorder that has seen no call, with its script.
    pub fn new(incoming: Vec<Word>, idle: Word, faults: Vec<Option<ErrorKind>>) -> (recorder:
        Recorder<Word>)
        ensures
            recorder.recorded() == Seq::<Event<Word, ErrorKind>>::empty(),
            recorder.script() == incoming@,
            recorder.idle_word() == idle,
            recorder.consumed() == 0,
            forall|k: int|
                #[trigger] recorder.scripted(k) == (if 0 <= k < faults@.len()
                    && faults@[k] is Some {
                    Err(faults@[k]->Some_0)
                } else {
                    Ok(())
                }),
    {
        Recorder { entries: Vec::new(), incoming, taken: 0, idle, faults }
    }

    /// The recorded calls, oldest first.
    pub fn entries(&self) -> (entries: &Vec<Event<Word, ErrorKind>>)
        ensures
            entries@ == self.recorded(),
    {
        &self.entries
    }

    /// The outcome of the call that comes next.
    fn verdict(&self) -> (outcome: Result<(), ErrorKind>)
        ensures
            outcome == self.scripted(self.recorded().len() as int),
    {
        let k: usize = self.entries.len();
        if k < self.faults.len() {
            match self.faults[k] {
                Some(kind) => Err(kind),
                None => Ok(()),
            }
        } else {
            Ok(())
        }
    }
}

impl<Word: 'static + Copy> Bus<Word> for Recorder<Word> {
    type Error = ErrorKind;

    open spec fn trace(&self) -> Seq<Event<Word, ErrorKind>> {
        self.recorded()
    }

    fn select(&mut self) -> (outcome: Result<(), ErrorKind>)
        ensures
            outcome == old(self).scripted(old(self).recorded().len() as int),
            final(self).script() == old(self).script(),
            final(self).idle_word() == old(self).idle_word(),
            final(self).consumed() == old(self).consumed(),
            forall|k: int| final(self).scripted(k) == old(self).scripted(k),
    {
        let outcome = self.verdict();
        self.entries.push(Event::Select(outcome));
        outcome
    }

    fn exchange(&mut self, outgoing: Option<Word>) -> (incoming: Result<Word, ErrorKind>)
        ensures
            incoming is Ok == old(self).scripted(old(self).recorded().len() as int) is Ok,
            incoming matches Err(kind) ==> old(self).scripted(old(self).recorded().len() as int)
                == Err::<(), ErrorKind>(kind) && final(self).consumed() == old(self).consumed(),
            incoming matches Ok(word) ==> word == (if old(self).consumed() < old(
                self,
            ).script().len() {
                old(self).script()[old(self).consumed() as int]
            } else {
                old(self).idle_word()
            }) && final(self).consumed() == (if old(self).consumed() < old(self).script().len() {
                old(self).consumed() + 1
            } else {
                old(self).consumed()
            }),
            final(self).script() == old(self).script(),
            final(self).idle_word() == old(self).idle_word(),
            forall|k: int| final(self).scripted(k) == old(self).scripted(k),
    {
        let incoming = match self.verdict() {
            Err(kind) => Err(kind),
            Ok(()) => {
                if self.taken < self.incoming.len() {
                    let word = self.incoming[self.taken];
                    self.taken = self.taken + 1;
                    Ok(word)
                } else {
                    Ok(self.idle)
                }
            },
        };
        self.entries.push(Event::Exchange(outgoing, incoming));
        incoming
    }

    fn deselect(&mut self) -> (outcome: Result<(), ErrorKind>)
        ensures
            outcome == old(self).scripted(old(self).recorded().len() as int),
            final(self).script() == old(self).script(),
            final(self).idle_word() == old(self).idle_word(),
            final(self).consumed() == old(self).consumed(),
            forall|k: int| final(self).scripted(k) == old(self).scripted(k),
    {
        let outcome = self.verdict();
        self.entries.push(Event::Deselect(outcome));
        outcome
    }
}

} // verus!
