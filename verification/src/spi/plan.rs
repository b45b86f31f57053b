//! The plan of a chip-select transaction: one word-time after the other,
//! between one assertion and one release of the select line.
use vstd::prelude::*;

verus! {

/// One step of a transaction on a full-duplex bus. Every word-time moves
/// one word out and one word in; an operation says which of the two sides
/// matter.
#[derive(Debug, PartialEq)]
pub enum Operation<'a, Word: 'static + Copy> {
    /// Read into the buffer; what goes out is up to the bus.
    Read(&'a mut [Word]),
    /// Write the words; what comes in is discarded.
    Write(&'a [Word]),
    /// Write the second buffer and read into the first at the same time.
    Transfer(&'a mut [Word], &'a [Word]),
    /// Write the buffer and overwrite it with what comes in.
    TransferInPlace(&'a mut [Word]),
}

/// An operation as a value.
pub enum OperationView<Word> {
    /// A read, with the current contents of its buffer.
    Read(Seq<Word>),
    /// A write, with the words to transmit.
    Write(Seq<Word>),
    /// A transfer, with the current contents of the read buffer and the
    /// words to transmit.
    Transfer(Seq<Word>, Seq<Word>),
    /// A transfer in place, with the current contents of the buffer.
    TransferInPlace(Seq<Word>),
}

impl<Word> OperationView<Word> {
    /// The number of word-times that the operation takes. A transfer runs
    /// for as long as its longer buffer.
    pub open spec fn duration(self) -> nat {
        match self {
            OperationView::Read(buffer) => buffer.len(),
            OperationView::Write(words) => words.len(),
            OperationView::Transfer(buffer, words) => if buffer.len() >= words.len() {
                buffer.len()
            } else {
                words.len()
            },
            OperationView::TransferInPlace(buffer) => buffer.len(),
        }
    }

    /// The word that goes out in word-time `k` of the operation; `None`
    /// where the operation has none to send and the bus pads.
    pub open spec fn outgoing(self, k: int) -> Option<Word> {
        match self {
            OperationView::Read(_) => None,
            OperationView::Write(words) => Some(words[k]),
            OperationView::Transfer(_, words) => if k < words.len() {
                Some(words[k])
            } else {
                None
            },
            OperationView::TransferInPlace(buffer) => Some(buffer[k]),
        }
    }

    /// The number of incoming words that the operation keeps, from its
    /// first word-time on; the words after them are discarded.
    pub open spec fn capacity(self) -> nat {
        match self {
            OperationView::Read(buffer) => buffer.len(),
            OperationView::Write(_) => 0,
            OperationView::Transfer(buffer, _) => buffer.len(),
            OperationView::TransferInPlace(buffer) => buffer.len(),
        }
    }

    /// The buffer that takes the incoming words; empty for a write.
    pub open spec fn buffer(self) -> Seq<Word> {
        match self {
            OperationView::Read(buffer) => buffer,
            OperationView::Write(_) => Seq::empty(),
            OperationView::Transfer(buffer, _) => buffer,
            OperationView::TransferInPlace(buffer) => buffer,
        }
    }

    /// The operation with `buffer` in place of its own.
    pub open spec fn with_buffer(self, buffer: Seq<Word>) -> OperationView<Word> {
        match self {
            OperationView::Read(_) => OperationView::Read(buffer),
            OperationView::Write(words) => OperationView::Write(words),
            OperationView::Transfer(_, words) => OperationView::Transfer(buffer, words),
            OperationView::TransferInPlace(_) => OperationView::TransferInPlace(buffer),
        }
    }
}

impl<'a, Word: 'static + Copy> View for Operation<'a, Word> {
    type V = OperationView<Word>;

    open spec fn view(&self) -> OperationView<Word> {
        match self {
            Operation::Read(buffer) => OperationView::Read(buffer@),
            Operation::Write(words) => OperationView::Write(words@),
            Operation::Transfer(buffer, words) => OperationView::Transfer(buffer@, words@),
            Operation::TransferInPlace(buffer) => OperationView::TransferInPlace(buffer@),
        }
    }
}

impl<'a, Word: 'static + Copy> DeepView for Operation<'a, Word> {
    type V = OperationView<Word>;

    open spec fn deep_view(&self) -> OperationView<Word> {
        self@
    }
}

impl<'a, Word: 'static + Copy> Operation<'a, Word> {
    /// The number of word-times that the operation takes.
    pub fn duration(&self) -> (duration: usize)
        ensures
            duration == self@.duration(),
    {
        match self {
            Operation::Read(buffer) => buffer.len(),
            Operation::Write(words) => words.len(),
            Operation::Transfer(buffer, words) => if buffer.len() >= words.len() {
                buffer.len()
            } else {
                words.len()
            },
            Operation::TransferInPlace(buffer) => buffer.len(),
        }
    }

    /// The word that goes out in word-time `k`; `None` where the bus pads,
    /// and for a `k` beyond the word-times of the operation.
    pub fn outgoing(&self, k: usize) -> (word: Option<Word>)
        ensures
            word == (if k < self@.duration() {
                self@.outgoing(k as int)
            } else {
                None
            }),
    {
        match self {
            Operation::Read(_) => None,
            Operation::Write(words) => if k < words.len() {
                Some(words[k])
            } else {
                None
            },
            Operation::Transfer(_, words) => if k < words.len() {
                Some(words[k])
            } else {
                None
            },
            Operation::TransferInPlace(buffer) => if k < buffer.len() {
                Some(buffer[k])
            } else {
                None
            },
        }
    }

    /// Takes the word that came in in word-time `k`: it is stored at index
    /// `k` of the buffer if the buffer reaches that far, and discarded
    /// otherwise.
    pub fn store(&mut self, k: usize, word: Word)
        ensures
            final(self)@ == (if k < old(self)@.capacity() {
                old(self)@.with_buffer(old(self)@.buffer().update(k as int, word))
            } else {
                old(self)@
            }),
            *final(self) is Read ==> *old(self) is Read && final((*final(self))->Read_0)@
                == final((*old(self))->Read_0)@,
            *final(self) is Transfer ==> *old(self) is Transfer && final(
                (*final(self))->Transfer_0
            )@ == final((*old(self))->Transfer_0)@,
            *final(self) is TransferInPlace ==> *old(self) is TransferInPlace && final(
                (*final(self))->TransferInPlace_0
            )@ == final((*old(self))->TransferInPlace_0)@,
    {
        match self {
            Operation::Read(buffer) => {
                if k < buffer.len() {
                    buffer[k] = word;
                }
            },
            Operation::Write(_) => {},
            Operation::Transfer(buffer, _) => {
                if k < buffer.len() {
                    buffer[k] = word;
                }
            },
            Operation::TransferInPlace(buffer) => {
                if k < buffer.len() {
                    buffer[k] = word;
                }
            },
        }
    }
}

/// A call of a bus primitive, with what is handed to it.
pub enum Call<Word> {
    /// Assert the select line.
    Select,
    /// One word-time: transmit the word, or padding of the bus's choice for
    /// `None`, and receive one word.
    Exchange(Option<Word>),
    /// Release the select line.
    Deselect,
}

/// The word-times of one operation.
pub open spec fn word_times<Word>(op: OperationView<Word>) -> Seq<Call<Word>> {
    Seq::new(op.duration(), |k: int| Call::Exchange(op.outgoing(k)))
}

/// The word-times of the first `n` operations, in order.
pub open spec fn exchanged<Word>(ops: Seq<OperationView<Word>>, n: int) -> Seq<Call<Word>>
    decreases n,
{
    if n <= 0 {
        Seq::empty()
    } else {
        exchanged(ops, n - 1) + word_times(ops[n - 1])
    }
}

/// The complete call sequence of a transaction when no primitive fails:
/// the select line is asserted once, held over the word-times of all
/// operations, and released once. An empty operation list is no
/// transaction and has no calls.
pub open spec fn plan<Word>(ops: Seq<OperationView<Word>>) -> Seq<Call<Word>> {
    if ops.len() == 0 {
        Seq::empty()
    } else {
        seq![Call::Select] + exchanged(ops, ops.len() as int) + seq![Call::Deselect]
    }
}

/// The index in the plan of word-time `k` of operation `i`.
pub open spec fn position<Word>(ops: Seq<OperationView<Word>>, i: int, k: int) -> int {
    1 + exchanged(ops, i).len() + k
}

} // verus!
