//! The chip-select sequencer as a state machine: it hands out the calls of
//! a plan one by one, and whoever drives it makes them.
use vstd::prelude::*;
use crate::error::Fault;
use crate::spi::laws::{alike, lemma_alike_lengths, lemma_plan_at_position};
use crate::spi::plan::{exchanged, plan, position, Call, Operation, OperationView};

verus! {

/// A primitive call that the sequencer asks its driver to make.
#[derive(Debug, Copy, Clone, PartialEq, Eq, Structural)]
pub enum Step {
    /// Call `select`.
    Select,
    /// Call `exchange` with what the operation at index `operation` sends
    /// in its word-time `word`, and let that operation store what came in.
    Exchange { operation: usize, word: usize },
    /// Call `deselect`.
    Deselect,
}

impl Step {
    /// The call that this step stands for, given the operations.
    pub open spec fn call<Word>(self, ops: Seq<OperationView<Word>>) -> Call<Word> {
        match self {
            Step::Select => Call::Select,
            Step::Exchange { operation, word } => Call::Exchange(
                ops[operation as int].outgoing(word as int),
            ),
            Step::Deselect => Call::Deselect,
        }
    }

    /// Whether the step points into the operations: an exchange at a
    /// word-time of an operation.
    pub open spec fn fits<Word>(self, ops: Seq<OperationView<Word>>) -> bool {
        match self {
            Step::Exchange { operation, word } => operation < ops.len() && word
                < ops[operation as int].duration(),
            _ => true,
        }
    }

    /// The index of an exchange in the plan of `ops`.
    pub open spec fn index<Word>(self, ops: Seq<OperationView<Word>>) -> int {
        match self {
            Step::Exchange { operation, word } => position(ops, operation as int, word as int),
            _ => 0,
        }
    }

    /// The operations after the word `incoming` that this step brought in
    /// is handed to its operation: stored at the index of the word-time if
    /// the buffer reaches that far, discarded otherwise. A step that is no
    /// exchange, or that does not fit, stores nothing.
    pub open spec fn stored<Word>(self, ops: Seq<OperationView<Word>>, incoming: Word) -> Seq<
        OperationView<Word>,
    > {
        match self {
            Step::Exchange { operation, word } => if self.fits(ops) && word
                < ops[operation as int].capacity() {
                ops.update(
                    operation as int,
                    ops[operation as int].with_buffer(
                        ops[operation as int].buffer().update(word as int, incoming),
                    ),
                )
            } else {
                ops
            },
            _ => ops,
        }
    }

    /// The word to hand to `exchange` for this step: what its operation
    /// sends in its word-time, `None` for padding. Also `None` for a step
    /// that is no exchange or does not fit.
    pub fn outgoing<Word: 'static + Copy>(&self, operations: &[Operation<'_, Word>]) -> (word:
        Option<Word>)
        ensures
            self is Exchange && self.fits(operations.deep_view()) ==> self.call(
                operations.deep_view(),
            ) == Call::Exchange(word),
            !(self is Exchange && self.fits(operations.deep_view())) ==> word is None,
    {
        match self {
            Step::Exchange { operation, word } => {
                if *operation < operations.len() {
                    operations[*operation].outgoing(*word)
                } else {
                    None
                }
            },
            _ => None,
        }
    }

    /// Hands the word `incoming` that the exchange of this step brought in
    /// to its operation.
    pub fn store<Word: 'static + Copy>(
        &self,
        operations: &mut [Operation<'_, Word>],
        incoming: Word,
    )
        ensures
            final(operations).deep_view() == self.stored(old(operations).deep_view(), incoming),
            final(operations)@.len() == old(operations)@.len(),
            forall|i: int|
                0 <= i < old(operations)@.len() && (#[trigger] final(operations)@[i]) is Read
                    ==> old(operations)@[i] is Read && final(final(operations)@[i]->Read_0)@
                    == final(old(operations)@[i]->Read_0)@,
            forall|i: int|
                0 <= i < old(operations)@.len() && (#[trigger] final(operations)@[i]) is Transfer
                    ==> old(operations)@[i] is Transfer && final(
                    final(operations)@[i]->Transfer_0
                )@ == final(old(operations)@[i]->Transfer_0)@,
            forall|i: int|
                0 <= i < old(operations)@.len() && (#[trigger] final(operations)@[i])
                    is TransferInPlace ==> old(operations)@[i] is TransferInPlace && final(
                    final(operations)@[i]->TransferInPlace_0
                )@ == final(old(operations)@[i]->TransferInPlace_0)@,
    {
        let ghost ops = operations.deep_view();
        match self {
            Step::Exchange { operation, word } => {
                if *operation < operations.len() {
                    if *word < operations[*operation].duration() {
                        operations[*operation].store(*word, incoming);
                    }
                }
            },
            _ => {},
        }
        proof {
            let after = operations.deep_view();
            let expected = self.stored(ops, incoming);
            assert(forall|i: int| 0 <= i < after.len() ==> after[i] == expected[i]);
        }
    }
}

#[derive(Debug, Copy, Clone, PartialEq, Eq, Structural)]
enum Stage {
    /// Next: the assertion of the select line.
    Opening,
    /// Next: a word-time of the current operation, if one is left.
    Running,
    /// Next: the release of the select line.
    Closing,
    /// Nothing is left to do.
    Finished,
}

/// The state of one transaction in progress.
///
/// The driver asks [`Sequencer::next`] for a call, makes it, and asks again
/// if it succeeded; if it failed, the driver asks [`Sequencer::abort`] what
/// is left to do.
#[derive(Debug)]
pub struct Sequencer {
    operation: usize,
    word: usize,
    stage: Stage,
    exchanged: bool,
}

impl Sequencer {
    /// Whether the sequencer has nothing more to hand out.
    pub closed spec fn finished(self) -> bool {
        self.stage == Stage::Finished
    }

    /// Whether the step handed out last was a word-time.
    pub closed spec fn last_exchanged(self) -> bool {
        self.exchanged
    }

    /// The number of calls of the plan of `ops` that were handed out.
    pub closed spec fn handed_out<Word>(self, ops: Seq<OperationView<Word>>) -> int {
        match self.stage {
            Stage::Opening => 0,
            Stage::Running => position(ops, self.operation as int, self.word as int),
            Stage::Closing => plan(ops).len() - 1,
            Stage::Finished => plan(ops).len() as int,
        }
    }

    /// Whether the state is one that stepping through the plan of `ops`
    /// reaches.
    pub closed spec fn in_step_with<Word>(self, ops: Seq<OperationView<Word>>) -> bool {
        match self.stage {
            Stage::Opening => true,
            Stage::Running => ops.len() > 0 && (self.operation < ops.len() && self.word
                <= ops[self.operation as int].duration() || self.operation == ops.len()
                && self.word == 0),
            Stage::Closing => ops.len() > 0,
            Stage::Finished => true,
        }
    }

    /// Whether the sequencer has handed out nothing yet.
    pub closed spec fn at_start(self) -> bool {
        self.stage == Stage::Opening && !self.exchanged
    }

    /// A sequencer for the transaction of `operations`. An empty operation
    /// list is no transaction: it is refused, before any primitive is
    /// called.
    pub fn start<Word: 'static + Copy, E>(operations: &[Operation<'_, Word>]) -> (started: Result<
        Sequencer,
        Fault<E>,
    >)
        ensures
            operations@.len() == 0 ==> started == Err::<Sequencer, Fault<E>>(
                Fault::EmptyTransaction,
            ),
            operations@.len() > 0 ==> started is Ok,
            started matches Ok(sequencer) ==> sequencer.at_start(),
    {
        if operations.len() == 0 {
            Err(Fault::EmptyTransaction)
        } else {
            Ok(Sequencer::new())
        }
    }

    /// A sequencer at the start of a transaction.
    pub fn new() -> (sequencer: Sequencer)
        ensures
            sequencer.at_start(),
    {
        Sequencer { operation: 0, word: 0, stage: Stage::Opening, exchanged: false }
    }

    /// A sequencer at the start is in step with every operation list.
    pub proof fn lemma_at_start<Word>(self, ops: Seq<OperationView<Word>>)
        requires
            self.at_start(),
        ensures
            self.in_step_with(ops),
            self.handed_out(ops) == 0,
            !self.finished(),
            !self.last_exchanged(),
    {
    }

    /// Stepping depends on the durations of the operations only.
    pub proof fn lemma_alike<Word>(self, a: Seq<OperationView<Word>>, b: Seq<OperationView<Word>>)
        requires
            alike(a, b),
        ensures
            self.in_step_with(a) == self.in_step_with(b),
            self.in_step_with(a) ==> self.handed_out(a) == self.handed_out(b),
    {
        lemma_alike_lengths(a, b, a.len() as int);
        if self.stage == Stage::Running && self.operation <= a.len() {
            lemma_alike_lengths(a, b, self.operation as int);
        }
    }

    /// The next call of the plan, after the one handed out before
    /// succeeded; `None` when the plan is complete.
    ///
    /// The first call of an empty operation list hands out nothing.
    pub fn next<Word: 'static + Copy>(&mut self, operations: &[Operation<'_, Word>]) -> (step:
        Option<Step>)
        ensures
            old(self).finished() ==> step is None && final(self).finished(),
            step matches Some(s) ==> s.fits(operations.deep_view()),
            old(self).in_step_with(operations.deep_view()) && !old(self).finished() ==> ({
                let ops = operations.deep_view();
                let calls = plan(ops);
                let at = old(self).handed_out(ops);
                &&& 0 <= at <= calls.len()
                &&& final(self).in_step_with(ops)
                &&& at == calls.len() ==> step is None && final(self).finished()
                &&& at < calls.len() ==> {
                    &&& step matches Some(s)
                    &&& s.call(ops) == calls[at]
                    &&& s is Exchange ==> s.index(ops) == at
                    &&& final(self).handed_out(ops) == at + 1
                    &&& final(self).last_exchanged() == (s is Exchange)
                    &&& final(self).finished() == (at + 1 == calls.len())
                }
            }),
    {
        let count: usize = operations.len();
        let ghost ops = operations.deep_view();
        let ghost start = *self;
        loop
            invariant
                count == operations.len(),
                ops == operations.deep_view(),
                start == *old(self),
                start.in_step_with(ops) ==> self.in_step_with(ops) && self.handed_out(ops)
                    == start.handed_out(ops),
                start.stage == Stage::Finished ==> self.stage == Stage::Finished,
                start.stage != Stage::Finished ==> self.stage != Stage::Finished,
            decreases
                    2 * (count - self.operation) + (if self.stage == Stage::Running {
                        1int
                    } else {
                        0int
                    }) + (if self.stage == Stage::Finished {
                        0int
                    } else {
                        1int
                    }),
        {
            match self.stage {
                Stage::Finished => {
                    return None;
                },
                Stage::Opening => {
                    if count == 0 {
                        self.stage = Stage::Finished;
                        return None;
                    }
                    self.stage = Stage::Running;
                    self.operation = 0;
                    self.word = 0;
                    self.exchanged = false;
                    return Some(Step::Select);
                },
                Stage::Closing => {
                    self.stage = Stage::Finished;
                    self.exchanged = false;
                    return Some(Step::Deselect);
                },
                Stage::Running => {
                    if self.operation >= count {
                        if count == 0 || self.operation > count {
                            self.stage = Stage::Finished;
                            return None;
                        }
                        self.stage = Stage::Closing;
                    } else {
                        let at: usize = self.operation;
                        let duration: usize = operations[at].duration();
                        if self.word < duration {
                            let word: usize = self.word;
                            proof {
                                lemma_plan_at_position(ops, at as int, word as int);
                            }
                            self.word = word + 1;
                            self.exchanged = true;
                            return Some(Step::Exchange { operation: at, word });
                        } else {
                            self.operation = at + 1;
                            self.word = 0;
                        }
                    }
                },
            }
        }
    }

    /// What is left to do after the call handed out last failed: the
    /// release of the select line, if that call was a word-time; nothing,
    /// if it was the assertion or the release itself. Afterwards the
    /// sequencer is finished.
    pub fn abort(&mut self) -> (release: Option<Step>)
        ensures
            final(self).finished(),
            release == (if old(self).last_exchanged() && !old(self).finished() {
                Some(Step::Deselect)
            } else {
                None
            }),
    {
        let release = if self.exchanged && !self.is_finished() {
            Some(Step::Deselect)
        } else {
            None
        };
        self.stage = Stage::Finished;
        self.exchanged = false;
        release
    }

    /// Whether the sequencer has nothing more to hand out.
    pub fn is_finished(&self) -> (finished: bool)
        ensures
            finished == self.finished(),
    {
        match self.stage {
            Stage::Finished => true,
            _ => false,
        }
    }
}

} // verus!
