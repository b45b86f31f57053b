//! The transaction sequencer as a state machine: it hands out the calls of
//! a plan one by one, and whoever drives it makes them.
use vstd::prelude::*;
use crate::error::Fault;
use crate::i2c::address::{Address, Direction};
use crate::i2c::laws::{
    alike, lemma_alike_plans, lemma_dispatched_prefix, lemma_payload_moves_data,
};
use crate::i2c::plan::{
    dispatched, framing, payload, plan, position, Call, Operation, OperationView,
};

verus! {

/// A primitive call that the sequencer asks its driver to make.
#[derive(Debug, Copy, Clone, PartialEq, Eq, Structural)]
pub enum Step {
    /// Call `begin` with this direction and address.
    Begin { direction: Direction, address: Address },
    /// Call `continue_with` with this direction and address.
    ContinueWith { direction: Direction, address: Address },
    /// Call `send` with all bytes of the write at index `operation`.
    Send { operation: usize },
    /// Call `receive` for one byte, and store it at index `byte` of the
    /// buffer of the read at index `operation`.
    Receive { operation: usize, byte: usize, last_byte_no_ack: bool },
    /// Call `end`.
    End,
}

impl Step {
    /// The call that this step stands for, given the operations.
    pub open spec fn call(self, ops: Seq<OperationView>) -> Call {
        match self {
            Step::Begin { direction, address } => Call::Begin(direction, address),
            Step::ContinueWith { direction, address } => Call::ContinueWith(direction, address),
            Step::Send { operation } => Call::Send(ops[operation as int].bytes()),
            Step::Receive { last_byte_no_ack, .. } => Call::Receive { len: 1, last_byte_no_ack },
            Step::End => Call::End,
        }
    }

    /// Whether the step points into the operations: a send at a write, a
    /// receive at a byte of a read.
    pub open spec fn fits(self, ops: Seq<OperationView>) -> bool {
        match self {
            Step::Send { operation } => operation < ops.len() && ops[operation as int] is Write,
            Step::Receive { operation, byte, .. } => operation < ops.len()
                && ops[operation as int] is Read && byte < ops[operation as int].bytes().len(),
            _ => true,
        }
    }

    /// The index of this step in the plan of `ops`, for a send or receive
    /// that fits.
    pub open spec fn index(self, address: Address, ops: Seq<OperationView>) -> int {
        match self {
            Step::Send { operation } => position(address, ops, operation as int, 0),
            Step::Receive { operation, byte, .. } => position(
                address,
                ops,
                operation as int,
                byte as int,
            ),
            _ => 0,
        }
    }

    /// The operations after the byte `value` that this step received is
    /// stored where the step points. A step that is no receive, or that
    /// does not fit, stores nothing.
    pub open spec fn stored(self, ops: Seq<OperationView>, value: u8) -> Seq<OperationView> {
        match self {
            Step::Receive { operation, byte, .. } => if self.fits(ops) {
                ops.update(
                    operation as int,
                    OperationView::Read(ops[operation as int].bytes().update(byte as int, value)),
                )
            } else {
                ops
            },
            _ => ops,
        }
    }

    /// The bytes to hand to `send` for this step: all bytes of the write
    /// that a send points at. `None` for every other step.
    pub fn outgoing<'b>(&self, operations: &'b [Operation<'_>]) -> (bytes: Option<&'b [u8]>)
        ensures
            bytes is Some <==> self is Send && self.fits(operations.deep_view()),
            bytes matches Some(slice) ==> self.call(operations.deep_view()) == Call::Send(slice@),
    {
        match self {
            Step::Send { operation } => {
                if *operation < operations.len() {
                    match &operations[*operation] {
                        Operation::Write(bytes) => Some(bytes),
                        Operation::Read(_) => None,
                    }
                } else {
                    None
                }
            },
            _ => None,
        }
    }

    /// Stores the byte `value` that the receive of this step delivered.
    pub fn store(&self, operations: &mut [Operation<'_>], value: u8)
        ensures
            final(operations).deep_view() == self.stored(old(operations).deep_view(), value),
            final(operations)@.len() == old(operations)@.len(),
            forall|i: int|
                0 <= i < old(operations)@.len() && (#[trigger] final(operations)@[i]) is Read
                    ==> old(operations)@[i] is Read && final(final(operations)@[i]->Read_0)@
                    == final(old(operations)@[i]->Read_0)@,
    {
        let ghost ops = operations.deep_view();
        match self {
            Step::Receive { operation, byte, .. } => {
                if *operation < operations.len() {
                    match &mut operations[*operation] {
                        Operation::Read(buffer) => {
                            if *byte < buffer.len() {
                                buffer[*byte] = value;
                            }
                        },
                        Operation::Write(_) => {},
                    }
                }
            },
            _ => {},
        }
        proof {
            let after = operations.deep_view();
            let expected = self.stored(ops, value);
            assert(forall|i: int| 0 <= i < after.len() ==> after[i] == expected[i]);
        }
    }
}

#[derive(Debug, Copy, Clone, PartialEq, Eq, Structural)]
enum Stage {
    /// Next: the framing call of the current operation, if it has one.
    Framing,
    /// Next: a data call of the current operation, if one is left.
    Data,
    /// Next: the stop.
    Closing,
    /// Nothing is left to do.
    Finished,
}

/// The state of one transaction in progress.
///
/// The driver asks [`Sequencer::next`] for a call, makes it, and asks again
/// if it succeeded; if it failed, the driver asks [`Sequencer::abort`] what
/// is left to do.
#[derive(Debug)]
pub struct Sequencer {
    address: Address,
    operation: usize,
    byte: usize,
    stage: Stage,
    moved_data: bool,
}

impl Sequencer {
    /// The target address of the transaction.
    pub closed spec fn address_of(self) -> Address {
        self.address
    }

    /// Whether the sequencer has nothing more to hand out.
    pub closed spec fn finished(self) -> bool {
        self.stage == Stage::Finished
    }

    /// Whether the step handed out last was a send or a receive.
    pub closed spec fn last_moved_data(self) -> bool {
        self.moved_data
    }

    /// The number of calls of the plan of `ops` that were handed out.
    pub closed spec fn handed_out(self, ops: Seq<OperationView>) -> int {
        match self.stage {
            Stage::Framing => dispatched(self.address, ops, self.operation as int).len() as int,
            Stage::Data => position(self.address, ops, self.operation as int, self.byte as int),
            Stage::Closing => plan(self.address, ops).len() - 1,
            Stage::Finished => plan(self.address, ops).len() as int,
        }
    }

    /// Whether the state is one that stepping through the plan of `ops`
    /// reaches.
    pub closed spec fn in_step_with(self, ops: Seq<OperationView>) -> bool {
        match self.stage {
            Stage::Framing => self.operation <= ops.len(),
            Stage::Data => self.operation < ops.len() && self.byte <= payload(
                ops[self.operation as int],
                false,
            ).len() && (ops[self.operation as int] is Write ==> self.byte == 0),
            Stage::Closing => ops.len() > 0,
            Stage::Finished => true,
        }
    }

    /// A sequencer for the transaction of `operations` with `address`. An
    /// empty operation list is no transaction: it is refused, before any
    /// primitive is called.
    pub fn start<E>(address: Address, operations: &[Operation<'_>]) -> (started: Result<
        Sequencer,
        Fault<E>,
    >)
        ensures
            operations@.len() == 0 ==> started == Err::<Sequencer, Fault<E>>(
                Fault::EmptyTransaction,
            ),
            operations@.len() > 0 ==> started is Ok,
            started matches Ok(sequencer) ==> {
                &&& sequencer.address_of() == address
                &&& !sequencer.finished()
                &&& !sequencer.last_moved_data()
                &&& forall|ops: Seq<OperationView>| #[trigger]
                    sequencer.in_step_with(ops) && sequencer.handed_out(ops) == 0
            },
    {
        if operations.len() == 0 {
            Err(Fault::EmptyTransaction)
        } else {
            Ok(Sequencer::new(address))
        }
    }

    /// A sequencer at the start of a transaction with `address`.
    pub fn new(address: Address) -> (sequencer: Sequencer)
        ensures
            sequencer.address_of() == address,
            !sequencer.finished(),
            !sequencer.last_moved_data(),
            forall|ops: Seq<OperationView>| #[trigger]
                sequencer.in_step_with(ops) && sequencer.handed_out(ops) == 0,
    {
        Sequencer { address, operation: 0, byte: 0, stage: Stage::Framing, moved_data: false }
    }

    /// Stepping depends on directions, lengths and bytes to write only.
    pub proof fn lemma_alike(self, a: Seq<OperationView>, b: Seq<OperationView>)
        requires
            alike(a, b),
        ensures
            self.in_step_with(a) == self.in_step_with(b),
            self.in_step_with(a) ==> self.handed_out(a) == self.handed_out(b),
    {
        lemma_alike_plans(self.address, a, b);
        if self.stage == Stage::Data && self.operation < a.len() {
            let op = self.operation as int;
            lemma_payload_moves_data(a[op], false);
            lemma_payload_moves_data(b[op], false);
        }
    }

    /// The next call of the plan, after the one handed out before succeeded;
    /// `None` when the plan is complete.
    ///
    /// The first call of an empty operation list hands out nothing.
    pub fn next(&mut self, operations: &[Operation<'_>]) -> (step: Option<Step>)
        ensures
            final(self).address_of() == old(self).address_of(),
            old(self).finished() ==> step is None && final(self).finished(),
            step matches Some(s) ==> s.fits(operations.deep_view()),
            old(self).in_step_with(operations.deep_view()) && !old(self).finished() ==> ({
                let ops = operations.deep_view();
                let calls = plan(old(self).address_of(), ops);
                let at = old(self).handed_out(ops);
                &&& 0 <= at <= calls.len()
                &&& final(self).in_step_with(ops)
                &&& at == calls.len() ==> step is None && final(self).finished()
                &&& at < calls.len() ==> {
                    &&& step matches Some(s)
                    &&& s.call(ops) == calls[at]
                    &&& calls[at].moves_data() ==> s.index(old(self).address_of(), ops) == at
                    &&& final(self).handed_out(ops) == at + 1
                    &&& final(self).last_moved_data() == calls[at].moves_data()
                    &&& final(self).finished() == (at + 1 == calls.len())
                }
            }),
    {
        let count: usize = operations.len();
        let ghost ops = operations.deep_view();
        let ghost start = *self;
        let ghost address = self.address;
        proof {
            lemma_plan_layout(address, ops);
        }
        loop
            invariant
                count == operations.len(),
                ops == operations.deep_view(),
                start == *old(self),
                address == self.address,
                address == start.address,
                start.in_step_with(ops) ==> self.in_step_with(ops) && self.handed_out(ops)
                    == start.handed_out(ops),
                start.stage == Stage::Finished ==> self.stage == Stage::Finished,
                start.stage != Stage::Finished ==> self.stage != Stage::Finished,
                forall|i: int|
                    0 <= i < ops.len() ==> {
                        &&& #[trigger] plan_layout(address, ops, i)
                    },
                ops.len() > 0 ==> plan(address, ops).len() == dispatched(
                    address,
                    ops,
                    ops.len() as int,
                ).len() + 1,
            decreases
                    2 * (count - self.operation) + (if self.stage == Stage::Framing {
                        1int
                    } else {
                        0int
                    }) + (if self.stage == Stage::Finished {
                        0int
                    } else {
                        1int
                    }),
        {
            match self.stage {
                Stage::Finished => {
                    return None;
                },
                Stage::Closing => {
                    self.stage = Stage::Finished;
                    self.moved_data = false;
                    return Some(Step::End);
                },
                Stage::Framing => {
                    if self.operation >= count {
                        if count == 0 || self.operation > count {
                            self.stage = Stage::Finished;
                            return None;
                        }
                        self.stage = Stage::Closing;
                    } else {
                        let direction = operations[self.operation].direction();
                        assert(plan_layout(address, ops, self.operation as int));
                        self.stage = Stage::Data;
                        self.byte = 0;
                        if self.operation == 0 {
                            self.moved_data = false;
                            return Some(Step::Begin { direction, address: self.address });
                        }
                        let before = operations[self.operation - 1].direction();
                        if direction != before {
                            self.moved_data = false;
                            return Some(Step::ContinueWith { direction, address: self.address });
                        }
                    }
                },
                Stage::Data => {
                    if self.operation >= count {
                        self.stage = Stage::Finished;
                        return None;
                    }
                    let at: usize = self.operation;
                    assert(plan_layout(address, ops, at as int));
                    let length: usize = operations[at].len();
                    let reads: bool = operations[at].direction() == Direction::Read;
                    let ghost data = payload(ops[at as int], at + 1 == ops.len());
                    if !reads {
                        assert(start.in_step_with(ops) ==> data[0] == Call::Send(
                            ops[at as int].bytes(),
                        ));
                        self.operation = at + 1;
                        self.stage = Stage::Framing;
                        self.moved_data = true;
                        return Some(Step::Send { operation: at });
                    } else if self.byte < length {
                        let byte: usize = self.byte;
                        assert(data[byte as int] == Call::Receive {
                            len: 1,
                            last_byte_no_ack: at + 1 == count && byte + 1 == length,
                        });
                        self.byte = byte + 1;
                        self.moved_data = true;
                        return Some(
                            Step::Receive {
                                operation: at,
                                byte,
                                last_byte_no_ack: at + 1 == count && byte + 1 == length,
                            },
                        );
                    } else {
                        self.operation = at + 1;
                        self.stage = Stage::Framing;
                    }
                },
            }
        }
    }

    /// What is left to do after the call handed out last failed: the stop,
    /// if that call was a send or a receive; nothing, if it was a start, a
    /// repeated start or the stop itself. Afterwards the sequencer is
    /// finished.
    pub fn abort(&mut self) -> (stop: Option<Step>)
        ensures
            final(self).address_of() == old(self).address_of(),
            final(self).finished(),
            stop == (if old(self).last_moved_data() && !old(self).finished() {
                Some(Step::End)
            } else {
                None
            }),
    {
        let stop = if self.moved_data && !self.is_finished() {
            Some(Step::End)
        } else {
            None
        };
        self.stage = Stage::Finished;
        self.moved_data = false;
        stop
    }

    /// Whether the sequencer has nothing more to hand out.
    pub fn is_finished(&self) -> (finished: bool)
        ensures
            finished == self.finished(),
    {
        match self.stage {
            Stage::Finished => true,
            _ => false,
        }
    }
}

/// Where the calls of operation `i` lie in the plan.
spec fn plan_layout(address: Address, ops: Seq<OperationView>, i: int) -> bool {
    let calls = plan(address, ops);
    let frame = framing(address, ops, i);
    let data = payload(ops[i], i + 1 == ops.len());
    let start = dispatched(address, ops, i).len() as int;
    &&& dispatched(address, ops, i + 1).len() == start + frame.len() + data.len()
    &&& start + frame.len() + data.len() < calls.len()
    &&& frame.len() <= 1
    &&& frame.len() == 1 ==> calls[start] == frame[0]
    &&& forall|j: int| 0 <= j < data.len() ==> calls[start + frame.len() + j] == #[trigger] data[j]
    &&& data.len() == payload(ops[i], false).len()
}

proof fn lemma_plan_layout(address: Address, ops: Seq<OperationView>)
    ensures
        forall|i: int| 0 <= i < ops.len() ==> #[trigger] plan_layout(address, ops, i),
        ops.len() > 0 ==> plan(address, ops).len() == dispatched(
            address,
            ops,
            ops.len() as int,
        ).len() + 1,
        ops.len() > 0 ==> plan(address, ops).last() == Call::End,
{
    assert forall|i: int| 0 <= i < ops.len() implies #[trigger] plan_layout(address, ops, i) by {
        let whole = dispatched(address, ops, ops.len() as int);
        let upto = dispatched(address, ops, i + 1);
        let frame = framing(address, ops, i);
        let data = payload(ops[i], i + 1 == ops.len());
        let start = dispatched(address, ops, i).len() as int;
        lemma_dispatched_prefix(address, ops, i + 1, ops.len() as int);
        lemma_payload_moves_data(ops[i], i + 1 == ops.len());
        lemma_payload_moves_data(ops[i], false);
        if frame.len() == 1 {
            assert(whole.subrange(0, upto.len() as int)[start] == whole[start]);
        }
        assert forall|j: int| 0 <= j < data.len() implies plan(address, ops)[start + frame.len()
            + j] == #[trigger] data[j] by {
            assert(whole.subrange(0, upto.len() as int)[start + frame.len() + j] == whole[start
                + frame.len() + j]);
        }
    }
}

} // verus!
