//! The transaction plan: which primitive calls a list of operations turns
//! into, and the laws of that sequence.
use vstd::prelude::*;
use crate::i2c::address::{Address, Direction};

verus! {

/// One step of a transaction.
///
/// A `Write` borrows the bytes to transmit; a `Read` borrows the buffer that
/// the transaction fills. Both borrows last for the call only.
#[derive(Debug, PartialEq)]
pub enum Operation<'a> {
    /// Read data into the provided buffer.
    Read(&'a mut [u8]),
    /// Write data from the provided buffer.
    Write(&'a [u8]),
}

/// An operation as a value: its direction and the bytes behind its borrow.
pub enum OperationView {
    /// A read, with the current contents of its buffer.
    Read(Seq<u8>),
    /// A write, with the bytes to transmit.
    Write(Seq<u8>),
}

impl OperationView {
    /// The direction of the operation.
    pub open spec fn direction(self) -> Direction {
        match self {
            OperationView::Read(_) => Direction::Read,
            OperationView::Write(_) => Direction::Write,
        }
    }

    /// The bytes behind the borrow.
    pub open spec fn bytes(self) -> Seq<u8> {
        match self {
            OperationView::Read(buffer) => buffer,
            OperationView::Write(bytes) => bytes,
        }
    }
}

impl<'a> View for Operation<'a> {
    type V = OperationView;

    open spec fn view(&self) -> OperationView {
        match self {
            Operation::Read(buffer) => OperationView::Read(buffer@),
            Operation::Write(bytes) => OperationView::Write(bytes@),
        }
    }
}

impl<'a> DeepView for Operation<'a> {
    type V = OperationView;

    open spec fn deep_view(&self) -> OperationView {
        self@
    }
}

impl<'a> Operation<'a> {
    /// The direction of the operation.
    pub fn direction(&self) -> (direction: Direction)
        ensures
            direction == self@.direction(),
    {
        match self {
            Operation::Read(_) => Direction::Read,
            Operation::Write(_) => Direction::Write,
        }
    }

    /// The number of bytes to transfer.
    pub fn len(&self) -> (len: usize)
        ensures
            len == self@.bytes().len(),
    {
        match self {
            Operation::Read(buffer) => buffer.len(),
            Operation::Write(bytes) => bytes.len(),
        }
    }
}

/// A call of a bus primitive, with what is handed to it.
pub enum Call {
    /// Start condition, then the address with the direction.
    Begin(Direction, Address),
    /// Repeated start, then the address with the direction.
    ContinueWith(Direction, Address),
    /// Transmit these bytes.
    Send(Seq<u8>),
    /// Receive `len` bytes; withhold the acknowledgement of the last one if
    /// `last_byte_no_ack` is set.
    Receive { len: nat, last_byte_no_ack: bool },
    /// Stop condition.
    End,
}

/// The primitive that a [`Call`] invokes.
#[derive(PartialEq, Eq, Structural)]
pub enum Primitive {
    /// `begin`: start condition and address.
    Begin,
    /// `continue_with`: repeated start and address.
    ContinueWith,
    /// `send`: bytes out.
    Send,
    /// `receive`: bytes in.
    Receive,
    /// `end`: stop condition.
    End,
}

impl Call {
    /// The primitive that this call invokes.
    pub open spec fn primitive(self) -> Primitive {
        match self {
            Call::Begin(_, _) => Primitive::Begin,
            Call::ContinueWith(_, _) => Primitive::ContinueWith,
            Call::Send(_) => Primitive::Send,
            Call::Receive { .. } => Primitive::Receive,
            Call::End => Primitive::End,
        }
    }

    /// Whether this call moves data, as opposed to framing the transaction.
    pub open spec fn moves_data(self) -> bool {
        self is Send || self is Receive
    }
}

/// Whether operation `i` opens a run: it is the first operation, or its
/// direction differs from that of the operation before it.
pub open spec fn opens_run(ops: Seq<OperationView>, i: int) -> bool {
    i == 0 || ops[i].direction() != ops[i - 1].direction()
}

/// The index of the first operation of the run that operation `i` belongs
/// to. A run is a maximal stretch of adjacent operations of one direction.
pub open spec fn run_start(ops: Seq<OperationView>, i: int) -> int
    decreases i,
{
    if i <= 0 {
        0
    } else if opens_run(ops, i) {
        i
    } else {
        run_start(ops, i - 1)
    }
}

/// The number of maximal same-direction runs among the first `n`
/// operations: every run has one operation that opens it.
pub open spec fn run_count(ops: Seq<OperationView>, n: int) -> nat
    decreases n,
{
    if n <= 0 {
        0
    } else {
        run_count(ops, n - 1) + if opens_run(ops, n - 1) {
            1nat
        } else {
            0nat
        }
    }
}

/// The framing call that precedes the data of operation `i`: `Begin` before
/// the first operation, `ContinueWith` at a change of direction, nothing
/// between two operations of one direction.
pub open spec fn framing(address: Address, ops: Seq<OperationView>, i: int) -> Seq<Call> {
    if i == 0 {
        seq![Call::Begin(ops[0].direction(), address)]
    } else if opens_run(ops, i) {
        seq![Call::ContinueWith(ops[i].direction(), address)]
    } else {
        Seq::empty()
    }
}

/// The data calls of one operation: one `Send` with all the bytes of a
/// write; one `Receive` for each byte of a read. `closing` says that the
/// operation is the last of its transaction: the receive of its last byte
/// then withholds the acknowledgement.
pub open spec fn payload(op: OperationView, closing: bool) -> Seq<Call> {
    match op {
        OperationView::Write(bytes) => seq![Call::Send(bytes)],
        OperationView::Read(buffer) => Seq::new(
            buffer.len(),
            |j: int| Call::Receive { len: 1, last_byte_no_ack: closing && j == buffer.len() - 1 },
        ),
    }
}

/// The calls for the first `n` operations of a transaction, in order.
pub open spec fn dispatched(address: Address, ops: Seq<OperationView>, n: int) -> Seq<Call>
    decreases n,
{
    if n <= 0 {
        Seq::empty()
    } else {
        dispatched(address, ops, n - 1) + framing(address, ops, n - 1) + payload(
            ops[n - 1],
            n == ops.len(),
        )
    }
}

/// The complete call sequence of a transaction when no primitive fails:
/// the calls for all operations, then `End`. An empty operation list is no
/// transaction and has no calls.
pub open spec fn plan(address: Address, ops: Seq<OperationView>) -> Seq<Call> {
    if ops.len() == 0 {
        Seq::empty()
    } else {
        dispatched(address, ops, ops.len() as int).push(Call::End)
    }
}

/// The index in the plan of the receive call for byte `j` of operation `i`,
/// and of the send call of operation `i` where `j` is 0.
pub open spec fn position(address: Address, ops: Seq<OperationView>, i: int, j: int) -> int {
    dispatched(address, ops, i).len() + framing(address, ops, i).len() + j
}

/// How often `primitive` is called in `calls`.
pub open spec fn occurrences(calls: Seq<Call>, primitive: Primitive) -> nat
    decreases calls.len(),
{
    if calls.len() == 0 {
        0
    } else {
        occurrences(calls.drop_last(), primitive) + if calls.last().primitive() == primitive {
            1nat
        } else {
            0nat
        }
    }
}

} // verus!
