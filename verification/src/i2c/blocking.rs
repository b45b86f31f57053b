//! Blocking transactions: each call runs to completion on the calling
//! thread, on a bus that the caller holds exclusively.
use vstd::prelude::*;
use vstd::std_specs::iter::IteratorSpec;
pub use crate::i2c::plan::Operation;
use crate::error::Fault;
use crate::i2c::address::Address;
use crate::i2c::bus::{Bus, Event};
use crate::i2c::laws::{
    alike, lemma_alike_plans, lemma_framing_of_runs, lemma_payload_moves_data,
    lemma_plan_at_position, lemma_position_order,
};
use crate::i2c::outcome::{
    calls_of, first_failure, issued, lemma_deterministic, lemma_first_failure_at, sequenced,
    settled, transacted,
};
use crate::i2c::plan::{plan, position, Call, OperationView};
use crate::i2c::sequencer::{Sequencer, Step};

verus! {

/// The operations after the call of `step` went as `event` says: the byte
/// that a successful receive delivered is stored where the step points.
spec fn stored<E>(ops: Seq<OperationView>, step: Step, event: Event<E>) -> Seq<OperationView> {
    if step is Receive && event.outcome is Ok {
        step.stored(ops, event.received[0])
    } else {
        ops
    }
}

/// Whether the read buffers of `now` hold what the first `n` calls of
/// `events` delivered, and what `ops` held elsewhere.
spec fn filled_to<E>(
    address: Address,
    ops: Seq<OperationView>,
    now: Seq<OperationView>,
    events: Seq<Event<E>>,
    n: int,
) -> bool {
    forall|i: int, j: int|
        0 <= i < ops.len() && ops[i] is Read && 0 <= j < ops[i].bytes().len() ==> (
        #[trigger] now[i].bytes()[j]) == (if position(address, ops, i, j) < n {
            events[position(address, ops, i, j)].received[0]
        } else {
            ops[i].bytes()[j]
        })
}

/// A call that went well keeps the buffers in line with the record.
proof fn lemma_filled_step<E>(
    address: Address,
    ops: Seq<OperationView>,
    now: Seq<OperationView>,
    events: Seq<Event<E>>,
    step: Step,
    event: Event<E>,
)
    requires
        alike(ops, now),
        filled_to(address, ops, now, events, events.len() as int),
        events.len() < plan(address, ops).len(),
        step.call(now) == plan(address, ops)[events.len() as int],
        step.fits(now),
        step.call(now).moves_data() ==> step.index(address, ops) == events.len(),
        event.outcome is Ok,
    ensures
        filled_to(
            address,
            ops,
            stored(now, step, event),
            events.push(event),
            events.len() as int + 1,
        ),
{
    let after = stored(now, step, event);
    let at = events.len() as int;
    assert forall|i: int, j: int|
        0 <= i < ops.len() && ops[i] is Read && 0 <= j < ops[i].bytes().len() implies (
    #[trigger] after[i].bytes()[j]) == (if position(address, ops, i, j) < at + 1 {
        events.push(event)[position(address, ops, i, j)].received[0]
    } else {
        ops[i].bytes()[j]
    }) by {
        lemma_payload_moves_data(ops[i], i + 1 == ops.len());
        lemma_plan_at_position(address, ops, i, j);
        match step {
            Step::Receive { operation, byte, .. } => {
                lemma_payload_moves_data(ops[operation as int], operation + 1 == ops.len());
                if i < operation {
                    lemma_position_order(address, ops, i, j, operation as int, byte as int);
                } else if i > operation {
                    lemma_position_order(address, ops, operation as int, byte as int, i, j);
                } else if j < byte {
                    lemma_position_order(address, ops, i, j, operation as int, byte as int);
                } else if j > byte {
                    lemma_position_order(address, ops, operation as int, byte as int, i, j);
                }
            },
            _ => {},
        }
    }
}

/// Makes the call that `step` stands for. A received byte is stored in its
/// buffer if the call succeeded.
fn perform<B: Bus>(bus: &mut B, operations: &mut [Operation<'_>], step: Step) -> (outcome: Result<
    (),
    B::Error,
>)
    requires
        step.fits(old(operations).deep_view()),
    ensures
        final(bus).trace() == old(bus).trace().push(final(bus).trace().last()),
        final(bus).trace().last().call == step.call(old(operations).deep_view()),
        final(bus).trace().last().outcome == outcome,
        alike(old(operations).deep_view(), final(operations).deep_view()),
        forall|i: int|
            0 <= i < old(operations)@.len() && (#[trigger] final(operations)@[i]) is Read
                ==> old(operations)@[i] is Read && final(final(operations)@[i]->Read_0)@
                == final(old(operations)@[i]->Read_0)@,
        final(operations).deep_view() == stored(
            old(operations).deep_view(),
            step,
            final(bus).trace().last(),
        ),
{
    match step {
        Step::Begin { direction, address } => bus.begin(direction, address),
        Step::ContinueWith { direction, address } => bus.continue_with(direction, address),
        Step::End => bus.end(),
        Step::Send { .. } => match step.outgoing(operations) {
            Some(bytes) => bus.send(bytes),
            None => Ok(()),
        },
        Step::Receive { last_byte_no_ack, .. } => {
            let mut cell: [u8; 1] = [0];
            let outcome = bus.receive(&mut cell, last_byte_no_ack);
            if outcome.is_ok() {
                step.store(operations, cell[0]);
            }
            outcome
        },
    }
}

/// Buffers in line with the calls before the first failure are settled.
proof fn lemma_settled<E>(
    address: Address,
    ops: Seq<OperationView>,
    now: Seq<OperationView>,
    events: Seq<Event<E>>,
    n: int,
)
    requires
        alike(ops, now),
        first_failure(events) == n,
        forall|i: int, j: int|
            0 <= i < ops.len() && ops[i] is Read && 0 <= j < ops[i].bytes().len() ==> (
            #[trigger] now[i].bytes()[j]) == (if position(address, ops, i, j) < n {
                events[position(address, ops, i, j)].received[0]
            } else {
                ops[i].bytes()[j]
            }),
    ensures
        forall|i: int| 0 <= i < ops.len() ==> #[trigger] now[i] == settled(address, ops, events, i),
{
    assert forall|i: int| 0 <= i < ops.len() implies #[trigger] now[i] == settled(
        address,
        ops,
        events,
        i,
    ) by {
        if ops[i] is Read {
            assert(now[i].bytes() =~= settled(address, ops, events, i).bytes());
        }
    }
}

/// Executes `operations` on `bus` as one transaction with the device at
/// `address`.
pub fn transact<B: Bus>(bus: &mut B, address: Address, operations: &mut [Operation<'_>]) -> (result:
    Result<(), Fault<B::Error>>)
    ensures
        old(bus).trace().len() <= final(bus).trace().len(),
        final(bus).trace().take(old(bus).trace().len() as int) == old(bus).trace(),
        transacted(
            address,
            old(operations).deep_view(),
            final(bus).trace().skip(old(bus).trace().len() as int),
            final(operations).deep_view(),
            result,
        ),
        forall|i: int|
            0 <= i < old(operations)@.len() && (#[trigger] final(operations)@[i]) is Read
                ==> old(operations)@[i] is Read && final(final(operations)@[i]->Read_0)@
                == final(old(operations)@[i]->Read_0)@,
{
    let ghost before = bus.trace();
    let ghost ops = operations.deep_view();
    let ghost calls = plan(address, ops);
    let mut sequencer = match Sequencer::start(address, operations) {
        Ok(sequencer) => sequencer,
        Err(fault) => {
            proof {
                assert(bus.trace().skip(before.len() as int) =~= Seq::empty());
                assert(calls_of(Seq::<Event<B::Error>>::empty()) =~= calls);
            }
            return Err(fault);
        },
    };
    let ghost mut events: Seq<Event<B::Error>> = Seq::empty();
    proof {
        lemma_framing_of_runs(address, ops);
    }
    loop
        invariant
            before == old(bus).trace(),
            ops == old(operations).deep_view(),
            calls == plan(address, ops),
            ops.len() > 0,
            calls.len() > 0,
            calls.last() == Call::End,
            alike(ops, operations.deep_view()),
            operations@.len() == old(operations)@.len(),
            forall|i: int|
                0 <= i < old(operations)@.len() && (#[trigger] operations@[i]) is Read
                    ==> old(operations)@[i] is Read && final(operations@[i]->Read_0)@
                    == final(old(operations)@[i]->Read_0)@,
            filled_to(address, ops, operations.deep_view(), events, events.len() as int),
            sequencer.address_of() == address,
            sequencer.in_step_with(operations.deep_view()),
            sequencer.handed_out(operations.deep_view()) == events.len(),
            sequencer.finished() == (events.len() == calls.len()),
            events.len() <= calls.len(),
            bus.trace() == before + events,
            forall|k: int|
                0 <= k < events.len() ==> (#[trigger] events[k]).call == calls[k]
                    && events[k].outcome is Ok,
        decreases calls.len() - events.len(),
    {
        let ghost now = operations.deep_view();
        proof {
            lemma_alike_plans(address, ops, now);
        }
        match sequencer.next(operations) {
            None => {
                proof {
                    assert(bus.trace().skip(before.len() as int) =~= events);
                    lemma_first_failure_at(events, events.len() as int);
                    assert(calls_of(events) =~= calls);
                    lemma_settled(address, ops, now, events, events.len() as int);
                }
                return Ok(());
            },
            Some(step) => {
                let outcome = perform(bus, operations, step);
                let ghost event = bus.trace().last();
                let ghost at = events.len() as int;
                proof {
                    sequencer.lemma_alike(now, operations.deep_view());
                    if outcome is Ok {
                        lemma_filled_step(address, ops, now, events, step, event);
                    }
                    events = events.push(event);
                }
                match outcome {
                    Ok(()) => {},
                    Err(error) => {
                        let stop = sequencer.abort();
                        if stop.is_some() {
                            let _ = bus.end();
                            proof {
                                let stopped = bus.trace().last();
                                events = events.push(stopped);
                            }
                        }
                        proof {
                            assert(bus.trace().skip(before.len() as int) =~= events);
                            lemma_first_failure_at(events, at);
                            assert(calls_of(events) =~= issued(calls, at));
                            lemma_settled(address, ops, now, events, at);
                        }
                        return Err(Fault::Bus(error));
                    },
                }
            },
        }
    }
}

/// The operation list of one read.
pub open spec fn one_read(buffer: Seq<u8>) -> Seq<OperationView> {
    seq![OperationView::Read(buffer)]
}

/// The operation list of one write.
pub open spec fn one_write(bytes: Seq<u8>) -> Seq<OperationView> {
    seq![OperationView::Write(bytes)]
}

/// The operation list of a write followed by a read.
pub open spec fn write_and_read(bytes: Seq<u8>, buffer: Seq<u8>) -> Seq<OperationView> {
    seq![OperationView::Write(bytes), OperationView::Read(buffer)]
}

/// The values of a list of operations.
pub open spec fn views(operations: Seq<Operation<'_>>) -> Seq<OperationView> {
    Seq::new(operations.len(), |i: int| operations[i]@)
}

/// A write followed by a read is the transaction of the list of that write
/// and that read: where the same call is the first to fail, the two make
/// the same calls, byte for byte.
pub proof fn lemma_write_then_read_is_a_list<E>(
    address: Address,
    bytes: Seq<u8>,
    buffer: Seq<u8>,
    events: Seq<Event<E>>,
    result: Result<(), Fault<E>>,
    listed_events: Seq<Event<E>>,
    listed_result: Result<(), Fault<E>>,
)
    requires
        sequenced(address, write_and_read(bytes, buffer), events, result),
        sequenced(
            address,
            seq![OperationView::Write(bytes), OperationView::Read(buffer)],
            listed_events,
            listed_result,
        ),
        first_failure(events) == first_failure(listed_events),
    ensures
        calls_of(events) == calls_of(listed_events),
{
    lemma_deterministic(
        address,
        write_and_read(bytes, buffer),
        events,
        result,
        listed_events,
        listed_result,
    );
}

/// A bus that executes operation lists as transactions.
pub trait Transactional: Bus + Sized {
    /// Executes `operations` as one transaction with the device at
    /// `address`.
    ///
    /// The calls made are those of the plan, up to the first that fails;
    /// after a failed send or receive the stop is still called. The result
    /// is the first error, or success if no call failed. An empty list is
    /// refused before any call.
    ///
    /// The list keeps the borrows it was given: what a read of the list
    /// holds in the end is what its buffer holds from then on.
    fn exec(&mut self, address: Address, operations: &mut [Operation<'_>]) -> (result: Result<
        (),
        Fault<Self::Error>,
    >)
        ensures
            old(self).trace().len() <= final(self).trace().len(),
            final(self).trace().take(old(self).trace().len() as int) == old(self).trace(),
            transacted(
                address,
                old(operations).deep_view(),
                final(self).trace().skip(old(self).trace().len() as int),
                final(operations).deep_view(),
                result,
            ),
            forall|i: int|
                0 <= i < old(operations)@.len() && (#[trigger] final(operations)@[i]) is Read
                    ==> old(operations)@[i] is Read && final(final(operations)@[i]->Read_0)@
                    == final(old(operations)@[i]->Read_0)@,
    {
        transact(self, address, operations)
    }
}

impl<B: Bus> Transactional for B {

}

/// A bus that reads.
pub trait Read: Bus + Sized {
    /// Reads enough bytes from the device at `address` to fill `buffer`:
    /// the transaction of the single operation `Read(buffer)`.
    fn read(&mut self, address: Address, buffer: &mut [u8]) -> (result: Result<
        (),
        Fault<Self::Error>,
    >)
        ensures
            old(self).trace().len() <= final(self).trace().len(),
            final(self).trace().take(old(self).trace().len() as int) == old(self).trace(),
            transacted(
                address,
                one_read(old(buffer)@),
                final(self).trace().skip(old(self).trace().len() as int),
                one_read(final(buffer)@),
                result,
            ),
    {
        let mut operations = [Operation::Read(buffer)];
        assert(operations.deep_view() =~= one_read(old(buffer)@));
        let result = transact(self, address, &mut operations);
        assert(operations.deep_view() =~= one_read(final(buffer)@));
        result
    }
}

impl<B: Bus> Read for B {

}

/// A bus that writes.
pub trait Write: Bus + Sized {
    /// Writes `bytes` to the device at `address`: the transaction of the
    /// single operation `Write(bytes)`.
    fn write(&mut self, address: Address, bytes: &[u8]) -> (result: Result<(), Fault<Self::Error>>)
        ensures
            old(self).trace().len() <= final(self).trace().len(),
            final(self).trace().take(old(self).trace().len() as int) == old(self).trace(),
            transacted(
                address,
                one_write(bytes@),
                final(self).trace().skip(old(self).trace().len() as int),
                one_write(bytes@),
                result,
            ),
    {
        let mut operations = [Operation::Write(bytes)];
        assert(operations.deep_view() =~= one_write(bytes@));
        transact(self, address, &mut operations)
    }
}

impl<B: Bus> Write for B {

}

/// A bus that writes and then reads in one transaction.
pub trait WriteRead: Bus + Sized {
    /// Writes `bytes` to the device at `address` and then reads enough
    /// bytes to fill `buffer`: the transaction of the two operations
    /// `Write(bytes)` and `Read(buffer)`, with one repeated start between
    /// them.
    fn write_then_read(&mut self, address: Address, bytes: &[u8], buffer: &mut [u8]) -> (result:
        Result<(), Fault<Self::Error>>)
        ensures
            old(self).trace().len() <= final(self).trace().len(),
            final(self).trace().take(old(self).trace().len() as int) == old(self).trace(),
            transacted(
                address,
                write_and_read(bytes@, old(buffer)@),
                final(self).trace().skip(old(self).trace().len() as int),
                write_and_read(bytes@, final(buffer)@),
                result,
            ),
    {
        let mut operations = [Operation::Write(bytes), Operation::Read(buffer)];
        assert(operations.deep_view() =~= write_and_read(bytes@, old(buffer)@));
        let result = transact(self, address, &mut operations);
        assert(operations.deep_view() =~= write_and_read(bytes@, final(buffer)@));
        result
    }
}

impl<B: Bus> WriteRead for B {

}

/// Gathers what `items` yields into a vector, up to the largest length
/// that a vector can have.
fn gather<T, I: Iterator<Item = T>>(items: I) -> (gathered: Vec<T>)
    ensures
        items.obeys_prophetic_iter_laws() && items.remaining().len() < usize::MAX ==> gathered@
            == items.remaining(),
{
    let mut items = items;
    let ghost all = items.remaining();
    let ghost lawful = items.obeys_prophetic_iter_laws();
    let mut gathered: Vec<T> = Vec::new();
    while gathered.len() < usize::MAX
        invariant
            lawful == items.obeys_prophetic_iter_laws(),
            lawful ==> all == gathered@ + items.remaining(),
        ensures
            lawful && all.len() < usize::MAX ==> gathered@ == all,
        decreases usize::MAX - gathered.len(),
    {
        match items.next() {
            Some(item) => {
                gathered.push(item);
            },
            None => {
                break ;
            },
        }
    }
    gathered
}

/// A bus that writes what an iterator yields.
pub trait WriteIter: Bus + Sized {
    /// Writes the bytes that `bytes` yields to the device at `address`:
    /// the transaction of the single operation `Write(sent)`, where `sent`
    /// is what a well-behaved iterator had left to yield.
    fn write_iter<I: Iterator<Item = u8>>(&mut self, address: Address, bytes: I) -> (result: Result<
        (),
        Fault<Self::Error>,
    >)
        ensures
            old(self).trace().len() <= final(self).trace().len(),
            final(self).trace().take(old(self).trace().len() as int) == old(self).trace(),
            exists|sent: Seq<u8>|
                {
                    &&& bytes.obeys_prophetic_iter_laws() && bytes.remaining().len() < usize::MAX
                        ==> sent == bytes.remaining()
                    &&& sequenced(
                        address,
                        #[trigger] one_write(sent),
                        final(self).trace().skip(old(self).trace().len() as int),
                        result,
                    )
                },
    {
        let gathered = gather(bytes);
        let mut operations = [Operation::Write(gathered.as_slice())];
        assert(operations.deep_view() =~= one_write(gathered@));
        let result = transact(self, address, &mut operations);
        assert(sequenced(
            address,
            one_write(gathered@),
            self.trace().skip(old(self).trace().len() as int),
            result,
        ));
        result
    }
}

impl<B: Bus> WriteIter for B {

}

/// A bus that writes what an iterator yields and then reads, in one
/// transaction.
pub trait WriteIterRead: Bus + Sized {
    /// Writes the bytes that `bytes` yields to the device at `address` and
    /// then reads enough bytes to fill `buffer`: the transaction of the two
    /// operations `Write(sent)` and `Read(buffer)`, where `sent` is what a
    /// well-behaved iterator had left to yield.
    fn write_iter_read<I: Iterator<Item = u8>>(
        &mut self,
        address: Address,
        bytes: I,
        buffer: &mut [u8],
    ) -> (result: Result<(), Fault<Self::Error>>)
        ensures
            old(self).trace().len() <= final(self).trace().len(),
            final(self).trace().take(old(self).trace().len() as int) == old(self).trace(),
            exists|sent: Seq<u8>|
                {
                    &&& bytes.obeys_prophetic_iter_laws() && bytes.remaining().len() < usize::MAX
                        ==> sent == bytes.remaining()
                    &&& transacted(
                        address,
                        #[trigger] write_and_read(sent, old(buffer)@),
                        final(self).trace().skip(old(self).trace().len() as int),
                        write_and_read(sent, final(buffer)@),
                        result,
                    )
                },
    {
        let gathered = gather(bytes);
        let mut operations = [Operation::Write(gathered.as_slice()), Operation::Read(buffer)];
        assert(operations.deep_view() =~= write_and_read(gathered@, old(buffer)@));
        let result = transact(self, address, &mut operations);
        assert(operations.deep_view() =~= write_and_read(gathered@, final(buffer)@));
        assert(transacted(
            address,
            write_and_read(gathered@, old(buffer)@),
            self.trace().skip(old(self).trace().len() as int),
            write_and_read(gathered@, final(buffer)@),
            result,
        ));
        result
    }
}

impl<B: Bus> WriteIterRead for B {

}

/// A bus that executes the operations that an iterator yields.
pub trait TransactionalIter: Bus + Sized {
    /// Executes the operations that `operations` yields as one transaction
    /// with the device at `address`, as [`Transactional::exec`] executes a
    /// list.
    fn exec_iter<'a, O: Iterator<Item = Operation<'a>>>(
        &mut self,
        address: Address,
        operations: O,
    ) -> (result: Result<(), Fault<Self::Error>>)
        ensures
            old(self).trace().len() <= final(self).trace().len(),
            final(self).trace().take(old(self).trace().len() as int) == old(self).trace(),
            exists|ops: Seq<Operation<'a>>|
                {
                    &&& operations.obeys_prophetic_iter_laws() && operations.remaining().len()
                        < usize::MAX ==> ops == operations.remaining()
                    &&& sequenced(
                        address,
                        #[trigger] views(ops),
                        final(self).trace().skip(old(self).trace().len() as int),
                        result,
                    )
                },
    {
        let mut gathered = gather(operations);
        let ghost ops = gathered@;
        let slice = gathered.as_mut_slice();
        assert(slice.deep_view() =~= views(ops));
        transact(self, address, slice)
    }
}

impl<B: Bus> TransactionalIter for B {

}

} // verus!
