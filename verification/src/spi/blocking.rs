//! Blocking transactions: each call runs to completion on the calling
//! thread, on a bus that the caller holds exclusively.
use vstd::prelude::*;
pub use crate::spi::plan::Operation;
use crate::error::Fault;
use crate::spi::bus::{Bus, Event};
use crate::spi::laws::{
    alike, lemma_alike_lengths, lemma_plan_at_position, lemma_position_order, lemma_select_held,
};
use crate::spi::outcome::{
    calls_of, first_failure, issued, lemma_first_failure_at, sequenced, settled, transacted,
};
use crate::spi::plan::{plan, position, OperationView};
use crate::spi::sequencer::{Sequencer, Step};

verus! {

/// The operations after the call of `step` went as `event` says: the word
/// that a successful exchange brought in is handed to its operation.
spec fn stored<Word, E>(ops: Seq<OperationView<Word>>, step: Step, event: Event<Word, E>) -> Seq<
    OperationView<Word>,
> {
    if step is Exchange && step.fits(ops) && event.error() is None {
        step.stored(ops, event.incoming())
    } else {
        ops
    }
}

/// Whether the buffers of `now` hold what the first `n` calls of `events`
/// brought in, and what `ops` held elsewhere.
spec fn filled_to<Word, E>(
    ops: Seq<OperationView<Word>>,
    now: Seq<OperationView<Word>>,
    events: Seq<Event<Word, E>>,
    n: int,
) -> bool {
    &&& now.len() == ops.len()
    &&& forall|i: int|
        0 <= i < ops.len() ==> (#[trigger] now[i]) == ops[i].with_buffer(now[i].buffer())
            && now[i].buffer().len() == ops[i].capacity()
    &&& forall|i: int, k: int|
        0 <= i < ops.len() && 0 <= k < ops[i].capacity() ==> (#[trigger] now[i].buffer()[k]) == (
        if position(ops, i, k) < n {
            events[position(ops, i, k)].incoming()
        } else {
            ops[i].buffer()[k]
        })
}

/// Buffers in line with the record take the same word-times as at the
/// start, and send the same words from the current position on.
proof fn lemma_filled_alike<Word, E>(
    ops: Seq<OperationView<Word>>,
    now: Seq<OperationView<Word>>,
    events: Seq<Event<Word, E>>,
    n: int,
)
    requires
        filled_to(ops, now, events, n),
    ensures
        alike(ops, now),
        plan(ops).len() == plan(now).len(),
        forall|i: int, k: int|
            0 <= i < ops.len() && 0 <= k < ops[i].duration() && position(ops, i, k) >= n
                ==> #[trigger] now[i].outgoing(k) == ops[i].outgoing(k),
        forall|i: int, k: int| position(ops, i, k) == #[trigger] position(now, i, k) || !(0 <= i
            <= ops.len()),
{
    assert(forall|i: int|
        0 <= i < ops.len() ==> (#[trigger] ops[i]).duration() == now[i].duration());
    lemma_alike_lengths(ops, now, ops.len() as int);
    assert forall|i: int, k: int| position(ops, i, k) == #[trigger] position(now, i, k) || !(0
        <= i <= ops.len()) by {
        if 0 <= i <= ops.len() {
            lemma_alike_lengths(ops, now, i);
        }
    }
}

/// A call that went well keeps the buffers in line with the record, and it
/// is the call that the plan has at its position.
proof fn lemma_filled_step<Word, E>(
    ops: Seq<OperationView<Word>>,
    now: Seq<OperationView<Word>>,
    events: Seq<Event<Word, E>>,
    step: Step,
    event: Event<Word, E>,
)
    requires
        ops.len() > 0,
        filled_to(ops, now, events, events.len() as int),
        events.len() < plan(now).len(),
        step.call(now) == plan(now)[events.len() as int],
        step.fits(now),
        step is Exchange ==> step.index(now) == events.len(),
    ensures
        step.call(now) == plan(ops)[events.len() as int],
        event.error() is None ==> filled_to(
            ops,
            stored(now, step, event),
            events.push(event),
            events.len() as int + 1,
        ),
        event.error() is Some ==> stored(now, step, event) == now,
{
    let after = stored(now, step, event);
    let at = events.len() as int;
    lemma_filled_alike(ops, now, events, at);
    lemma_select_held(now, at);
    lemma_select_held(ops, at);
    match step {
        Step::Exchange { operation, word } => {
            lemma_plan_at_position(ops, operation as int, word as int);
        },
        _ => {},
    }
    if event.error() is None {
        assert(forall|i: int|
            0 <= i < ops.len() ==> (#[trigger] after[i]) == ops[i].with_buffer(after[i].buffer())
                && after[i].buffer().len() == ops[i].capacity());
        assert forall|i: int, k: int| 0 <= i < ops.len() && 0 <= k < ops[i].capacity() implies (
        #[trigger] after[i].buffer()[k]) == (if position(ops, i, k) < at + 1 {
            events.push(event)[position(ops, i, k)].incoming()
        } else {
            ops[i].buffer()[k]
        }) by {
            lemma_plan_at_position(ops, i, k);
            match step {
                Step::Exchange { operation, word } => {
                    if i < operation {
                        lemma_position_order(ops, i, k, operation as int, word as int);
                    } else if i > operation {
                        lemma_position_order(ops, operation as int, word as int, i, k);
                    } else if k < word {
                        lemma_position_order(ops, i, k, operation as int, word as int);
                    } else if k > word {
                        lemma_position_order(ops, operation as int, word as int, i, k);
                    }
                },
                _ => {},
            }
        }
    }
}

/// Buffers in line with the calls before the first failure are settled.
proof fn lemma_settled<Word, E>(
    ops: Seq<OperationView<Word>>,
    now: Seq<OperationView<Word>>,
    events: Seq<Event<Word, E>>,
    n: int,
    kept: Seq<Event<Word, E>>,
)
    requires
        first_failure(events) == n,
        n <= kept.len(),
        n <= events.len(),
        forall|k: int| 0 <= k < n ==> kept[k] == events[k],
        filled_to(ops, now, kept, n),
    ensures
        forall|i: int| 0 <= i < ops.len() ==> #[trigger] now[i] == settled(ops, events, i),
{
    assert forall|i: int| 0 <= i < ops.len() implies #[trigger] now[i] == settled(
        ops,
        events,
        i,
    ) by {
        assert(now[i].buffer() =~= settled(ops, events, i).buffer());
    }
}

/// Makes the call that `step` stands for. A word that came in is handed to
/// its operation if the call succeeded.
fn perform<Word: 'static + Copy, B: Bus<Word>>(
    bus: &mut B,
    operations: &mut [Operation<'_, Word>],
    step: Step,
) -> (outcome: Result<(), B::Error>)
    requires
        step.fits(old(operations).deep_view()),
    ensures
        final(bus).trace() == old(bus).trace().push(final(bus).trace().last()),
        final(bus).trace().last().call() == step.call(old(operations).deep_view()),
        outcome is Ok ==> final(bus).trace().last().error() is None,
        outcome matches Err(error) ==> final(bus).trace().last().error() == Some(error),
        final(operations).deep_view() == stored(
            old(operations).deep_view(),
            step,
            final(bus).trace().last(),
        ),
        final(operations)@.len() == old(operations)@.len(),
        forall|i: int|
            0 <= i < old(operations)@.len() && (#[trigger] final(operations)@[i]) is Read
                ==> old(operations)@[i] is Read && final(final(operations)@[i]->Read_0)@ == final(
                old(operations)@[i]->Read_0
            )@,
        forall|i: int|
            0 <= i < old(operations)@.len() && (#[trigger] final(operations)@[i]) is Transfer
                ==> old(operations)@[i] is Transfer && final(final(operations)@[i]->Transfer_0)@
                == final(old(operations)@[i]->Transfer_0)@,
        forall|i: int|
            0 <= i < old(operations)@.len() && (#[trigger] final(operations)@[i])
                is TransferInPlace ==> old(operations)@[i] is TransferInPlace && final(
                final(operations)@[i]->TransferInPlace_0
            )@ == final(old(operations)@[i]->TransferInPlace_0)@,
{
    match step {
        Step::Select => bus.select(),
        Step::Deselect => bus.deselect(),
        Step::Exchange { .. } => {
            let outgoing = step.outgoing(operations);
            match bus.exchange(outgoing) {
                Ok(incoming) => {
                    step.store(operations, incoming);
                    Ok(())
                },
                Err(error) => Err(error),
            }
        },
    }
}

/// Executes `operations` on `bus` as one transaction, under one assertion
/// of the select line.
pub fn transact<Word: 'static + Copy, B: Bus<Word>>(
    bus: &mut B,
    operations: &mut [Operation<'_, Word>],
) -> (result: Result<(), Fault<B::Error>>)
    ensures
        old(bus).trace().len() <= final(bus).trace().len(),
        final(bus).trace().take(old(bus).trace().len() as int) == old(bus).trace(),
        transacted(
            old(operations).deep_view(),
            final(bus).trace().skip(old(bus).trace().len() as int),
            final(operations).deep_view(),
            result,
        ),
        final(operations)@.len() == old(operations)@.len(),
        forall|i: int|
            0 <= i < old(operations)@.len() && (#[trigger] final(operations)@[i]) is Read
                ==> old(operations)@[i] is Read && final(final(operations)@[i]->Read_0)@ == final(
                old(operations)@[i]->Read_0
            )@,
        forall|i: int|
            0 <= i < old(operations)@.len() && (#[trigger] final(operations)@[i]) is Transfer
                ==> old(operations)@[i] is Transfer && final(final(operations)@[i]->Transfer_0)@
                == final(old(operations)@[i]->Transfer_0)@,
        forall|i: int|
            0 <= i < old(operations)@.len() && (#[trigger] final(operations)@[i])
                is TransferInPlace ==> old(operations)@[i] is TransferInPlace && final(
                final(operations)@[i]->TransferInPlace_0
            )@ == final(old(operations)@[i]->TransferInPlace_0)@,
{
    let ghost before = bus.trace();
    let ghost ops = operations.deep_view();
    let ghost calls = plan(ops);
    let mut sequencer = match Sequencer::start(operations) {
        Ok(sequencer) => sequencer,
        Err(fault) => {
            proof {
                assert(bus.trace().skip(before.len() as int) =~= Seq::empty());
                assert(calls_of(Seq::<Event<Word, B::Error>>::empty()) =~= calls);
            }
            return Err(fault);
        },
    };
    let ghost mut events: Seq<Event<Word, B::Error>> = Seq::empty();
    proof {
        sequencer.lemma_at_start(ops);
        assert forall|i: int| 0 <= i < ops.len() implies (#[trigger] ops[i]) == ops[i].with_buffer(
            ops[i].buffer(),
        ) && ops[i].buffer().len() == ops[i].capacity() by {}
    }
    loop
        invariant
            before == old(bus).trace(),
            ops == old(operations).deep_view(),
            calls == plan(ops),
            ops.len() > 0,
            operations@.len() == old(operations)@.len(),
            forall|i: int|
                0 <= i < old(operations)@.len() && (#[trigger] operations@[i]) is Read
                    ==> old(operations)@[i] is Read && final(operations@[i]->Read_0)@ == final(
                    old(operations)@[i]->Read_0
                )@,
            forall|i: int|
                0 <= i < old(operations)@.len() && (#[trigger] operations@[i]) is Transfer
                    ==> old(operations)@[i] is Transfer && final(operations@[i]->Transfer_0)@
                    == final(old(operations)@[i]->Transfer_0)@,
            forall|i: int|
                0 <= i < old(operations)@.len() && (#[trigger] operations@[i]) is TransferInPlace
                    ==> old(operations)@[i] is TransferInPlace && final(
                    operations@[i]->TransferInPlace_0
                )@ == final(old(operations)@[i]->TransferInPlace_0)@,
            filled_to(ops, operations.deep_view(), events, events.len() as int),
            sequencer.in_step_with(operations.deep_view()),
            sequencer.handed_out(operations.deep_view()) == events.len(),
            sequencer.finished() == (events.len() == calls.len()),
            events.len() <= calls.len(),
            bus.trace() == before + events,
            forall|k: int|
                0 <= k < events.len() ==> (#[trigger] events[k]).call() == calls[k]
                    && events[k].error() is None,
        decreases calls.len() - events.len(),
    {
        let ghost now = operations.deep_view();
        proof {
            lemma_filled_alike(ops, now, events, events.len() as int);
        }
        match sequencer.next(operations) {
            None => {
                proof {
                    assert(bus.trace().skip(before.len() as int) =~= events);
                    lemma_first_failure_at(events, events.len() as int);
                    assert(calls_of(events) =~= calls);
                    lemma_settled(ops, now, events, events.len() as int, events);
                }
                return Ok(());
            },
            Some(step) => {
                let outcome = perform(bus, operations, step);
                let ghost event = bus.trace().last();
                let ghost at = events.len() as int;
                let ghost kept = events;
                proof {
                    lemma_filled_step(ops, now, events, step, event);
                    if event.error() is None {
                        lemma_filled_alike(
                            ops,
                            operations.deep_view(),
                            events.push(event),
                            at + 1,
                        );
                    }
                    sequencer.lemma_alike(now, operations.deep_view());
                    events = events.push(event);
                }
                match outcome {
                    Ok(()) => {},
                    Err(error) => {
                        let release = sequencer.abort();
                        if release.is_some() {
                            let _ = bus.deselect();
                            proof {
                                let released = bus.trace().last();
                                events = events.push(released);
                            }
                        }
                        proof {
                            assert(bus.trace().skip(before.len() as int) =~= events);
                            lemma_first_failure_at(events, at);
                            lemma_select_held(ops, at);
                            assert(calls_of(events) =~= issued(calls, at));
                            lemma_settled(ops, now, events, at, kept);
                        }
                        return Err(Fault::Bus(error));
                    },
                }
            },
        }
    }
}

/// The operation list of one read for each buffer.
pub open spec fn reads<Word>(words: Seq<&mut [Word]>) -> Seq<OperationView<Word>> {
    Seq::new(words.len(), |k: int| OperationView::Read(words[k]@))
}

/// The operation list of one write for each slice.
pub open spec fn writes<Word>(words: Seq<&[Word]>) -> Seq<OperationView<Word>> {
    Seq::new(words.len(), |k: int| OperationView::Write(words[k]@))
}

/// A bus that reads, sending padding of its own choice meanwhile.
pub trait Read<Word: 'static + Copy>: Bus<Word> + Sized {
    /// Reads enough words to fill `words`: the transaction of the single
    /// operation `Read(words)`.
    fn read(&mut self, words: &mut [Word]) -> (result: Result<(), Fault<Self::Error>>)
        ensures
            old(self).trace().len() <= final(self).trace().len(),
            final(self).trace().take(old(self).trace().len() as int) == old(self).trace(),
            transacted(
                seq![OperationView::Read(old(words)@)],
                final(self).trace().skip(old(self).trace().len() as int),
                seq![OperationView::Read(final(words)@)],
                result,
            ),
    {
        let mut operations = [Operation::Read(words)];
        assert(operations.deep_view() =~= seq![OperationView::Read(old(words)@)]);
        let result = transact(self, &mut operations);
        assert(operations.deep_view() =~= seq![OperationView::Read(final(words)@)]);
        result
    }

    /// Reads into all buffers of `words`, one after the other, under one
    /// assertion of the select line: the transaction of one `Read` for
    /// each buffer.
    fn read_transaction(&mut self, words: &mut [&mut [Word]]) -> (result: Result<
        (),
        Fault<Self::Error>,
    >)
        ensures
            old(self).trace().len() <= final(self).trace().len(),
            final(self).trace().take(old(self).trace().len() as int) == old(self).trace(),
            transacted(
                reads(old(words)@),
                final(self).trace().skip(old(self).trace().len() as int),
                reads(final(words)@),
                result,
            ),
    {
        let mut operations: Vec<Operation<'_, Word>> = Vec::new();
        let ghost all = words@;
        let ghost count = words@.len() as int;
        let mut rest = words;
        while rest.len() > 0
            invariant
                count == all.len(),
                operations@.len() + rest@.len() == count,
                rest@ == all.skip(operations@.len() as int),
                forall|k: int|
                    0 <= k < operations@.len() ==> (#[trigger] operations@[k])@
                        == OperationView::Read(all[k]@),
                final(words)@.len() == operations@.len() + final(rest)@.len(),
                forall|k: int|
                    0 <= k < final(rest)@.len() ==> final(words)@[operations@.len() + k]
                        == #[trigger] final(rest)@[k],
                forall|k: int|
                    0 <= k < operations@.len() ==> (#[trigger] operations@[k]) is Read && final(
                        operations@[k]->Read_0
                    )@ == final(words)@[k]@,
            decreases rest@.len(),
        {
            let ghost done = operations@.len() as int;
            let current = rest;
            let ghost whole = final(current)@;
            let (head, tail) = current.split_at_mut(1);
            operations.push(Operation::Read(&mut *head[0]));
            rest = tail;
            assert(final(words)@[done + 0] == whole[0]);
            assert forall|k: int| 0 <= k < final(rest)@.len() implies final(words)@[done + 1 + k]
                == #[trigger] final(rest)@[k] by {
                assert(final(words)@[done + (1 + k)] == whole[1 + k]);
            }
        }
        let slice = operations.as_mut_slice();
        assert(slice.deep_view() =~= reads(all));
        let result = transact(self, slice);
        assert(operations.deep_view() =~= reads(final(words)@));
        result
    }
}

impl<Word: 'static + Copy, B: Bus<Word>> Read<Word> for B {

}

/// A bus that writes, discarding what comes in meanwhile.
pub trait Write<Word: 'static + Copy>: Bus<Word> + Sized {
    /// Writes `words`: the transaction of the single operation
    /// `Write(words)`.
    fn write(&mut self, words: &[Word]) -> (result: Result<(), Fault<Self::Error>>)
        ensures
            old(self).trace().len() <= final(self).trace().len(),
            final(self).trace().take(old(self).trace().len() as int) == old(self).trace(),
            transacted(
                seq![OperationView::Write(words@)],
                final(self).trace().skip(old(self).trace().len() as int),
                seq![OperationView::Write(words@)],
                result,
            ),
    {
        let mut operations = [Operation::Write(words)];
        assert(operations.deep_view() =~= seq![OperationView::Write(words@)]);
        transact(self, &mut operations)
    }

    /// Writes all slices of `words`, one after the other, under one
    /// assertion of the select line: the transaction of one `Write` for
    /// each slice.
    fn write_transaction(&mut self, words: &[&[Word]]) -> (result: Result<(), Fault<Self::Error>>)
        ensures
            old(self).trace().len() <= final(self).trace().len(),
            final(self).trace().take(old(self).trace().len() as int) == old(self).trace(),
            sequenced(
                writes(words@),
                final(self).trace().skip(old(self).trace().len() as int),
                result,
            ),
    {
        let mut operations: Vec<Operation<'_, Word>> = Vec::new();
        let mut i: usize = 0;
        while i < words.len()
            invariant
                i <= words.len(),
                operations@.len() == i,
                forall|k: int| 0 <= k < i ==> (#[trigger] operations@[k])@ == OperationView::Write(
                    words@[k]@,
                ),
            decreases words.len() - i,
        {
            operations.push(Operation::Write(words[i]));
            i = i + 1;
        }
        let slice = operations.as_mut_slice();
        assert(slice.deep_view() =~= writes(words@));
        transact(self, slice)
    }
}

impl<Word: 'static + Copy, B: Bus<Word>> Write<Word> for B {

}

/// A bus that reads and writes at the same time.
pub trait ReadWrite<Word: 'static + Copy>: Read<Word> + Write<Word> {
    /// Writes `write` and reads into `read` simultaneously: the
    /// transaction of the single operation `Transfer(read, write)`.
    ///
    /// The buffers may differ in length. The transfer runs for as many
    /// word-times as the longer one has words. Once `write` is used up the
    /// bus sends padding; once `read` is full what comes in is discarded.
    fn transfer(&mut self, read: &mut [Word], write: &[Word]) -> (result: Result<
        (),
        Fault<Self::Error>,
    >)
        ensures
            old(self).trace().len() <= final(self).trace().len(),
            final(self).trace().take(old(self).trace().len() as int) == old(self).trace(),
            transacted(
                seq![OperationView::Transfer(old(read)@, write@)],
                final(self).trace().skip(old(self).trace().len() as int),
                seq![OperationView::Transfer(final(read)@, write@)],
                result,
            ),
    {
        let mut operations = [Operation::Transfer(read, write)];
        assert(operations.deep_view() =~= seq![OperationView::Transfer(old(read)@, write@)]);
        let result = transact(self, &mut operations);
        assert(operations.deep_view() =~= seq![OperationView::Transfer(final(read)@, write@)]);
        result
    }

    /// Writes `words` and overwrites them with what comes in: the
    /// transaction of the single operation `TransferInPlace(words)`.
    fn transfer_in_place(&mut self, words: &mut [Word]) -> (result: Result<
        (),
        Fault<Self::Error>,
    >)
        ensures
            old(self).trace().len() <= final(self).trace().len(),
            final(self).trace().take(old(self).trace().len() as int) == old(self).trace(),
            transacted(
                seq![OperationView::TransferInPlace(old(words)@)],
                final(self).trace().skip(old(self).trace().len() as int),
                seq![OperationView::TransferInPlace(final(words)@)],
                result,
            ),
    {
        let mut operations = [Operation::TransferInPlace(words)];
        assert(operations.deep_view() =~= seq![OperationView::TransferInPlace(old(words)@)]);
        let result = transact(self, &mut operations);
        assert(operations.deep_view() =~= seq![OperationView::TransferInPlace(final(words)@)]);
        result
    }

    /// Executes `operations` as one transaction: the select line is
    /// asserted once, held over all operations, and released once.
    ///
    /// The calls made are those of the plan, up to the first that fails;
    /// after a failed word-time the select line is still released. The
    /// result is the first error, or success if no call failed. An empty
    /// list is refused before any call.
    ///
    /// The list keeps the borrows it was given: what a buffer of the list
    /// holds in the end is what that buffer holds from then on.
    fn transaction(&mut self, operations: &mut [Operation<'_, Word>]) -> (result: Result<
        (),
        Fault<Self::Error>,
    >)
        ensures
            old(self).trace().len() <= final(self).trace().len(),
            final(self).trace().take(old(self).trace().len() as int) == old(self).trace(),
            transacted(
                old(operations).deep_view(),
                final(self).trace().skip(old(self).trace().len() as int),
                final(operations).deep_view(),
                result,
            ),
            final(operations)@.len() == old(operations)@.len(),
            forall|i: int|
                0 <= i < old(operations)@.len() && (#[trigger] final(operations)@[i]) is Read
                    ==> old(operations)@[i] is Read && final(final(operations)@[i]->Read_0)@
                    == final(old(operations)@[i]->Read_0)@,
            forall|i: int|
                0 <= i < old(operations)@.len() && (#[trigger] final(operations)@[i]) is Transfer
                    ==> old(operations)@[i] is Transfer && final(
                    final(operations)@[i]->Transfer_0
                )@ == final(old(operations)@[i]->Transfer_0)@,
            forall|i: int|
                0 <= i < old(operations)@.len() && (#[trigger] final(operations)@[i])
                    is TransferInPlace ==> old(operations)@[i] is TransferInPlace && final(
                    final(operations)@[i]->TransferInPlace_0
                )@ == final(old(operations)@[i]->TransferInPlace_0)@,
    {
        transact(self, operations)
    }
}

impl<Word: 'static + Copy, B: Bus<Word>> ReadWrite<Word> for B {

}

} // verus!
