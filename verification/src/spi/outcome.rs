//! What a chip-select transaction leaves behind: the calls that were made,
//! the result, and the contents of the buffers, each as a function of how
//! the calls went.
use vstd::prelude::*;
use crate::error::{Error, ErrorKind, Fault};
use crate::spi::bus::Event;
use crate::spi::laws::lemma_transfer_plan;
use crate::spi::plan::{exchanged, plan, position, Call, OperationView};

verus! {

/// The calls of a record, without their outcomes.
pub open spec fn calls_of<Word, E>(events: Seq<Event<Word, E>>) -> Seq<Call<Word>> {
    Seq::new(events.len(), |k: int| events[k].call())
}

/// The index of the first call of a record that failed; the length of the
/// record if none did.
pub open spec fn first_failure<Word, E>(events: Seq<Event<Word, E>>) -> int
    decreases events.len(),
{
    if events.len() == 0 {
        0
    } else {
        let before = first_failure(events.drop_last());
        if before < events.len() - 1 || events.last().error() is Some {
            before
        } else {
            events.len() as int
        }
    }
}

/// The calls that are made of a plan when call `n` is the first to fail:
/// the plan up to and including call `n`, and then the release of the
/// select line if call `n` was a word-time. After a failed assertion or
/// release nothing more is called. With `n` at or beyond the end, nothing
/// fails and the whole plan is made.
pub open spec fn issued<Word>(calls: Seq<Call<Word>>, n: int) -> Seq<Call<Word>> {
    if n < 0 || n >= calls.len() {
        calls
    } else if calls[n] is Exchange {
        calls.take(n + 1).push(Call::Deselect)
    } else {
        calls.take(n + 1)
    }
}

/// The result of a transaction whose calls went as `events` say: the error
/// of the first call that failed, unchanged; success if none failed. An
/// empty operation list is refused.
pub open spec fn verdict<Word, E>(empty: bool, events: Seq<Event<Word, E>>) -> Result<
    (),
    Fault<E>,
> {
    if empty {
        Err(Fault::EmptyTransaction)
    } else if first_failure(events) < events.len() {
        Err(Fault::Bus(events[first_failure(events)].error()->Some_0))
    } else {
        Ok(())
    }
}

/// What operation `i` holds after a transaction whose calls went as
/// `events` say. Word `k` of its buffer holds what came in in word-time
/// `k` of the operation, if that exchange was made and succeeded, and what
/// it held before otherwise. What comes in beyond the buffer is discarded;
/// the words to write are unchanged.
pub open spec fn settled<Word, E>(
    ops: Seq<OperationView<Word>>,
    events: Seq<Event<Word, E>>,
    i: int,
) -> OperationView<Word> {
    ops[i].with_buffer(
        Seq::new(
            ops[i].capacity(),
            |k: int|
                if position(ops, i, k) < first_failure(events) {
                    events[position(ops, i, k)].incoming()
                } else {
                    ops[i].buffer()[k]
                },
        ),
    )
}

/// The sequencing contract of a transaction on `ops`: `events` are the
/// calls it made, `result` is what it returned.
pub open spec fn sequenced<Word, E>(
    ops: Seq<OperationView<Word>>,
    events: Seq<Event<Word, E>>,
    result: Result<(), Fault<E>>,
) -> bool {
    &&& calls_of(events) == issued(plan(ops), first_failure(events))
    &&& result == verdict(ops.len() == 0, events)
}

/// The contract of a transaction on `ops`: `events` are the calls it made,
/// `after` the operations as it left them.
pub open spec fn transacted<Word, E>(
    ops: Seq<OperationView<Word>>,
    events: Seq<Event<Word, E>>,
    after: Seq<OperationView<Word>>,
    result: Result<(), Fault<E>>,
) -> bool {
    &&& sequenced(ops, events, result)
    &&& after.len() == ops.len()
    &&& forall|i: int| 0 <= i < ops.len() ==> #[trigger] after[i] == settled(ops, events, i)
}

/// Before the first failure of a record every call succeeded, and the call
/// at the first failure, if there is one, failed.
pub proof fn lemma_first_failure<Word, E>(events: Seq<Event<Word, E>>)
    ensures
        0 <= first_failure(events) <= events.len(),
        forall|k: int| 0 <= k < first_failure(events) ==> (#[trigger] events[k]).error() is None,
        first_failure(events) < events.len() ==> events[first_failure(events)].error() is Some,
    decreases events.len(),
{
    if events.len() > 0 {
        lemma_first_failure(events.drop_last());
        assert forall|k: int| 0 <= k < first_failure(events) implies (
        #[trigger] events[k]).error() is None by {
            if k < events.len() - 1 {
                assert(events.drop_last()[k] == events[k]);
            }
        }
    }
}

/// A record whose calls all succeeded up to index `n`, and which ends there
/// or fails there, has its first failure at `n`.
pub proof fn lemma_first_failure_at<Word, E>(events: Seq<Event<Word, E>>, n: int)
    requires
        0 <= n <= events.len(),
        forall|k: int| 0 <= k < n ==> (#[trigger] events[k]).error() is None,
        n < events.len() ==> events[n].error() is Some,
    ensures
        first_failure(events) == n,
{
    lemma_first_failure(events);
}

/// An empty operation list is refused with a fault of kind `Other`, and no
/// primitive is called.
pub proof fn lemma_empty_transaction<Word, E: Error>(
    events: Seq<Event<Word, E>>,
    result: Result<(), Fault<E>>,
)
    requires
        sequenced(Seq::<OperationView<Word>>::empty(), events, result),
    ensures
        events.len() == 0,
        result == Err::<(), Fault<E>>(Fault::EmptyTransaction),
        result->Err_0.kind_of() == ErrorKind::Other,
{
    lemma_first_failure(events);
}

/// A transaction succeeds if and only if every call it made succeeded, and
/// then it made exactly the calls of the plan, in order.
pub proof fn lemma_completed<Word, E>(
    ops: Seq<OperationView<Word>>,
    events: Seq<Event<Word, E>>,
    result: Result<(), Fault<E>>,
)
    requires
        ops.len() > 0,
        sequenced(ops, events, result),
    ensures
        result is Ok <==> forall|k: int|
            0 <= k < events.len() ==> (#[trigger] events[k]).error() is None,
        result is Ok ==> calls_of(events) == plan(ops),
{
    lemma_first_failure(events);
}

/// When call number `n` of a transaction is the first to fail, the calls
/// before it were those of the plan and succeeded, call `n` was the one
/// that the plan has there, and its error is returned unchanged. No later
/// call of the plan is made: after a failed word-time only the release of
/// the select line follows, and after a failed assertion or release nothing
/// does.
pub proof fn lemma_aborted<Word, E>(
    ops: Seq<OperationView<Word>>,
    events: Seq<Event<Word, E>>,
    result: Result<(), Fault<E>>,
)
    requires
        ops.len() > 0,
        sequenced(ops, events, result),
        result is Err,
    ensures
        ({
            let n = first_failure(events);
            let calls = plan(ops);
            &&& 0 <= n < calls.len()
            &&& n < events.len()
            &&& forall|k: int|
                0 <= k < n ==> (#[trigger] events[k]).call() == calls[k]
                    && events[k].error() is None
            &&& events[n].call() == calls[n]
            &&& events[n].error() is Some
            &&& result == Err::<(), Fault<E>>(Fault::Bus(events[n].error()->Some_0))
            &&& calls[n] is Exchange ==> events.len() == n + 2 && events[n + 1].call()
                == Call::<Word>::Deselect
            &&& !(calls[n] is Exchange) ==> events.len() == n + 1
        }),
{
    lemma_first_failure(events);
    let n = first_failure(events);
    let calls = plan(ops);
    let made = calls_of(events);
    assert(made.len() == events.len());
    assert forall|k: int| 0 <= k <= n implies (#[trigger] events[k]).call() == calls[k] by {
        assert(issued(calls, n)[k] == calls[k]);
    }
    if calls[n] is Exchange {
        assert(made[n + 1] == events[n + 1].call());
    }
}

/// A transfer that succeeds takes as many word-times as its longer buffer
/// has words. Every word of the write buffer goes out, in order, and
/// padding after them; the words that come in fill the read buffer from
/// its start, and those beyond its end are discarded.
pub proof fn lemma_transfer_outcome<Word, E>(
    buffer: Seq<Word>,
    words: Seq<Word>,
    events: Seq<Event<Word, E>>,
    after: Seq<Word>,
    result: Result<(), Fault<E>>,
)
    requires
        transacted(
            seq![OperationView::Transfer(buffer, words)],
            events,
            seq![OperationView::Transfer(after, words)],
            result,
        ),
        result is Ok,
    ensures
        events.len() == 2 + OperationView::Transfer(buffer, words).duration(),
        events[0].call() == Call::<Word>::Select,
        events.last().call() == Call::<Word>::Deselect,
        forall|k: int|
            0 <= k < OperationView::Transfer(buffer, words).duration() ==> (#[trigger] events[1
                + k]).call() == Call::Exchange(
                if k < words.len() {
                    Some(words[k])
                } else {
                    None
                },
            ),
        after.len() == buffer.len(),
        forall|k: int| 0 <= k < buffer.len() ==> #[trigger] after[k] == events[1 + k].incoming(),
{
    let ops = seq![OperationView::Transfer(buffer, words)];
    let duration = ops[0].duration();
    lemma_completed(ops, events, result);
    lemma_first_failure(events);
    lemma_transfer_plan(buffer, words);
    let made = calls_of(events);
    assert(made[0] == events[0].call());
    assert(made[events.len() - 1] == events.last().call());
    assert forall|k: int| 0 <= k < duration implies (#[trigger] events[1 + k]).call()
        == Call::Exchange(
        if k < words.len() {
            Some(words[k])
        } else {
            None
        },
    ) by {
        assert(made[1 + k] == events[1 + k].call());
    }
    assert(seq![OperationView::Transfer(after, words)][0] == settled(ops, events, 0));
    reveal_with_fuel(exchanged, 2);
    assert forall|k: int| 0 <= k < buffer.len() implies #[trigger] after[k] == events[1
        + k].incoming() by {
        assert(position(ops, 0, k) == 1 + k);
    }
}

} // verus!
