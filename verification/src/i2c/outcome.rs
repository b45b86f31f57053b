//! What a transaction leaves behind: the calls that were made, the result,
//! and the contents of the read buffers, each as a function of how the
//! calls went.
use vstd::prelude::*;
use crate::error::{Error, ErrorKind, Fault};
use crate::i2c::address::Address;
use crate::i2c::bus::Event;
use crate::i2c::laws::lemma_framing_of_runs;
use crate::i2c::plan::{occurrences, plan, position, run_count, Call, OperationView, Primitive};

verus! {

/// The calls of a record, without their outcomes.
pub open spec fn calls_of<E>(events: Seq<Event<E>>) -> Seq<Call> {
    Seq::new(events.len(), |k: int| events[k].call)
}

/// The index of the first call of a record that failed; the length of the
/// record if none did.
pub open spec fn first_failure<E>(events: Seq<Event<E>>) -> int
    decreases events.len(),
{
    if events.len() == 0 {
        0
    } else {
        let before = first_failure(events.drop_last());
        if before < events.len() - 1 || events.last().outcome is Err {
            before
        } else {
            events.len() as int
        }
    }
}

/// The calls that are made of a plan when call `n` is the first to fail:
/// the plan up to and including call `n`, and then the stop if call `n` was
/// a send or a receive. After a failed start, repeated start or stop nothing
/// more is called. With `n` at or beyond the end, nothing fails and the
/// whole plan is made.
pub open spec fn issued(calls: Seq<Call>, n: int) -> Seq<Call> {
    if n < 0 || n >= calls.len() {
        calls
    } else if calls[n].moves_data() {
        calls.take(n + 1).push(Call::End)
    } else {
        calls.take(n + 1)
    }
}

/// The result of a transaction whose calls went as `events` say: the error
/// of the first call that failed, unchanged; success if none failed. An
/// empty operation list is refused.
pub open spec fn verdict<E>(empty: bool, events: Seq<Event<E>>) -> Result<(), Fault<E>> {
    if empty {
        Err(Fault::EmptyTransaction)
    } else if first_failure(events) < events.len() {
        Err(Fault::Bus(events[first_failure(events)].outcome->Err_0))
    } else {
        Ok(())
    }
}

/// What operation `i` holds after a transaction whose calls went as `events`
/// say. A write is unchanged. Byte `j` of a read buffer holds what its
/// receive call delivered, if that call was made and succeeded, and what it
/// held before otherwise.
pub open spec fn settled<E>(
    address: Address,
    ops: Seq<OperationView>,
    events: Seq<Event<E>>,
    i: int,
) -> OperationView {
    match ops[i] {
        OperationView::Write(bytes) => OperationView::Write(bytes),
        OperationView::Read(buffer) => OperationView::Read(
            Seq::new(
                buffer.len(),
                |j: int|
                    if position(address, ops, i, j) < first_failure(events) {
                        events[position(address, ops, i, j)].received[0]
                    } else {
                        buffer[j]
                    },
            ),
        ),
    }
}

/// The sequencing contract of a transaction on `ops` for `address`:
/// `events` are the calls it made, `result` is what it returned.
pub open spec fn sequenced<E>(
    address: Address,
    ops: Seq<OperationView>,
    events: Seq<Event<E>>,
    result: Result<(), Fault<E>>,
) -> bool {
    &&& calls_of(events) == issued(plan(address, ops), first_failure(events))
    &&& result == verdict(ops.len() == 0, events)
}

/// The contract of a transaction on `ops` for `address`: `events` are the
/// calls it made, `after` the operations as it left them.
pub open spec fn transacted<E>(
    address: Address,
    ops: Seq<OperationView>,
    events: Seq<Event<E>>,
    after: Seq<OperationView>,
    result: Result<(), Fault<E>>,
) -> bool {
    &&& sequenced(address, ops, events, result)
    &&& after.len() == ops.len()
    &&& forall|i: int|
        0 <= i < ops.len() ==> #[trigger] after[i] == settled(address, ops, events, i)
}

/// Before the first failure of a record every call succeeded, and the call
/// at the first failure, if there is one, failed.
pub proof fn lemma_first_failure<E>(events: Seq<Event<E>>)
    ensures
        0 <= first_failure(events) <= events.len(),
        forall|k: int| 0 <= k < first_failure(events) ==> (#[trigger] events[k]).outcome is Ok,
        first_failure(events) < events.len() ==> events[first_failure(events)].outcome is Err,
    decreases events.len(),
{
    if events.len() > 0 {
        lemma_first_failure(events.drop_last());
        assert forall|k: int| 0 <= k < first_failure(events) implies (
        #[trigger] events[k]).outcome is Ok by {
            if k < events.len() - 1 {
                assert(events.drop_last()[k] == events[k]);
            }
        }
    }
}

/// A record whose calls all succeeded up to index `n`, and which ends there
/// or fails there, has its first failure at `n`.
pub proof fn lemma_first_failure_at<E>(events: Seq<Event<E>>, n: int)
    requires
        0 <= n <= events.len(),
        forall|k: int| 0 <= k < n ==> (#[trigger] events[k]).outcome is Ok,
        n < events.len() ==> events[n].outcome is Err,
    ensures
        first_failure(events) == n,
{
    lemma_first_failure(events);
}

/// An empty operation list is refused with a fault of kind `Other`, and no
/// primitive is called.
pub proof fn lemma_empty_transaction<E: Error>(
    address: Address,
    events: Seq<Event<E>>,
    result: Result<(), Fault<E>>,
)
    requires
        sequenced(address, Seq::<OperationView>::empty(), events, result),
    ensures
        events.len() == 0,
        result == Err::<(), Fault<E>>(Fault::EmptyTransaction),
        result->Err_0.kind_of() == ErrorKind::Other,
{
    lemma_first_failure(events);
}

/// A transaction succeeds if and only if every call it made succeeded, and
/// then it made exactly the calls of the plan, in order.
pub proof fn lemma_completed<E>(
    address: Address,
    ops: Seq<OperationView>,
    events: Seq<Event<E>>,
    result: Result<(), Fault<E>>,
)
    requires
        ops.len() > 0,
        sequenced(address, ops, events, result),
    ensures
        result is Ok <==> forall|k: int|
            0 <= k < events.len() ==> (#[trigger] events[k]).outcome is Ok,
        result is Ok ==> calls_of(events) == plan(address, ops),
{
    lemma_first_failure(events);
}

/// When call number `n` of a transaction is the first to fail, the calls
/// before it were those of the plan and succeeded, call `n` was the one
/// that the plan has there, and its error is returned unchanged. No later
/// call of the plan is made: after a failed send or receive only the stop
/// follows, and after a failed start, repeated start or stop nothing does.
pub proof fn lemma_aborted<E>(
    address: Address,
    ops: Seq<OperationView>,
    events: Seq<Event<E>>,
    result: Result<(), Fault<E>>,
)
    requires
        ops.len() > 0,
        sequenced(address, ops, events, result),
        result is Err,
    ensures
        ({
            let n = first_failure(events);
            let calls = plan(address, ops);
            &&& 0 <= n < calls.len()
            &&& n < events.len()
            &&& forall|k: int|
                0 <= k < n ==> (#[trigger] events[k]).call == calls[k] && events[k].outcome is Ok
            &&& events[n].call == calls[n]
            &&& events[n].outcome is Err
            &&& result == Err::<(), Fault<E>>(Fault::Bus(events[n].outcome->Err_0))
            &&& calls[n].moves_data() ==> events.len() == n + 2 && events[n + 1].call == Call::End
            &&& !calls[n].moves_data() ==> events.len() == n + 1
        }),
{
    lemma_first_failure(events);
    let n = first_failure(events);
    let calls = plan(address, ops);
    let made = calls_of(events);
    assert(made.len() == events.len());
    assert forall|k: int| 0 <= k <= n implies (#[trigger] events[k]).call == calls[k] by {
        assert(issued(calls, n)[k] == calls[k]);
    }
    if calls[n].moves_data() {
        assert(made[n + 1] == events[n + 1].call);
    }
}

/// A transaction of K maximal same-direction runs in which no call fails
/// makes exactly one `Begin`, K - 1 `ContinueWith` and one `End`: the
/// `Begin` first, the `End` last, and the sends and receives of the runs in
/// between.
pub proof fn lemma_framing_when_nothing_fails<E>(
    address: Address,
    ops: Seq<OperationView>,
    events: Seq<Event<E>>,
    result: Result<(), Fault<E>>,
)
    requires
        ops.len() > 0,
        sequenced(address, ops, events, result),
        forall|k: int| 0 <= k < events.len() ==> (#[trigger] events[k]).outcome is Ok,
    ensures
        result is Ok,
        calls_of(events) == plan(address, ops),
        occurrences(calls_of(events), Primitive::Begin) == 1,
        occurrences(calls_of(events), Primitive::ContinueWith) == run_count(ops, ops.len() as int)
            - 1,
        occurrences(calls_of(events), Primitive::End) == 1,
        events.first().call == Call::Begin(ops[0].direction(), address),
        events.last().call == Call::End,
{
    lemma_completed(address, ops, events, result);
    lemma_framing_of_runs(address, ops);
}

/// Sequencing is deterministic: two runs of one transaction in which the
/// same call is the first to fail make the same calls, and return the same
/// result if that call failed with the same error. A write followed by a
/// read has the contract of the list of that write and that read, so the
/// two make the same calls.
pub proof fn lemma_deterministic<E>(
    address: Address,
    ops: Seq<OperationView>,
    events: Seq<Event<E>>,
    result: Result<(), Fault<E>>,
    other_events: Seq<Event<E>>,
    other_result: Result<(), Fault<E>>,
)
    requires
        sequenced(address, ops, events, result),
        sequenced(address, ops, other_events, other_result),
        first_failure(events) == first_failure(other_events),
    ensures
        calls_of(events) == calls_of(other_events),
        first_failure(events) < events.len() && events[first_failure(events)].outcome
            == other_events[first_failure(events)].outcome ==> result == other_result,
        first_failure(events) == events.len() ==> result == other_result,
{
    assert(calls_of(other_events).len() == other_events.len());
}

} // verus!
