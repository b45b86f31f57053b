//! Laws of the transaction plan.
use vstd::prelude::*;
use crate::i2c::address::{Address, Direction};
use crate::i2c::plan::{
    dispatched, framing, occurrences, opens_run, payload, plan, position, run_count, run_start,
    Call, OperationView, Primitive,
};

verus! {

/// Counting distributes over concatenation.
pub proof fn lemma_occurrences_concat(a: Seq<Call>, b: Seq<Call>, primitive: Primitive)
    ensures
        occurrences(a + b, primitive) == occurrences(a, primitive) + occurrences(b, primitive),
    decreases b.len(),
{
    if b.len() > 0 {
        assert((a + b).drop_last() =~= a + b.drop_last());
        lemma_occurrences_concat(a, b.drop_last(), primitive);
    }
}

/// A primitive that no call of a sequence invokes occurs zero times in it.
pub proof fn lemma_occurrences_absent(calls: Seq<Call>, primitive: Primitive)
    requires
        forall|k: int| 0 <= k < calls.len() ==> (#[trigger] calls[k]).primitive() != primitive,
    ensures
        occurrences(calls, primitive) == 0,
    decreases calls.len(),
{
    if calls.len() > 0 {
        lemma_occurrences_absent(calls.drop_last(), primitive);
    }
}

/// Data calls are sends and receives only.
pub proof fn lemma_payload_moves_data(op: OperationView, closing: bool)
    ensures
        payload(op, closing).len() == (if op is Write {
            1
        } else {
            op.bytes().len()
        }),
        forall|k: int|
            0 <= k < payload(op, closing).len() ==> (#[trigger] payload(
                op,
                closing,
            )[k]).moves_data(),
        occurrences(payload(op, closing), Primitive::Begin) == 0,
        occurrences(payload(op, closing), Primitive::ContinueWith) == 0,
        occurrences(payload(op, closing), Primitive::End) == 0,
{
    lemma_occurrences_absent(payload(op, closing), Primitive::Begin);
    lemma_occurrences_absent(payload(op, closing), Primitive::ContinueWith);
    lemma_occurrences_absent(payload(op, closing), Primitive::End);
}

proof fn lemma_occurrences_single(call: Call, primitive: Primitive)
    ensures
        occurrences(seq![call], primitive) == (if call.primitive() == primitive {
            1nat
        } else {
            0nat
        }),
{
    assert(seq![call].drop_last() =~= Seq::<Call>::empty());
    assert(occurrences(Seq::<Call>::empty(), primitive) == 0);
}

proof fn lemma_dispatched_framing(address: Address, ops: Seq<OperationView>, n: int)
    requires
        0 <= n <= ops.len(),
    ensures
        occurrences(dispatched(address, ops, n), Primitive::Begin) == (if n > 0 {
            1nat
        } else {
            0nat
        }),
        occurrences(dispatched(address, ops, n), Primitive::ContinueWith) + (if n > 0 {
            1nat
        } else {
            0nat
        }) == run_count(ops, n),
        occurrences(dispatched(address, ops, n), Primitive::End) == 0,
        n > 0 ==> dispatched(address, ops, n).len() > 0 && dispatched(address, ops, n)[0]
            == Call::Begin(ops[0].direction(), address),
    decreases n,
{
    if n > 0 {
        let before = dispatched(address, ops, n - 1);
        let frame = framing(address, ops, n - 1);
        let data = payload(ops[n - 1], n == ops.len());
        lemma_dispatched_framing(address, ops, n - 1);
        lemma_payload_moves_data(ops[n - 1], n == ops.len());
        lemma_occurrences_concat(before + frame, data, Primitive::Begin);
        lemma_occurrences_concat(before + frame, data, Primitive::ContinueWith);
        lemma_occurrences_concat(before + frame, data, Primitive::End);
        lemma_occurrences_concat(before, frame, Primitive::Begin);
        lemma_occurrences_concat(before, frame, Primitive::ContinueWith);
        lemma_occurrences_concat(before, frame, Primitive::End);
        if frame.len() > 0 {
            lemma_occurrences_single(frame[0], Primitive::Begin);
            lemma_occurrences_single(frame[0], Primitive::ContinueWith);
            lemma_occurrences_single(frame[0], Primitive::End);
        }
    }
}

/// Runs are maximal: the operations of a run share one direction, and the
/// operation before a run, if there is one, has the other.
pub proof fn lemma_runs_are_maximal(ops: Seq<OperationView>, i: int)
    requires
        0 <= i < ops.len(),
    ensures
        0 <= run_start(ops, i) <= i,
        opens_run(ops, run_start(ops, i)),
        forall|m: int|
            run_start(ops, i) <= m <= i ==> (#[trigger] ops[m]).direction() == ops[i].direction()
                && run_start(ops, m) == run_start(ops, i),
        forall|m: int| run_start(ops, i) < m <= i ==> !opens_run(ops, m),
    decreases i,
{
    if i > 0 && !opens_run(ops, i) {
        lemma_runs_are_maximal(ops, i - 1);
    }
}

/// A transaction of K maximal same-direction runs is framed by exactly one
/// `Begin`, K - 1 `ContinueWith` and one `End`; the `Begin` comes first, for
/// the direction of the first operation, and the `End` comes last.
pub proof fn lemma_framing_of_runs(address: Address, ops: Seq<OperationView>)
    requires
        ops.len() > 0,
    ensures
        occurrences(plan(address, ops), Primitive::Begin) == 1,
        occurrences(plan(address, ops), Primitive::ContinueWith) == run_count(
            ops,
            ops.len() as int,
        ) - 1,
        occurrences(plan(address, ops), Primitive::End) == 1,
        plan(address, ops).first() == Call::Begin(ops[0].direction(), address),
        plan(address, ops).last() == Call::End,
{
    let body = dispatched(address, ops, ops.len() as int);
    lemma_dispatched_framing(address, ops, ops.len() as int);
    assert(plan(address, ops) =~= body + seq![Call::End]);
    lemma_occurrences_concat(body, seq![Call::End], Primitive::Begin);
    lemma_occurrences_concat(body, seq![Call::End], Primitive::ContinueWith);
    lemma_occurrences_concat(body, seq![Call::End], Primitive::End);
    lemma_occurrences_single(Call::End, Primitive::Begin);
    lemma_occurrences_single(Call::End, Primitive::ContinueWith);
    lemma_occurrences_single(Call::End, Primitive::End);
}

/// Coalescing: where operation `i` has the direction of the operation
/// before it, its data calls follow those of that operation directly, with
/// no framing call in between.
pub proof fn lemma_coalescing(address: Address, ops: Seq<OperationView>, i: int)
    requires
        0 < i < ops.len(),
        ops[i].direction() == ops[i - 1].direction(),
    ensures
        framing(address, ops, i).len() == 0,
        dispatched(address, ops, i + 1) == dispatched(address, ops, i) + payload(
            ops[i],
            i + 1 == ops.len(),
        ),
{
}

/// A repeated start is planned at a change of direction, and only there.
pub proof fn lemma_repeated_start_at_direction_change(
    address: Address,
    ops: Seq<OperationView>,
    i: int,
)
    requires
        0 < i < ops.len(),
    ensures
        ops[i].direction() != ops[i - 1].direction() <==> framing(address, ops, i) == seq![
            Call::ContinueWith(ops[i].direction(), address),
        ],
{
    if ops[i].direction() == ops[i - 1].direction() {
        assert(seq![Call::ContinueWith(ops[i].direction(), address)].len() == 1);
    }
}

/// A write followed by a read is one start for writing, one send, one
/// repeated start for reading, one receive per byte of the buffer (the last
/// of them without acknowledgement), and one stop.
pub proof fn lemma_write_then_read_plan(address: Address, bytes: Seq<u8>, buffer: Seq<u8>)
    ensures
        plan(address, seq![OperationView::Write(bytes), OperationView::Read(buffer)]) == seq![
            Call::Begin(Direction::Write, address),
            Call::Send(bytes),
            Call::ContinueWith(Direction::Read, address),
        ] + payload(OperationView::Read(buffer), true) + seq![Call::End],
{
    reveal_with_fuel(dispatched, 3);
}

/// Whether a call is a receive that withholds the acknowledgement.
pub open spec fn withholds_ack(call: Call) -> bool {
    call matches Call::Receive { last_byte_no_ack, .. } && last_byte_no_ack
}

proof fn lemma_no_ack_in_dispatched(address: Address, ops: Seq<OperationView>, n: int, k: int)
    requires
        0 <= n <= ops.len(),
        0 <= k < dispatched(address, ops, n).len(),
    ensures
        withholds_ack(dispatched(address, ops, n)[k]) <==> (n == ops.len() && ops[n - 1] is Read
            && ops[n - 1].bytes().len() > 0 && k == dispatched(address, ops, n).len() - 1),
    decreases n,
{
    if n > 0 {
        lemma_payload_moves_data(ops[n - 1], n == ops.len());
        if k < dispatched(address, ops, n - 1).len() {
            lemma_no_ack_in_dispatched(address, ops, n - 1, k);
        }
    }
}

/// At most one call of a plan withholds the acknowledgement: the receive of
/// the last byte of the last operation, if that operation is a read. Every
/// other receive acknowledges.
pub proof fn lemma_single_no_ack(address: Address, ops: Seq<OperationView>, k: int)
    requires
        0 <= k < plan(address, ops).len(),
    ensures
        withholds_ack(plan(address, ops)[k]) <==> (ops.last() is Read && ops.last().bytes().len()
            > 0 && k == plan(address, ops).len() - 2),
{
    let body = dispatched(address, ops, ops.len() as int);
    lemma_payload_moves_data(ops.last(), true);
    if k < body.len() {
        lemma_no_ack_in_dispatched(address, ops, ops.len() as int, k);
    }
}

/// The data call at a position is the one that the payload of its operation
/// names.
pub proof fn lemma_plan_at_position(address: Address, ops: Seq<OperationView>, i: int, j: int)
    requires
        0 <= i < ops.len(),
        0 <= j < payload(ops[i], i + 1 == ops.len()).len(),
    ensures
        0 <= position(address, ops, i, j) < plan(address, ops).len() - 1,
        plan(address, ops)[position(address, ops, i, j)] == payload(ops[i], i + 1 == ops.len())[j],
{
    let whole = dispatched(address, ops, ops.len() as int);
    let upto = dispatched(address, ops, i + 1);
    let at = position(address, ops, i, j);
    lemma_dispatched_prefix(address, ops, i + 1, ops.len() as int);
    assert(whole.subrange(0, upto.len() as int)[at] == whole[at]);
}

/// Data calls are planned in the order of the operations, and within a read
/// in the order of its bytes.
pub proof fn lemma_position_order(
    address: Address,
    ops: Seq<OperationView>,
    i: int,
    j: int,
    later_i: int,
    later_j: int,
)
    requires
        0 <= i <= later_i < ops.len(),
        0 <= j < payload(ops[i], i + 1 == ops.len()).len(),
        0 <= later_j,
        i < later_i || j < later_j,
    ensures
        position(address, ops, i, j) < position(address, ops, later_i, later_j),
{
    if i < later_i {
        lemma_dispatched_prefix(address, ops, i + 1, later_i);
    }
}

/// The calls for the first `m` operations open the calls for the first `n`,
/// where `m` is at most `n`.
pub proof fn lemma_dispatched_prefix(address: Address, ops: Seq<OperationView>, m: int, n: int)
    requires
        0 <= m <= n <= ops.len(),
    ensures
        dispatched(address, ops, m).len() <= dispatched(address, ops, n).len(),
        dispatched(address, ops, n).subrange(0, dispatched(address, ops, m).len() as int)
            == dispatched(address, ops, m),
    decreases n - m,
{
    if m < n {
        lemma_dispatched_prefix(address, ops, m, n - 1);
    }
}

/// Two operation lists that plan alike: the same directions and lengths,
/// and the same bytes to write. Only what the read buffers hold may differ.
pub open spec fn alike(a: Seq<OperationView>, b: Seq<OperationView>) -> bool {
    &&& a.len() == b.len()
    &&& forall|i: int|
        0 <= i < a.len() ==> {
            &&& (#[trigger] a[i]).direction() == b[i].direction()
            &&& a[i].bytes().len() == b[i].bytes().len()
            &&& (a[i] is Write ==> a[i] == b[i])
        }
}

/// Operation lists that are alike have the same plan.
pub proof fn lemma_alike_plans(address: Address, a: Seq<OperationView>, b: Seq<OperationView>)
    requires
        alike(a, b),
    ensures
        plan(address, a) == plan(address, b),
        forall|n: int| 0 <= n <= a.len() ==> dispatched(address, a, n) == dispatched(address, b, n),
        forall|i: int| 0 <= i < a.len() ==> framing(address, a, i) == framing(address, b, i),
{
    assert forall|n: int| 0 <= n <= a.len() implies dispatched(address, a, n) == dispatched(
        address,
        b,
        n,
    ) by {
        lemma_alike_dispatched(address, a, b, n);
    }
}

proof fn lemma_alike_dispatched(
    address: Address,
    a: Seq<OperationView>,
    b: Seq<OperationView>,
    n: int,
)
    requires
        alike(a, b),
        0 <= n <= a.len(),
    ensures
        dispatched(address, a, n) == dispatched(address, b, n),
    decreases n,
{
    if n > 0 {
        lemma_alike_dispatched(address, a, b, n - 1);
    }
}

} // verus!
