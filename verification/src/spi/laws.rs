//! Laws of the chip-select plan.
use vstd::prelude::*;
use crate::spi::plan::{exchanged, plan, position, Call, OperationView};

verus! {

/// Two operation lists that take the same word-times, operation by
/// operation.
pub open spec fn alike<Word>(a: Seq<OperationView<Word>>, b: Seq<OperationView<Word>>) -> bool {
    &&& a.len() == b.len()
    &&& forall|i: int| 0 <= i < a.len() ==> (#[trigger] a[i]).duration() == b[i].duration()
}

/// Where the word-times lie depends on the durations only.
pub proof fn lemma_alike_lengths<Word>(
    a: Seq<OperationView<Word>>,
    b: Seq<OperationView<Word>>,
    n: int,
)
    requires
        alike(a, b),
        0 <= n <= a.len(),
    ensures
        exchanged(a, n).len() == exchanged(b, n).len(),
    decreases n,
{
    if n > 0 {
        lemma_alike_lengths(a, b, n - 1);
    }
}

/// The word-times of the first `m` operations open those of the first `n`,
/// where `m` is at most `n`.
pub proof fn lemma_exchanged_prefix<Word>(ops: Seq<OperationView<Word>>, m: int, n: int)
    requires
        0 <= m <= n <= ops.len(),
    ensures
        exchanged(ops, m).len() <= exchanged(ops, n).len(),
        exchanged(ops, n).subrange(0, exchanged(ops, m).len() as int) == exchanged(ops, m),
    decreases n - m,
{
    if m < n {
        lemma_exchanged_prefix(ops, m, n - 1);
    }
}

/// The call at the position of word-time `k` of operation `i` is the
/// exchange of the word that the operation sends then.
pub proof fn lemma_plan_at_position<Word>(ops: Seq<OperationView<Word>>, i: int, k: int)
    requires
        0 <= i < ops.len(),
        0 <= k < ops[i].duration(),
    ensures
        0 < position(ops, i, k) < plan(ops).len() - 1,
        position(ops, i, k) < 1 + exchanged(ops, i + 1).len(),
        plan(ops)[position(ops, i, k)] == Call::Exchange(ops[i].outgoing(k)),
{
    let whole = exchanged(ops, ops.len() as int);
    let upto = exchanged(ops, i + 1);
    let at = exchanged(ops, i).len() + k;
    lemma_exchanged_prefix(ops, i + 1, ops.len() as int);
    assert(whole.subrange(0, upto.len() as int)[at] == whole[at]);
}

/// Word-times are planned in the order of the operations, and within an
/// operation in the order of its words.
pub proof fn lemma_position_order<Word>(
    ops: Seq<OperationView<Word>>,
    i: int,
    k: int,
    later_i: int,
    later_k: int,
)
    requires
        0 <= i <= later_i < ops.len(),
        0 <= k < ops[i].duration(),
        0 <= later_k,
        i < later_i || k < later_k,
    ensures
        position(ops, i, k) < position(ops, later_i, later_k),
{
    if i < later_i {
        lemma_exchanged_prefix(ops, i + 1, later_i);
    }
}

/// The select line is asserted once, before everything else, and released
/// once, after everything else: no operation of a transaction toggles it.
pub proof fn lemma_select_held<Word>(ops: Seq<OperationView<Word>>, at: int)
    requires
        ops.len() > 0,
        0 <= at < plan(ops).len(),
    ensures
        plan(ops)[at] is Select <==> at == 0,
        plan(ops)[at] is Deselect <==> at == plan(ops).len() - 1,
{
    lemma_exchanges_only(ops, ops.len() as int);
}

proof fn lemma_exchanges_only<Word>(ops: Seq<OperationView<Word>>, n: int)
    requires
        0 <= n <= ops.len(),
    ensures
        forall|at: int|
            0 <= at < exchanged(ops, n).len() ==> (#[trigger] exchanged(ops, n)[at]) is Exchange,
    decreases n,
{
    if n > 0 {
        lemma_exchanges_only(ops, n - 1);
    }
}

/// A transfer runs for as many word-times as its longer buffer has words.
/// Every word of the write buffer goes out, in order, and padding follows
/// once they are used up.
pub proof fn lemma_transfer_plan<Word>(buffer: Seq<Word>, words: Seq<Word>)
    ensures
        plan(seq![OperationView::Transfer(buffer, words)]).len() == 2 + (if buffer.len()
            >= words.len() {
            buffer.len()
        } else {
            words.len()
        }),
        forall|k: int|
            0 <= k < OperationView::Transfer(buffer, words).duration() ==> #[trigger] plan(
                seq![OperationView::Transfer(buffer, words)],
            )[1 + k] == Call::Exchange(
                if k < words.len() {
                    Some(words[k])
                } else {
                    None
                },
            ),
{
    reveal_with_fuel(exchanged, 2);
}

} // verus!
