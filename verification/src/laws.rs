//! What holds of the broker's table over any run of its operations.

use crate::broker::{
    accept_query, drain_query, issued, lemma_accept_wf, lemma_drain_wf, lemma_enqueue_wf,
    lemma_index_of, lemma_take_wf, queued_requests, BrokerView, QueryState, QueryView,
};
use crate::decimal::{decimal_text, lemma_decimal_text_injective};
use crate::messages::{RequestView, ResponseView};
use vstd::prelude::*;

verus! {

/// One operation on the table.
pub enum BrokerOp {
    /// A caller queues a request.
    Enqueue { request: RequestView },
    /// A poll picks up the queued queries.
    Drain,
    /// A poll delivers responses.
    Accept { responses: Map<Seq<char>, ResponseView> },
    /// The caller of the query `id` looks for its answer.
    Await { id: Seq<char> },
    /// The caller of the query `id` gives up on it.
    Abandon { id: Seq<char> },
}

/// The table after one operation.
pub open spec fn step(table: BrokerView, op: BrokerOp) -> BrokerView {
    match op {
        BrokerOp::Enqueue { request } => if table.next_id < u64::MAX {
            table.enqueue(request)
        } else {
            table
        },
        BrokerOp::Drain => table.drain(),
        BrokerOp::Accept { responses } => table.accept(responses),
        BrokerOp::Await { id } => if table.answer_of(id) is Some {
            table.take(id)
        } else {
            table
        },
        BrokerOp::Abandon { id } => table.forget(id),
    }
}

/// The table after a run of operations, first to last.
pub open spec fn run(table: BrokerView, ops: Seq<BrokerOp>) -> BrokerView
    decreases ops.len(),
{
    if ops.len() == 0 {
        table
    } else {
        step(run(table, ops.drop_last()), ops.last())
    }
}

/// Whether a batch holds an entry for `id`.
pub open spec fn batch_has<V>(batch: Seq<(Seq<char>, V)>, id: Seq<char>) -> bool {
    exists|i: int| 0 <= i < batch.len() && (#[trigger] batch[i]).0 == id
}

/// Whether the table holds the query `id` and it is queued.
pub open spec fn is_queued(table: BrokerView, id: Seq<char>) -> bool {
    exists|i: int|
        0 <= i < table.queries.len() && (#[trigger] table.queries[i]).id == id
            && table.queries[i].state is Queued
}

/// How far a query has come.
pub open spec fn rank(state: QueryState) -> nat {
    match state {
        QueryState::Queued => 0,
        QueryState::Dispatched => 1,
        QueryState::Answered => 2,
    }
}

/// Every operation keeps the table in order.
pub proof fn lemma_step_wf(table: BrokerView, op: BrokerOp)
    requires
        table.wf(),
    ensures
        step(table, op).wf(),
{
    match op {
        BrokerOp::Enqueue { request } => {
            lemma_enqueue_wf(table, request);
        },
        BrokerOp::Drain => {
            lemma_drain_wf(table);
        },
        BrokerOp::Accept { responses } => {
            lemma_accept_wf(table, responses);
        },
        BrokerOp::Await { id } => {
            if table.answer_of(id) is Some {
                lemma_take_wf(table, id);
            }
        },
        BrokerOp::Abandon { id } => {
            if table.has(id) {
                lemma_take_wf(table, id);
            }
        },
    }
}

/// Every run of operations keeps the table in order.
pub proof fn lemma_run_wf(table: BrokerView, ops: Seq<BrokerOp>)
    requires
        table.wf(),
    ensures
        run(table, ops).wf(),
    decreases ops.len(),
{
    if ops.len() > 0 {
        lemma_run_wf(table, ops.drop_last());
        lemma_step_wf(run(table, ops.drop_last()), ops.last());
    }
}

/// The batch that a poll picks up holds exactly the ids of the queued
/// queries.
pub proof fn lemma_queued_batch(queries: Seq<QueryView>, id: Seq<char>)
    ensures
        batch_has(queued_requests(queries), id) <==> exists|i: int|
            0 <= i < queries.len() && (#[trigger] queries[i]).id == id
                && queries[i].state is Queued,
    decreases queries.len(),
{
    if queries.len() > 0 {
        let shorter = queries.drop_last();
        let last = queries.last();
        lemma_queued_batch(shorter, id);
        let batch = queued_requests(queries);
        let before = queued_requests(shorter);
        if batch_has(batch, id) {
            let at = choose|i: int| 0 <= i < batch.len() && (#[trigger] batch[i]).0 == id;
            if last.state is Queued && at == batch.len() - 1 {
                assert(queries[queries.len() - 1].id == id);
            } else {
                assert(before[at].0 == id);
                let i = choose|i: int|
                    0 <= i < shorter.len() && (#[trigger] shorter[i]).id == id
                        && shorter[i].state is Queued;
                assert(queries[i].id == id && queries[i].state is Queued);
            }
        }
        if exists|i: int|
            0 <= i < queries.len() && (#[trigger] queries[i]).id == id
                && queries[i].state is Queued {
            let i = choose|i: int|
                0 <= i < queries.len() && (#[trigger] queries[i]).id == id
                    && queries[i].state is Queued;
            if i == queries.len() - 1 {
                assert(batch[batch.len() - 1].0 == id);
            } else {
                assert(shorter[i].id == id && shorter[i].state is Queued);
                let at = choose|k: int| 0 <= k < before.len() && (#[trigger] before[k]).0 == id;
                assert(batch[at].0 == id);
            }
        }
    }
}

/// No cross-wiring: after a delivery, the answer that waits for the caller of
/// a query is the response that the batch holds under that query's own id,
/// if the query was dispatched and the batch has one; otherwise whatever
/// waited for that caller before, answer or none, still does.
pub proof fn lemma_answer_is_own(
    table: BrokerView,
    responses: Map<Seq<char>, ResponseView>,
    id: Seq<char>,
)
    requires
        table.wf(),
    ensures
        table.accept(responses).answer_of(id) == if table.state_of(id) == Some(
            QueryState::Dispatched,
        ) && responses.contains_key(id) {
            Some(responses[id])
        } else {
            table.answer_of(id)
        },
{
    let after = table.accept(responses);
    lemma_accept_wf(table, responses);
    if table.has(id) {
        let at = table.index_of(id);
        assert(after.queries[at] == accept_query(table.queries[at], responses));
        lemma_index_of(after, at);
    } else {
        if after.has(id) {
            let at = after.index_of(id);
            assert(after.queries[at] == accept_query(table.queries[at], responses));
            assert(table.queries[at].id == id);
        }
    }
}

/// Idempotence: delivering the same responses twice in a row leaves the
/// table as the first delivery left it.
pub proof fn lemma_redelivery_is_no_op(table: BrokerView, responses: Map<Seq<char>, ResponseView>)
    ensures
        table.accept(responses).accept(responses) == table.accept(responses),
{
    let once = table.accept(responses);
    let twice = once.accept(responses);
    assert forall|i: int| 0 <= i < once.queries.len() implies #[trigger] twice.queries[i]
        == once.queries[i] by {
        assert(once.queries[i] == accept_query(table.queries[i], responses));
        assert(twice.queries[i] == accept_query(once.queries[i], responses));
    }
    assert(twice.queries =~= once.queries);
}

/// A delivery that holds no response for a dispatched query changes
/// nothing: responses for ids that are unknown, not yet dispatched, already
/// answered or already taken are passed over.
pub proof fn lemma_stale_delivery_is_no_op(
    table: BrokerView,
    responses: Map<Seq<char>, ResponseView>,
)
    requires
        forall|i: int|
            0 <= i < table.queries.len() && (#[trigger] table.queries[i]).state is Dispatched
                ==> !responses.contains_key(table.queries[i].id),
    ensures
        table.accept(responses) == table,
{
    assert(table.accept(responses).queries =~= table.queries);
}

/// Redelivery across polls: a poll that brings again the responses that the
/// poll before it brought changes nothing but what its own pick-up changes,
/// provided that the batch answers no query that the relay has not been
/// handed yet. Every waiter is resolved by the first delivery or not at all.
pub proof fn lemma_repolled_delivery_is_no_op(
    table: BrokerView,
    responses: Map<Seq<char>, ResponseView>,
)
    requires
        forall|i: int|
            0 <= i < table.queries.len() && (#[trigger] table.queries[i]).state is Queued
                ==> !responses.contains_key(table.queries[i].id),
    ensures
        table.accept(responses).drain().accept(responses) == table.accept(responses).drain(),
{
    let once = table.accept(responses);
    let drained = once.drain();
    let again = drained.accept(responses);
    assert forall|i: int| 0 <= i < drained.queries.len() implies #[trigger] again.queries[i]
        == drained.queries[i] by {
        assert(once.queries[i] == accept_query(table.queries[i], responses));
        assert(drained.queries[i] == drain_query(once.queries[i]));
        assert(again.queries[i] == accept_query(drained.queries[i], responses));
    }
    assert(again.queries =~= drained.queries);
}

/// A query moves forward only: over any operation, a query that stays in the
/// table stands where it stood or further on, and a query that enters the
/// table enters it queued, under the id that was next.
pub proof fn lemma_step_moves_forward(table: BrokerView, op: BrokerOp, id: Seq<char>)
    requires
        table.wf(),
    ensures
        match (table.state_of(id), step(table, op).state_of(id)) {
            (Some(before), Some(after)) => rank(before) <= rank(after),
            (None, Some(after)) => after is Queued && id == table.fresh_id(),
            _ => true,
        },
{
    let next = step(table, op);
    lemma_step_wf(table, op);
    if next.has(id) {
        let at = next.index_of(id);
        match op {
            BrokerOp::Enqueue { request } => {
                if table.next_id < u64::MAX {
                    if at < table.queries.len() {
                        assert(next.queries[at] == table.queries[at]);
                        lemma_index_of(table, at);
                    } else {
                        if table.has(id) {
                            let was = table.index_of(id);
                            assert(next.queries[was] == table.queries[was]);
                            assert(next.queries[was].id != next.queries[at].id);
                        }
                    }
                }
            },
            BrokerOp::Drain => {
                assert(next.queries[at] == drain_query(table.queries[at]));
                lemma_index_of(table, at);
            },
            BrokerOp::Accept { responses } => {
                assert(next.queries[at] == accept_query(table.queries[at], responses));
                lemma_index_of(table, at);
            },
            BrokerOp::Await { id: taken } => {
                if table.answer_of(taken) is Some {
                    let gone = table.index_of(taken);
                    let was = if at < gone {
                        at
                    } else {
                        at + 1
                    };
                    assert(next.queries[at] == table.queries[was]);
                    lemma_index_of(table, was);
                }
            },
            BrokerOp::Abandon { id: given_up } => {
                if table.has(given_up) {
                    let gone = table.index_of(given_up);
                    let was = if at < gone {
                        at
                    } else {
                        at + 1
                    };
                    assert(next.queries[at] == table.queries[was]);
                    lemma_index_of(table, was);
                }
            },
        }
    }
}

proof fn lemma_step_keeps_answer(
    table: BrokerView,
    op: BrokerOp,
    id: Seq<char>,
    answer: ResponseView,
)
    requires
        table.wf(),
        issued(id, table.next_id),
        !table.has(id) || table.answer_of(id) == Some(answer),
    ensures
        issued(id, step(table, op).next_id),
        !step(table, op).has(id) || step(table, op).answer_of(id) == Some(answer),
{
    let next = step(table, op);
    lemma_step_wf(table, op);
    let k = choose|k: nat| k < table.next_id && id == decimal_text(k);
    assert(k < next.next_id && id == decimal_text(k));
    if next.has(id) {
        let at = next.index_of(id);
        match op {
            BrokerOp::Enqueue { request } => {
                if table.next_id < u64::MAX {
                    if at < table.queries.len() {
                        assert(next.queries[at] == table.queries[at]);
                        lemma_index_of(table, at);
                    } else {
                        lemma_decimal_text_injective(k, table.next_id);
                    }
                }
            },
            BrokerOp::Drain => {
                assert(next.queries[at] == drain_query(table.queries[at]));
                lemma_index_of(table, at);
            },
            BrokerOp::Accept { responses } => {
                assert(next.queries[at] == accept_query(table.queries[at], responses));
                lemma_index_of(table, at);
            },
            BrokerOp::Await { id: taken } => {
                if table.answer_of(taken) is Some {
                    let gone = table.index_of(taken);
                    let was = if at < gone {
                        at
                    } else {
                        at + 1
                    };
                    assert(next.queries[at] == table.queries[was]);
                    lemma_index_of(table, was);
                }
            },
            BrokerOp::Abandon { id: given_up } => {
                if table.has(given_up) {
                    let gone = table.index_of(given_up);
                    let was = if at < gone {
                        at
                    } else {
                        at + 1
                    };
                    assert(next.queries[at] == table.queries[was]);
                    lemma_index_of(table, was);
                }
            },
        }
    }
}

proof fn lemma_run_keeps_answer(
    table: BrokerView,
    ops: Seq<BrokerOp>,
    id: Seq<char>,
    answer: ResponseView,
)
    requires
        table.wf(),
        issued(id, table.next_id),
        !table.has(id) || table.answer_of(id) == Some(answer),
    ensures
        issued(id, run(table, ops).next_id),
        !run(table, ops).has(id) || run(table, ops).answer_of(id) == Some(answer),
    decreases ops.len(),
{
    if ops.len() > 0 {
        lemma_run_keeps_answer(table, ops.drop_last(), id, answer);
        lemma_run_wf(table, ops.drop_last());
        lemma_step_keeps_answer(run(table, ops.drop_last()), ops.last(), id, answer);
    }
}

/// A waiter is resolved once: the answer that waits for the caller of a
/// query is never replaced. Over any run of operations the query either
/// still holds that same answer or has left the table.
pub proof fn lemma_resolved_once(table: BrokerView, ops: Seq<BrokerOp>, id: Seq<char>)
    requires
        table.wf(),
        table.answer_of(id) is Some,
    ensures
        !run(table, ops).has(id) || run(table, ops).answer_of(id) == table.answer_of(id),
{
    let at = table.index_of(id);
    assert(issued(table.queries[at].id, table.next_id));
    lemma_run_keeps_answer(table, ops, id, table.answer_of(id)->0);
}

proof fn lemma_step_keeps_dispatched(table: BrokerView, op: BrokerOp, id: Seq<char>)
    requires
        table.wf(),
        issued(id, table.next_id),
        !is_queued(table, id),
    ensures
        issued(id, step(table, op).next_id),
        !is_queued(step(table, op), id),
{
    let next = step(table, op);
    let k = choose|k: nat| k < table.next_id && id == decimal_text(k);
    assert(k < next.next_id && id == decimal_text(k));
    if is_queued(next, id) {
        let at = choose|i: int|
            0 <= i < next.queries.len() && (#[trigger] next.queries[i]).id == id
                && next.queries[i].state is Queued;
        match op {
            BrokerOp::Enqueue { request } => {
                if table.next_id < u64::MAX {
                    if at < table.queries.len() {
                        assert(next.queries[at] == table.queries[at]);
                    } else {
                        lemma_decimal_text_injective(k, table.next_id);
                    }
                }
            },
            BrokerOp::Drain => {
                assert(next.queries[at] == drain_query(table.queries[at]));
            },
            BrokerOp::Accept { responses } => {
                assert(next.queries[at] == accept_query(table.queries[at], responses));
                assert(table.queries[at].id == id && table.queries[at].state is Queued);
            },
            BrokerOp::Await { id: taken } => {
                if table.answer_of(taken) is Some {
                    let gone = table.index_of(taken);
                    let was = if at < gone {
                        at
                    } else {
                        at + 1
                    };
                    assert(next.queries[at] == table.queries[was]);
                }
            },
            BrokerOp::Abandon { id: given_up } => {
                if table.has(given_up) {
                    let gone = table.index_of(given_up);
                    let was = if at < gone {
                        at
                    } else {
                        at + 1
                    };
                    assert(next.queries[at] == table.queries[was]);
                }
            },
        }
    }
}

proof fn lemma_run_keeps_dispatched(table: BrokerView, ops: Seq<BrokerOp>, id: Seq<char>)
    requires
        table.wf(),
        issued(id, table.next_id),
        !is_queued(table, id),
    ensures
        issued(id, run(table, ops).next_id),
        !is_queued(run(table, ops), id),
    decreases ops.len(),
{
    if ops.len() > 0 {
        lemma_run_keeps_dispatched(table, ops.drop_last(), id);
        lemma_run_wf(table, ops.drop_last());
        lemma_step_keeps_dispatched(run(table, ops.drop_last()), ops.last(), id);
    }
}

/// A query is dispatched once: an id that one poll picked up is in the batch
/// of no later poll, whatever operations come in between.
pub proof fn lemma_dispatched_once(table: BrokerView, ops: Seq<BrokerOp>, id: Seq<char>)
    requires
        table.wf(),
        batch_has(table.queued(), id),
    ensures
        !batch_has(run(table.drain(), ops).queued(), id),
{
    lemma_queued_batch(table.queries, id);
    let at = choose|i: int|
        0 <= i < table.queries.len() && (#[trigger] table.queries[i]).id == id
            && table.queries[i].state is Queued;
    assert(issued(table.queries[at].id, table.next_id));
    let drained = table.drain();
    lemma_drain_wf(table);
    if is_queued(drained, id) {
        let i = choose|i: int|
            0 <= i < drained.queries.len() && (#[trigger] drained.queries[i]).id == id
                && drained.queries[i].state is Queued;
        assert(drained.queries[i] == drain_query(table.queries[i]));
    }
    lemma_run_keeps_dispatched(drained, ops, id);
    lemma_queued_batch(run(drained, ops).queries, id);
}

} // verus!
