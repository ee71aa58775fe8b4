//! The public side: the table of queries in flight.
//!
//! A query is queued by a client-facing caller, dispatched to the relay by
//! the next poll, answered by a later poll and then handed to the caller that
//! waits for it. It moves forward only, and it leaves the table when its
//! answer has been handed over.

use crate::decimal::{decimal_text, lemma_decimal_text_injective, render_decimal};
use crate::messages::{
    find_response, request_views, response_map, PendingRequest, PendingResponse, QueryRequest,
    QueryResponse, RequestView, ResponseView,
};
use vstd::prelude::*;
use vstd::string::StringExecFns;

verus! {

/// Where a query stands.
#[derive(Clone, Copy, Debug, PartialEq, Eq, Structural)]
pub enum QueryState {
    /// Waiting for the next poll to pick it up.
    Queued,
    /// Handed to the relay; waiting for its answer.
    Dispatched,
    /// Answered; waiting for its caller to take the answer.
    Answered,
}

/// One query in the table, as plain values.
pub struct QueryView {
    pub id: Seq<char>,
    pub request: RequestView,
    pub state: QueryState,
    pub response: Option<ResponseView>,
}

/// The table, as plain values: the queries in the order they were queued,
/// and how many ids have been given out.
pub struct BrokerView {
    pub next_id: nat,
    pub queries: Seq<QueryView>,
}

/// Whether `id` is one of the first `count` ids that a broker gives out.
pub open spec fn issued(id: Seq<char>, count: nat) -> bool {
    exists|k: nat| k < count && id == #[trigger] decimal_text(k)
}

/// A query as it enters the table.
pub open spec fn queued_query(id: Seq<char>, request: RequestView) -> QueryView {
    QueryView { id, request, state: QueryState::Queued, response: None }
}

/// What a poll's pick-up makes of a query: a queued one is dispatched.
pub open spec fn drain_query(query: QueryView) -> QueryView {
    if query.state is Queued {
        QueryView { state: QueryState::Dispatched, ..query }
    } else {
        query
    }
}

/// What a batch of responses makes of a query: a dispatched one that the
/// batch has a response for is answered with it.
pub open spec fn accept_query(
    query: QueryView,
    responses: Map<Seq<char>, ResponseView>,
) -> QueryView {
    if query.state is Dispatched && responses.contains_key(query.id) {
        QueryView {
            state: QueryState::Answered,
            response: Some(responses[query.id]),
            ..query
        }
    } else {
        query
    }
}

/// The queued queries among `queries`, each as its id and its request, in
/// the order of the table.
pub open spec fn queued_requests(queries: Seq<QueryView>) -> Seq<(Seq<char>, RequestView)>
    decreases queries.len(),
{
    if queries.len() == 0 {
        Seq::empty()
    } else if queries.last().state is Queued {
        queued_requests(queries.drop_last()).push((queries.last().id, queries.last().request))
    } else {
        queued_requests(queries.drop_last())
    }
}

impl BrokerView {
    /// What holds of every table: no id occurs twice, every id is one the
    /// broker gave out, and a query has a response exactly when it is
    /// answered.
    pub open spec fn wf(self) -> bool {
        &&& forall|i: int, j: int|
            0 <= i < j < self.queries.len() ==> (#[trigger] self.queries[i]).id
                != (#[trigger] self.queries[j]).id
        &&& forall|i: int|
            0 <= i < self.queries.len() ==> issued((#[trigger] self.queries[i]).id, self.next_id)
        &&& forall|i: int|
            0 <= i < self.queries.len() ==> ((#[trigger] self.queries[i]).state is Answered
                <==> self.queries[i].response is Some)
    }

    /// Whether the table holds a query under `id`.
    pub open spec fn has(self, id: Seq<char>) -> bool {
        exists|i: int| 0 <= i < self.queries.len() && (#[trigger] self.queries[i]).id == id
    }

    /// The place of the query `id` in the table.
    pub open spec fn index_of(self, id: Seq<char>) -> int
        recommends
            self.has(id),
    {
        choose|i: int| 0 <= i < self.queries.len() && (#[trigger] self.queries[i]).id == id
    }

    /// Where the query `id` stands, if the table holds it.
    pub open spec fn state_of(self, id: Seq<char>) -> Option<QueryState> {
        if self.has(id) {
            Some(self.queries[self.index_of(id)].state)
        } else {
            None
        }
    }

    /// The answer that waits for the caller of the query `id`, if there is
    /// one.
    pub open spec fn answer_of(self, id: Seq<char>) -> Option<ResponseView> {
        if self.has(id) {
            self.queries[self.index_of(id)].response
        } else {
            None
        }
    }

    /// The id that the next query gets.
    pub open spec fn fresh_id(self) -> Seq<char> {
        decimal_text(self.next_id)
    }

    /// The table after `request` was queued.
    pub open spec fn enqueue(self, request: RequestView) -> BrokerView {
        BrokerView {
            next_id: self.next_id + 1,
            queries: self.queries.push(queued_query(self.fresh_id(), request)),
        }
    }

    /// The batch that a poll picks up: every queued query.
    pub open spec fn queued(self) -> Seq<(Seq<char>, RequestView)> {
        queued_requests(self.queries)
    }

    /// The table after a poll picked up the queued queries.
    pub open spec fn drain(self) -> BrokerView {
        BrokerView {
            queries: self.queries.map_values(|query: QueryView| drain_query(query)),
            ..self
        }
    }

    /// The table after a poll delivered `responses`.
    pub open spec fn accept(self, responses: Map<Seq<char>, ResponseView>) -> BrokerView {
        BrokerView {
            queries: self.queries.map_values(|query: QueryView| accept_query(query, responses)),
            ..self
        }
    }

    /// The table after the caller of the query `id` took its answer: the
    /// query is gone.
    pub open spec fn take(self, id: Seq<char>) -> BrokerView
        recommends
            self.has(id),
    {
        BrokerView { queries: self.queries.remove(self.index_of(id)), ..self }
    }

    /// The table after the caller of the query `id` gave up on it: the query
    /// is gone, wherever it stood.
    pub open spec fn forget(self, id: Seq<char>) -> BrokerView {
        if self.has(id) {
            self.take(id)
        } else {
            self
        }
    }
}

/// In a table without a repeated id, a query's id tells its place.
pub proof fn lemma_index_of(table: BrokerView, at: int)
    requires
        table.wf(),
        0 <= at < table.queries.len(),
    ensures
        table.has(table.queries[at].id),
        table.index_of(table.queries[at].id) == at,
{
    let id = table.queries[at].id;
    let chosen = table.index_of(id);
    if chosen < at {
        assert(table.queries[chosen].id != table.queries[at].id);
    } else if at < chosen {
        assert(table.queries[at].id != table.queries[chosen].id);
    }
}

struct Query {
    id: String,
    request: QueryRequest,
    state: QueryState,
    response: Option<QueryResponse>,
}

impl View for Query {
    type V = QueryView;

    closed spec fn view(&self) -> QueryView {
        QueryView {
            id: self.id@,
            request: self.request@,
            state: self.state,
            response: match self.response {
                Some(response) => Some(response@),
                None => None,
            },
        }
    }
}

/// The right to wait for the answer to one query. The broker hands one out
/// for each query it takes in, and to nobody else.
#[derive(Debug)]
pub struct Waiter {
    id: String,
}

impl View for Waiter {
    type V = Seq<char>;

    /// The id of the query that the waiter waits for.
    closed spec fn view(&self) -> Seq<char> {
        self.id@
    }
}

impl Waiter {
    /// The id of the query that the waiter waits for.
    pub fn id(&self) -> (r: &String)
        ensures
            r@ == self@,
    {
        &self.id
    }
}

/// How a look at a waiter ended.
#[derive(Debug, PartialEq, Eq)]
pub enum AwaitStep {
    /// The query is answered; the answer is now the caller's.
    Ready { response: QueryResponse },
    /// No answer yet, and time is left to wait.
    Pending,
    /// No answer yet, and the time to wait is over.
    TimedOut,
}

impl AwaitStep {
    /// How the wait ended, if it has: the answer, or the error that the
    /// caller reports where the time to wait is over. A wait that goes on
    /// has no outcome yet.
    pub open spec fn spec_outcome(self) -> Option<Result<ResponseView, Seq<char>>> {
        match self {
            AwaitStep::Ready { response } => Some(Ok(response@)),
            AwaitStep::Pending => None,
            AwaitStep::TimedOut => Some(Err("Timed out waiting for the response"@)),
        }
    }

    /// How the wait ended, if it has.
    pub fn outcome(self) -> (r: Option<Result<QueryResponse, String>>)
        ensures
            match self.spec_outcome() {
                Some(Ok(response)) => r matches Some(Ok(given)) && given@ == response,
                Some(Err(reason)) => r matches Some(Err(message)) && message@ == reason,
                None => r is None,
            },
    {
        match self {
            AwaitStep::Ready { response } => Some(Ok(response)),
            AwaitStep::Pending => None,
            AwaitStep::TimedOut => Some(
                Err(String::from_str("Timed out waiting for the response")),
            ),
        }
    }
}

/// Whether a look at the waiter for the query `id` may turn the table
/// `before` into `after` and end as `step`: an answer that waits is handed
/// over and its query leaves the table; otherwise the table stays as it is,
/// and the step says whether the time to wait is over.
pub open spec fn await_outcome(
    before: BrokerView,
    id: Seq<char>,
    waited: u64,
    timeout: u64,
    after: BrokerView,
    step: AwaitStep,
) -> bool {
    match before.answer_of(id) {
        Some(answer) => {
            &&& after == before.take(id)
            &&& step matches AwaitStep::Ready { response }
            &&& response@ == answer
        },
        None => {
            &&& after == before
            &&& if waited >= timeout {
                step is TimedOut
            } else {
                step is Pending
            }
        },
    }
}

/// The table of queries in flight.
pub struct QueryBroker {
    next_id: u64,
    queries: Vec<Query>,
}

impl View for QueryBroker {
    type V = BrokerView;

    closed spec fn view(&self) -> BrokerView {
        BrokerView {
            next_id: self.next_id as nat,
            queries: self.queries@.map_values(|query: Query| query@),
        }
    }
}

impl QueryBroker {
    /// Whether the table is in order. Every operation keeps it so.
    pub open spec fn wf(&self) -> bool {
        self@.wf()
    }

    /// A broker with an empty table.
    pub fn new() -> (r: QueryBroker)
        ensures
            r.wf(),
            r@.next_id == 0,
            r@.queries == Seq::<QueryView>::empty(),
    {
        let r = QueryBroker { next_id: 0, queries: Vec::new() };
        assert(r@.queries =~= Seq::empty());
        r
    }

    /// How many queries the table holds.
    pub fn len(&self) -> (r: usize)
        ensures
            r == self@.queries.len(),
    {
        self.queries.len()
    }

    fn position(&self, id: &String) -> (r: Option<usize>)
        requires
            self.wf(),
        ensures
            r is Some <==> self@.has(id@),
            r matches Some(at) ==> at < self.queries@.len() && self@.index_of(id@) == at
                && self.queries@[at as int].id@ == id@,
    {
        let mut i: usize = 0;
        while i < self.queries.len()
            invariant
                self.wf(),
                i <= self.queries@.len(),
                forall|k: int| 0 <= k < i ==> (#[trigger] self.queries@[k]).id@ != id@,
            decreases self.queries@.len() - i,
        {
            if self.queries[i].id == *id {
                proof {
                    assert(self@.queries[i as int].id == id@);
                    lemma_index_of(self@, i as int);
                }
                return Some(i);
            }
            i += 1;
        }
        assert forall|k: int| 0 <= k < self@.queries.len() implies (#[trigger] self@.queries[k]).id
            != id@ by {
            assert(self.queries@[k].id@ != id@);
        }
        None
    }

    /// Where the query `id` stands, if the table holds it.
    pub fn state_of(&self, id: &String) -> (r: Option<QueryState>)
        requires
            self.wf(),
        ensures
            r == self@.state_of(id@),
    {
        match self.position(id) {
            Some(at) => Some(self.queries[at].state),
            None => None,
        }
    }

    /// Takes in a request: the query gets an id that no query had before and
    /// waits in the table for the next poll. The caller gets the waiter for
    /// it. Only a broker that has given out every id it has turns a request
    /// down.
    pub fn enqueue(&mut self, request: QueryRequest) -> (r: Option<Waiter>)
        requires
            old(self).wf(),
        ensures
            final(self).wf(),
            match r {
                Some(waiter) => old(self)@.next_id < u64::MAX && waiter@ == old(self)@.fresh_id()
                    && final(self)@ == old(self)@.enqueue(request@),
                None => old(self)@.next_id == u64::MAX && final(self)@ == old(self)@,
            },
    {
        if self.next_id == u64::MAX {
            return None;
        }
        let id = render_decimal(self.next_id);
        let ghost before = self@;
        self.queries.push(
            Query { id: id.clone(), request, state: QueryState::Queued, response: None },
        );
        self.next_id = self.next_id + 1;
        proof {
            assert(self@.queries =~= before.enqueue(request@).queries);
            lemma_enqueue_wf(before, request@);
        }
        Some(Waiter { id })
    }

    /// Picks up the queued queries for the relay: each of them is now
    /// dispatched, and the batch holds each with its id, in the order they
    /// were queued.
    pub fn drain_queued(&mut self) -> (r: Vec<PendingRequest>)
        requires
            old(self).wf(),
        ensures
            final(self).wf(),
            final(self)@ == old(self)@.drain(),
            request_views(r@) == old(self)@.queued(),
    {
        let ghost before = self@;
        let ghost start = self.queries@;
        let mut batch: Vec<PendingRequest> = Vec::new();
        let mut i: usize = 0;
        while i < self.queries.len()
            invariant
                i <= self.queries@.len(),
                self.next_id == before.next_id,
                self.queries@.len() == start.len(),
                before.queries == start.map_values(|query: Query| query@),
                forall|k: int| 0 <= k < i ==> (#[trigger] self.queries@[k])@ == drain_query(start[k]@),
                forall|k: int| i <= k < start.len() ==> #[trigger] self.queries@[k] == start[k],
                request_views(batch@) == queued_requests(before.queries.take(i as int)),
            decreases self.queries@.len() - i,
        {
            let ghost batch_before = request_views(batch@);
            proof {
                assert(before.queries.take(i + 1).drop_last() =~= before.queries.take(i as int));
                assert(before.queries.take(i + 1).last() == before.queries[i as int]);
                assert(self.queries@[i as int] == start[i as int]);
            }
            match self.queries[i].state {
                QueryState::Queued => {
                    batch.push(
                        PendingRequest {
                            id: self.queries[i].id.clone(),
                            request: self.queries[i].request.clone(),
                        },
                    );
                    self.queries[i].state = QueryState::Dispatched;
                    assert(request_views(batch@) =~= batch_before.push(
                        (before.queries[i as int].id, before.queries[i as int].request),
                    ));
                },
                _ => {},
            }
            i += 1;
        }
        proof {
            assert(before.queries.take(i as int) =~= before.queries);
            assert(self@.queries =~= before.drain().queries);
            lemma_drain_wf(before);
        }
        batch
    }

    /// Takes in the responses that a poll delivered: each dispatched query
    /// that the batch answers is now answered, and nothing else changes. A
    /// response for an id that the table does not hold, or for a query that
    /// is not dispatched, is passed over.
    pub fn accept_responses(&mut self, responses: &Vec<PendingResponse>)
        requires
            old(self).wf(),
        ensures
            final(self).wf(),
            final(self)@ == old(self)@.accept(response_map(responses@)),
    {
        let ghost before = self@;
        let ghost start = self.queries@;
        let ghost answers = response_map(responses@);
        let mut i: usize = 0;
        while i < self.queries.len()
            invariant
                i <= self.queries@.len(),
                answers == response_map(responses@),
                self.next_id == before.next_id,
                self.queries@.len() == start.len(),
                before.queries == start.map_values(|query: Query| query@),
                forall|k: int|
                    0 <= k < i ==> (#[trigger] self.queries@[k])@ == accept_query(
                        start[k]@,
                        answers,
                    ),
                forall|k: int| i <= k < start.len() ==> #[trigger] self.queries@[k] == start[k],
            decreases self.queries@.len() - i,
        {
            proof {
                assert(self.queries@[i as int] == start[i as int]);
            }
            match self.queries[i].state {
                QueryState::Dispatched => {
                    match find_response(responses, &self.queries[i].id) {
                        Some(at) => {
                            let response = responses[at].response.clone();
                            self.queries[i].response = Some(response);
                            self.queries[i].state = QueryState::Answered;
                        },
                        None => {},
                    }
                },
                _ => {},
            }
            i += 1;
        }
        proof {
            assert(self@.queries =~= before.accept(answers).queries);
            lemma_accept_wf(before, answers);
        }
    }

    /// Serves one poll of the relay: first the responses it brought are
    /// taken in, then the queued queries are picked up for it.
    pub fn poll(&mut self, responses: &Vec<PendingResponse>) -> (r: Vec<PendingRequest>)
        requires
            old(self).wf(),
        ensures
            final(self).wf(),
            final(self)@ == old(self)@.accept(response_map(responses@)).drain(),
            request_views(r@) == old(self)@.accept(response_map(responses@)).queued(),
    {
        self.accept_responses(responses);
        self.drain_queued()
    }

    /// Looks whether the query of `waiter` is answered. If it is, the answer
    /// goes to the caller and the query leaves the table. If it is not, the
    /// table stays as it is, and the caller is told whether to keep waiting:
    /// `waited` is the time it has waited so far and `timeout` the time it
    /// may wait in all, both in milliseconds.
    pub fn await_response(&mut self, waiter: &Waiter, waited: u64, timeout: u64) -> (r: AwaitStep)
        requires
            old(self).wf(),
        ensures
            final(self).wf(),
            await_outcome(old(self)@, waiter@, waited, timeout, final(self)@, r),
    {
        let ghost before = self@;
        match self.position(&waiter.id) {
            Some(at) => {
                match self.queries[at].state {
                    QueryState::Answered => {
                        let query = self.queries.remove(at);
                        proof {
                            assert(self@.queries =~= before.queries.remove(at as int));
                            lemma_take_wf(before, waiter@);
                        }
                        match query.response {
                            Some(response) => {
                                return AwaitStep::Ready { response };
                            },
                            None => {},
                        }
                    },
                    _ => {},
                }
            },
            None => {},
        }
        if waited >= timeout {
            AwaitStep::TimedOut
        } else {
            AwaitStep::Pending
        }
    }

    /// Gives up the wait for a query. The waiter is spent, so nobody can take
    /// the query's answer any more, and the query leaves the table wherever
    /// it stands. This is how the table is kept from filling with queries
    /// whose callers have timed out or gone away: a caller that stops
    /// waiting hands its waiter back here. An answer that comes for the query
    /// later finds no query and is passed over.
    pub fn abandon(&mut self, waiter: Waiter)
        requires
            old(self).wf(),
        ensures
            final(self).wf(),
            final(self)@ == old(self)@.forget(waiter@),
    {
        let ghost before = self@;
        match self.position(&waiter.id) {
            Some(at) => {
                let _ = self.queries.remove(at);
                proof {
                    assert(self@.queries =~= before.queries.remove(at as int));
                    lemma_take_wf(before, waiter@);
                }
            },
            None => {},
        }
    }
}

impl Default for QueryBroker {
    fn default() -> (r: QueryBroker)
        ensures
            r.wf(),
            r@.next_id == 0,
            r@.queries == Seq::<QueryView>::empty(),
    {
        QueryBroker::new()
    }
}

/// Queuing a request keeps the table in order.
pub proof fn lemma_enqueue_wf(table: BrokerView, request: RequestView)
    requires
        table.wf(),
    ensures
        table.enqueue(request).wf(),
{
    let after = table.enqueue(request);
    let last = table.queries.len() as int;
    assert forall|i: int| 0 <= i < after.queries.len() implies issued(
        (#[trigger] after.queries[i]).id,
        after.next_id,
    ) by {
        if i < last {
            assert(after.queries[i] == table.queries[i]);
            let k = choose|k: nat| k < table.next_id && table.queries[i].id == decimal_text(k);
            assert(k < after.next_id && after.queries[i].id == decimal_text(k));
        } else {
            assert(after.queries[i].id == decimal_text(table.next_id));
        }
    }
    assert forall|i: int, j: int| 0 <= i < j < after.queries.len() implies (
    #[trigger] after.queries[i]).id != (#[trigger] after.queries[j]).id by {
        assert(after.queries[i] == table.queries[i]);
        if j < last {
            assert(after.queries[j] == table.queries[j]);
        } else {
            let k = choose|k: nat| k < table.next_id && table.queries[i].id == decimal_text(k);
            if decimal_text(k) == decimal_text(table.next_id) {
                lemma_decimal_text_injective(k, table.next_id);
            }
        }
    }
    assert forall|i: int| 0 <= i < after.queries.len() implies ((
    #[trigger] after.queries[i]).state is Answered <==> after.queries[i].response is Some) by {
        if i < last {
            assert(after.queries[i] == table.queries[i]);
        }
    }
}

/// A poll's pick-up keeps the table in order.
pub proof fn lemma_drain_wf(table: BrokerView)
    requires
        table.wf(),
    ensures
        table.drain().wf(),
{
    let after = table.drain();
    assert forall|i: int| 0 <= i < after.queries.len() implies {
        &&& (#[trigger] after.queries[i]).id == table.queries[i].id
        &&& (after.queries[i].state is Answered <==> after.queries[i].response is Some)
    } by {
        assert(after.queries[i] == drain_query(table.queries[i]));
    }
}

/// A delivery of responses keeps the table in order.
pub proof fn lemma_accept_wf(table: BrokerView, responses: Map<Seq<char>, ResponseView>)
    requires
        table.wf(),
    ensures
        table.accept(responses).wf(),
{
    let after = table.accept(responses);
    assert forall|i: int| 0 <= i < after.queries.len() implies {
        &&& (#[trigger] after.queries[i]).id == table.queries[i].id
        &&& (after.queries[i].state is Answered <==> after.queries[i].response is Some)
    } by {
        assert(after.queries[i] == accept_query(table.queries[i], responses));
    }
}

/// Handing an answer to its caller keeps the table in order.
pub proof fn lemma_take_wf(table: BrokerView, id: Seq<char>)
    requires
        table.wf(),
        table.has(id),
    ensures
        table.take(id).wf(),
{
    let at = table.index_of(id);
    let after = table.take(id);
    assert forall|i: int| 0 <= i < after.queries.len() implies #[trigger] after.queries[i] == (if i
        < at {
        table.queries[i]
    } else {
        table.queries[i + 1]
    }) by {}
    assert forall|i: int, j: int| 0 <= i < j < after.queries.len() implies (
    #[trigger] after.queries[i]).id != (#[trigger] after.queries[j]).id by {
        let a = if i < at { i } else { i + 1 };
        let b = if j < at { j } else { j + 1 };
        assert(table.queries[a].id != table.queries[b].id);
    }
    assert forall|i: int| 0 <= i < after.queries.len() implies issued(
        (#[trigger] after.queries[i]).id,
        after.next_id,
    ) by {
        let a = if i < at { i } else { i + 1 };
        assert(issued(table.queries[a].id, table.next_id));
    }
    assert forall|i: int| 0 <= i < after.queries.len() implies ((
    #[trigger] after.queries[i]).state is Answered <==> after.queries[i].response is Some) by {
        let a = if i < at { i } else { i + 1 };
        assert(table.queries[a].state is Answered <==> table.queries[a].response is Some);
    }
}

} // verus!
