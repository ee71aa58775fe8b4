use wallet_service_mirror::broker::{AwaitStep, QueryBroker, QueryState};
use wallet_service_mirror::client::{unsigned_reply, unsigned_request};
use wallet_service_mirror::messages::{PendingRequest, PendingResponse, QueryRequest, QueryResponse};

fn plain(text: &str) -> QueryResponse {
    QueryResponse::PlainResult {
        body: text.as_bytes().to_vec(),
    }
}

fn reply(id: &str, text: &str) -> PendingResponse {
    PendingResponse {
        id: id.to_owned(),
        response: plain(text),
    }
}

#[test]
fn a_new_broker_is_empty() {
    let mut broker = QueryBroker::new();
    assert_eq!(broker.len(), 0);
    assert!(broker.drain_queued().is_empty());
}

#[test]
fn enqueue_gives_each_query_its_own_id() {
    let mut broker = QueryBroker::new();
    let first = broker.enqueue(unsigned_request(b"a".to_vec())).unwrap();
    let second = broker.enqueue(unsigned_request(b"b".to_vec())).unwrap();
    let third = broker.enqueue(unsigned_request(b"c".to_vec())).unwrap();
    assert_eq!(first.id(), "0");
    assert_eq!(second.id(), "1");
    assert_eq!(third.id(), "2");
    assert_eq!(broker.len(), 3);
    assert_eq!(broker.state_of(first.id()), Some(QueryState::Queued));
}

#[test]
fn drain_hands_out_the_queued_requests_in_order() {
    let mut broker = QueryBroker::new();
    broker.enqueue(unsigned_request(b"a".to_vec())).unwrap();
    broker
        .enqueue(QueryRequest::Signed {
            body: b"b".to_vec(),
            signature: vec![1],
        })
        .unwrap();
    let batch = broker.drain_queued();
    assert_eq!(
        batch,
        vec![
            PendingRequest {
                id: "0".to_owned(),
                request: QueryRequest::Unsigned {
                    body: b"a".to_vec()
                }
            },
            PendingRequest {
                id: "1".to_owned(),
                request: QueryRequest::Signed {
                    body: b"b".to_vec(),
                    signature: vec![1]
                }
            },
        ]
    );
    assert_eq!(broker.state_of(&"0".to_owned()), Some(QueryState::Dispatched));
    assert_eq!(broker.state_of(&"1".to_owned()), Some(QueryState::Dispatched));
}

#[test]
fn drain_never_hands_out_an_id_twice() {
    let mut broker = QueryBroker::new();
    let first = broker.enqueue(unsigned_request(b"a".to_vec())).unwrap();
    let batch = broker.drain_queued();
    assert_eq!(batch.len(), 1);
    assert!(broker.drain_queued().is_empty());
    let second = broker.enqueue(unsigned_request(b"b".to_vec())).unwrap();
    broker.accept_responses(&vec![reply(first.id(), "one")]);
    let batch = broker.drain_queued();
    assert_eq!(batch.len(), 1);
    assert_eq!(&batch[0].id, second.id());
    assert!(matches!(
        broker.await_response(&first, 0, 1000),
        AwaitStep::Ready { .. }
    ));
    assert!(broker.drain_queued().is_empty());
}

#[test]
fn a_fetch_ledger_summary_request_travels_there_and_back() {
    let mut broker = QueryBroker::new();
    let request = unsigned_request(b"fetch ledger summary".to_vec());
    let waiter = broker.enqueue(request).unwrap();
    assert_eq!(broker.await_response(&waiter, 0, 1000), AwaitStep::Pending);

    let requests = broker.poll(&Vec::new());
    assert_eq!(
        requests,
        vec![PendingRequest {
            id: waiter.id().clone(),
            request: QueryRequest::Unsigned {
                body: b"fetch ledger summary".to_vec()
            }
        }]
    );
    assert_eq!(broker.await_response(&waiter, 10, 1000), AwaitStep::Pending);

    let answers = vec![PendingResponse {
        id: waiter.id().clone(),
        response: QueryResponse::PlainResult {
            body: b"{...}".to_vec(),
        },
    }];
    let requests = broker.poll(&answers);
    assert!(requests.is_empty());

    let step = broker.await_response(&waiter, 20, 1000);
    assert_eq!(
        step,
        AwaitStep::Ready {
            response: QueryResponse::PlainResult {
                body: b"{...}".to_vec()
            }
        }
    );
    assert_eq!(unsigned_reply(step.outcome().unwrap()), Ok(b"{...}".to_vec()));
    assert_eq!(broker.len(), 0);
}

#[test]
fn each_waiter_gets_the_answer_to_its_own_query() {
    let mut broker = QueryBroker::new();
    let mut waiters = Vec::new();
    for n in 0..20u32 {
        let body = format!("request {}", n).into_bytes();
        waiters.push(broker.enqueue(unsigned_request(body)).unwrap());
    }
    let requests = broker.drain_queued();
    assert_eq!(requests.len(), 20);
    // The relay answers in another order than it was asked.
    let mut answers = Vec::new();
    for request in requests.iter().rev() {
        let body = match &request.request {
            QueryRequest::Unsigned { body } => body.clone(),
            QueryRequest::Signed { body, .. } => body.clone(),
        };
        let mut text = b"answer to ".to_vec();
        text.extend_from_slice(&body);
        answers.push(PendingResponse {
            id: request.id.clone(),
            response: QueryResponse::PlainResult { body: text },
        });
    }
    broker.accept_responses(&answers);
    for (n, waiter) in waiters.iter().enumerate().rev() {
        let expected = format!("answer to request {}", n).into_bytes();
        assert_eq!(
            broker.await_response(waiter, 0, 1000),
            AwaitStep::Ready {
                response: QueryResponse::PlainResult { body: expected }
            }
        );
    }
    assert_eq!(broker.len(), 0);
}

#[test]
fn a_redelivered_response_is_passed_over() {
    let mut broker = QueryBroker::new();
    let waiter = broker.enqueue(unsigned_request(b"a".to_vec())).unwrap();
    broker.drain_queued();
    broker.accept_responses(&vec![reply(waiter.id(), "first")]);
    assert_eq!(broker.state_of(waiter.id()), Some(QueryState::Answered));
    // The same id comes again, here even with another body: nothing changes.
    broker.accept_responses(&vec![reply(waiter.id(), "second")]);
    assert_eq!(
        broker.await_response(&waiter, 0, 1000),
        AwaitStep::Ready {
            response: plain("first")
        }
    );
    // And once more after the answer was taken.
    broker.accept_responses(&vec![reply(waiter.id(), "first")]);
    assert_eq!(broker.len(), 0);
    assert_eq!(broker.state_of(waiter.id()), None);
    assert_eq!(broker.await_response(&waiter, 0, 1000), AwaitStep::Pending);
}

#[test]
fn a_response_for_an_unknown_id_is_passed_over() {
    let mut broker = QueryBroker::new();
    let waiter = broker.enqueue(unsigned_request(b"a".to_vec())).unwrap();
    broker.drain_queued();
    broker.accept_responses(&vec![reply("nobody", "x"), reply("17", "y")]);
    assert_eq!(broker.len(), 1);
    assert_eq!(broker.state_of(waiter.id()), Some(QueryState::Dispatched));
}

#[test]
fn a_response_for_a_query_that_was_not_dispatched_is_passed_over() {
    let mut broker = QueryBroker::new();
    let waiter = broker.enqueue(unsigned_request(b"a".to_vec())).unwrap();
    broker.accept_responses(&vec![reply(waiter.id(), "too early")]);
    assert_eq!(broker.state_of(waiter.id()), Some(QueryState::Queued));
    assert_eq!(broker.drain_queued().len(), 1);
}

#[test]
fn the_last_entry_for_an_id_counts_within_one_batch() {
    let mut broker = QueryBroker::new();
    let waiter = broker.enqueue(unsigned_request(b"a".to_vec())).unwrap();
    broker.drain_queued();
    broker.accept_responses(&vec![reply(waiter.id(), "old"), reply(waiter.id(), "new")]);
    assert_eq!(
        broker.await_response(&waiter, 0, 1000),
        AwaitStep::Ready {
            response: plain("new")
        }
    );
}

#[test]
fn a_poll_takes_in_responses_before_it_picks_up_requests() {
    let mut broker = QueryBroker::new();
    let first = broker.enqueue(unsigned_request(b"a".to_vec())).unwrap();
    assert_eq!(broker.poll(&Vec::new()).len(), 1);
    let second = broker.enqueue(unsigned_request(b"b".to_vec())).unwrap();
    // The batch answers the first query and, wrongly, the second one, which
    // the relay cannot have seen yet.
    let requests = broker.poll(&vec![reply(first.id(), "one"), reply(second.id(), "two")]);
    assert_eq!(requests.len(), 1);
    assert_eq!(&requests[0].id, second.id());
    assert_eq!(broker.state_of(first.id()), Some(QueryState::Answered));
    assert_eq!(broker.state_of(second.id()), Some(QueryState::Dispatched));
}

#[test]
fn a_wait_times_out_and_leaves_the_query_in_the_table() {
    let mut broker = QueryBroker::new();
    let waiter = broker.enqueue(unsigned_request(b"a".to_vec())).unwrap();
    broker.drain_queued();
    assert_eq!(broker.await_response(&waiter, 999, 1000), AwaitStep::Pending);
    let step = broker.await_response(&waiter, 1000, 1000);
    assert_eq!(step, AwaitStep::TimedOut);
    assert_eq!(
        step.outcome(),
        Some(Err("Timed out waiting for the response".to_owned()))
    );
    assert_eq!(broker.len(), 1);
    assert_eq!(broker.state_of(waiter.id()), Some(QueryState::Dispatched));
    // The answer may still come, and is then handed over.
    broker.accept_responses(&vec![reply(waiter.id(), "late")]);
    assert_eq!(
        broker.await_response(&waiter, 5000, 1000),
        AwaitStep::Ready {
            response: plain("late")
        }
    );
}

#[test]
fn a_pending_wait_has_no_outcome() {
    assert_eq!(AwaitStep::Pending.outcome(), None);
    assert_eq!(
        AwaitStep::Ready {
            response: plain("x")
        }
        .outcome(),
        Some(Ok(plain("x")))
    );
}

#[test]
fn an_abandoned_query_leaves_the_table() {
    let mut broker = QueryBroker::default();
    let kept = broker.enqueue(unsigned_request(b"a".to_vec())).unwrap();
    let dropped = broker.enqueue(unsigned_request(b"b".to_vec())).unwrap();
    let dropped_id = dropped.id().clone();
    broker.drain_queued();
    assert_eq!(broker.await_response(&dropped, 30_000, 30_000), AwaitStep::TimedOut);
    broker.abandon(dropped);
    assert_eq!(broker.len(), 1);
    assert_eq!(broker.state_of(&dropped_id), None);
    // The late answer finds no query; the other query is answered as usual.
    broker.accept_responses(&vec![reply(&dropped_id, "late"), reply(kept.id(), "kept")]);
    assert_eq!(broker.len(), 1);
    assert_eq!(
        broker.await_response(&kept, 0, 1000),
        AwaitStep::Ready {
            response: plain("kept")
        }
    );
    // The id of the abandoned query is not given out again.
    let next = broker.enqueue(unsigned_request(b"c".to_vec())).unwrap();
    assert_eq!(next.id(), "2");
}

#[test]
fn a_queued_query_can_be_abandoned_before_any_poll() {
    let mut broker = QueryBroker::new();
    let waiter = broker.enqueue(unsigned_request(b"a".to_vec())).unwrap();
    broker.abandon(waiter);
    assert_eq!(broker.len(), 0);
    assert!(broker.poll(&Vec::new()).is_empty());
}

#[test]
fn queries_that_stay_keep_their_order_when_one_leaves() {
    let mut broker = QueryBroker::new();
    let first = broker.enqueue(unsigned_request(b"a".to_vec())).unwrap();
    let second = broker.enqueue(unsigned_request(b"b".to_vec())).unwrap();
    let third = broker.enqueue(unsigned_request(b"c".to_vec())).unwrap();
    broker.abandon(second);
    let batch = broker.drain_queued();
    assert_eq!(batch.len(), 2);
    assert_eq!(&batch[0].id, first.id());
    assert_eq!(&batch[1].id, third.id());
}
