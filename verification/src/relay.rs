//! The private side: what the relay does with each request it picks up, and
//! the cache of answers it keeps until a poll has delivered them.

use crate::bindings::{json_error_text, json_method};
use crate::crypto::{encrypt, is_envelope, signature_valid, starts_with, verify_sig, PublicKey};
use crate::messages::{
    find_response, lemma_mapping_of_remove, mapping_of, response_map, response_views,
    PendingRequest, PendingResponse, QueryRequest, QueryResponse, RequestView, ResponseView,
};
use crate::validator::{is_supported, method_name, validate_method};
use vstd::prelude::*;
use vstd::string::StringExecFns;

verus! {

/// What the relay does with a request once it has looked at it.
#[derive(Debug, PartialEq, Eq)]
pub enum Screening {
    /// The request passed: `body` goes to the backend.
    Forward { body: Vec<u8> },
    /// The request goes no further: `outcome` is how it ends.
    Settled { outcome: Result<QueryResponse, String> },
}

/// Whether `r` settles a request with the error `reason`.
pub open spec fn refuses(r: Screening, reason: Seq<char>) -> bool {
    r matches Screening::Settled { outcome: Err(message) } && message@ == reason
}

/// Whether `r` settles a request with a failure response that says
/// `message`.
pub open spec fn answers_failure(r: Screening, message: Seq<char>) -> bool {
    r matches Screening::Settled { outcome: Ok(response) } && response@
        == (ResponseView::Failure { message })
}

/// Whether `r` is what the allow-list makes of the JSON request `body`: a
/// request that names an allowed operation is forwarded unchanged, one that
/// names another is refused, and one that is no JSON document is answered
/// with a failure that opens with "Error parsing JSON request: ".
pub open spec fn screens_method(body: Seq<u8>, r: Screening) -> bool {
    match json_method(body) {
        Some(method) => if is_supported(method_name(method)) {
            r matches Screening::Forward { body: forwarded } && forwarded@ == body
        } else {
            refuses(r, "Unsupported request"@)
        },
        None => r matches Screening::Settled {
            outcome: Ok(QueryResponse::Failure { message }),
        } && starts_with(message@, "Error parsing JSON request: "@),
    }
}

/// The failure that answers a request whose body is no JSON document;
/// `detail` is the parser's own message.
pub fn parse_failure(detail: &str) -> (r: QueryResponse)
    ensures
        r@ == (ResponseView::Failure { message: "Error parsing JSON request: "@ + detail@ }),
{
    QueryResponse::Failure {
        message: String::from_str("Error parsing JSON request: ").concat(detail),
    }
}

/// Whether `r` is what becomes of the request `body` once the allow-list
/// has been asked: `validated` says whether the request names an allowed
/// operation, or carries the parser's message where the request is no JSON
/// document.
pub open spec fn screens_validated(
    body: Seq<u8>,
    validated: Result<bool, String>,
    r: Screening,
) -> bool {
    match validated {
        Ok(allowed) => if allowed {
            r matches Screening::Forward { body: forwarded } && forwarded@ == body
        } else {
            refuses(r, "Unsupported request"@)
        },
        Err(detail) => answers_failure(r, "Error parsing JSON request: "@ + detail@),
    }
}

/// Decides what becomes of a request once the allow-list has been asked: a
/// request for an allowed operation is forwarded unchanged, one for another
/// operation is refused, and one that is no JSON document is answered with
/// a failure that carries the parser's message.
pub fn screen_validated(body: &Vec<u8>, validated: Result<bool, String>) -> (r: Screening)
    ensures
        screens_validated(body@, validated, r),
{
    match validated {
        Ok(true) => Screening::Forward { body: body.clone() },
        Ok(false) => Screening::Settled {
            outcome: Err(String::from_str("Unsupported request")),
        },
        Err(detail) => Screening::Settled { outcome: Ok(parse_failure(detail.as_str())) },
    }
}

/// Holds the JSON request `body` against the allow-list.
pub fn screen_method(body: &Vec<u8>) -> (r: Screening)
    ensures
        screens_method(body@, r),
{
    let validated = match validate_method(body.as_slice()) {
        Ok(allowed) => Ok(allowed),
        Err(err) => Err(json_error_text(&err)),
    };
    let ghost given = validated;
    let r = screen_validated(body, validated);
    proof {
        if let Err(detail) = given {
            assert(("Error parsing JSON request: "@ + detail@).subrange(
                0,
                "Error parsing JSON request: "@.len() as int,
            ) =~= "Error parsing JSON request: "@);
        }
    }
    r
}

/// Whether `r` is what a relay without a key makes of `request`: a signed
/// request is refused, an unsigned one goes to the allow-list.
pub open spec fn screens_unencrypted(request: RequestView, r: Screening) -> bool {
    match request {
        RequestView::Unsigned { body } => screens_method(body, r),
        RequestView::Signed { .. } => refuses(r, "Only processing unsigned requests"@),
    }
}

/// Looks at a request on a relay that has no key: only unsigned requests are
/// taken, and only for operations on the allow-list.
pub fn process_unencrypted_request(query_request: &QueryRequest) -> (r: Screening)
    ensures
        screens_unencrypted(query_request@, r),
{
    match query_request {
        QueryRequest::Unsigned { body } => screen_method(body),
        QueryRequest::Signed { .. } => Screening::Settled {
            outcome: Err(String::from_str("Only processing unsigned requests")),
        },
    }
}

/// Whether `r` is the outcome of an unsigned request to which the backend
/// replied `reply`: the reply's bytes as a plain result, or the backend's
/// error.
pub open spec fn answers_unencrypted(
    reply: Result<Vec<u8>, String>,
    r: Result<QueryResponse, String>,
) -> bool {
    match reply {
        Ok(body) => r matches Ok(response) && response@ == (ResponseView::PlainResult {
            body: body@,
        }),
        Err(reason) => r matches Err(message) && message@ == reason@,
    }
}

/// Turns the backend's reply to an unsigned request into its response: the
/// reply's bytes as they are, or the backend's error.
pub fn answer_unencrypted_request(reply: Result<Vec<u8>, String>) -> (r: Result<QueryResponse, String>)
    ensures
        answers_unencrypted(reply, r),
{
    match reply {
        Ok(body) => Ok(QueryResponse::PlainResult { body }),
        Err(reason) => Err(reason),
    }
}

/// Whether `r` is what a relay with the key `key` makes of `request`: an
/// unsigned request is refused, a signed one whose signature does not hold
/// is answered with a failure, and one whose signature holds goes to the
/// allow-list.
pub open spec fn screens_encrypted(key: PublicKey, request: RequestView, r: Screening) -> bool {
    match request {
        RequestView::Unsigned { .. } => refuses(r, "Only processing signed requests"@),
        RequestView::Signed { body, signature } => if signature_valid(key, body, signature) {
            screens_method(body, r)
        } else {
            answers_failure(r, "Signature verification failed"@)
        },
    }
}

/// Decides what becomes of a signed request once its signature has been
/// checked: a request whose signature does not hold is answered with a
/// failure and goes no further; one whose signature holds goes to the
/// allow-list.
pub fn screen_signed(signature_holds: bool, body: &Vec<u8>) -> (r: Screening)
    ensures
        if signature_holds {
            screens_method(body@, r)
        } else {
            answers_failure(r, "Signature verification failed"@)
        },
{
    if !signature_holds {
        return Screening::Settled {
            outcome: Ok(
                QueryResponse::Failure {
                    message: String::from_str("Signature verification failed"),
                },
            ),
        };
    }
    screen_method(body)
}

/// Looks at a request on a relay that has a key: only signed requests are
/// taken. The signature is checked first, and a request whose signature does
/// not hold is answered with a failure before the allow-list sees it.
pub fn process_encrypted_request(mirror_key: &PublicKey, query_request: &QueryRequest) -> (r: Screening)
    ensures
        screens_encrypted(*mirror_key, query_request@, r),
{
    match query_request {
        QueryRequest::Unsigned { .. } => Screening::Settled {
            outcome: Err(String::from_str("Only processing signed requests")),
        },
        QueryRequest::Signed { body, signature } => {
            let signature_holds = verify_sig(mirror_key, body.as_slice(), signature.as_slice());
            screen_signed(signature_holds, body)
        },
    }
}

/// Whether `r` is the outcome of a signed request to which the backend
/// replied `reply`: the reply's bytes in an envelope under `key`, or the
/// backend's error, or "Encryption failed" where the key cannot encrypt.
pub open spec fn answers_encrypted(
    key: PublicKey,
    reply: Result<Vec<u8>, String>,
    r: Result<QueryResponse, String>,
) -> bool {
    match reply {
        Ok(body) => if body@.len() == 0 || key.can_encrypt() {
            r matches Ok(QueryResponse::EncryptedResult { ciphertext }) && is_envelope(
                key,
                body@,
                ciphertext@,
            )
        } else {
            r matches Err(message) && message@ == "Encryption failed"@
        },
        Err(reason) => r matches Err(message) && message@ == reason@,
    }
}

/// Whether `r` is the outcome of a signed request whose answer came out of
/// encryption as `sealed`: the ciphertext as an encrypted result, or
/// "Encryption failed" whatever the encryption's own error says.
pub open spec fn wraps_sealed(sealed: Result<Vec<u8>, String>, r: Result<QueryResponse, String>) -> bool {
    match sealed {
        Ok(ciphertext) => r matches Ok(response) && response@ == (ResponseView::EncryptedResult {
            ciphertext: ciphertext@,
        }),
        Err(_) => r matches Err(message) && message@ == "Encryption failed"@,
    }
}

/// Turns what came out of encryption into the outcome of a signed request.
pub fn encrypted_response(sealed: Result<Vec<u8>, String>) -> (r: Result<QueryResponse, String>)
    ensures
        wraps_sealed(sealed, r),
{
    match sealed {
        Ok(ciphertext) => Ok(QueryResponse::EncryptedResult { ciphertext }),
        Err(_) => Err(String::from_str("Encryption failed")),
    }
}

/// Turns the backend's reply to a signed request into its response: the
/// reply encrypted to the client's key, or the backend's error.
pub fn answer_encrypted_request(mirror_key: &PublicKey, reply: Result<Vec<u8>, String>) -> (r: Result<QueryResponse, String>)
    ensures
        answers_encrypted(*mirror_key, reply, r),
{
    match reply {
        Ok(body) => encrypted_response(encrypt(mirror_key, body.as_slice())),
        Err(reason) => Err(reason),
    }
}

/// The response that an outcome stands for: the response itself, or a
/// failure that carries the error's text.
pub open spec fn response_of(outcome: Result<QueryResponse, String>) -> ResponseView {
    match outcome {
        Ok(response) => response@,
        Err(message) => ResponseView::Failure { message: message@ },
    }
}

/// The response that goes back for a request: the one it was given, or a
/// failure that carries the error's text.
pub fn response_or_failure(outcome: Result<QueryResponse, String>) -> (r: QueryResponse)
    ensures
        r@ == response_of(outcome),
{
    match outcome {
        Ok(response) => response,
        Err(message) => QueryResponse::Failure { message },
    }
}

/// Whether a relay whose answers in waiting were `before`, the first
/// `carried` of them with the poll, may take in the poll's end `outcome` by
/// keeping `after` and handing out `received`.
pub open spec fn completes_poll(
    outcome: Result<Vec<PendingRequest>, String>,
    before: Seq<(Seq<char>, ResponseView)>,
    carried: nat,
    after: Seq<(Seq<char>, ResponseView)>,
    received: Vec<PendingRequest>,
) -> bool {
    match outcome {
        Ok(requests) => received == requests && after == before.skip(carried as int),
        Err(_) => received@.len() == 0 && after == before,
    }
}

/// The private side's state between polls: the key it answers signed
/// requests with, if it has one, and the answers that no poll has delivered
/// yet.
pub struct RelayAgent {
    mirror_key: Option<PublicKey>,
    pending: Vec<PendingResponse>,
    in_flight: usize,
}

impl RelayAgent {
    /// The key that the relay answers signed requests with. A relay with a
    /// key takes signed requests only, one without takes unsigned ones only.
    pub closed spec fn key(&self) -> Option<PublicKey> {
        self.mirror_key
    }

    /// The answers that wait for delivery, in the order they go out.
    pub closed spec fn outbound(&self) -> Seq<(Seq<char>, ResponseView)> {
        response_views(self.pending@)
    }

    /// How many of the answers the poll in progress carries: they are the
    /// first in the order they go out.
    pub closed spec fn carried(&self) -> nat {
        if self.in_flight <= self.pending@.len() {
            self.in_flight as nat
        } else {
            self.pending@.len()
        }
    }

    /// The cache: the answer that waits for delivery under each id.
    pub open spec fn cache(&self) -> Map<Seq<char>, ResponseView> {
        mapping_of(self.outbound())
    }

    /// The part of the cache that the poll in progress does not carry: the
    /// answers that were recorded after it began.
    pub open spec fn fresh(&self) -> Map<Seq<char>, ResponseView> {
        mapping_of(self.outbound().skip(self.carried() as int))
    }

    /// A relay with nothing to deliver.
    pub fn new(mirror_key: Option<PublicKey>) -> (r: RelayAgent)
        ensures
            r.key() == mirror_key,
            r.carried() == 0,
            r.outbound() == Seq::<(Seq<char>, ResponseView)>::empty(),
            r.cache() == Map::<Seq<char>, ResponseView>::empty(),
    {
        let r = RelayAgent { mirror_key, pending: Vec::new(), in_flight: 0 };
        assert(r.outbound() =~= Seq::empty());
        r
    }

    /// A copy of every answer in the cache.
    pub fn pending_responses(&self) -> (r: Vec<PendingResponse>)
        ensures
            response_views(r@) == self.outbound(),
            response_map(r@) == self.cache(),
    {
        let mut out: Vec<PendingResponse> = Vec::new();
        let mut i: usize = 0;
        while i < self.pending.len()
            invariant
                i <= self.pending@.len(),
                out@.len() == i,
                forall|k: int| 0 <= k < i ==> (#[trigger] out@[k])@ == self.pending@[k]@,
            decreases self.pending@.len() - i,
        {
            out.push(self.pending[i].clone());
            i += 1;
        }
        assert(response_views(out@) =~= response_views(self.pending@));
        out
    }

    /// Begins a poll: what the poll carries to the public side is a copy of
    /// every answer in the cache. The cache itself stays as it is until the
    /// poll has ended.
    pub fn begin_poll(&mut self) -> (r: Vec<PendingResponse>)
        ensures
            final(self).key() == old(self).key(),
            final(self).outbound() == old(self).outbound(),
            final(self).carried() == old(self).outbound().len(),
            response_views(r@) == old(self).outbound(),
            response_map(r@) == old(self).cache(),
    {
        let batch = self.pending_responses();
        self.in_flight = self.pending.len();
        batch
    }

    /// Takes in how the poll in progress ended. After a poll that went
    /// through, the answers it carried are delivered: they leave the cache,
    /// and the requests that came back are handed out for processing. After
    /// a poll that failed the cache is as it was, every answer in it goes out
    /// again with the next poll, and no request counts as received.
    pub fn poll_completed(&mut self, outcome: Result<Vec<PendingRequest>, String>) -> (r: Vec<PendingRequest>)
        ensures
            final(self).key() == old(self).key(),
            final(self).carried() == 0,
            completes_poll(outcome, old(self).outbound(), old(self).carried(), final(self).outbound(), r),
    {
        let carried: usize = if self.in_flight <= self.pending.len() {
            self.in_flight
        } else {
            self.pending.len()
        };
        let ghost before = self.outbound();
        self.in_flight = 0;
        match outcome {
            Ok(requests) => {
                let rest = self.pending.split_off(carried);
                self.pending = rest;
                assert(self.outbound() =~= before.skip(carried as int));
                requests
            },
            Err(_) => Vec::new(),
        }
    }

    /// Looks at a request that a poll brought: the relay's key decides which
    /// kind of request it takes.
    pub fn process_request(&self, query_request: &QueryRequest) -> (r: Screening)
        ensures
            match self.key() {
                Some(key) => screens_encrypted(key, query_request@, r),
                None => screens_unencrypted(query_request@, r),
            },
    {
        match &self.mirror_key {
            Some(key) => process_encrypted_request(key, query_request),
            None => process_unencrypted_request(query_request),
        }
    }

    /// Turns the backend's reply to a forwarded request into the request's
    /// outcome.
    pub fn answer_request(&self, reply: Result<Vec<u8>, String>) -> (r: Result<QueryResponse, String>)
        ensures
            match self.key() {
                Some(key) => answers_encrypted(key, reply, r),
                None => answers_unencrypted(reply, r),
            },
    {
        match &self.mirror_key {
            Some(key) => answer_encrypted_request(key, reply),
            None => answer_unencrypted_request(reply),
        }
    }

    /// Puts the outcome of the request `id` into the cache, for the next
    /// poll to deliver. An error becomes a failure response. An answer that
    /// already waits under `id` is replaced. The poll in progress, if there
    /// is one, does not carry the new answer: it stays in the cache when
    /// that poll has gone through.
    pub fn record_response(&mut self, id: String, outcome: Result<QueryResponse, String>)
        ensures
            final(self).key() == old(self).key(),
            final(self).cache() == old(self).cache().insert(id@, response_of(outcome)),
            final(self).fresh() == old(self).fresh().insert(id@, response_of(outcome)),
    {
        let ghost before = self.outbound();
        let ghost carried = self.carried();
        let ghost value = response_of(outcome);
        let response = response_or_failure(outcome);
        if self.in_flight > self.pending.len() {
            self.in_flight = self.pending.len();
        }
        match find_response(&self.pending, &id) {
            Some(at) => {
                let _ = self.pending.remove(at);
                if at < self.in_flight {
                    self.in_flight = self.in_flight - 1;
                }
                self.pending.push(PendingResponse { id, response });
                proof {
                    let after = before.remove(at as int).push((id@, value));
                    assert(self.outbound() =~= after);
                    assert(after.drop_last() =~= before.remove(at as int));
                    lemma_mapping_of_remove(before, at as int, value);
                    if at < carried {
                        assert(after.skip(carried - 1) =~= before.skip(carried as int).push(
                            (id@, value),
                        ));
                        assert(before.skip(carried as int).push((id@, value)).drop_last()
                            =~= before.skip(carried as int));
                    } else {
                        let tail = before.skip(carried as int);
                        assert(after.skip(carried as int) =~= tail.remove(at - carried).push(
                            (id@, value),
                        ));
                        assert(tail.remove(at - carried).push((id@, value)).drop_last()
                            =~= tail.remove(at - carried));
                        lemma_mapping_of_remove(tail, at - carried, value);
                    }
                }
            },
            None => {
                self.pending.push(PendingResponse { id, response });
                proof {
                    let after = before.push((id@, value));
                    assert(self.outbound() =~= after);
                    assert(after.drop_last() =~= before);
                    assert(after.skip(carried as int) =~= before.skip(carried as int).push(
                        (id@, value),
                    ));
                    assert(before.skip(carried as int).push((id@, value)).drop_last()
                        =~= before.skip(carried as int));
                }
            },
        }
    }
}

} // verus!
