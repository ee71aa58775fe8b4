//! The requests and responses that cross the tunnel.

use vstd::prelude::*;

verus! {

/// One unit of tunneled client work, as the client handed it in.
#[derive(Debug, PartialEq, Eq)]
pub enum QueryRequest {
    /// A request that anyone may make; its answer travels in the clear.
    Unsigned { body: Vec<u8> },
    /// A request that carries the client's signature over `body`; its answer
    /// travels encrypted to the client's key.
    Signed { body: Vec<u8>, signature: Vec<u8> },
}

/// What a request is, as plain values.
pub enum RequestView {
    Unsigned { body: Seq<u8> },
    Signed { body: Seq<u8>, signature: Seq<u8> },
}

impl View for QueryRequest {
    type V = RequestView;

    open spec fn view(&self) -> RequestView {
        match self {
            QueryRequest::Unsigned { body } => RequestView::Unsigned { body: body@ },
            QueryRequest::Signed { body, signature } => RequestView::Signed {
                body: body@,
                signature: signature@,
            },
        }
    }
}

impl Clone for QueryRequest {
    fn clone(&self) -> (r: Self)
        ensures
            r@ == self@,
    {
        match self {
            QueryRequest::Unsigned { body } => QueryRequest::Unsigned { body: body.clone() },
            QueryRequest::Signed { body, signature } => QueryRequest::Signed {
                body: body.clone(),
                signature: signature.clone(),
            },
        }
    }
}

/// The answer to one request.
#[derive(Debug, PartialEq, Eq)]
pub enum QueryResponse {
    /// The backend's answer to an unsigned request.
    PlainResult { body: Vec<u8> },
    /// The backend's answer to a signed request, encrypted to the client.
    EncryptedResult { ciphertext: Vec<u8> },
    /// The request was not answered; `message` says why.
    Failure { message: String },
}

/// What a response is, as plain values.
pub enum ResponseView {
    PlainResult { body: Seq<u8> },
    EncryptedResult { ciphertext: Seq<u8> },
    Failure { message: Seq<char> },
}

impl View for QueryResponse {
    type V = ResponseView;

    open spec fn view(&self) -> ResponseView {
        match self {
            QueryResponse::PlainResult { body } => ResponseView::PlainResult { body: body@ },
            QueryResponse::EncryptedResult { ciphertext } => ResponseView::EncryptedResult {
                ciphertext: ciphertext@,
            },
            QueryResponse::Failure { message } => ResponseView::Failure { message: message@ },
        }
    }
}

impl Clone for QueryResponse {
    fn clone(&self) -> (r: Self)
        ensures
            r@ == self@,
    {
        match self {
            QueryResponse::PlainResult { body } => QueryResponse::PlainResult {
                body: body.clone(),
            },
            QueryResponse::EncryptedResult { ciphertext } => QueryResponse::EncryptedResult {
                ciphertext: ciphertext.clone(),
            },
            QueryResponse::Failure { message } => QueryResponse::Failure {
                message: message.clone(),
            },
        }
    }
}

/// A request on its way to the relay, under the id the broker gave it.
#[derive(Debug, PartialEq, Eq)]
pub struct PendingRequest {
    pub id: String,
    pub request: QueryRequest,
}

impl View for PendingRequest {
    type V = (Seq<char>, RequestView);

    open spec fn view(&self) -> (Seq<char>, RequestView) {
        (self.id@, self.request@)
    }
}

impl Clone for PendingRequest {
    fn clone(&self) -> (r: Self)
        ensures
            r@ == self@,
    {
        PendingRequest { id: self.id.clone(), request: self.request.clone() }
    }
}

/// A response on its way back to the broker, under the id of its request.
#[derive(Debug, PartialEq, Eq)]
pub struct PendingResponse {
    pub id: String,
    pub response: QueryResponse,
}

impl View for PendingResponse {
    type V = (Seq<char>, ResponseView);

    open spec fn view(&self) -> (Seq<char>, ResponseView) {
        (self.id@, self.response@)
    }
}

impl Clone for PendingResponse {
    fn clone(&self) -> (r: Self)
        ensures
            r@ == self@,
    {
        PendingResponse { id: self.id.clone(), response: self.response.clone() }
    }
}

/// The mapping that a batch of entries stands for. Where an id occurs more
/// than once, the entry that comes last counts.
pub open spec fn mapping_of<V>(entries: Seq<(Seq<char>, V)>) -> Map<Seq<char>, V>
    decreases entries.len(),
{
    if entries.len() == 0 {
        Map::empty()
    } else {
        mapping_of(entries.drop_last()).insert(entries.last().0, entries.last().1)
    }
}

/// A batch of responses as plain values, in the order of the batch.
pub open spec fn response_views(batch: Seq<PendingResponse>) -> Seq<(Seq<char>, ResponseView)> {
    batch.map_values(|entry: PendingResponse| entry@)
}

/// A batch of requests as plain values, in the order of the batch.
pub open spec fn request_views(batch: Seq<PendingRequest>) -> Seq<(Seq<char>, RequestView)> {
    batch.map_values(|entry: PendingRequest| entry@)
}

/// The mapping from id to response that a batch of responses stands for.
pub open spec fn response_map(batch: Seq<PendingResponse>) -> Map<Seq<char>, ResponseView> {
    mapping_of(response_views(batch))
}

/// An id that occurs in no entry from `from` on is mapped as the entries
/// before `from` map it.
pub proof fn lemma_mapping_of_tail<V>(entries: Seq<(Seq<char>, V)>, from: int, id: Seq<char>)
    requires
        0 <= from <= entries.len(),
        forall|k: int| from <= k < entries.len() ==> (#[trigger] entries[k]).0 != id,
    ensures
        mapping_of(entries).contains_key(id) == mapping_of(entries.take(from)).contains_key(id),
        mapping_of(entries).contains_key(id) ==> mapping_of(entries)[id] == mapping_of(
            entries.take(from),
        )[id],
    decreases entries.len() - from,
{
    if from == entries.len() {
        assert(entries.take(from) =~= entries);
    } else {
        let shorter = entries.drop_last();
        lemma_mapping_of_tail(shorter, from, id);
        assert(shorter.take(from) =~= entries.take(from));
        assert(entries.last().0 != id);
    }
}

/// Taking an entry out of a batch changes the mapping at the id of that
/// entry only.
pub proof fn lemma_mapping_of_remove<V>(entries: Seq<(Seq<char>, V)>, at: int, value: V)
    requires
        0 <= at < entries.len(),
    ensures
        mapping_of(entries.remove(at)).insert(entries[at].0, value) == mapping_of(entries).insert(
            entries[at].0,
            value,
        ),
    decreases entries.len(),
{
    let id = entries[at].0;
    if at == entries.len() - 1 {
        assert(entries.remove(at) =~= entries.drop_last());
        assert(mapping_of(entries.remove(at)).insert(id, value) =~= mapping_of(entries).insert(
            id,
            value,
        ));
    } else {
        let shorter = entries.drop_last();
        lemma_mapping_of_remove(shorter, at, value);
        assert(entries.remove(at).drop_last() =~= shorter.remove(at));
        assert(entries.remove(at).last() == entries.last());
        let left = mapping_of(shorter.remove(at));
        let right = mapping_of(shorter);
        let removed = entries.remove(at);
        let last = entries.last();
        assert(shorter[at] == entries[at]);
        assert(left.insert(id, value) == right.insert(id, value));
        assert(mapping_of(removed) == left.insert(last.0, last.1));
        assert(mapping_of(entries) == right.insert(last.0, last.1));
        let one = left.insert(last.0, last.1).insert(id, value);
        let other = right.insert(last.0, last.1).insert(id, value);
        assert forall|k: Seq<char>| one.dom().contains(k) == other.dom().contains(k) by {
            if k != id && k != last.0 {
                assert(left.insert(id, value).dom().contains(k) == right.insert(
                    id,
                    value,
                ).dom().contains(k));
            }
        }
        assert forall|k: Seq<char>| one.dom().contains(k) implies one[k] == other[k] by {
            if k != id && k != last.0 {
                assert(left.insert(id, value)[k] == right.insert(id, value)[k]);
            }
        }
        assert(one =~= other);
    }
}

/// Looks up `id` in a batch of responses: the place of the entry that counts
/// for it, if the batch has one.
pub fn find_response(batch: &Vec<PendingResponse>, id: &String) -> (r: Option<usize>)
    ensures
        r is Some <==> response_map(batch@).contains_key(id@),
        r matches Some(at) ==> at < batch@.len() && batch@[at as int].id@ == id@ && response_map(
            batch@,
        )[id@] == batch@[at as int].response@,
        r matches Some(at) ==> forall|k: int|
            at < k < batch@.len() ==> (#[trigger] batch@[k]).id@ != id@,
{
    let ghost entries = response_views(batch@);
    let mut i: usize = batch.len();
    while i > 0
        invariant
            i <= batch@.len(),
            entries == response_views(batch@),
            forall|k: int| i <= k < batch@.len() ==> (#[trigger] batch@[k]).id@ != id@,
        decreases i,
    {
        i -= 1;
        if batch[i].id == *id {
            proof {
                assert forall|k: int| i + 1 <= k < entries.len() implies (#[trigger] entries[k]).0
                    != id@ by {
                    assert(batch@[k].id@ != id@);
                }
                lemma_mapping_of_tail(entries, i + 1, id@);
                let upto = entries.take(i + 1);
                assert(upto.last() == entries[i as int]);
                assert(mapping_of(upto) == mapping_of(upto.drop_last()).insert(
                    upto.last().0,
                    upto.last().1,
                ));
            }
            return Some(i);
        }
    }
    proof {
        assert forall|k: int| 0 <= k < entries.len() implies (#[trigger] entries[k]).0 != id@ by {
            assert(batch@[k].id@ != id@);
        }
        lemma_mapping_of_tail(entries, 0, id@);
        assert(entries.take(0) =~= Seq::empty());
    }
    None
}

} // verus!
