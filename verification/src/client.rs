//! The client-facing side of the public node: how a client's call becomes a
//! query, and how the query's outcome becomes the client's reply.

use crate::messages::{QueryRequest, QueryResponse, RequestView, ResponseView};
use vstd::prelude::*;
use vstd::string::StringExecFns;

verus! {

/// The scheme of the address on which the public node listens for clients.
#[derive(Debug, Hash, Ord, PartialOrd, Eq, PartialEq, Clone)]
pub struct ClientUriScheme {}

impl ClientUriScheme {
    /// The part before the `://` of an address: `https` with TLS, `http`
    /// without.
    pub fn scheme(secure: bool) -> (r: &'static str)
        ensures
            r@ == if secure {
                "https"@
            } else {
                "http"@
            },
    {
        if secure {
            "https"
        } else {
            "http"
        }
    }

    /// The port of an address that names none: 8443 with TLS, 8000 without.
    pub fn default_port(secure: bool) -> (r: u16)
        ensures
            r == if secure {
                8443u16
            } else {
                8000u16
            },
    {
        if secure {
            8443
        } else {
            8000
        }
    }
}

/// A reply that tells the client its request was bad (status 400), with the
/// reason as its text.
#[derive(Debug, Clone, PartialEq)]
pub struct BadRequest(pub String);

impl From<String> for BadRequest {
    fn from(src: String) -> (r: Self) {
        BadRequest(src)
    }
}

impl vstd::std_specs::convert::FromSpecImpl<String> for BadRequest {
    open spec fn obeys_from_spec() -> bool {
        true
    }

    open spec fn from_spec(src: String) -> Self {
        BadRequest(src)
    }
}

impl<'a> From<&'a str> for BadRequest {
    fn from(src: &'a str) -> (r: Self)
        ensures
            r.0@ == src@,
    {
        BadRequest(src.to_owned())
    }
}

impl<'a> vstd::std_specs::convert::FromSpecImpl<&'a str> for BadRequest {
    open spec fn obeys_from_spec() -> bool {
        false
    }

    open spec fn from_spec(src: &'a str) -> Self {
        arbitrary()
    }
}

/// The query for a client's call that carries no signature.
pub fn unsigned_request(body: Vec<u8>) -> (r: QueryRequest)
    ensures
        r@ == (RequestView::Unsigned { body: body@ }),
{
    QueryRequest::Unsigned { body }
}

/// The query for a client's "submit signed request" call: the request as the
/// client wrote it, and the client's signature over it.
pub fn signed_request(request: Vec<u8>, signature: Vec<u8>) -> (r: QueryRequest)
    ensures
        r@ == (RequestView::Signed { body: request@, signature: signature@ }),
{
    QueryRequest::Signed { body: request, signature }
}

/// What the client of an unsigned call is owed once the wait for its query
/// is over: the body of a plain result; the message of a failure, or of a
/// wait that gave up, as an error; and an error for any other response.
pub open spec fn unsigned_reply_of(waited: Result<QueryResponse, String>) -> Result<
    Seq<u8>,
    Seq<char>,
> {
    match waited {
        Ok(QueryResponse::PlainResult { body }) => Ok(body@),
        Ok(QueryResponse::Failure { message }) => Err(message@),
        Ok(QueryResponse::EncryptedResult { .. }) => Err("Incorrect response type received"@),
        Err(reason) => Err(reason@),
    }
}

/// What the client of a signed call is owed once the wait for its query is
/// over: the ciphertext of an encrypted result; the message of a failure, or
/// of a wait that gave up, as an error; and an error for any other response.
pub open spec fn signed_reply_of(waited: Result<QueryResponse, String>) -> Result<
    Seq<u8>,
    Seq<char>,
> {
    match waited {
        Ok(QueryResponse::EncryptedResult { ciphertext }) => Ok(ciphertext@),
        Ok(QueryResponse::Failure { message }) => Err(message@),
        Ok(QueryResponse::PlainResult { .. }) => Err("Incorrect response type received"@),
        Err(reason) => Err(reason@),
    }
}

/// Whether `r` says what `reply` says.
pub open spec fn is_unsigned_reply(r: Result<Vec<u8>, String>, reply: Result<Seq<u8>, Seq<char>>) -> bool {
    match reply {
        Ok(body) => r matches Ok(bytes) && bytes@ == body,
        Err(reason) => r matches Err(message) && message@ == reason,
    }
}

/// Whether `r` says what `reply` says.
pub open spec fn is_signed_reply(r: Result<Vec<u8>, BadRequest>, reply: Result<Seq<u8>, Seq<char>>) -> bool {
    match reply {
        Ok(body) => r matches Ok(bytes) && bytes@ == body,
        Err(reason) => r matches Err(bad) && bad.0@ == reason,
    }
}

/// Turns the outcome of the wait for an unsigned query into the client's
/// reply.
pub fn unsigned_reply(waited: Result<QueryResponse, String>) -> (r: Result<Vec<u8>, String>)
    ensures
        is_unsigned_reply(r, unsigned_reply_of(waited)),
{
    match waited {
        Ok(QueryResponse::PlainResult { body }) => Ok(body),
        Ok(QueryResponse::Failure { message }) => Err(message),
        Ok(QueryResponse::EncryptedResult { .. }) => Err(
            String::from_str("Incorrect response type received"),
        ),
        Err(reason) => Err(reason),
    }
}

/// Turns the outcome of the wait for a signed query into the client's reply:
/// the raw encrypted payload, or a bad-request reply.
pub fn signed_reply(waited: Result<QueryResponse, String>) -> (r: Result<Vec<u8>, BadRequest>)
    ensures
        is_signed_reply(r, signed_reply_of(waited)),
{
    match waited {
        Ok(QueryResponse::EncryptedResult { ciphertext }) => Ok(ciphertext),
        Ok(QueryResponse::Failure { message }) => Err(BadRequest::from(message)),
        Ok(QueryResponse::PlainResult { .. }) => Err(
            BadRequest::from("Incorrect response type received"),
        ),
        Err(reason) => Err(BadRequest::from(reason)),
    }
}

} // verus!
