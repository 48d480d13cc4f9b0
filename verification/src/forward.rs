//! What the resolver's HTTPS answer must look like, and the payload taken from it.

use vstd::prelude::*;

verus! {

/// Name of the header that every request to the resolver carries.
pub const POST_CONTENT_TYPE_KEY: &'static str = "Content-Type";

/// Value of that header: the media type of a DNS message.
pub const POST_CONTENT_TYPE_VALUE: &'static str = "application/dns-message";

/// Why a forwarded query gave no payload.
#[derive(Clone, Copy, Debug, PartialEq, Eq, Structural)]
pub enum ForwardError {
    /// No HTTP response arrived: the connection, TLS or the deadline failed.
    Transport,
    /// The resolver answered with a status outside `200..=299`.
    Status(u16),
    /// The body is too short to hold the resolver's transaction ID.
    ShortBody,
}

/// What came back from one POST to the resolver.
#[derive(Debug)]
pub enum Fetched {
    /// No HTTP response arrived.
    Failed,
    /// An HTTP response with this status and body.
    Answered { status: u16, body: Vec<u8> },
}

/// Whether an HTTP status reports success.
pub open spec fn is_success(status: u16) -> bool {
    200 <= status <= 299
}

/// The payload that a response with `status` and `body` yields: the body without
/// its first two bytes, provided the status reports success and those two bytes exist.
pub open spec fn payload_of(status: u16, body: Seq<u8>) -> Result<Seq<u8>, ForwardError> {
    if !is_success(status) {
        Err(ForwardError::Status(status))
    } else if body.len() < 2 {
        Err(ForwardError::ShortBody)
    } else {
        Ok(body.skip(2))
    }
}

/// The payload that the outcome of a POST yields.
pub open spec fn fetched_payload(fetched: Fetched) -> Result<Seq<u8>, ForwardError> {
    match fetched {
        Fetched::Failed => Err(ForwardError::Transport),
        Fetched::Answered { status, body } => payload_of(status, body@),
    }
}

/// Checks a response and strips the resolver's transaction ID from its body.
pub fn response_payload(status: u16, body: &[u8]) -> (payload: Result<Vec<u8>, ForwardError>)
    ensures
        match payload {
            Ok(p) => payload_of(status, body@) == Ok::<Seq<u8>, ForwardError>(p@),
            Err(e) => payload_of(status, body@) == Err::<Seq<u8>, ForwardError>(e),
        },
{
    if status < 200 || status > 299 {
        return Err(ForwardError::Status(status));
    }
    if body.len() < 2 {
        return Err(ForwardError::ShortBody);
    }
    Ok(crate::codec::tail_from(body, 2))
}

/// The payload of a finished POST, or the reason there is none.
pub fn payload_from(fetched: &Fetched) -> (payload: Result<Vec<u8>, ForwardError>)
    ensures
        match payload {
            Ok(p) => fetched_payload(*fetched) == Ok::<Seq<u8>, ForwardError>(p@),
            Err(e) => fetched_payload(*fetched) == Err::<Seq<u8>, ForwardError>(e),
        },
{
    match fetched {
        Fetched::Failed => Err(ForwardError::Transport),
        Fetched::Answered { status, body } => response_payload(*status, body.as_slice()),
    }
}

} // verus!
