//! The registry side of the pipeline: the raw record shape the registry
//! serves, and the policy that settles one fetch attempt into either a
//! batch of records or a tick-level failure.

use vstd::prelude::*;

verus! {

/// A raw node record as the registry serves it: integer satoshi capacity
/// and an integer Unix timestamp that may lie outside the representable
/// calendar range.
pub struct Node {
    pub alias: String,
    pub capacity: u64,
    pub first_seen: i64,
    pub public_key: String,
}

/// The mathematical image of a raw record.
pub ghost struct RawView {
    pub alias: Seq<char>,
    pub capacity: u64,
    pub first_seen: i64,
    pub public_key: Seq<char>,
}

impl View for Node {
    type V = RawView;

    open spec fn view(&self) -> RawView {
        RawView {
            alias: self.alias@,
            capacity: self.capacity,
            first_seen: self.first_seen,
            public_key: self.public_key@,
        }
    }
}

/// A tick-level fetch failure. Only transport failures are fatal to a
/// tick; a payload that fails to decode is not one of these.
pub enum FetchError {
    Transport,
}

/// What one fetch attempt came to, as the transport and decoding layer
/// reports it: the transport failed, the transport succeeded but the body
/// did not decode as a record sequence, or a decoded batch of records.
pub enum FetchOutcome {
    Transport,
    Undecodable,
    Payload(Vec<Node>),
}

/// Settles a fetch attempt. A transport failure surfaces as a tick-level
/// error; an undecodable payload is deliberately swallowed as an empty
/// batch so that one malformed response does not halt the retry cadence.
pub fn resolve_fetch(outcome: FetchOutcome) -> (r: Result<Vec<Node>, FetchError>)
    ensures
        outcome is Transport ==> (r matches Err(e) && e is Transport),
        outcome is Undecodable ==> (r matches Ok(v) && v@.len() == 0),
        outcome matches FetchOutcome::Payload(p) ==> (r matches Ok(v) && v == p),
{
    match outcome {
        FetchOutcome::Transport => Err(FetchError::Transport),
        FetchOutcome::Undecodable => Ok(Vec::new()),
        FetchOutcome::Payload(p) => Ok(p),
    }
}

} // verus!
