//! The query client: what is asked of the transport for one sensor key, and
//! what becomes of the transport's answer. Every failure is absorbed here:
//! the caller gets a sample or none, and a diagnostic line for the operator
//! where there is none.

use vstd::prelude::*;
use vstd::string::*;

verus! {

/// How long one query may take, in milliseconds.
pub const QUERY_TIMEOUT_MS: u64 = 50;

/// How the transport consolidates the replies to one query.
#[derive(Clone, Copy, Debug, PartialEq, Eq, Structural)]
pub enum Consolidation {
    /// Every reply is delivered.
    Unconsolidated,
    /// Replies are forwarded at once, but for those older than one already
    /// forwarded for the same key.
    Monotonic,
    /// Only the most recent value of each key is delivered.
    Latest,
}

/// One request to the transport.
#[derive(Clone, Debug, PartialEq, Eq)]
pub struct QueryRequest {
    pub key: String,
    pub timeout_ms: u64,
    pub consolidation: Consolidation,
}

/// The request for the latest value of `key`: only the most recent value is
/// wanted, and the answer is awaited for `QUERY_TIMEOUT_MS` at most.
pub fn latest_value_request(key: String) -> (request: QueryRequest)
    ensures
        request.key == key,
        request.timeout_ms == QUERY_TIMEOUT_MS,
        request.consolidation == Consolidation::Latest,
{
    QueryRequest { key, timeout_ms: QUERY_TIMEOUT_MS, consolidation: Consolidation::Latest }
}

/// What the transport made of one query.
#[derive(Clone, Debug, PartialEq, Eq)]
pub enum QueryOutcome {
    /// The first reply carried a sample with this payload.
    Sample(Vec<u8>),
    /// The first reply carried an error, described by the text. A query that
    /// timed out ends with such a reply.
    ReplyError(String),
    /// The query ended without a reply.
    NoReply,
    /// The query itself failed, as the text describes.
    QueryError(String),
}

/// The line that tells the operator why the query for `key` gave no sample;
/// none where it gave one.
pub open spec fn diagnostic_of(key: Seq<char>, outcome: QueryOutcome) -> Option<Seq<char>> {
    match outcome {
        QueryOutcome::Sample(_) => None,
        QueryOutcome::ReplyError(e) => Some("Error in sample for key "@ + key + ": "@ + e@),
        QueryOutcome::NoReply => Some("No sample found for key "@ + key),
        QueryOutcome::QueryError(e) => Some("Error in query for key "@ + key + ": "@ + e@),
    }
}

/// The payload that the query gave, if it gave one.
pub open spec fn sample_of(outcome: QueryOutcome) -> Option<Seq<u8>> {
    match outcome {
        QueryOutcome::Sample(payload) => Some(payload@),
        _ => None,
    }
}

/// Settles the query for `key`: the payload of the sample where the
/// transport delivered one, and otherwise no sample and the diagnostic that
/// names the key and tells a failed query, a failed reply and a missing reply
/// apart.
pub fn query_latest_value(key: &str, outcome: QueryOutcome) -> (r: (
    Option<Vec<u8>>,
    Option<String>,
))
    ensures
        r.0 is Some <==> sample_of(outcome) is Some,
        r.0 matches Some(payload) ==> Some(payload@) == sample_of(outcome),
        r.1 is Some <==> diagnostic_of(key@, outcome) is Some,
        r.1 matches Some(line) ==> Some(line@) == diagnostic_of(key@, outcome),
{
    match outcome {
        QueryOutcome::Sample(payload) => (Some(payload), None),
        QueryOutcome::ReplyError(e) => {
            let line = String::from_str("Error in sample for key ").concat(key).concat(
                ": ",
            ).concat(e.as_str());
            (None, Some(line))
        },
        QueryOutcome::NoReply => {
            let line = String::from_str("No sample found for key ").concat(key);
            (None, Some(line))
        },
        QueryOutcome::QueryError(e) => {
            let line = String::from_str("Error in query for key ").concat(key).concat(": ").concat(
                e.as_str(),
            );
            (None, Some(line))
        },
    }
}

} // verus!
