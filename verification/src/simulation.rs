//! Decisions of the background workers: where a payload is taken from, and
//! what a worker does when a step of its round fails. The workers' loops,
//! channels and transfers are the caller's; every choice they make is made
//! here.

use vstd::prelude::*;
use vstd::std_specs::convert::FromSpecImpl;
use crate::caching::{cache_key_of, normalised_key};
use crate::sources::Source;

verus! {

/// The error of a failed transfer, as `reqwest` reports it. Nothing is
/// known of what it holds.
#[verifier::external_type_specification]
#[verifier::external_body]
pub struct ExHttpError(reqwest::Error);

/// The error of a failed decode, as `serde_json` reports it. Nothing is
/// known of what it holds.
#[verifier::external_type_specification]
#[verifier::external_body]
pub struct ExJsonError(serde_json::Error);

/// The error of a failed read, as the standard library reports it. Nothing
/// is known of what it holds.
#[verifier::external_type_specification]
#[verifier::external_body]
pub struct ExIoError(std::io::Error);

/// What can go wrong in a worker's round.
#[derive(Debug)]
pub enum RetrievalError {
    /// The transfer from the remote service failed.
    HttpRequestError(reqwest::Error),
    /// The durable cache entry could not be read, or is not there.
    CacheReadError(std::io::Error),
    /// The payload is malformed.
    JsonParsingError(serde_json::Error),
    /// The receiver of the worker's output is gone.
    ChannelClosed,
}

impl From<reqwest::Error> for RetrievalError {
    fn from(error: reqwest::Error) -> (r: RetrievalError) {
        RetrievalError::HttpRequestError(error)
    }
}

impl FromSpecImpl<reqwest::Error> for RetrievalError {
    open spec fn obeys_from_spec() -> bool {
        true
    }

    open spec fn from_spec(error: reqwest::Error) -> RetrievalError {
        RetrievalError::HttpRequestError(error)
    }
}

impl From<std::io::Error> for RetrievalError {
    fn from(error: std::io::Error) -> (r: RetrievalError) {
        RetrievalError::CacheReadError(error)
    }
}

impl FromSpecImpl<std::io::Error> for RetrievalError {
    open spec fn obeys_from_spec() -> bool {
        true
    }

    open spec fn from_spec(error: std::io::Error) -> RetrievalError {
        RetrievalError::CacheReadError(error)
    }
}

impl From<serde_json::Error> for RetrievalError {
    fn from(error: serde_json::Error) -> (r: RetrievalError) {
        RetrievalError::JsonParsingError(error)
    }
}

impl FromSpecImpl<serde_json::Error> for RetrievalError {
    open spec fn obeys_from_spec() -> bool {
        true
    }

    open spec fn from_spec(error: serde_json::Error) -> RetrievalError {
        RetrievalError::JsonParsingError(error)
    }
}

/// The three background workers.
#[derive(Clone, Copy, Debug, PartialEq, Eq, Structural)]
pub enum Worker {
    /// Emits the same source on a fixed interval.
    PeriodicTrigger,
    /// Retrieves and forwards snapshots.
    Acquisition,
    /// Retrieves and forwards the detail record of a selected entity.
    DetailLookup,
}

/// What a worker does after a failure.
#[derive(Clone, Copy, Debug, PartialEq, Eq, Structural)]
pub enum Verdict {
    /// The worker ends.
    Stop,
    /// The failure is logged and the worker goes on with its next round.
    Log,
    /// The round is dropped without a word and the worker goes on.
    Drop,
}

/// Where a payload is taken from.
pub enum Retrieval {
    /// From the cache, under this key.
    Cache { key: String },
    /// From the remote service, at this address.
    Remote { url: String },
}

/// The rule for failures. A closed channel ends the periodic trigger,
/// since nothing can be acquired without it. The acquisition worker logs
/// every failure and goes on; what it has delivered before stays in effect.
/// The detail lookup makes one attempt: a failed transfer or a malformed
/// payload is dropped silently, and a closed channel is logged.
pub open spec fn verdict_for(worker: Worker, error: RetrievalError) -> Verdict {
    match worker {
        Worker::PeriodicTrigger => if error is ChannelClosed {
            Verdict::Stop
        } else {
            Verdict::Log
        },
        Worker::Acquisition => Verdict::Log,
        Worker::DetailLookup => if error is ChannelClosed {
            Verdict::Log
        } else {
            Verdict::Drop
        },
    }
}

/// Decides what `worker` does after `error`.
pub fn after_failure(worker: Worker, error: &RetrievalError) -> (r: Verdict)
    ensures
        r == verdict_for(worker, *error),
{
    let closed = match error {
        RetrievalError::ChannelClosed => true,
        _ => false,
    };
    match worker {
        Worker::PeriodicTrigger => if closed {
            Verdict::Stop
        } else {
            Verdict::Log
        },
        Worker::Acquisition => Verdict::Log,
        Worker::DetailLookup => if closed {
            Verdict::Log
        } else {
            Verdict::Drop
        },
    }
}

/// No failure ends the acquisition worker or the detail lookup: a worker
/// stops only if it is the periodic trigger and its channel is closed.
pub proof fn lemma_only_the_trigger_stops(worker: Worker, error: RetrievalError)
    ensures
        verdict_for(worker, error) == Verdict::Stop <==> worker == Worker::PeriodicTrigger
            && error is ChannelClosed,
{
}

/// Where the acquisition worker takes the payload for `source` from. If
/// the source prefers the cache, from the cache, under the key of its
/// path without credential; otherwise from the remote service, at its path
/// with the credential.
pub fn plan_retrieval(source: &Source) -> (r: Retrieval)
    ensures
        match r {
            Retrieval::Cache { key } => {
                &&& source.prefers_cache()
                &&& key@ == normalised_key(source.underlying_path())
            },
            Retrieval::Remote { url } => {
                &&& !source.prefers_cache()
                &&& url@ == source.resolved_path()
            },
        },
{
    if source.should_use_cache() {
        let path = source.get_underlying_path();
        Retrieval::Cache { key: cache_key_of(path.as_str()) }
    } else {
        Retrieval::Remote { url: source.get_path() }
    }
}

/// Where the detail lookup takes the payload for `source` from: always
/// from the remote service, at the source's path with the credential.
pub fn plan_flight_data_lookup(source: &Source) -> (r: Retrieval)
    ensures
        r matches Retrieval::Remote { url } && url@ == source.resolved_path(),
{
    Retrieval::Remote { url: source.get_path() }
}

} // verus!
