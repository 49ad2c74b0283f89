//! Error types for the pub/sub hub and the pipeline stages.

use vstd::prelude::*;
use vstd::string::*;

verus! {

/// A failed join of a spawned task (`tokio::task::JoinError`), carried as is.
#[verifier::external_type_specification]
#[verifier::external_body]
pub struct ExJoinError(tokio::task::JoinError);

/// Failures when publishing to a topic.
#[derive(Debug)]
pub enum PublishError {
    /// No active receivers: a broadcast needs at least one live subscriber.
    NoReceivers {
        /// Topic key used for the publish.
        topic: String,
        /// Human-readable detail.
        reason: String,
    },
}

/// Failures of a pipeline stage.
#[derive(Debug)]
pub enum PipelineError {
    /// A downstream stopped accepting items while upstream was still producing.
    ChannelClosed,
    /// A spawned task panicked or was cancelled while being awaited.
    TaskJoin(tokio::task::JoinError),
}

/// A failed join of a stage task.
impl From<tokio::task::JoinError> for PipelineError {
    fn from(v: tokio::task::JoinError) -> (r: Self) {
        PipelineError::TaskJoin(v)
    }
}

impl vstd::std_specs::convert::FromSpecImpl<tokio::task::JoinError> for PipelineError {
    open spec fn obeys_from_spec() -> bool {
        true
    }

    open spec fn from_spec(v: tokio::task::JoinError) -> Self {
        PipelineError::TaskJoin(v)
    }
}

/// Failures of a receive on a broadcast subscription.
#[derive(Debug, Clone, Copy, PartialEq, Eq, Structural)]
pub enum RecvError {
    /// Every sender of the topic is gone: nothing more will arrive.
    Closed,
    /// The subscriber fell behind the lag buffer and missed this many messages.
    Lagged(u64),
}

/// The text that a `NoReceivers` error gives as its reason.
pub open spec fn no_receivers_reason() -> Seq<char> {
    "no active broadcast receivers for this topic"@
}

/// The `NoReceivers` error for `topic`.
pub fn no_receivers(topic: &str) -> (e: PublishError)
    ensures
        e matches PublishError::NoReceivers { topic: t, reason } && t@ == topic@ && reason@
            == no_receivers_reason(),
{
    PublishError::NoReceivers {
        topic: String::from_str(topic),
        reason: String::from_str("no active broadcast receivers for this topic"),
    }
}

} // verus!
