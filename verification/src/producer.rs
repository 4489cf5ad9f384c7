//! Decision logic of the producer loop: how one publish attempt's
//! outcome is classified, and when production is halted because the
//! outbound queue is nearly full. The broker calls themselves are made
//! by the loop around the library, which feeds their outcomes in here.
use vstd::prelude::*;

verus! {

/// The broker-level outcome of one publish attempt, as plain data.
#[derive(PartialEq, Eq, Structural, Clone, Copy, Debug)]
pub enum ProduceOutcome {
    /// The record was accepted into the outbound queue.
    Accepted,
    /// The outbound queue is full.
    QueueFull,
    /// The topic is unknown to the broker.
    UnknownTopic,
    /// The topic or partition is unknown to the broker.
    UnknownTopicOrPartition,
    /// The topic name is invalid.
    InvalidTopic,
    /// Any other producer error.
    OtherError,
}

/// What the send loop does next with one message.
#[derive(PartialEq, Eq, Structural, Clone, Copy, Debug)]
pub enum SentMessage {
    /// The message is on its way; record its offset.
    Sent,
    /// An unclassified error: treat the message as done.
    ShouldIgnore,
    /// The message cannot be routed and is lost.
    ShouldSkipMessage,
    /// The queue was full: flush briefly, then try the same message
    /// again.
    CanRetry,
}

/// Classifies one publish outcome. A full queue asks for a retry of the
/// same message; an unroutable topic drops the message; any other error
/// is swallowed; acceptance is success.
pub fn send_and_recover(outcome: ProduceOutcome) -> (r: SentMessage)
    ensures
        outcome is Accepted ==> r is Sent,
        outcome is QueueFull ==> r is CanRetry,
        outcome is UnknownTopic || outcome is UnknownTopicOrPartition
            || outcome is InvalidTopic ==> r is ShouldSkipMessage,
        outcome is OtherError ==> r is ShouldIgnore,
{
    match outcome {
        ProduceOutcome::Accepted => SentMessage::Sent,
        ProduceOutcome::QueueFull => SentMessage::CanRetry,
        ProduceOutcome::UnknownTopic => SentMessage::ShouldSkipMessage,
        ProduceOutcome::UnknownTopicOrPartition => SentMessage::ShouldSkipMessage,
        ProduceOutcome::InvalidTopic => SentMessage::ShouldSkipMessage,
        ProduceOutcome::OtherError => SentMessage::ShouldIgnore,
    }
}

/// Whether the send loop is finished with the message after this
/// outcome; only a full queue keeps it trying.
pub fn send_loop_done(r: SentMessage) -> (done: bool)
    ensures
        done == !(r is CanRetry),
{
    !matches!(r, SentMessage::CanRetry)
}

/// Production halts while the in-flight count is at or above 95% of the
/// nominal queue size.
pub fn should_halt(in_flight: i64, queue_size: usize) -> (r: bool)
    requires
        in_flight >= 0,
    ensures
        r == (20 * in_flight >= 19 * queue_size),
{
    let lhs: u128 = (in_flight as u128) * 20;
    let rhs: u128 = (queue_size as u128) * 19;
    lhs >= rhs
}

} // verus!
