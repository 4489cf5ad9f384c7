use kafka_json_processor::consumer::message_id;
use kafka_json_processor::pipeline::PipelineChannel;
use kafka_json_processor::producer::{send_and_recover, send_loop_done, should_halt,
    ProduceOutcome, SentMessage};
use kafka_json_processor::PendingMessage;

#[test]
fn message_ids_are_stable_and_explicit() {
    assert_eq!(message_id("events", 3, 17, 1234), "events:3@17(1234)");
    assert_eq!(message_id("events", 0, -1, 0), "events:0@-1(0)");
}

#[test]
fn a_bounded_channel_blocks_at_capacity() {
    let mut channel = PipelineChannel::new(2);
    assert!(channel.try_send(PendingMessage::Received));
    assert!(channel.try_send(PendingMessage::Received));
    // The channel is full: the consumer loop would now block, with
    // capacity tokens queued plus the one message it is handling.
    assert!(!channel.try_send(PendingMessage::Received));
    assert_eq!(channel.len(), 2);
    assert!(matches!(channel.try_recv(), Some(PendingMessage::Received)));
    assert!(channel.try_send(PendingMessage::Received));
    assert!(!channel.try_send(PendingMessage::Received));
}

#[test]
fn queue_full_is_retried_until_the_broker_accepts() {
    let outcomes = [
        ProduceOutcome::QueueFull,
        ProduceOutcome::QueueFull,
        ProduceOutcome::Accepted,
    ];
    let mut attempts = 0;
    let mut last = SentMessage::CanRetry;
    for outcome in outcomes {
        attempts += 1;
        last = send_and_recover(outcome);
        if send_loop_done(last) {
            break;
        }
    }
    // Exactly one record is ultimately emitted, after two retries.
    assert_eq!(attempts, 3);
    assert!(matches!(last, SentMessage::Sent));
}

#[test]
fn unroutable_topics_drop_the_message() {
    assert!(matches!(
        send_and_recover(ProduceOutcome::UnknownTopic),
        SentMessage::ShouldSkipMessage
    ));
    assert!(matches!(
        send_and_recover(ProduceOutcome::UnknownTopicOrPartition),
        SentMessage::ShouldSkipMessage
    ));
    assert!(matches!(
        send_and_recover(ProduceOutcome::InvalidTopic),
        SentMessage::ShouldSkipMessage
    ));
    assert!(matches!(
        send_and_recover(ProduceOutcome::OtherError),
        SentMessage::ShouldIgnore
    ));
}

#[test]
fn production_halts_at_ninety_five_percent() {
    assert!(!should_halt(94, 100));
    assert!(should_halt(95, 100));
    assert!(should_halt(100, 100));
    assert!(!should_halt(94_999, 100_000));
    assert!(should_halt(95_000, 100_000));
    assert!(should_halt(0, 0));
}
