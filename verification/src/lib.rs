//! Core of a stream-processing worker for a partitioned, offset-based message
//! broker. Messages are parsed as JSON, run through an ordered pipeline of
//! transform steps that build an output document, serialized and published.
//!
//! This crate holds the verified logic: the JSON object tree with path-based
//! access, the tolerant pretty-printers, the offset journal, configuration
//! parsing, and the decision logic of the consumer and producer loops. The
//! surrounding broker and file plumbing lives outside the library and calls
//! into it with plain values.
use vstd::prelude::*;

pub mod config;
pub mod consumer;
pub mod error;
pub mod formatters;
pub mod generator;
pub mod journal;
pub mod pipeline;
pub mod plugin;
pub mod producer;
pub mod processor;
pub mod serialize;
pub mod strutil;
pub mod xml;

verus! {

/// The broker position of one consumed message.
#[derive(Debug)]
pub struct MessageOffset {
    pub topic: String,
    pub partition: i32,
    pub offset: i64,
}

/// One stream of the worker: messages of the source topic run through
/// the ordered transform steps and are published to the target topic.
#[derive(Clone)]
pub struct Stream<S> {
    pub source_topic: String,
    pub target_topic: String,
    pub processors: Vec<S>,
}

/// What travels over the pipeline channel from the consumer side to the
/// producer loop. A `Received` token occupies one slot per in-flight
/// message for backpressure; only `Processed` events carry work.
pub enum PendingMessage {
    Received,
    Processed {
        id: String,
        topic: String,
        offset: MessageOffset,
        message: crate::processor::SerializedOutputMessage,
    },
}

} // verus!
