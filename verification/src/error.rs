//! Error kinds recognised by the processing core.
use vstd::prelude::*;
use crate::processor::ObjectKey;

verus! {

/// Error raised by a transform step or by a path operation on the object tree.
#[derive(Debug)]
pub struct ProcessingError {
    pub inner: ErrorKind,
}

impl ProcessingError {
    pub fn new(inner: ErrorKind) -> (r: ProcessingError)
        ensures
            r.inner == inner,
    {
        ProcessingError { inner }
    }
}

#[derive(Debug)]
pub enum ErrorKind {
    /// A path is incompatible with the existing object tree: a segment
    /// demands one container kind where another stands, or a container
    /// would be overwritten by a value of a different shape.
    InvalidObjectTree { invalid_key: Vec<ObjectKey>, reason: String },
    /// A path-based operation received an empty path.
    EmptyKey,
    /// Wrapped external failure, carried as its description.
    OtherError { description: String },
    /// The input lacked a field a step wanted to read; low severity,
    /// the step is skipped and the pipeline continues.
    FieldNotFound { key: Vec<ObjectKey> },
    /// A step declined to run; low severity.
    ProcessorSkipped { reason: String },
}

impl ErrorKind {
    /// Low-severity errors are logged at debug level and never abort a
    /// message: a missing field or a voluntarily skipped step.
    pub fn is_low_severity(&self) -> (r: bool)
        ensures
            r == (self is FieldNotFound || self is ProcessorSkipped),
    {
        match self {
            ErrorKind::FieldNotFound { .. } => true,
            ErrorKind::ProcessorSkipped { .. } => true,
            _ => false,
        }
    }
}

} // verus!
