//! Error taxonomy: every failure mode surfaced to callers of the core.

use vstd::prelude::*;

verus! {

/// Why a piece of raw task text was rejected before entering the store.
#[derive(Clone, Copy, Debug, PartialEq, Eq, Structural)]
pub enum ValidationError {
    /// The text is empty once surrounding whitespace is removed.
    EmptyInput,
    /// The raw text, before normalization, exceeds the configured maximum length.
    TooLong,
    /// The raw text contains a null byte.
    InvalidCharacters,
}

/// Every failure mode of the core's command surface.
#[derive(Clone, Copy, Debug, PartialEq, Eq, Structural)]
pub enum TodoError {
    /// The caller supplied text that failed validation; state is unchanged.
    InvalidInput(ValidationError),
    /// The operation referenced an id absent from the collection; state is unchanged.
    NotFound,
    /// A durable write or read failed; in-memory state may already have advanced.
    IOFailure,
    /// The durable file was present but unparseable.
    DecodeFailure,
    /// The exclusive-access primitive guarding the state is unusable.
    LockFailure,
}

impl ValidationError {
    /// The description `message` returns, as a spec-level sequence.
    pub open spec fn message_spec(&self) -> Seq<char> {
        match self {
            ValidationError::EmptyInput => "task text cannot be empty"@,
            ValidationError::TooLong => "task text exceeds the maximum length"@,
            ValidationError::InvalidCharacters => "task text contains invalid characters"@,
        }
    }

    /// A short human-readable description of the rejection.
    pub fn message(&self) -> (r: &'static str)
        ensures
            *self is EmptyInput ==> r@ == "task text cannot be empty"@,
            *self is TooLong ==> r@ == "task text exceeds the maximum length"@,
            *self is InvalidCharacters ==> r@ == "task text contains invalid characters"@,
    {
        match self {
            ValidationError::EmptyInput => "task text cannot be empty",
            ValidationError::TooLong => "task text exceeds the maximum length",
            ValidationError::InvalidCharacters => "task text contains invalid characters",
        }
    }
}

impl TodoError {
    /// A short human-readable description of the failure.
    pub fn message(&self) -> (r: &'static str)
        ensures
            *self is InvalidInput ==> r@ == self->InvalidInput_0.message_spec(),
            *self is NotFound ==> r@ == "no task has the given id"@,
            *self is IOFailure ==> r@ == "durable storage operation failed"@,
            *self is DecodeFailure ==> r@ == "durable file is present but unparseable"@,
            *self is LockFailure ==> r@ == "state lock is unusable"@,
    {
        match self {
            TodoError::InvalidInput(v) => v.message(),
            TodoError::NotFound => "no task has the given id",
            TodoError::IOFailure => "durable storage operation failed",
            TodoError::DecodeFailure => "durable file is present but unparseable",
            TodoError::LockFailure => "state lock is unusable",
        }
    }
}

} // verus!
