//! Why an evaluation fails.

use crate::parser::Ref;
use crate::semantics::SpecError;
use crate::value::{SpecValue, Tag, Value};
use vstd::prelude::*;

verus! {

/// A failure of an evaluation. It ends the evaluation; what the evaluation
/// had changed before stays changed.
#[derive(Debug, PartialEq, Eq)]
pub enum Error {
    /// A variable or a comment was read or assigned that does not exist.
    UndefinedReference(Ref),
    /// A value was not of the kind that the operation needs.
    TypeMismatch { expected: Tag },
    /// Two comments have this name.
    DuplicateCommentName(String),
    /// A call has no argument at this position.
    ArityError { position: usize },
    /// A value of this kind was called.
    NotCallable { found: Tag },
    /// `chr` was given a byte that is no character by itself.
    EncodingError,
    /// A block without expressions was evaluated.
    EmptyBlock,
    /// A loop has gone round as often as a 128-bit integer can count, and
    /// its condition still holds.
    CounterOverflow,
}

impl View for Error {
    type V = SpecError;

    open spec fn view(&self) -> SpecError {
        match self {
            Error::UndefinedReference(r) => SpecError::UndefinedReference(r@),
            Error::TypeMismatch { expected } => SpecError::TypeMismatch { expected: *expected },
            Error::DuplicateCommentName(name) => SpecError::DuplicateCommentName(name@),
            Error::ArityError { position } => SpecError::ArityError { position: *position as nat },
            Error::NotCallable { found } => SpecError::NotCallable { found: *found },
            Error::EncodingError => SpecError::EncodingError,
            Error::EmptyBlock => SpecError::EmptyBlock,
            Error::CounterOverflow => SpecError::CounterOverflow,
        }
    }
}

/// The model of a value or a failure.
pub open spec fn result_view(result: Result<Value, Error>) -> Result<SpecValue, SpecError> {
    match result {
        Ok(value) => Ok(value@),
        Err(error) => Err(error@),
    }
}

} // verus!
