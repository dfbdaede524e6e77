//! What can go wrong in the engine.

use vstd::prelude::*;

verus! {

/// The failures that the engine tells apart.
#[derive(Clone, Copy, Debug, PartialEq, Eq, Structural)]
pub enum RagError {
    /// No such entry or owner.
    NotFound,
    /// The store did not answer.
    StoreUnavailable,
    /// The generative model is not available, or refused the prompt.
    GenerationUnavailable,
    /// The generative model did not answer in time.
    GenerationTimeout,
    /// No embedding could be had for a text. Indexing goes on without it.
    EmbeddingUnavailable,
    /// The input cannot be worked on, such as an empty question.
    MalformedInput,
}

impl RagError {
    /// The text of this failure.
    pub open spec fn message_text(self) -> Seq<char> {
        match self {
            RagError::NotFound => "not found"@,
            RagError::StoreUnavailable => "store unavailable"@,
            RagError::GenerationUnavailable => "generation unavailable"@,
            RagError::GenerationTimeout => "generation timed out"@,
            RagError::EmbeddingUnavailable => "embedding unavailable"@,
            RagError::MalformedInput => "malformed input"@,
        }
    }

    /// Renders this failure for a log line or a reply.
    pub fn message(&self) -> (text: String)
        ensures
            text@ == self.message_text(),
    {
        match self {
            RagError::NotFound => String::from_str("not found"),
            RagError::StoreUnavailable => String::from_str("store unavailable"),
            RagError::GenerationUnavailable => String::from_str("generation unavailable"),
            RagError::GenerationTimeout => String::from_str("generation timed out"),
            RagError::EmbeddingUnavailable => String::from_str("embedding unavailable"),
            RagError::MalformedInput => String::from_str("malformed input"),
        }
    }
}

/// Turns what a lookup found into a result: what is missing is
/// `NotFound`.
pub fn found_or_missing<T>(found: Option<T>) -> (result: Result<T, RagError>)
    ensures
        match found {
            Some(value) => result == Ok::<T, RagError>(value),
            None => result == Err::<T, RagError>(RagError::NotFound),
        },
{
    match found {
        Some(value) => Ok(value),
        None => Err(RagError::NotFound),
    }
}

} // verus!
