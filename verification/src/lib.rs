//! Hybrid retrieval and prompt assembly for a personal journal assistant.
//!
//! The crate holds the rules of the engine: how entry text is cut into
//! chunks, how two ranked result lists are fused, how a prompt is laid out
//! and how a query moves from one phase to the next. Storage and the
//! generative model stay with the caller.

pub mod canned;
pub mod chunker;
pub mod db;
pub mod error;
pub mod gate;
pub mod ident;
pub mod indexer;
pub mod json;
pub mod keywords;
pub mod llm;
pub mod orchestrator;
pub mod overlap;
pub mod rag;
pub mod retrieval;
pub mod scan;
pub mod text;
pub mod time;

use vstd::prelude::*;

verus! {

/// Greets `name`.
pub fn greet(name: &str) -> (greeting: String)
    ensures
        greeting@ == "Hello, "@ + name@ + "! You've been greeted from Rust!"@,
{
    let mut greeting = String::from_str("Hello, ");
    greeting.append(name);
    greeting.append("! You've been greeted from Rust!");
    greeting
}

} // verus!
