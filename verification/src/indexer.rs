//! Chunk records of an entry, and the course of indexing it.

use vstd::prelude::*;
use crate::chunker::{chunk_text, chunks_of};
use crate::error::RagError;
use crate::ident::fresh_id;
use crate::time::{current_time, Timestamp};

verus! {

/// One chunk of an entry's body, as it is stored.
#[derive(Debug, Clone)]
pub struct TextChunk {
    pub id: String,
    pub entry_id: String,
    pub user_id: String,
    /// Place of the chunk among the chunks of its entry, from 0.
    pub chunk_index: usize,
    pub text: String,
    pub created_at: Timestamp,
}

/// `chunks` are the chunks of `body`, in order and numbered from 0, each
/// belonging to entry `entry_id` of `user_id`, all written at one instant.
pub open spec fn is_chunk_set(
    entry_id: Seq<char>,
    user_id: Seq<char>,
    body: Seq<char>,
    chunks: Seq<TextChunk>,
) -> bool {
    &&& chunks.len() == chunks_of(body).len()
    &&& forall|i: int|
        0 <= i < chunks.len() ==> {
            &&& (#[trigger] chunks[i]).chunk_index == i
            &&& chunks[i].text@ == chunks_of(body)[i]
            &&& chunks[i].entry_id@ == entry_id
            &&& chunks[i].user_id@ == user_id
            &&& chunks[i].created_at == chunks[0].created_at
        }
}

/// Makes the chunk records of an entry from its chunks, each given as an
/// identifier and a text, and the instant of writing.
pub fn assemble_chunks(
    entry_id: &str,
    user_id: &str,
    parts: Vec<(String, String)>,
    now: Timestamp,
) -> (chunks: Vec<TextChunk>)
    ensures
        chunks@.len() == parts@.len(),
        forall|i: int|
            0 <= i < chunks@.len() ==> {
                &&& (#[trigger] chunks@[i]).chunk_index == i
                &&& chunks@[i].id == parts@[i].0
                &&& chunks@[i].text == parts@[i].1
                &&& chunks@[i].entry_id@ == entry_id@
                &&& chunks@[i].user_id@ == user_id@
                &&& chunks@[i].created_at == now
            },
{
    let mut chunks: Vec<TextChunk> = Vec::new();
    for part in it: parts.into_iter()
        invariant
            it.seq() == parts@,
            chunks@.len() == it.index(),
            forall|i: int|
                0 <= i < chunks@.len() ==> {
                    &&& (#[trigger] chunks@[i]).chunk_index == i
                    &&& chunks@[i].id == parts@[i].0
                    &&& chunks@[i].text == parts@[i].1
                    &&& chunks@[i].entry_id@ == entry_id@
                    &&& chunks@[i].user_id@ == user_id@
                    &&& chunks@[i].created_at == now
                },
    {
        let chunk_index = chunks.len();
        chunks.push(
            TextChunk {
                id: part.0,
                entry_id: String::from_str(entry_id),
                user_id: String::from_str(user_id),
                chunk_index,
                text: part.1,
                created_at: now,
            },
        );
    }
    chunks
}

/// Makes the chunk records of the entry `entry_id` of `user_id` from its
/// body, under fresh identifiers and written now.
pub fn create_text_chunks(entry_id: &str, user_id: &str, body: &str) -> (chunks: Vec<TextChunk>)
    ensures
        is_chunk_set(entry_id@, user_id@, body@, chunks@),
{
    let texts = chunk_text(body);
    let ghost views = texts.deep_view();
    let mut parts: Vec<(String, String)> = Vec::new();
    for text in it: texts.into_iter()
        invariant
            it.seq() == texts@,
            parts@.len() == it.index(),
            forall|i: int| 0 <= i < parts@.len() ==> (#[trigger] parts@[i]).1 == texts@[i],
    {
        parts.push((fresh_id(), text));
    }
    let now = current_time();
    let chunks = assemble_chunks(entry_id, user_id, parts, now);
    proof {
        assert forall|i: int| 0 <= i < chunks@.len() implies (#[trigger] chunks@[i]).text@
            == chunks_of(body@)[i] by {
            assert(views[i] == texts@[i]@);
        }
    }
    chunks
}

/// Where the indexing of one entry stands.
#[derive(Clone, Copy, Debug, PartialEq, Eq, Structural)]
pub enum IndexState {
    /// The chunks of the entry are being replaced in the store.
    Storing { total: usize },
    /// The chunks are stored; `next` of them have been sent for an
    /// embedding, and `failed` of those got none.
    Embedding { total: usize, next: usize, failed: usize },
    /// All chunks are stored, and `failed` of them have no embedding.
    Indexed { total: usize, failed: usize },
    /// The chunks could not be stored, and the entry has none.
    Failed,
}

/// What the outside reports to the indexing of one entry.
#[derive(Clone, Copy, Debug, PartialEq, Eq, Structural)]
pub enum IndexEvent {
    /// The store replaced the chunks, all of them.
    Stored,
    /// The store refused the chunks, all of them.
    StoreFailed,
    /// The embedding of the chunk asked for is stored.
    Embedded,
    /// The chunk asked for got no embedding.
    EmbeddingFailed,
}

/// What the indexing of one entry asks of the outside next.
#[derive(Clone, Copy, Debug, PartialEq, Eq, Structural)]
pub enum IndexAction {
    /// Compute and store the embedding of the chunk at `chunk_index`.
    Embed { chunk_index: usize },
    /// Nothing is left to do.
    Finish,
    /// Report that the store is unavailable.
    Abort,
    /// The event does not belong here; nothing changes.
    Ignore,
}

impl IndexState {
    /// The counts agree: no more chunks were sent than there are, and no
    /// more failed than were sent.
    pub open spec fn well_formed(self) -> bool {
        match self {
            IndexState::Embedding { total, next, failed } => failed <= next < total,
            IndexState::Indexed { total, failed } => failed <= total,
            _ => true,
        }
    }
}

/// The state and the action that follow `state` on `event`. Chunks are
/// embedded one after the other; a chunk without an embedding is counted
/// and passed over. A state whose counts do not agree is left as it is.
pub open spec fn index_step_spec(state: IndexState, event: IndexEvent) -> (IndexState, IndexAction) {
    match (state, event) {
        (IndexState::Storing { total }, IndexEvent::Stored) => if total == 0 {
            (IndexState::Indexed { total, failed: 0 }, IndexAction::Finish)
        } else {
            (
                IndexState::Embedding { total, next: 0, failed: 0 },
                IndexAction::Embed { chunk_index: 0 },
            )
        },
        (IndexState::Storing { total }, IndexEvent::StoreFailed) => (
            IndexState::Failed,
            IndexAction::Abort,
        ),
        (
            IndexState::Embedding { total, next, failed },
            IndexEvent::Embedded,
        ) => if !state.well_formed() {
            (state, IndexAction::Ignore)
        } else if next + 1 < total {
            (
                IndexState::Embedding { total, next: (next + 1) as usize, failed },
                IndexAction::Embed { chunk_index: (next + 1) as usize },
            )
        } else {
            (IndexState::Indexed { total, failed }, IndexAction::Finish)
        },
        (
            IndexState::Embedding { total, next, failed },
            IndexEvent::EmbeddingFailed,
        ) => if !state.well_formed() {
            (state, IndexAction::Ignore)
        } else if next + 1 < total {
            (
                IndexState::Embedding {
                    total,
                    next: (next + 1) as usize,
                    failed: (failed + 1) as usize,
                },
                IndexAction::Embed { chunk_index: (next + 1) as usize },
            )
        } else {
            (IndexState::Indexed { total, failed: (failed + 1) as usize }, IndexAction::Finish)
        },
        _ => (state, IndexAction::Ignore),
    }
}

/// Starts the indexing of an entry with `total` chunks: they are to be
/// stored in place of the entry's old ones, all or none.
pub fn begin_indexing(total: usize) -> (state: IndexState)
    ensures
        state == (IndexState::Storing { total }),
        state.well_formed(),
{
    IndexState::Storing { total }
}

/// Takes `event` into the indexing of one entry.
pub fn index_step(state: IndexState, event: IndexEvent) -> (next: (IndexState, IndexAction))
    ensures
        next == index_step_spec(state, event),
        state.well_formed() ==> next.0.well_formed(),
{
    match (state, event) {
        (IndexState::Storing { total }, IndexEvent::Stored) => {
            if total == 0 {
                (IndexState::Indexed { total, failed: 0 }, IndexAction::Finish)
            } else {
                (
                    IndexState::Embedding { total, next: 0, failed: 0 },
                    IndexAction::Embed { chunk_index: 0 },
                )
            }
        },
        (IndexState::Storing { total }, IndexEvent::StoreFailed) => (
            IndexState::Failed,
            IndexAction::Abort,
        ),
        (IndexState::Embedding { total, next, failed }, IndexEvent::Embedded) => {
            if !(failed <= next && next < total) {
                (state, IndexAction::Ignore)
            } else if next + 1 < total {
                (
                    IndexState::Embedding { total, next: next + 1, failed },
                    IndexAction::Embed { chunk_index: next + 1 },
                )
            } else {
                (IndexState::Indexed { total, failed }, IndexAction::Finish)
            }
        },
        (IndexState::Embedding { total, next, failed }, IndexEvent::EmbeddingFailed) => {
            if !(failed <= next && next < total) {
                (state, IndexAction::Ignore)
            } else if next + 1 < total {
                (
                    IndexState::Embedding { total, next: next + 1, failed: failed + 1 },
                    IndexAction::Embed { chunk_index: next + 1 },
                )
            } else {
                (IndexState::Indexed { total, failed: failed + 1 }, IndexAction::Finish)
            }
        },
        _ => (state, IndexAction::Ignore),
    }
}

/// What went wrong in the indexing that stands at `state`, if anything:
/// the store where the chunks were refused, the embedding where the
/// entry is indexed but some chunk has none.
pub open spec fn index_trouble(state: IndexState) -> Option<RagError> {
    match state {
        IndexState::Failed => Some(RagError::StoreUnavailable),
        IndexState::Indexed { total, failed } => if failed > 0 {
            Some(RagError::EmbeddingUnavailable)
        } else {
            None
        },
        _ => None,
    }
}

/// Tells what went wrong in the indexing that stands at `state`, if
/// anything.
pub fn index_report(state: IndexState) -> (trouble: Option<RagError>)
    ensures
        trouble == index_trouble(state),
{
    match state {
        IndexState::Failed => Some(RagError::StoreUnavailable),
        IndexState::Indexed { total, failed } => {
            if failed > 0 {
                Some(RagError::EmbeddingUnavailable)
            } else {
                None
            }
        },
        _ => None,
    }
}

/// Failed embeddings never undo the chunks: once the store has taken them,
/// no event leads to `Failed`.
pub proof fn lemma_embedding_failures_keep_chunks(state: IndexState, event: IndexEvent)
    requires
        !(state is Storing),
        !(state is Failed),
    ensures
        !(index_step_spec(state, event).0 is Failed),
        index_step_spec(state, event).1 != IndexAction::Abort,
{
}

} // verus!
