use journal_rag::chunker::chunk_text;
use journal_rag::error::{found_or_missing, RagError};
use journal_rag::indexer::{
    assemble_chunks, begin_indexing, create_text_chunks, index_report, index_step, IndexAction,
    IndexEvent, IndexState,
};
use journal_rag::time::Timestamp;

#[test]
fn chunk_records_are_numbered_from_zero() {
    let chunks = assemble_chunks(
        "e-1",
        "u-1",
        vec![
            ("id-a".to_string(), "first".to_string()),
            ("id-b".to_string(), "second".to_string()),
        ],
        Timestamp { secs: 10, nanos: 20 },
    );
    assert_eq!(chunks.len(), 2);
    assert_eq!(chunks[0].id, "id-a");
    assert_eq!(chunks[0].chunk_index, 0);
    assert_eq!(chunks[0].text, "first");
    assert_eq!(chunks[1].id, "id-b");
    assert_eq!(chunks[1].chunk_index, 1);
    assert_eq!(chunks[1].text, "second");
    for chunk in &chunks {
        assert_eq!(chunk.entry_id, "e-1");
        assert_eq!(chunk.user_id, "u-1");
        assert_eq!(chunk.created_at, Timestamp { secs: 10, nanos: 20 });
    }
}

#[test]
fn body_is_cut_into_chunk_records() {
    let paragraph = |letter: char| -> String { std::iter::repeat(letter).take(300).collect() };
    let body = format!("{}\n\n{}\n\n{}", paragraph('a'), paragraph('b'), paragraph('c'));
    let chunks = create_text_chunks("e-7", "u-3", &body);
    let texts: Vec<String> = chunks.iter().map(|c| c.text.clone()).collect();
    assert_eq!(texts, chunk_text(&body));
    assert_eq!(chunks.len(), 3);
    for (i, chunk) in chunks.iter().enumerate() {
        assert_eq!(chunk.chunk_index, i);
        assert_eq!(chunk.entry_id, "e-7");
        assert_eq!(chunk.user_id, "u-3");
        assert_eq!(chunk.id.len(), 36);
        assert_eq!(chunk.created_at, chunks[0].created_at);
    }
    assert_ne!(chunks[0].id, chunks[1].id);
    assert_ne!(chunks[1].id, chunks[2].id);
}

#[test]
fn empty_body_has_no_chunk_records() {
    assert!(create_text_chunks("e-7", "u-3", "").is_empty());
}

#[test]
fn entry_without_chunks_is_indexed_once_stored() {
    let state = begin_indexing(0);
    assert_eq!(state, IndexState::Storing { total: 0 });
    assert_eq!(
        index_step(state, IndexEvent::Stored),
        (IndexState::Indexed { total: 0, failed: 0 }, IndexAction::Finish)
    );
}

#[test]
fn chunks_are_embedded_one_after_the_other() {
    let (state, action) = index_step(begin_indexing(3), IndexEvent::Stored);
    assert_eq!(state, IndexState::Embedding { total: 3, next: 0, failed: 0 });
    assert_eq!(action, IndexAction::Embed { chunk_index: 0 });
    let (state, action) = index_step(state, IndexEvent::Embedded);
    assert_eq!(state, IndexState::Embedding { total: 3, next: 1, failed: 0 });
    assert_eq!(action, IndexAction::Embed { chunk_index: 1 });
    let (state, action) = index_step(state, IndexEvent::Embedded);
    assert_eq!(action, IndexAction::Embed { chunk_index: 2 });
    let (state, action) = index_step(state, IndexEvent::Embedded);
    assert_eq!(state, IndexState::Indexed { total: 3, failed: 0 });
    assert_eq!(action, IndexAction::Finish);
}

#[test]
fn failed_embeddings_are_counted_and_passed_over() {
    let (state, _) = index_step(begin_indexing(2), IndexEvent::Stored);
    let (state, action) = index_step(state, IndexEvent::EmbeddingFailed);
    assert_eq!(state, IndexState::Embedding { total: 2, next: 1, failed: 1 });
    assert_eq!(action, IndexAction::Embed { chunk_index: 1 });
    let (state, action) = index_step(state, IndexEvent::EmbeddingFailed);
    assert_eq!(state, IndexState::Indexed { total: 2, failed: 2 });
    assert_eq!(action, IndexAction::Finish);
}

#[test]
fn refused_chunks_fail_the_indexing() {
    assert_eq!(
        index_step(begin_indexing(4), IndexEvent::StoreFailed),
        (IndexState::Failed, IndexAction::Abort)
    );
}

#[test]
fn stray_index_events_change_nothing() {
    let storing = begin_indexing(2);
    assert_eq!(index_step(storing, IndexEvent::Embedded), (storing, IndexAction::Ignore));
    let embedding = IndexState::Embedding { total: 2, next: 0, failed: 0 };
    assert_eq!(index_step(embedding, IndexEvent::Stored), (embedding, IndexAction::Ignore));
    assert_eq!(index_step(embedding, IndexEvent::StoreFailed), (embedding, IndexAction::Ignore));
    let indexed = IndexState::Indexed { total: 2, failed: 1 };
    assert_eq!(index_step(indexed, IndexEvent::EmbeddingFailed), (indexed, IndexAction::Ignore));
    assert_eq!(
        index_step(IndexState::Failed, IndexEvent::Stored),
        (IndexState::Failed, IndexAction::Ignore)
    );
}

#[test]
fn state_with_counts_out_of_step_is_left_alone() {
    let odd = IndexState::Embedding { total: 2, next: 5, failed: 0 };
    assert_eq!(index_step(odd, IndexEvent::Embedded), (odd, IndexAction::Ignore));
    let odd = IndexState::Embedding { total: 9, next: 1, failed: 4 };
    assert_eq!(index_step(odd, IndexEvent::EmbeddingFailed), (odd, IndexAction::Ignore));
}

#[test]
fn chunks_without_embedding_are_reported() {
    assert_eq!(index_report(IndexState::Indexed { total: 3, failed: 0 }), None);
    assert_eq!(
        index_report(IndexState::Indexed { total: 3, failed: 1 }),
        Some(RagError::EmbeddingUnavailable)
    );
    assert_eq!(index_report(IndexState::Failed), Some(RagError::StoreUnavailable));
    assert_eq!(index_report(IndexState::Storing { total: 3 }), None);
    assert_eq!(index_report(IndexState::Embedding { total: 3, next: 1, failed: 1 }), None);
}

#[test]
fn what_is_missing_is_not_found() {
    assert_eq!(found_or_missing(Some(7)), Ok(7));
    assert_eq!(found_or_missing::<u8>(None), Err(RagError::NotFound));
}
