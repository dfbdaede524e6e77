use journal_rag::error::RagError;
use journal_rag::llm::build_journal_prompt;
use journal_rag::orchestrator::{
    begin_query, context_entries, query_step, QueryAction, QueryEvent, QueryState, ANSWER_TOKENS,
};
use journal_rag::rag::{RetrievedDocument, SCORE_ONE};

fn doc(id: &str) -> RetrievedDocument {
    RetrievedDocument {
        entry_id: id.to_string(),
        title: format!("title of {}", id),
        content: format!("content of {}", id),
        date: "2024-03-01".to_string(),
        score: SCORE_ONE,
        chunk_id: None,
    }
}

fn retrieved(lexical: &[&str], semantic: &[&str]) -> QueryEvent {
    QueryEvent::Retrieved {
        lexical: lexical.iter().map(|id| doc(id)).collect(),
        semantic: semantic.iter().map(|id| doc(id)).collect(),
    }
}

fn generating(lexical: &[&str], semantic: &[&str], question: &str) -> (QueryState, QueryAction) {
    let (state, _) = query_step(begin_query("u-1", question, 3), QueryEvent::Tick);
    let (state, action) = query_step(state, retrieved(lexical, semantic));
    assert!(matches!(action, QueryAction::Continue));
    assert!(matches!(state, QueryState::Fusing { .. }));
    let (state, action) = query_step(state, QueryEvent::Tick);
    assert!(matches!(action, QueryAction::Continue));
    assert!(matches!(state, QueryState::PromptReady { .. }));
    query_step(state, QueryEvent::Tick)
}

#[test]
fn query_starts_as_received() {
    match begin_query("u-1", "What now?", 4) {
        QueryState::Received { user_id, question, max_results } => {
            assert_eq!(user_id, "u-1");
            assert_eq!(question, "What now?");
            assert_eq!(max_results, 4);
        }
        other => panic!("unexpected state {:?}", other),
    }
}

#[test]
fn retrieval_asks_for_twice_the_results() {
    let (state, action) = query_step(begin_query("u-1", "What now?", 4), QueryEvent::Tick);
    assert!(matches!(state, QueryState::Retrieving { .. }));
    match action {
        QueryAction::Retrieve { user_id, query, limit } => {
            assert_eq!(user_id, "u-1");
            assert_eq!(query, "What now?");
            assert_eq!(limit, 8);
        }
        other => panic!("unexpected action {:?}", other),
    }
}

#[test]
fn retrieval_limit_stops_at_the_largest_number() {
    let (_, action) = query_step(begin_query("u", "q", usize::MAX), QueryEvent::Tick);
    assert!(matches!(action, QueryAction::Retrieve { limit: usize::MAX, .. }));
    let (_, action) = query_step(begin_query("u", "q", usize::MAX / 2 + 1), QueryEvent::Tick);
    assert!(matches!(action, QueryAction::Retrieve { limit: usize::MAX, .. }));
    let (_, action) = query_step(begin_query("u", "q", 0), QueryEvent::Tick);
    assert!(matches!(action, QueryAction::Retrieve { limit: 0, .. }));
}

#[test]
fn empty_question_is_malformed() {
    let (state, action) = query_step(begin_query("u-1", "", 4), QueryEvent::Tick);
    assert!(matches!(state, QueryState::Failed { error: RagError::MalformedInput }));
    match action {
        QueryAction::Abort { error, sources } => {
            assert_eq!(error, RagError::MalformedInput);
            assert!(sources.is_empty());
        }
        other => panic!("unexpected action {:?}", other),
    }
}

#[test]
fn failing_store_fails_the_query() {
    let (state, _) = query_step(begin_query("u-1", "q", 4), QueryEvent::Tick);
    let (state, action) = query_step(state, QueryEvent::StoreFailed);
    assert!(matches!(state, QueryState::Failed { error: RagError::StoreUnavailable }));
    match action {
        QueryAction::Abort { error, sources } => {
            assert_eq!(error, RagError::StoreUnavailable);
            assert!(sources.is_empty());
        }
        other => panic!("unexpected action {:?}", other),
    }
}

#[test]
fn prompt_is_laid_out_over_the_fused_sources() {
    let (state, action) = generating(&["E1", "E2", "E3"], &["E2", "E4"], "What happened?");
    match &state {
        QueryState::Generating { user_id, question, sources } => {
            assert_eq!(user_id, "u-1");
            assert_eq!(question, "What happened?");
            let ids: Vec<&str> = sources.iter().map(|d| d.entry_id.as_str()).collect();
            assert_eq!(ids, vec!["E1", "E2", "E3"]);
            let scores: Vec<i64> = sources.iter().map(|d| d.score).collect();
            assert_eq!(scores, vec![1_000_000, 833_334, 666_667]);
        }
        other => panic!("unexpected state {:?}", other),
    }
    match action {
        QueryAction::Generate { user_id, user_message, prompt, max_tokens } => {
            assert_eq!(user_id, "u-1");
            assert_eq!(user_message, "What happened?");
            assert_eq!(max_tokens, ANSWER_TOKENS);
            assert_eq!(max_tokens, 512);
            let context = vec![
                ("2024-03-01".to_string(), "title of E1".to_string(), "content of E1".to_string()),
                ("2024-03-01".to_string(), "title of E2".to_string(), "content of E2".to_string()),
                ("2024-03-01".to_string(), "title of E3".to_string(), "content of E3".to_string()),
            ];
            assert_eq!(prompt, build_journal_prompt("What happened?", &context));
        }
        other => panic!("unexpected action {:?}", other),
    }
}

#[test]
fn answer_goes_out_with_sources_and_question() {
    let (state, _) = generating(&["E1"], &["E2"], "What happened?");
    let (state, action) = query_step(state, QueryEvent::Generated { answer: "This.".to_string() });
    assert!(matches!(state, QueryState::Completed));
    match action {
        QueryAction::Respond { user_id, response } => {
            assert_eq!(user_id, "u-1");
            assert_eq!(response.answer, "This.");
            assert_eq!(response.query, "What happened?");
            let ids: Vec<&str> = response.sources.iter().map(|d| d.entry_id.as_str()).collect();
            assert_eq!(ids, vec!["E1", "E2"]);
            assert!(response.sources[0].score >= response.sources[1].score);
        }
        other => panic!("unexpected action {:?}", other),
    }
}

#[test]
fn question_without_a_match_is_still_answered() {
    let (state, action) = generating(&[], &[], "Anything on whales?");
    match action {
        QueryAction::Generate { prompt, .. } => {
            assert_eq!(prompt, build_journal_prompt("Anything on whales?", &[]));
        }
        other => panic!("unexpected action {:?}", other),
    }
    let (state, action) =
        query_step(state, QueryEvent::Generated { answer: "Nothing yet.".to_string() });
    assert!(matches!(state, QueryState::Completed));
    match action {
        QueryAction::Respond { response, .. } => {
            assert_eq!(response.answer, "Nothing yet.");
            assert!(response.sources.is_empty());
            assert_eq!(response.query, "Anything on whales?");
        }
        other => panic!("unexpected action {:?}", other),
    }
}

#[test]
fn failing_model_leaves_the_sources_with_the_caller() {
    let (state, _) = generating(&["E1", "E2"], &[], "q");
    let (state, action) = query_step(state, QueryEvent::GenerationFailed { timed_out: false });
    assert!(matches!(state, QueryState::Failed { error: RagError::GenerationUnavailable }));
    match action {
        QueryAction::Abort { error, sources } => {
            assert_eq!(error, RagError::GenerationUnavailable);
            let ids: Vec<&str> = sources.iter().map(|d| d.entry_id.as_str()).collect();
            assert_eq!(ids, vec!["E1", "E2"]);
        }
        other => panic!("unexpected action {:?}", other),
    }
}

#[test]
fn model_out_of_time_is_told_apart() {
    let (state, _) = generating(&["E1"], &[], "q");
    let (state, action) = query_step(state, QueryEvent::GenerationFailed { timed_out: true });
    assert!(matches!(state, QueryState::Failed { error: RagError::GenerationTimeout }));
    assert!(matches!(action, QueryAction::Abort { error: RagError::GenerationTimeout, .. }));
}

#[test]
fn stray_query_events_change_nothing() {
    let (state, action) = query_step(begin_query("u-1", "q", 2), QueryEvent::StoreFailed);
    assert!(matches!(action, QueryAction::Ignore));
    assert!(matches!(state, QueryState::Received { .. }));
    let (state, action) =
        query_step(QueryState::Completed, QueryEvent::Generated { answer: String::new() });
    assert!(matches!(action, QueryAction::Ignore));
    assert!(matches!(state, QueryState::Completed));
    let (state, _) = query_step(begin_query("u-1", "q", 2), QueryEvent::Tick);
    let (state, action) = query_step(state, QueryEvent::Tick);
    assert!(matches!(action, QueryAction::Ignore));
    assert!(matches!(state, QueryState::Retrieving { .. }));
}

#[test]
fn context_lists_date_title_and_content() {
    let context = context_entries(&vec![doc("E1"), doc("E2")]);
    assert_eq!(
        context,
        vec![
            ("2024-03-01".to_string(), "title of E1".to_string(), "content of E1".to_string()),
            ("2024-03-01".to_string(), "title of E2".to_string(), "content of E2".to_string()),
        ]
    );
}
