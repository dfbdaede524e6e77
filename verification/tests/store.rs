use journal_rag::db::{
    after_primary, assemble_chat_message, assemble_entry, chat_message_at, chronological,
    entry_to_row, phrase_query, prepare_chat_message, prepare_entry, row_limit, row_to_entry,
    search_plan, update_statement, update_statement_now, ChatMessage, CreateEntryRequest, EntryRow,
    JournalEntry, SearchRequest, SearchStep, UpdateEntryRequest, DEFAULT_LIMIT,
};
use journal_rag::error::RagError;
use journal_rag::time::Timestamp;

const MAY_15: Timestamp = Timestamp { secs: 1_431_648_000, nanos: 0 };

fn update(id: &str) -> UpdateEntryRequest {
    UpdateEntryRequest { id: id.to_string(), title: None, body: None, mood: None, tags: None }
}

fn row() -> EntryRow {
    EntryRow {
        id: "e-1".to_string(),
        user_id: "u-1".to_string(),
        title: "A day".to_string(),
        body: "It rained.".to_string(),
        created_at: "2015-05-15T00:00:00+00:00".to_string(),
        updated_at: "2015-05-15T02:00:00.250+02:00".to_string(),
        mood: Some("calm".to_string()),
        tags: Some("[\"rain\",\"home\"]".to_string()),
    }
}

#[test]
fn update_without_fields_sets_the_time_only() {
    let statement = update_statement(&update("e-1"), MAY_15).unwrap();
    assert_eq!(statement.sql, "UPDATE entries SET updated_at = ? WHERE id = ?");
    assert_eq!(statement.binds, vec!["2015-05-15T00:00:00+00:00", "e-1"]);
}

#[test]
fn update_names_every_field_that_is_present() {
    let request = UpdateEntryRequest {
        id: "e-2".to_string(),
        title: Some("New title".to_string()),
        body: Some("New body".to_string()),
        mood: Some("glad".to_string()),
        tags: Some(vec!["a".to_string(), "b \"c\"".to_string()]),
    };
    let statement = update_statement(&request, MAY_15).unwrap();
    assert_eq!(
        statement.sql,
        "UPDATE entries SET updated_at = ?, title = ?, body = ?, mood = ?, tags = ? WHERE id = ?"
    );
    assert_eq!(
        statement.binds,
        vec![
            "2015-05-15T00:00:00+00:00",
            "New title",
            "New body",
            "glad",
            "[\"a\",\"b \\\"c\\\"\"]",
            "e-2"
        ]
    );
}

#[test]
fn update_keeps_the_order_of_the_fields() {
    let mut request = update("e-3");
    request.body = Some("text".to_string());
    request.tags = Some(Vec::new());
    let statement =
        update_statement(&request, Timestamp { secs: 1_431_648_000, nanos: 500_000_000 }).unwrap();
    assert_eq!(statement.sql, "UPDATE entries SET updated_at = ?, body = ?, tags = ? WHERE id = ?");
    assert_eq!(statement.binds, vec!["2015-05-15T00:00:00.500+00:00", "text", "[]", "e-3"]);
}

#[test]
fn update_at_an_instant_out_of_range_is_malformed() {
    let far = Timestamp { secs: i64::MAX, nanos: 0 };
    assert_eq!(update_statement(&update("e-1"), far).unwrap_err(), RagError::MalformedInput);
    let odd = Timestamp { secs: 0, nanos: 2_000_000_000 };
    assert_eq!(update_statement(&update("e-1"), odd).unwrap_err(), RagError::MalformedInput);
}

#[test]
fn update_now_binds_a_present_time() {
    let mut request = update("e-4");
    request.title = Some("t".to_string());
    let statement = update_statement_now(&request).unwrap();
    assert_eq!(statement.sql, "UPDATE entries SET updated_at = ?, title = ? WHERE id = ?");
    assert_eq!(statement.binds.len(), 3);
    assert!(statement.binds[0].starts_with("20"));
    assert_eq!(statement.binds[1], "t");
    assert_eq!(statement.binds[2], "e-4");
}

#[test]
fn row_is_read_into_an_entry() {
    let entry = row_to_entry(row()).unwrap();
    assert_eq!(entry.id, "e-1");
    assert_eq!(entry.user_id, "u-1");
    assert_eq!(entry.title, "A day");
    assert_eq!(entry.body, "It rained.");
    assert_eq!(entry.created_at, MAY_15);
    assert_eq!(entry.updated_at, Timestamp { secs: 1_431_648_000, nanos: 250_000_000 });
    assert_eq!(entry.mood, Some("calm".to_string()));
    assert_eq!(entry.tags, Some(vec!["rain".to_string(), "home".to_string()]));
}

#[test]
fn row_with_an_unreadable_instant_is_malformed() {
    let mut bad = row();
    bad.created_at = "yesterday".to_string();
    assert_eq!(row_to_entry(bad).unwrap_err(), RagError::MalformedInput);
    let mut bad = row();
    bad.updated_at = "2015-05-15".to_string();
    assert_eq!(row_to_entry(bad).unwrap_err(), RagError::MalformedInput);
}

#[test]
fn unreadable_tags_are_left_out() {
    let mut odd = row();
    odd.tags = Some("rain, home".to_string());
    assert_eq!(row_to_entry(odd).unwrap().tags, None);
    let mut odd = row();
    odd.tags = Some("[1, 2]".to_string());
    assert_eq!(row_to_entry(odd).unwrap().tags, None);
    let mut none = row();
    none.tags = None;
    assert_eq!(row_to_entry(none).unwrap().tags, None);
}

#[test]
fn entry_is_written_as_a_row_and_read_back() {
    let entry = JournalEntry {
        id: "e-9".to_string(),
        user_id: "u-2".to_string(),
        title: "Title".to_string(),
        body: "Body".to_string(),
        created_at: MAY_15,
        updated_at: Timestamp { secs: 1_431_648_060, nanos: 7 },
        mood: None,
        tags: Some(vec!["x".to_string()]),
    };
    let row = entry_to_row(entry.clone()).unwrap();
    assert_eq!(row.id, "e-9");
    assert_eq!(row.user_id, "u-2");
    assert_eq!(row.title, "Title");
    assert_eq!(row.body, "Body");
    assert_eq!(row.created_at, "2015-05-15T00:00:00+00:00");
    assert_eq!(row.updated_at, "2015-05-15T00:01:00.000000007+00:00");
    assert_eq!(row.mood, None);
    assert_eq!(row.tags, Some("[\"x\"]".to_string()));
    let back = row_to_entry(row).unwrap();
    assert_eq!(back.created_at, entry.created_at);
    assert_eq!(back.updated_at, entry.updated_at);
    assert_eq!(back.tags, entry.tags);
}

#[test]
fn entry_at_an_instant_out_of_range_is_not_written() {
    let entry = JournalEntry {
        id: "e-9".to_string(),
        user_id: "u-2".to_string(),
        title: "Title".to_string(),
        body: "Body".to_string(),
        created_at: Timestamp { secs: i64::MIN, nanos: 0 },
        updated_at: MAY_15,
        mood: None,
        tags: None,
    };
    assert_eq!(entry_to_row(entry).unwrap_err(), RagError::MalformedInput);
}

#[test]
fn new_entry_takes_the_request_over() {
    let request = CreateEntryRequest {
        title: "T".to_string(),
        body: "B".to_string(),
        mood: Some("m".to_string()),
        tags: Some(vec!["one".to_string()]),
    };
    let entry = assemble_entry("id-1".to_string(), "u-1", request, MAY_15);
    assert_eq!(entry.id, "id-1");
    assert_eq!(entry.user_id, "u-1");
    assert_eq!(entry.title, "T");
    assert_eq!(entry.body, "B");
    assert_eq!(entry.mood, Some("m".to_string()));
    assert_eq!(entry.tags, Some(vec!["one".to_string()]));
    assert_eq!(entry.created_at, MAY_15);
    assert_eq!(entry.updated_at, MAY_15);
}

#[test]
fn prepared_entries_get_ids_of_their_own() {
    let request =
        CreateEntryRequest { title: "T".to_string(), body: "B".to_string(), mood: None, tags: None };
    let first = prepare_entry("u-1", request.clone());
    let second = prepare_entry("u-1", request);
    assert_eq!(first.id.len(), 36);
    assert_ne!(first.id, second.id);
    assert_eq!(first.user_id, "u-1");
    assert_eq!(first.title, "T");
    assert_eq!(first.body, "B");
    assert_eq!(first.created_at, first.updated_at);
    assert!(first.created_at.secs > 1_600_000_000);
}

#[test]
fn search_is_laid_out_as_phrase_and_as_pattern() {
    let plan = search_plan(&SearchRequest { query: "rainy day".to_string(), limit: Some(7) });
    assert_eq!(plan.phrase_query, "\"rainy day\"");
    assert_eq!(plan.like_query, "%rainy day%");
    assert_eq!(plan.limit, 7);
    let plan = search_plan(&SearchRequest { query: "say \"hi\"".to_string(), limit: None });
    assert_eq!(plan.phrase_query, "\"say \"\"hi\"\"\"");
    assert_eq!(plan.like_query, "%say \"hi\"%");
    assert_eq!(plan.limit, DEFAULT_LIMIT);
}

#[test]
fn limit_defaults_to_fifty() {
    assert_eq!(row_limit(None), 50);
    assert_eq!(row_limit(Some(3)), 3);
    assert_eq!(row_limit(Some(-1)), -1);
}

#[test]
fn substring_match_runs_only_when_the_index_finds_nothing() {
    assert_eq!(after_primary::<u8>(&Ok(Vec::new())), SearchStep::Fallback);
    assert_eq!(after_primary(&Ok(vec![1u8])), SearchStep::UsePrimary);
    assert_eq!(after_primary(&Ok(vec![1u8, 2, 3])), SearchStep::UsePrimary);
}

#[test]
fn failing_store_is_no_empty_result() {
    assert_eq!(after_primary::<u8>(&Err(RagError::StoreUnavailable)), SearchStep::Fail);
    assert_eq!(after_primary::<u8>(&Err(RagError::NotFound)), SearchStep::Fail);
}

#[test]
fn double_quotes_are_written_twice_in_a_phrase() {
    assert_eq!(phrase_query(""), "\"\"");
    assert_eq!(phrase_query("plain words"), "\"plain words\"");
    assert_eq!(phrase_query("\""), "\"\"\"\"");
    assert_eq!(phrase_query("a\"b\"\"c"), "\"a\"\"b\"\"\"\"c\"");
    assert_eq!(phrase_query("ends with \""), "\"ends with \"\"\"");
}

#[test]
fn chat_message_is_assembled_from_its_parts() {
    let message = assemble_chat_message(
        "m-1".to_string(),
        "u-1",
        "hello",
        true,
        "2015-05-15T00:00:00+00:00".to_string(),
    );
    assert_eq!(message.id, "m-1");
    assert_eq!(message.user_id, "u-1");
    assert_eq!(message.content, "hello");
    assert!(message.is_user);
    assert_eq!(message.created_at, "2015-05-15T00:00:00+00:00");
}

#[test]
fn prepared_chat_message_carries_a_readable_time() {
    let message = prepare_chat_message("u-1", "an answer", false).unwrap();
    assert_eq!(message.id.len(), 36);
    assert_eq!(message.user_id, "u-1");
    assert_eq!(message.content, "an answer");
    assert!(!message.is_user);
    let mut probe = row();
    probe.created_at = message.created_at.clone();
    assert!(row_to_entry(probe).unwrap().created_at.secs > 1_600_000_000);
}

#[test]
fn history_is_turned_into_writing_order() {
    let message = |id: &str| ChatMessage {
        id: id.to_string(),
        user_id: "u".to_string(),
        content: String::new(),
        is_user: true,
        created_at: String::new(),
    };
    let ordered = chronological(vec![message("c"), message("b"), message("a")]);
    let ids: Vec<&str> = ordered.iter().map(|m| m.id.as_str()).collect();
    assert_eq!(ids, vec!["a", "b", "c"]);
    assert!(chronological(Vec::new()).is_empty());
}

#[test]
fn failures_have_their_texts() {
    assert_eq!(RagError::NotFound.message(), "not found");
    assert_eq!(RagError::StoreUnavailable.message(), "store unavailable");
    assert_eq!(RagError::GenerationUnavailable.message(), "generation unavailable");
    assert_eq!(RagError::GenerationTimeout.message(), "generation timed out");
    assert_eq!(RagError::EmbeddingUnavailable.message(), "embedding unavailable");
    assert_eq!(RagError::MalformedInput.message(), "malformed input");
}

#[test]
fn chat_message_carries_the_text_of_its_instant() {
    let message = chat_message_at("m-7".to_string(), "u-1", "hello", true, MAY_15).unwrap();
    assert_eq!(message.id, "m-7");
    assert_eq!(message.user_id, "u-1");
    assert_eq!(message.content, "hello");
    assert!(message.is_user);
    assert_eq!(message.created_at, "2015-05-15T00:00:00+00:00");
}

#[test]
fn chat_message_at_an_instant_out_of_range_is_not_made() {
    let far = Timestamp { secs: i64::MAX, nanos: 0 };
    assert!(chat_message_at("m-7".to_string(), "u-1", "hello", false, far).is_none());
}
