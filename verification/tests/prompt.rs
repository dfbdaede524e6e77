use journal_rag::llm::{build_journal_prompt, build_snippet, build_system_prompt, SNIPPET_LIMIT};

const SYSTEM: &str = "You are a helpful AI assistant for a personal journaling application. You help users reflect on their journal entries, find patterns in their thoughts, and provide gentle guidance for personal growth. Always be supportive, non-judgmental, and respect the user's privacy.";

const CUE: &str =
    "Assistant (answer the question concisely, referencing the context when useful):\n";

fn entry(date: &str, title: &str, content: &str) -> (String, String, String) {
    (date.to_string(), title.to_string(), content.to_string())
}

#[test]
fn system_prompt_is_the_persona() {
    assert_eq!(build_system_prompt(), SYSTEM);
}

#[test]
fn prompt_without_context_has_no_context_block() {
    let prompt = build_journal_prompt("How was my week?", &[]);
    let expected = format!("System:\n{}\n\nUser question:\nHow was my week?\n\n{}", SYSTEM, CUE);
    assert_eq!(prompt, expected);
}

#[test]
fn prompt_lists_each_entry_on_a_line() {
    let context = vec![
        entry("2024-01-02", "Monday", "Went for a run.\nFelt good."),
        entry("2024-01-03", "Tuesday", "Stayed in."),
    ];
    let prompt = build_journal_prompt("What did I do?", &context);
    let expected = format!(
        "System:\n{}\n\nContext (journal snippets):\n- [2024-01-02] Monday — Went for a run. Felt good.\n- [2024-01-03] Tuesday — Stayed in.\n\nUser question:\nWhat did I do?\n\n{}",
        SYSTEM, CUE
    );
    assert_eq!(prompt, expected);
}

#[test]
fn equal_inputs_give_equal_prompts() {
    let context = vec![entry("2024-01-02", "Monday", "Went for a run.")];
    let again = vec![entry("2024-01-02", "Monday", "Went for a run.")];
    assert_eq!(
        build_journal_prompt("What did I do?", &context),
        build_journal_prompt("What did I do?", &again)
    );
}

#[test]
fn short_content_is_shown_whole() {
    assert_eq!(build_snippet(""), "");
    assert_eq!(build_snippet("plain"), "plain");
    let exact: String = std::iter::repeat('a').take(SNIPPET_LIMIT).collect();
    assert_eq!(build_snippet(&exact), exact);
}

#[test]
fn long_content_is_cut_and_marked() {
    let long: String = std::iter::repeat('a').take(SNIPPET_LIMIT + 1).collect();
    let shown: String = std::iter::repeat('a').take(SNIPPET_LIMIT).collect();
    assert_eq!(build_snippet(&long), format!("{}…", shown));
}

#[test]
fn line_feeds_become_spaces() {
    assert_eq!(build_snippet("a\nb\n\nc\n"), "a b  c ");
    assert_eq!(build_snippet("\n"), " ");
}

#[test]
fn cut_content_holds_no_line_feed() {
    let mut long = String::new();
    for i in 0..100 {
        long.push_str(&format!("line {}\n", i));
    }
    let snippet = build_snippet(&long);
    assert!(!snippet.contains('\n'));
    assert_eq!(snippet.chars().count(), SNIPPET_LIMIT + 1);
    assert!(snippet.ends_with('…'));
    let head: String = long.chars().take(SNIPPET_LIMIT).collect();
    assert_eq!(snippet, format!("{}…", head.replace('\n', " ")));
}

#[test]
fn content_is_cut_by_characters() {
    let long: String = std::iter::repeat('ß').take(SNIPPET_LIMIT + 20).collect();
    let shown: String = std::iter::repeat('ß').take(SNIPPET_LIMIT).collect();
    assert_eq!(build_snippet(&long), format!("{}…", shown));
}

#[test]
fn a_line_feed_at_the_cut_is_replaced() {
    let mut long: String = std::iter::repeat('a').take(SNIPPET_LIMIT - 1).collect();
    long.push('\n');
    long.push_str("tail");
    let mut expected: String = std::iter::repeat('a').take(SNIPPET_LIMIT - 1).collect();
    expected.push(' ');
    expected.push('…');
    assert_eq!(build_snippet(&long), expected);
}
