use journal_rag::canned::{compose_reply, generate_with_context};
use journal_rag::llm::build_journal_prompt;
use journal_rag::scan::{append_decimal, blank, contains_text, find_in, matches_at, trim_range};

fn chars(text: &str) -> Vec<char> {
    text.chars().collect()
}

fn prompt(question: &str, contents: &[&str]) -> String {
    let context: Vec<(String, String, String)> = contents
        .iter()
        .enumerate()
        .map(|(i, content)| (format!("2024-01-{:02}", i + 1), format!("Day {}", i + 1), content.to_string()))
        .collect();
    build_journal_prompt(question, &context)
}

const TAKE: &str = "\n\n**My take:** You seem to be someone who balances work responsibilities with personal passions, particularly music. Your writing shows both the stress of professional life and the joy of creative pursuits.\n\nWhat resonates most with you from these observations?";

#[test]
fn reply_without_entries_repeats_the_question() {
    assert_eq!(
        generate_with_context(&prompt("  What is my name? ", &[])),
        "I'd be happy to help you with: \"What is my name?\"\n\nHowever, I don't see any relevant journal entries to reference. Try asking about patterns, themes, or specific topics you've written about."
    );
}

#[test]
fn reply_to_a_text_that_is_no_prompt() {
    assert_eq!(
        generate_with_context("hello"),
        "I'd be happy to help you with: \"your message\"\n\nHowever, I don't see any relevant journal entries to reference. Try asking about patterns, themes, or specific topics you've written about."
    );
    assert_eq!(generate_with_context(""), generate_with_context("hello"));
}

#[test]
fn question_ends_at_the_first_blank_line() {
    let text = "User question:\nfirst line\nsecond line\n\nmore";
    assert_eq!(
        generate_with_context(text),
        "I'd be happy to help you with: \"first line\nsecond line\"\n\nHowever, I don't see any relevant journal entries to reference. Try asking about patterns, themes, or specific topics you've written about."
    );
    let open = "User question:\n\t to the end \u{3000}";
    assert_eq!(
        generate_with_context(open),
        "I'd be happy to help you with: \"to the end\"\n\nHowever, I don't see any relevant journal entries to reference. Try asking about patterns, themes, or specific topics you've written about."
    );
}

#[test]
fn name_is_read_from_the_entries() {
    assert_eq!(
        generate_with_context(&prompt("What is my NAME?", &["Dinner.", "ADAM, they called."])),
        "Based on your journal entries, your name is **Adam**. I can see this mentioned in your writing."
    );
    assert_eq!(
        generate_with_context(&prompt("Am I Adam?", &["Dinner with friends."])),
        "I don't see your name explicitly mentioned in your journal entries. Could you tell me what you'd like me to call you?"
    );
}

#[test]
fn name_in_date_or_title_alone_counts_with_the_bracket_rule() {
    let text = "Context (journal snippets):\n- [adam] Title — nothing\n\nUser question:\nname?\n\n";
    assert_eq!(
        generate_with_context(text),
        "I don't see your name explicitly mentioned in your journal entries. Could you tell me what you'd like me to call you?"
    );
    let text = "Context (journal snippets):\n- [2024 Adam wrote\n\nUser question:\nname?\n\n";
    assert_eq!(
        generate_with_context(text),
        "Based on your journal entries, your name is **Adam**. I can see this mentioned in your writing."
    );
}

#[test]
fn other_questions_ask_for_more() {
    assert_eq!(
        generate_with_context(&prompt("Was it sunny?", &["Rain."])),
        "I can see your journal entries, but I need more specific guidance. You asked: \"Was it sunny?\"\n\nCould you be more specific about what you'd like me to analyze or help you with?"
    );
}

#[test]
fn patterns_are_counted_over_the_entries() {
    let reply = generate_with_context(&prompt(
        "Which topics come up most?",
        &[
            "Long day at the OFFICE, so stressed.",
            "Piano lesson, then a concert with a friend. Happy!",
            "Work again. Worried about the job.",
            "Nothing much.",
        ],
    ));
    let expected = format!(
        "Based on analyzing your 4 journal entries, here are the key patterns I see:\n\n{}\n\n{}\n\n{}\n\n{}{}",
        "**Work dominates your thoughts** - You mention work-related topics in 2 out of 4 entries. This suggests work stress or career focus is a major theme.",
        "**Your biggest passion is Music & Arts** - This appears in 1 entries, showing it's a recurring theme in your life.",
        "**Social connections matter** - You write about friends and relationships in 1 entries, indicating you value personal connections.",
        "**Your emotional pattern leans toward Stress/Anxiety** - This mood appears 2 times, suggesting it's a significant part of your experience.",
        TAKE
    );
    assert_eq!(reply, expected);
}

#[test]
fn good_spirits_are_named_where_they_prevail() {
    let reply = generate_with_context(&prompt(
        "Any theme?",
        &["So excited.", "A great day.", "Anxious."],
    ));
    let expected = format!(
        "Based on analyzing your 3 journal entries, here are the key patterns I see:\n\n{}{}",
        "**Your emotional pattern leans toward Positive Energy** - This mood appears 2 times, suggesting it's a significant part of your experience.",
        TAKE
    );
    assert_eq!(reply, expected);
}

#[test]
fn entries_without_a_pattern_are_called_diverse() {
    let reply = generate_with_context(&prompt("Any pattern?", &["Rain.", "Sun."]));
    let expected = format!(
        "Based on analyzing your 2 journal entries, here are the key patterns I see:\n\nI can see you have diverse interests and experiences.{}",
        TAKE
    );
    assert_eq!(reply, expected);
}

#[test]
fn counts_run_into_several_digits() {
    let contents: Vec<&str> = std::iter::repeat("work").take(120).collect();
    let reply = generate_with_context(&prompt("topic?", &contents));
    assert!(reply.starts_with("Based on analyzing your 120 journal entries"));
    assert!(reply.contains("work-related topics in 120 out of 120 entries."));
}

#[test]
fn only_marked_lines_of_the_context_count() {
    let text = "Context (journal snippets):\nnote\r\n- [d] t — work\r\n-[d] t — work\n - [d] work\n- [\n\nUser question:\ntopic\n\n";
    let reply = generate_with_context(text);
    assert!(reply.starts_with("Based on analyzing your 2 journal entries"));
    assert!(reply.contains("work-related topics in 1 out of 2 entries."));
}

#[test]
fn context_without_a_question_behind_it_lists_nothing() {
    let text = "User question:\ntopic\n\nContext (journal snippets):\n- [d] t — work\n";
    assert!(generate_with_context(text).starts_with("I'd be happy to help you with: \"topic\""));
}

#[test]
fn white_space_is_what_the_standard_library_calls_so() {
    for code in 0..=0x10FFFFu32 {
        if let Some(c) = char::from_u32(code) {
            assert_eq!(blank(c), c.is_whitespace(), "code {:x}", code);
        }
    }
}

#[test]
fn numbers_are_written_in_decimal() {
    for n in [0usize, 7, 10, 99, 100, 12345, usize::MAX] {
        let mut out = String::from("n=");
        append_decimal(&mut out, n);
        assert_eq!(out, format!("n={}", n));
    }
}

#[test]
fn patterns_are_found_where_they_first_stand() {
    let text = chars("abcabcabc");
    assert_eq!(find_in(&text, &chars("bc"), 0, 9), Some(1));
    assert_eq!(find_in(&text, &chars("bc"), 2, 9), Some(4));
    assert_eq!(find_in(&text, &chars("bc"), 2, 5), None);
    assert_eq!(find_in(&text, &chars("bc"), 8, 9), None);
    assert_eq!(find_in(&text, &chars("abcabcabca"), 0, 9), None);
    assert_eq!(find_in(&text, &chars(""), 3, 9), Some(3));
    assert_eq!(find_in(&text, &chars(""), 9, 9), Some(9));
    assert_eq!(find_in(&text, &chars("x"), 0, 9), None);
    assert!(matches_at(&text, &chars("cab"), 2));
    assert!(!matches_at(&text, &chars("cab"), 3));
    assert!(contains_text(&text, &chars("cabc")));
    assert!(!contains_text(&text, &chars("cc")));
}

#[test]
fn white_space_is_cut_from_both_ends() {
    let text = chars("  \t middle part \n ");
    assert_eq!(trim_range(&text, 0, text.len()), (4, 15));
    assert_eq!(trim_range(&text, 3, 11), (4, 10));
    assert_eq!(trim_range(&text, 5, 12), (5, 12));
    assert_eq!(trim_range(&text, 0, 3), (3, 3));
    assert_eq!(trim_range(&text, 6, 6), (6, 6));
}

#[test]
fn reply_is_composed_from_lowered_texts() {
    let entries = vec![chars("dinner."), chars("adam, they called.")];
    assert_eq!(
        compose_reply("What is my NAME?", "what is my name?", &entries),
        "Based on your journal entries, your name is **Adam**. I can see this mentioned in your writing."
    );
    assert_eq!(
        compose_reply("What is my NAME?", "what is my name?", &vec![chars("Adam")]),
        "I don't see your name explicitly mentioned in your journal entries. Could you tell me what you'd like me to call you?"
    );
    assert_eq!(
        compose_reply("Sunny?", "sunny?", &vec![chars("rain")]),
        "I can see your journal entries, but I need more specific guidance. You asked: \"Sunny?\"\n\nCould you be more specific about what you'd like me to analyze or help you with?"
    );
    assert_eq!(
        compose_reply("Any NAME?", "any name?", &Vec::new()),
        "I'd be happy to help you with: \"Any NAME?\"\n\nHowever, I don't see any relevant journal entries to reference. Try asking about patterns, themes, or specific topics you've written about."
    );
}

#[test]
fn lowered_question_alone_decides_the_pattern() {
    let entries = vec![chars("work"), chars("happy")];
    let reply = compose_reply("ignored", "most", &entries);
    let expected = format!(
        "Based on analyzing your 2 journal entries, here are the key patterns I see:\n\n{}\n\n{}{}",
        "**Work dominates your thoughts** - You mention work-related topics in 1 out of 2 entries. This suggests work stress or career focus is a major theme.",
        "**Your emotional pattern leans toward Positive Energy** - This mood appears 1 times, suggesting it's a significant part of your experience.",
        TAKE
    );
    assert_eq!(reply, expected);
    assert!(compose_reply("Most", "Most", &entries).starts_with("I can see your journal entries"));
}
