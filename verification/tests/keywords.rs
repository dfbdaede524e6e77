use journal_rag::greet;
use journal_rag::keywords::{extract_keywords, lowered_keywords};
use journal_rag::llm::{model_step, ModelStep};
use journal_rag::overlap::{lowered_overlap, word_overlap, WordOverlap};

#[test]
fn keywords_are_the_longer_words_in_lower_case() {
    assert_eq!(
        extract_keywords("What did I WRITE about my Trip to Rome?"),
        vec!["what", "did", "write", "about", "trip", "rome"]
    );
}

#[test]
fn marks_are_cut_from_both_ends_of_a_keyword() {
    assert_eq!(
        extract_keywords("\"hello,\" (world)! it's re-use ... ?!? a.b"),
        vec!["hello", "world", "it's", "re-use", "a.b"]
    );
}

#[test]
fn words_are_measured_in_bytes() {
    assert_eq!(extract_keywords("Öl é ab abc"), vec!["öl", "abc"]);
    assert_eq!(extract_keywords("(x) a, 12 a,,"), vec!["x", "a"]);
}

#[test]
fn any_white_space_parts_the_words() {
    assert_eq!(
        extract_keywords("  one\ttwo\nthree\u{3000}four\u{a0}five  "),
        vec!["one", "two", "three", "four", "five"]
    );
    assert_eq!(extract_keywords(""), Vec::<String>::new());
    assert_eq!(extract_keywords(" \n "), Vec::<String>::new());
}

#[test]
fn numbers_count_as_keywords() {
    assert_eq!(extract_keywords("in 2024, day #42!"), vec!["2024", "day", "42"]);
}

#[test]
fn greeting_names_the_guest() {
    assert_eq!(greet("Ada"), "Hello, Ada! You've been greeted from Rust!");
    assert_eq!(greet(""), "Hello, ! You've been greeted from Rust!");
}

#[test]
fn model_is_loaded_before_it_answers() {
    assert_eq!(model_step(true, true), ModelStep::Generate);
    assert_eq!(model_step(true, false), ModelStep::Generate);
    assert_eq!(model_step(false, true), ModelStep::LoadThenGenerate);
    assert_eq!(model_step(false, false), ModelStep::Refuse);
}

#[test]
fn shared_words_are_counted_once() {
    assert_eq!(
        word_overlap("The cat sat", "the CAT ran fast"),
        WordOverlap { shared: 2, total: 5 }
    );
    assert_eq!(word_overlap("a a a", "A"), WordOverlap { shared: 1, total: 1 });
    assert_eq!(word_overlap("one two", "three"), WordOverlap { shared: 0, total: 3 });
}

#[test]
fn texts_without_words_share_nothing() {
    assert_eq!(word_overlap("", ""), WordOverlap { shared: 0, total: 0 });
    assert_eq!(word_overlap(" \n ", "word"), WordOverlap { shared: 0, total: 1 });
    assert_eq!(word_overlap("word,", "word"), WordOverlap { shared: 0, total: 2 });
}

#[test]
fn keywords_of_a_lowered_text_are_taken_as_they_stand() {
    assert_eq!(lowered_keywords("what (did) i write?"), vec!["what", "did", "write"]);
    assert_eq!(lowered_keywords("Kept AS Given"), vec!["Kept", "Given"]);
    assert_eq!(lowered_keywords(""), Vec::<String>::new());
}

#[test]
fn words_of_lowered_texts_are_told_apart_as_they_stand() {
    assert_eq!(lowered_overlap("the cat sat", "the cat ran fast"), WordOverlap { shared: 2, total: 5 });
    assert_eq!(lowered_overlap("Cat", "cat"), WordOverlap { shared: 0, total: 2 });
    assert_eq!(lowered_overlap("", ""), WordOverlap { shared: 0, total: 0 });
}
