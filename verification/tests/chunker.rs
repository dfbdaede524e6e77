use journal_rag::chunker::{chunk_text, CHUNK_LIMIT};

fn letters(letter: char, count: usize) -> String {
    std::iter::repeat(letter).take(count).collect()
}

#[test]
fn empty_text_has_no_chunks() {
    assert_eq!(chunk_text(""), Vec::<String>::new());
}

#[test]
fn two_short_paragraphs_share_a_chunk() {
    let first = letters('a', 20);
    let second = letters('b', 30);
    let body = format!("{}\n\n{}", first, second);
    assert_eq!(chunk_text(&body), vec![body.clone()]);
}

#[test]
fn three_long_paragraphs_are_three_chunks() {
    let first = letters('a', 300);
    let second = letters('b', 300);
    let third = letters('c', 300);
    let body = format!("{}\n\n{}\n\n{}", first, second, third);
    assert_eq!(chunk_text(&body), vec![first, second, third]);
}

#[test]
fn text_without_break_is_one_chunk() {
    assert_eq!(chunk_text("one line\nand another"), vec!["one line\nand another".to_string()]);
}

#[test]
fn oversized_paragraph_is_kept_whole() {
    let long = letters('x', 1200);
    assert_eq!(chunk_text(&long), vec![long.clone()]);
    let body = format!("intro\n\n{}\n\noutro", long);
    assert_eq!(chunk_text(&body), vec!["intro".to_string(), long, "outro".to_string()]);
}

#[test]
fn a_buffer_of_exactly_the_limit_is_not_cut() {
    let first = letters('a', 249);
    let second = letters('b', 249);
    let body = format!("{}\n\n{}", first, second);
    assert_eq!(body.chars().count(), CHUNK_LIMIT);
    assert_eq!(chunk_text(&body), vec![body.clone()]);
}

#[test]
fn a_buffer_one_over_the_limit_is_cut() {
    let first = letters('a', 249);
    let second = letters('b', 250);
    let body = format!("{}\n\n{}", first, second);
    assert_eq!(chunk_text(&body), vec![first, second]);
}

#[test]
fn length_is_counted_in_characters() {
    let first = letters('é', 249);
    let second = letters('ü', 249);
    let body = format!("{}\n\n{}", first, second);
    assert!(body.len() > CHUNK_LIMIT);
    assert_eq!(chunk_text(&body), vec![body.clone()]);
}

#[test]
fn three_line_feeds_break_after_the_second() {
    assert_eq!(chunk_text("a\n\n\nb"), vec!["a\n\n\nb".to_string()]);
    let first = letters('a', 400);
    let second = letters('b', 400);
    let body = format!("{}\n\n\n{}", first, second);
    assert_eq!(chunk_text(&body), vec![first, format!("\n{}", second)]);
}

#[test]
fn leading_break_is_dropped() {
    assert_eq!(chunk_text("\n\nabc"), vec!["abc".to_string()]);
}

#[test]
fn trailing_break_stays_in_the_chunk() {
    assert_eq!(chunk_text("abc\n\n"), vec!["abc\n\n".to_string()]);
}

#[test]
fn text_of_breaks_only_has_no_chunks() {
    assert_eq!(chunk_text("\n\n"), Vec::<String>::new());
    assert_eq!(chunk_text("\n\n\n\n"), Vec::<String>::new());
}

#[test]
fn blank_paragraph_behind_a_full_buffer_is_lost() {
    let first = letters('a', 499);
    let body = format!("{}\n\n\n\nend", first);
    assert_eq!(chunk_text(&body), vec![first, "end".to_string()]);
}

#[test]
fn chunks_rejoin_to_the_text() {
    let mut paragraphs: Vec<String> = Vec::new();
    for i in 0..40 {
        paragraphs.push(letters('p', 1 + (i * 37) % 230));
    }
    let body = paragraphs.join("\n\n");
    let chunks = chunk_text(&body);
    assert!(chunks.len() > 1);
    assert_eq!(chunks.join("\n\n"), body);
}

#[test]
fn chunks_stay_within_the_limit() {
    let mut paragraphs: Vec<String> = Vec::new();
    for i in 0..60 {
        paragraphs.push(letters('q', 1 + (i * 91) % 700));
    }
    let body = paragraphs.join("\n\n");
    for chunk in chunk_text(&body) {
        assert!(!chunk.is_empty());
        assert!(chunk.chars().count() <= CHUNK_LIMIT || paragraphs.contains(&chunk));
    }
}
