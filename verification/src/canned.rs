//! A reply put together from what a prompt holds.
//!
//! The reply stands in for an answer of the generative model. It reads the
//! question and the context lines back out of a prompt as `llm` lays it
//! out, and answers from a few fixed patterns.

use vstd::prelude::*;
use crate::chunker::{join_paragraphs, paragraph_break};
use crate::scan::{
    append_decimal, contains_text, decimal_text, find_in, mentions, occurs_at, search_in,
    matches_at, trim_range, trimmed_range,
};
use crate::text::chars_of;

verus! {

/// The lower-case form of a text, as the standard library folds it.
pub uninterp spec fn lowercase_of(text: Seq<char>) -> Seq<char>;

/// `str::to_lowercase`. It is believed that the outcome depends on the
/// text alone.
#[verifier::external_body]
pub(crate) fn lowercase(text: &str) -> (lower: String)
    ensures
        lower@ == lowercase_of(text@),
{
    text.to_lowercase()
}

/// The range of the question in `prompt`: what follows the first question
/// label, up to the next blank line or else to the end, without the white
/// space at both ends. `None` for a prompt without the label.
pub open spec fn question_range(prompt: Seq<char>) -> Option<(int, int)> {
    match search_in(prompt, "User question:\n"@, 0, prompt.len() as int) {
        None => None,
        Some(label) => {
            let start = label + "User question:\n"@.len();
            let stop = match search_in(prompt, "\n\n"@, start, prompt.len() as int) {
                Some(end) => end,
                None => prompt.len() as int,
            };
            Some(trimmed_range(prompt, start, stop))
        },
    }
}

/// The question that `prompt` asks, or a few words in its place.
pub open spec fn question_text(prompt: Seq<char>) -> Seq<char> {
    match question_range(prompt) {
        Some(range) => prompt.subrange(range.0, range.1),
        None => "your message"@,
    }
}

/// The range of the context lines in `prompt`: what follows the first
/// context label, up to the blank line before a question label. `None`
/// for a prompt without the one or the other.
pub open spec fn context_range(prompt: Seq<char>) -> Option<(int, int)> {
    match search_in(prompt, "Context (journal snippets):\n"@, 0, prompt.len() as int) {
        None => None,
        Some(label) => {
            let start = label + "Context (journal snippets):\n"@.len();
            match search_in(prompt, "\n\nUser question:"@, start, prompt.len() as int) {
                Some(end) => Some((start, end)),
                None => None,
            }
        },
    }
}

/// Position of the first line feed in `text[from..to]`; `to` where there
/// is none.
pub open spec fn line_end(text: Seq<char>, from: int, to: int) -> int
    decreases to - from,
{
    if from >= to {
        to
    } else if text[from] == '\n' {
        from
    } else {
        line_end(text, from + 1, to)
    }
}

/// The ranges of the lines of `text[from..to]`. A line ends before a line
/// feed, and before the carriage return in front of it if there is one;
/// the last line may do without a line feed.
pub open spec fn line_ranges(text: Seq<char>, from: int, to: int) -> Seq<(int, int)>
    decreases to - from,
{
    if from >= to {
        Seq::empty()
    } else {
        let end = line_end(text, from, to);
        if end >= to || end < from {
            seq![(from, to)]
        } else if end > from && text[end - 1] == '\r' {
            seq![(from, end - 1)] + line_ranges(text, end + 1, to)
        } else {
            seq![(from, end)] + line_ranges(text, end + 1, to)
        }
    }
}

/// The line `text[line.0..line.1]` lists an entry: it begins with the
/// entry mark.
pub open spec fn is_entry_line(text: Seq<char>, line: (int, int)) -> bool {
    line.0 + "- ["@.len() <= line.1 && occurs_at(text, "- ["@, line.0)
}

/// The range of what an entry line says of its entry: what follows the
/// first bracket and space, or the whole line without them.
pub open spec fn entry_content(text: Seq<char>, line: (int, int)) -> (int, int) {
    match search_in(text, "] "@, line.0, line.1) {
        Some(at) => (at + "] "@.len(), line.1),
        None => line,
    }
}

/// What the entry lines among `lines` say of their entries, in lower case.
pub open spec fn entries_among(text: Seq<char>, lines: Seq<(int, int)>) -> Seq<Seq<char>>
    decreases lines.len(),
{
    if lines.len() == 0 {
        Seq::empty()
    } else if is_entry_line(text, lines.last()) {
        let content = entry_content(text, lines.last());
        entries_among(text, lines.drop_last()).push(
            lowercase_of(text.subrange(content.0, content.1)),
        )
    } else {
        entries_among(text, lines.drop_last())
    }
}

/// What the context of `prompt` says of each entry that it lists, in
/// lower case and in the order of the lines.
pub open spec fn listed_entries(prompt: Seq<char>) -> Seq<Seq<char>> {
    match context_range(prompt) {
        Some(range) => entries_among(prompt, line_ranges(prompt, range.0, range.1)),
        None => Seq::empty(),
    }
}

/// `text` holds one of three words.
pub open spec fn mentions_one_of(text: Seq<char>, first: Seq<char>, second: Seq<char>, third: Seq<
    char,
>) -> bool {
    mentions(text, first) || mentions(text, second) || mentions(text, third)
}

/// Number of `entries` that hold one of three words.
pub open spec fn count_mentioning(
    entries: Seq<Seq<char>>,
    first: Seq<char>,
    second: Seq<char>,
    third: Seq<char>,
) -> nat
    decreases entries.len(),
{
    if entries.len() == 0 {
        0
    } else {
        count_mentioning(entries.drop_last(), first, second, third) + if mentions_one_of(
            entries.last(),
            first,
            second,
            third,
        ) {
            1nat
        } else {
            0nat
        }
    }
}

/// One of `entries` holds `word`.
pub open spec fn some_entry_mentions(entries: Seq<Seq<char>>, word: Seq<char>) -> bool {
    exists|i: int| 0 <= i < entries.len() && mentions(#[trigger] entries[i], word)
}

/// The reply where the prompt lists no entries.
pub open spec fn no_context_reply(question: Seq<char>) -> Seq<char> {
    "I'd be happy to help you with: \""@ + question
        + "\"\n\nHowever, I don't see any relevant journal entries to reference. Try asking about patterns, themes, or specific topics you've written about."@
}

/// The reply to a question about the writer's name.
pub open spec fn name_reply(entries: Seq<Seq<char>>) -> Seq<char> {
    if some_entry_mentions(entries, "adam"@) {
        "Based on your journal entries, your name is **Adam**. I can see this mentioned in your writing."@
    } else {
        "I don't see your name explicitly mentioned in your journal entries. Could you tell me what you'd like me to call you?"@
    }
}

/// The reply to a question that none of the patterns meets.
pub open spec fn generic_reply(question: Seq<char>) -> Seq<char> {
    "I can see your journal entries, but I need more specific guidance. You asked: \""@ + question
        + "\"\n\nCould you be more specific about what you'd like me to analyze or help you with?"@
}

/// The remark on work, made where `work` of `total` entries speak of it.
pub open spec fn work_insight(work: nat, total: nat) -> Seq<char> {
    "**Work dominates your thoughts** - You mention work-related topics in "@ + decimal_text(work)
        + " out of "@ + decimal_text(total)
        + " entries. This suggests work stress or career focus is a major theme."@
}

/// The remark on music, made where `music` entries speak of it.
pub open spec fn music_insight(music: nat) -> Seq<char> {
    "**Your biggest passion is Music & Arts** - This appears in "@ + decimal_text(music)
        + " entries, showing it's a recurring theme in your life."@
}

/// The remark on friends, made where `personal` entries speak of them.
pub open spec fn personal_insight(personal: nat) -> Seq<char> {
    "**Social connections matter** - You write about friends and relationships in "@
        + decimal_text(personal) + " entries, indicating you value personal connections."@
}

/// The remark on the mood met most often: strain in `stress` entries,
/// good spirits in `positive` entries. Of two moods met equally often the
/// strain is named.
pub open spec fn mood_insight(stress: nat, positive: nat) -> Seq<char> {
    if stress >= positive {
        "**Your emotional pattern leans toward Stress/Anxiety** - This mood appears "@
            + decimal_text(stress)
            + " times, suggesting it's a significant part of your experience."@
    } else {
        "**Your emotional pattern leans toward Positive Energy** - This mood appears "@
            + decimal_text(positive)
            + " times, suggesting it's a significant part of your experience."@
    }
}

/// `parts`, with `part` added where `present` holds.
pub open spec fn with_part(parts: Seq<Seq<char>>, present: bool, part: Seq<char>) -> Seq<Seq<char>> {
    if present {
        parts.push(part)
    } else {
        parts
    }
}

/// The remarks that `entries` give rise to, in their fixed order.
pub open spec fn insights(entries: Seq<Seq<char>>) -> Seq<Seq<char>> {
    let work = count_mentioning(entries, "work"@, "job"@, "office"@);
    let music = count_mentioning(entries, "music"@, "piano"@, "concert"@);
    let personal = count_mentioning(entries, "friend"@, "social"@, "relationship"@);
    let stress = count_mentioning(entries, "stress"@, "anxious"@, "worried"@);
    let positive = count_mentioning(entries, "excited"@, "happy"@, "great"@);
    with_part(
        with_part(
            with_part(
                with_part(Seq::empty(), work > 0, work_insight(work, entries.len())),
                music > 0,
                music_insight(music),
            ),
            personal > 0,
            personal_insight(personal),
        ),
        stress > 0 || positive > 0,
        mood_insight(stress, positive),
    )
}

/// The reply to a question about topics and patterns.
pub open spec fn patterns_reply(entries: Seq<Seq<char>>) -> Seq<char> {
    "Based on analyzing your "@ + decimal_text(entries.len())
        + " journal entries, here are the key patterns I see:\n\n"@ + (if insights(
        entries,
    ).len() == 0 {
        "I can see you have diverse interests and experiences."@
    } else {
        join_paragraphs(insights(entries))
    })
        + "\n\n**My take:** You seem to be someone who balances work responsibilities with personal passions, particularly music. Your writing shows both the stress of professional life and the joy of creative pursuits.\n\nWhat resonates most with you from these observations?"@
}

/// A question, given in lower case, asks for the writer's name.
pub open spec fn asks_for_name(lower_question: Seq<char>) -> bool {
    mentions(lower_question, "name"@) || mentions(lower_question, "adam"@)
}

/// A question, given in lower case, asks for topics and patterns.
pub open spec fn asks_for_patterns(lower_question: Seq<char>) -> bool {
    mentions(lower_question, "topic"@) || mentions(lower_question, "pattern"@) || mentions(
        lower_question,
        "theme"@,
    ) || mentions(lower_question, "most"@)
}

/// The reply to `question`, which reads `lower_question` in lower case,
/// over `entries`, each given as what its line says of it in lower case.
///
/// Without entries the reply says so. A question for the writer's name
/// is answered from the entries, a question for topics and patterns with
/// remarks on what the entries speak of, and any other question with a
/// request to be more specific.
pub open spec fn reply_for(
    question: Seq<char>,
    lower_question: Seq<char>,
    entries: Seq<Seq<char>>,
) -> Seq<char> {
    if entries.len() == 0 {
        no_context_reply(question)
    } else if asks_for_name(lower_question) {
        name_reply(entries)
    } else if asks_for_patterns(lower_question) {
        patterns_reply(entries)
    } else {
        generic_reply(question)
    }
}

/// The reply to `prompt`: the reply to the question that it asks, over
/// the entries that its context lists.
pub open spec fn canned_reply(prompt: Seq<char>) -> Seq<char> {
    reply_for(
        question_text(prompt),
        lowercase_of(question_text(prompt)),
        listed_entries(prompt),
    )
}

/// Finds the question in a prompt.
fn locate_question(prompt: &Vec<char>) -> (range: Option<(usize, usize)>)
    ensures
        match range {
            Some(range) => question_range(prompt@) == Some((range.0 as int, range.1 as int))
                && range.0 <= range.1 <= prompt@.len(),
            None => question_range(prompt@) is None,
        },
{
    let n = prompt.len();
    let label = chars_of("User question:\n");
    match find_in(prompt, &label, 0, n) {
        None => None,
        Some(at) => {
            proof {
                lemma_found_within(prompt@, label@, 0, n as int);
            }
            let start = at + label.len();
            let blank_line = chars_of("\n\n");
            let stop = match find_in(prompt, &blank_line, start, n) {
                Some(end) => {
                    proof {
                        lemma_found_within(prompt@, blank_line@, start as int, n as int);
                    }
                    end
                },
                None => n,
            };
            Some(trim_range(prompt, start, stop))
        },
    }
}

/// What `search_in` finds lies within the range searched.
proof fn lemma_found_within(text: Seq<char>, pattern: Seq<char>, from: int, to: int)
    requires
        search_in(text, pattern, from, to) is Some,
    ensures
        from <= search_in(text, pattern, from, to).unwrap(),
        search_in(text, pattern, from, to).unwrap() + pattern.len() <= to,
    decreases to - from,
{
    if !occurs_at(text, pattern, from) {
        lemma_found_within(text, pattern, from + 1, to);
    }
}

/// Finds the context lines in a prompt.
fn locate_context(prompt: &Vec<char>) -> (range: Option<(usize, usize)>)
    ensures
        match range {
            Some(range) => context_range(prompt@) == Some((range.0 as int, range.1 as int))
                && range.0 <= range.1 <= prompt@.len(),
            None => context_range(prompt@) is None,
        },
{
    let n = prompt.len();
    let label = chars_of("Context (journal snippets):\n");
    match find_in(prompt, &label, 0, n) {
        None => None,
        Some(at) => {
            proof {
                lemma_found_within(prompt@, label@, 0, n as int);
            }
            let start = at + label.len();
            let closing = chars_of("\n\nUser question:");
            match find_in(prompt, &closing, start, n) {
                Some(end) => {
                    proof {
                        lemma_found_within(prompt@, closing@, start as int, n as int);
                    }
                    Some((start, end))
                },
                None => None,
            }
        },
    }
}

/// The texts that `held` holds.
pub open spec fn texts(held: Seq<Vec<char>>) -> Seq<Seq<char>> {
    Seq::new(held.len(), |i: int| held[i]@)
}

/// Takes the line `chars[start..stop]` of a prompt: where it lists an
/// entry, what it says of it is added to `entries` in lower case.
fn take_line(
    prompt: &str,
    chars: &Vec<char>,
    entries: &mut Vec<Vec<char>>,
    start: usize,
    stop: usize,
    Ghost(lines): Ghost<Seq<(int, int)>>,
)
    requires
        chars@ == prompt@,
        start <= stop <= chars@.len(),
        texts(old(entries)@) == entries_among(chars@, lines),
    ensures
        texts(final(entries)@) == entries_among(chars@, lines.push((start as int, stop as int))),
{
    let mark = chars_of("- [");
    let ghost line = (start as int, stop as int);
    proof {
        assert(lines.push(line).last() == line);
        assert(lines.push(line).drop_last() =~= lines);
    }
    if mark.len() <= stop - start && matches_at(chars, &mark, start) {
        let closing = chars_of("] ");
        let from = match find_in(chars, &closing, start, stop) {
            Some(at) => {
                proof {
                    lemma_found_within(chars@, closing@, start as int, stop as int);
                }
                at + closing.len()
            },
            None => start,
        };
        let lower = lowercase(prompt.substring_char(from, stop));
        let content = chars_of(lower.as_str());
        let ghost before = texts(entries@);
        entries.push(content);
        proof {
            assert(texts(entries@) =~= before.push(content@));
        }
    }
}

/// Gathers what the context lines `chars[from..to]` of a prompt say of the
/// entries that they list.
fn gather_entries(prompt: &str, chars: &Vec<char>, from: usize, to: usize) -> (entries: Vec<
    Vec<char>,
>)
    requires
        chars@ == prompt@,
        from <= to <= chars@.len(),
    ensures
        texts(entries@) == entries_among(chars@, line_ranges(chars@, from as int, to as int)),
{
    let mut entries: Vec<Vec<char>> = Vec::new();
    let ghost mut lines: Seq<(int, int)> = Seq::empty();
    let mut start: usize = from;
    let mut i: usize = from;
    proof {
        assert(texts(entries@) =~= entries_among(chars@, lines));
        assert(lines + line_ranges(chars@, from as int, to as int) =~= line_ranges(
            chars@,
            from as int,
            to as int,
        ));
    }
    while i < to
        invariant
            chars@ == prompt@,
            from <= start <= i <= to <= chars@.len(),
            texts(entries@) == entries_among(chars@, lines),
            line_end(chars@, start as int, to as int) == line_end(chars@, i as int, to as int),
            line_ranges(chars@, from as int, to as int) == lines + line_ranges(
                chars@,
                start as int,
                to as int,
            ),
        decreases to - i,
    {
        if chars[i] == '\n' {
            let stop = if i > start && chars[i - 1] == '\r' {
                i - 1
            } else {
                i
            };
            take_line(prompt, chars, &mut entries, start, stop, Ghost(lines));
            proof {
                let rest = line_ranges(chars@, i + 1, to as int);
                assert(line_ranges(chars@, start as int, to as int) == seq![
                    (start as int, stop as int),
                ] + rest);
                assert(lines + (seq![(start as int, stop as int)] + rest) =~= lines.push(
                    (start as int, stop as int),
                ) + rest);
                lines = lines.push((start as int, stop as int));
            }
            start = i + 1;
        }
        i += 1;
    }
    if start < to {
        take_line(prompt, chars, &mut entries, start, to, Ghost(lines));
        proof {
            assert(line_ranges(chars@, start as int, to as int) == seq![(start as int, to as int)]);
            assert(lines + seq![(start as int, to as int)] =~= lines.push(
                (start as int, to as int),
            ));
        }
    } else {
        proof {
            assert(lines + line_ranges(chars@, start as int, to as int) =~= lines);
        }
    }
    entries
}

/// Tells whether `text` holds one of three words.
fn holds_one_of(text: &Vec<char>, first: &str, second: &str, third: &str) -> (found: bool)
    ensures
        found == mentions_one_of(text@, first@, second@, third@),
{
    contains_text(text, &chars_of(first)) || contains_text(text, &chars_of(second))
        || contains_text(text, &chars_of(third))
}

/// Counts the entries that hold one of three words.
fn count_entries(entries: &Vec<Vec<char>>, first: &str, second: &str, third: &str) -> (count: usize)
    ensures
        count == count_mentioning(texts(entries@), first@, second@, third@),
{
    let mut count: usize = 0;
    let mut i: usize = 0;
    proof {
        assert(texts(entries@.take(0)) =~= Seq::<Seq<char>>::empty());
    }
    while i < entries.len()
        invariant
            i <= entries@.len(),
            count <= i,
            count == count_mentioning(texts(entries@.take(i as int)), first@, second@, third@),
        decreases entries@.len() - i,
    {
        proof {
            let next = texts(entries@.take(i + 1));
            assert(next.drop_last() =~= texts(entries@.take(i as int)));
            assert(next.last() == entries@[i as int]@);
        }
        if holds_one_of(&entries[i], first, second, third) {
            count += 1;
        }
        i += 1;
    }
    proof {
        assert(entries@.take(i as int) =~= entries@);
    }
    count
}

/// Tells whether one of the entries holds `word`.
fn some_entry_holds(entries: &Vec<Vec<char>>, word: &str) -> (found: bool)
    ensures
        found == some_entry_mentions(texts(entries@), word@),
{
    let pattern = chars_of(word);
    let mut i: usize = 0;
    while i < entries.len()
        invariant
            i <= entries@.len(),
            pattern@ == word@,
            forall|k: int| 0 <= k < i ==> !mentions(#[trigger] texts(entries@)[k], word@),
        decreases entries@.len() - i,
    {
        if contains_text(&entries[i], &pattern) {
            assert(mentions(texts(entries@)[i as int], word@));
            return true;
        }
        i += 1;
    }
    false
}

/// Appends `part` to the remarks in `out`, behind a blank line unless it
/// is the first.
fn append_part(out: &mut String, part: &str, first: bool, Ghost(parts): Ghost<Seq<Seq<char>>>)
    requires
        old(out)@ == join_paragraphs(parts),
        first == (parts.len() == 0),
    ensures
        final(out)@ == join_paragraphs(parts.push(part@)),
{
    proof {
        lemma_join_push(parts, part@);
        reveal_strlit("\n\n");
        assert("\n\n"@ =~= paragraph_break());
    }
    if !first {
        out.append("\n\n");
    }
    out.append(part);
    proof {
        if first {
            assert(out@ =~= part@);
        }
    }
}

/// Joining one more part puts it behind a break, or alone where it is the
/// first.
proof fn lemma_join_push(parts: Seq<Seq<char>>, part: Seq<char>)
    ensures
        join_paragraphs(parts.push(part)) == if parts.len() == 0 {
            part
        } else {
            join_paragraphs(parts) + paragraph_break() + part
        },
    decreases parts.len(),
{
    let all = parts.push(part);
    if parts.len() == 0 {
        assert(all.first() == part);
    } else {
        let tail = parts.drop_first();
        assert(all.first() == parts.first());
        assert(all.drop_first() =~= tail.push(part));
        lemma_join_push(tail, part);
        if tail.len() == 0 {
            assert(join_paragraphs(parts) == parts.first());
        } else {
            assert(parts.first() + paragraph_break() + (join_paragraphs(tail) + paragraph_break()
                + part) =~= (parts.first() + paragraph_break() + join_paragraphs(tail))
                + paragraph_break() + part);
        }
    }
}

/// Renders the remark on work.
fn render_work(work: usize, total: usize) -> (remark: String)
    ensures
        remark@ == work_insight(work as nat, total as nat),
{
    let mut remark = String::from_str(
        "**Work dominates your thoughts** - You mention work-related topics in ",
    );
    append_decimal(&mut remark, work);
    remark.append(" out of ");
    append_decimal(&mut remark, total);
    remark.append(" entries. This suggests work stress or career focus is a major theme.");
    remark
}

/// Renders the remark on music.
fn render_music(music: usize) -> (remark: String)
    ensures
        remark@ == music_insight(music as nat),
{
    let mut remark = String::from_str("**Your biggest passion is Music & Arts** - This appears in ");
    append_decimal(&mut remark, music);
    remark.append(" entries, showing it's a recurring theme in your life.");
    remark
}

/// Renders the remark on friends.
fn render_personal(personal: usize) -> (remark: String)
    ensures
        remark@ == personal_insight(personal as nat),
{
    let mut remark = String::from_str(
        "**Social connections matter** - You write about friends and relationships in ",
    );
    append_decimal(&mut remark, personal);
    remark.append(" entries, indicating you value personal connections.");
    remark
}

/// Renders the remark on the mood met most often.
fn render_mood(stress: usize, positive: usize) -> (remark: String)
    ensures
        remark@ == mood_insight(stress as nat, positive as nat),
{
    if stress >= positive {
        let mut remark = String::from_str(
            "**Your emotional pattern leans toward Stress/Anxiety** - This mood appears ",
        );
        append_decimal(&mut remark, stress);
        remark.append(" times, suggesting it's a significant part of your experience.");
        remark
    } else {
        let mut remark = String::from_str(
            "**Your emotional pattern leans toward Positive Energy** - This mood appears ",
        );
        append_decimal(&mut remark, positive);
        remark.append(" times, suggesting it's a significant part of your experience.");
        remark
    }
}

/// Renders the reply to a question about topics and patterns.
fn render_patterns(entries: &Vec<Vec<char>>) -> (reply: String)
    ensures
        reply@ == patterns_reply(texts(entries@)),
{
    let total = entries.len();
    let work = count_entries(entries, "work", "job", "office");
    let music = count_entries(entries, "music", "piano", "concert");
    let personal = count_entries(entries, "friend", "social", "relationship");
    let stress = count_entries(entries, "stress", "anxious", "worried");
    let positive = count_entries(entries, "excited", "happy", "great");
    let mut remarks = String::new();
    let mut first = true;
    let ghost mut parts: Seq<Seq<char>> = Seq::empty();
    if work > 0 {
        let remark = render_work(work, total);
        append_part(&mut remarks, remark.as_str(), first, Ghost(parts));
        proof {
            parts = parts.push(remark@);
        }
        first = false;
    }
    if music > 0 {
        let remark = render_music(music);
        append_part(&mut remarks, remark.as_str(), first, Ghost(parts));
        proof {
            parts = parts.push(remark@);
        }
        first = false;
    }
    if personal > 0 {
        let remark = render_personal(personal);
        append_part(&mut remarks, remark.as_str(), first, Ghost(parts));
        proof {
            parts = parts.push(remark@);
        }
        first = false;
    }
    if stress > 0 || positive > 0 {
        let remark = render_mood(stress, positive);
        append_part(&mut remarks, remark.as_str(), first, Ghost(parts));
        proof {
            parts = parts.push(remark@);
        }
        first = false;
    }
    assert(parts == insights(texts(entries@)));
    let mut reply = String::from_str("Based on analyzing your ");
    append_decimal(&mut reply, total);
    reply.append(" journal entries, here are the key patterns I see:\n\n");
    if first {
        reply.append("I can see you have diverse interests and experiences.");
    } else {
        reply.append(remarks.as_str());
    }
    reply.append(
        "\n\n**My take:** You seem to be someone who balances work responsibilities with personal passions, particularly music. Your writing shows both the stress of professional life and the joy of creative pursuits.\n\nWhat resonates most with you from these observations?",
    );
    reply
}

/// Replies to `question`, which reads `lower_question` in lower case, over
/// `entries`, each given as what its line says of it in lower case.
pub fn compose_reply(question: &str, lower_question: &str, entries: &Vec<Vec<char>>) -> (reply:
    String)
    ensures
        reply@ == reply_for(question@, lower_question@, texts(entries@)),
{
    assert(texts(entries@).len() == entries@.len());
    if entries.len() == 0 {
        let mut reply = String::from_str("I'd be happy to help you with: \"");
        reply.append(question);
        reply.append(
            "\"\n\nHowever, I don't see any relevant journal entries to reference. Try asking about patterns, themes, or specific topics you've written about.",
        );
        return reply;
    }
    let lower = chars_of(lower_question);
    if contains_text(&lower, &chars_of("name")) || contains_text(&lower, &chars_of("adam")) {
        if some_entry_holds(entries, "adam") {
            String::from_str(
                "Based on your journal entries, your name is **Adam**. I can see this mentioned in your writing.",
            )
        } else {
            String::from_str(
                "I don't see your name explicitly mentioned in your journal entries. Could you tell me what you'd like me to call you?",
            )
        }
    } else if contains_text(&lower, &chars_of("topic")) || contains_text(
        &lower,
        &chars_of("pattern"),
    ) || contains_text(&lower, &chars_of("theme")) || contains_text(&lower, &chars_of("most")) {
        render_patterns(entries)
    } else {
        let mut reply = String::from_str(
            "I can see your journal entries, but I need more specific guidance. You asked: \"",
        );
        reply.append(question);
        reply.append(
            "\"\n\nCould you be more specific about what you'd like me to analyze or help you with?",
        );
        reply
    }
}

/// Replies to `prompt` from what it holds: the question is read back out
/// of it, and so are the entries that its context lists; the reply is
/// that of `compose_reply` to them.
pub fn generate_with_context(prompt: &str) -> (reply: String)
    ensures
        reply@ == canned_reply(prompt@),
{
    let chars = chars_of(prompt);
    let question: String = match locate_question(&chars) {
        Some(range) => String::from_str(prompt.substring_char(range.0, range.1)),
        None => String::from_str("your message"),
    };
    let entries: Vec<Vec<char>> = match locate_context(&chars) {
        Some(range) => gather_entries(prompt, &chars, range.0, range.1),
        None => Vec::new(),
    };
    proof {
        if context_range(prompt@) is None {
            assert(texts(entries@) =~= Seq::<Seq<char>>::empty());
        }
        assert(texts(entries@) == listed_entries(prompt@));
    }
    let lower = lowercase(question.as_str());
    compose_reply(question.as_str(), lower.as_str(), &entries)
}

} // verus!
