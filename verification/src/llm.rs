//! Prompt construction for the generative model.

use vstd::prelude::*;

verus! {

/// A chat message sent by a user.
#[derive(Debug, Clone)]
pub struct ChatRequest {
    pub message: String,
    pub user_id: String,
}

/// The assistant's reply, with the ids of the entries it drew on.
#[derive(Debug, Clone)]
pub struct ChatResponse {
    pub response: String,
    pub sources: Vec<String>,
}

/// A chat message on its way to the retrieval service, which may name the
/// conversation that it continues.
#[derive(Debug)]
pub struct PythonChatRequest {
    pub user_id: String,
    pub message: String,
    pub conversation_id: Option<String>,
}

/// What has to happen before the model can answer.
#[derive(Clone, Copy, Debug, PartialEq, Eq, Structural)]
pub enum ModelStep {
    /// The model is loaded: generate.
    Generate,
    /// The model is not loaded but its file is known: load it, then
    /// generate.
    LoadThenGenerate,
    /// The model is not loaded and no file is known: there is no answer.
    Refuse,
}

/// Tells what has to happen before the model can answer, given whether it
/// is loaded and whether its file is known.
pub fn model_step(loaded: bool, has_path: bool) -> (step: ModelStep)
    ensures
        step == if loaded {
            ModelStep::Generate
        } else if has_path {
            ModelStep::LoadThenGenerate
        } else {
            ModelStep::Refuse
        },
{
    if loaded {
        ModelStep::Generate
    } else if has_path {
        ModelStep::LoadThenGenerate
    } else {
        ModelStep::Refuse
    }
}

/// Number of characters of an entry's content that a prompt shows.
pub const SNIPPET_LIMIT: usize = 280;

/// The persona instruction that opens every prompt.
pub open spec fn system_prompt_text() -> Seq<char> {
    "You are a helpful AI assistant for a personal journaling application. You help users reflect on their journal entries, find patterns in their thoughts, and provide gentle guidance for personal growth. Always be supportive, non-judgmental, and respect the user's privacy."@
}

/// `s` with every line feed replaced by one space.
pub open spec fn flatten_newlines(s: Seq<char>) -> Seq<char> {
    s.map_values(|c: char| if c == '\n' { ' ' } else { c })
}

/// The part of an entry's content shown in a prompt: at most
/// `SNIPPET_LIMIT` characters on one line, followed by an ellipsis when
/// something was cut off.
pub open spec fn snippet_text(content: Seq<char>) -> Seq<char> {
    if content.len() > SNIPPET_LIMIT {
        flatten_newlines(content.take(SNIPPET_LIMIT as int)) + "…"@
    } else {
        flatten_newlines(content)
    }
}

/// One line of the context block.
pub open spec fn context_line(date: Seq<char>, title: Seq<char>, content: Seq<char>) -> Seq<char> {
    "- ["@ + date + "] "@ + title + " — "@ + snippet_text(content) + "\n"@
}

/// The lines of the context block, one per entry, in the order given.
pub open spec fn context_lines(entries: Seq<(String, String, String)>) -> Seq<char>
    decreases entries.len(),
{
    if entries.len() == 0 {
        Seq::empty()
    } else {
        context_lines(entries.drop_last()) + context_line(
            entries.last().0@,
            entries.last().1@,
            entries.last().2@,
        )
    }
}

/// The context block: empty without entries, else a heading, the lines and
/// a blank line.
pub open spec fn context_block(entries: Seq<(String, String, String)>) -> Seq<char> {
    if entries.len() == 0 {
        Seq::empty()
    } else {
        "Context (journal snippets):\n"@ + context_lines(entries) + "\n"@
    }
}

/// The whole prompt for `question` over `entries`, each a triple of date,
/// title and content.
pub open spec fn journal_prompt_text(
    question: Seq<char>,
    entries: Seq<(String, String, String)>,
) -> Seq<char> {
    "System:\n"@ + system_prompt_text() + "\n\n"@ + context_block(entries) + "User question:\n"@
        + question + "\n\n"@
        + "Assistant (answer the question concisely, referencing the context when useful):\n"@
}

/// A snippet holds no line feed. Content within the limit is shown in
/// full length; longer content is shown as its first `SNIPPET_LIMIT`
/// characters and an ellipsis.
pub proof fn lemma_snippet_shape(content: Seq<char>)
    ensures
        forall|i: int| 0 <= i < snippet_text(content).len() ==> snippet_text(content)[i] != '\n',
        content.len() <= SNIPPET_LIMIT ==> snippet_text(content).len() == content.len(),
        content.len() > SNIPPET_LIMIT ==> {
            &&& snippet_text(content).len() == SNIPPET_LIMIT + 1
            &&& snippet_text(content).last() == '\u{2026}'
            &&& snippet_text(content).take(SNIPPET_LIMIT as int) == flatten_newlines(
                content.take(SNIPPET_LIMIT as int),
            )
        },
{
    reveal_strlit("…");
    if content.len() > SNIPPET_LIMIT {
        assert(snippet_text(content).take(SNIPPET_LIMIT as int) =~= flatten_newlines(
            content.take(SNIPPET_LIMIT as int),
        ));
    }
}

/// Two contexts hold the same texts in the same order.
pub open spec fn same_context(
    first: Seq<(String, String, String)>,
    second: Seq<(String, String, String)>,
) -> bool {
    &&& first.len() == second.len()
    &&& forall|i: int|
        0 <= i < first.len() ==> {
            &&& (#[trigger] first[i]).0@ == second[i].0@
            &&& first[i].1@ == second[i].1@
            &&& first[i].2@ == second[i].2@
        }
}

/// Contexts with the same texts give the same lines.
proof fn lemma_context_lines_determined(
    first: Seq<(String, String, String)>,
    second: Seq<(String, String, String)>,
)
    requires
        same_context(first, second),
    ensures
        context_lines(first) == context_lines(second),
    decreases first.len(),
{
    if first.len() > 0 {
        assert(first.last() == first[first.len() - 1]);
        assert(second.last() == second[second.len() - 1]);
        assert forall|i: int| 0 <= i < first.drop_last().len() implies {
            &&& (#[trigger] first.drop_last()[i]).0@ == second.drop_last()[i].0@
            &&& first.drop_last()[i].1@ == second.drop_last()[i].1@
            &&& first.drop_last()[i].2@ == second.drop_last()[i].2@
        } by {
            assert(first.drop_last()[i] == first[i]);
            assert(second.drop_last()[i] == second[i]);
        }
        lemma_context_lines_determined(first.drop_last(), second.drop_last());
    }
}

/// The prompt is determined by the question and the texts of the context:
/// the same inputs give the same prompt, character for character.
pub proof fn lemma_prompt_determined(
    question: Seq<char>,
    first: Seq<(String, String, String)>,
    second: Seq<(String, String, String)>,
)
    requires
        same_context(first, second),
    ensures
        journal_prompt_text(question, first) == journal_prompt_text(question, second),
{
    lemma_context_lines_determined(first, second);
}

/// Returns the persona instruction.
pub fn build_system_prompt() -> (prompt: String)
    ensures
        prompt@ == system_prompt_text(),
{
    String::from_str(
        "You are a helpful AI assistant for a personal journaling application. You help users reflect on their journal entries, find patterns in their thoughts, and provide gentle guidance for personal growth. Always be supportive, non-judgmental, and respect the user's privacy.",
    )
}

/// Renders the snippet of `content`.
pub fn build_snippet(content: &str) -> (snippet: String)
    ensures
        snippet@ == snippet_text(content@),
{
    let total = content.unicode_len();
    let shown: usize = if total > SNIPPET_LIMIT {
        SNIPPET_LIMIT
    } else {
        total
    };
    let mut snippet = String::new();
    let mut start: usize = 0;
    let mut i: usize = 0;
    while i < shown
        invariant
            start <= i <= shown <= content@.len(),
            snippet@ == flatten_newlines(content@.subrange(0, start as int)),
            forall|k: int| start <= k < i ==> content@[k] != '\n',
        decreases shown - i,
    {
        let c = content.get_char(i);
        if c == '\n' {
            let segment = content.substring_char(start, i);
            snippet.append(segment);
            snippet.append(" ");
            proof {
                reveal_strlit(" ");
                assert(snippet@ =~= flatten_newlines(content@.subrange(0, i + 1)));
            }
            start = i + 1;
        }
        i += 1;
    }
    let segment = content.substring_char(start, shown);
    snippet.append(segment);
    assert(snippet@ =~= flatten_newlines(content@.subrange(0, shown as int)));
    if total > SNIPPET_LIMIT {
        snippet.append("…");
    } else {
        assert(content@.subrange(0, shown as int) =~= content@);
    }
    snippet
}

/// Builds the prompt for `question` over `context_entries`, each a triple
/// of date, title and content.
pub fn build_journal_prompt(question: &str, context_entries: &[(String, String, String)]) -> (prompt:
    String)
    ensures
        prompt@ == journal_prompt_text(question@, context_entries@),
{
    let mut prompt = String::new();
    let system = build_system_prompt();
    prompt.append("System:\n");
    prompt.append(system.as_str());
    prompt.append("\n\n");
    assert(prompt@ =~= "System:\n"@ + system_prompt_text() + "\n\n"@);
    let ghost head = prompt@;
    if context_entries.len() > 0 {
        prompt.append("Context (journal snippets):\n");
        let mut i: usize = 0;
        while i < context_entries.len()
            invariant
                i <= context_entries@.len(),
                prompt@ == head + "Context (journal snippets):\n"@ + context_lines(
                    context_entries@.take(i as int),
                ),
            decreases context_entries@.len() - i,
        {
            let snippet = build_snippet(context_entries[i].2.as_str());
            let ghost before = prompt@;
            prompt.append("- [");
            prompt.append(context_entries[i].0.as_str());
            prompt.append("] ");
            prompt.append(context_entries[i].1.as_str());
            prompt.append(" — ");
            prompt.append(snippet.as_str());
            prompt.append("\n");
            proof {
                let entry = context_entries@[i as int];
                let next = context_entries@.take(i + 1);
                assert(next.drop_last() =~= context_entries@.take(i as int));
                assert(next.last() == entry);
                assert(prompt@ =~= before + context_line(entry.0@, entry.1@, entry.2@));
                assert(prompt@ =~= head + "Context (journal snippets):\n"@ + context_lines(next));
            }
            i += 1;
        }
        prompt.append("\n");
        proof {
            assert(context_entries@.take(i as int) =~= context_entries@);
            assert(prompt@ =~= head + context_block(context_entries@));
        }
    } else {
        assert(prompt@ =~= head + context_block(context_entries@));
    }
    let ghost body = prompt@;
    prompt.append("User question:\n");
    prompt.append(question);
    prompt.append("\n\n");
    prompt.append(
        "Assistant (answer the question concisely, referencing the context when useful):\n",
    );
    assert(prompt@ =~= journal_prompt_text(question@, context_entries@));
    prompt
}

} // verus!
