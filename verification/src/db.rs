//! Journal records, and the statements and rows by which they are stored.

use vstd::prelude::*;
use crate::error::RagError;
use crate::ident::fresh_id;
use crate::json::{json_of_tags, tags_from_json, tags_of_json, tags_to_json};
use crate::text::chars_of;
use crate::time::{
    current_time, format_rfc3339, parse_rfc3339, rfc3339_instant, rfc3339_of, Timestamp,
};

verus! {

/// Number of rows that a search or a history fetch returns where the
/// caller names none.
pub const DEFAULT_LIMIT: i32 = 50;

/// A journal entry.
#[derive(Debug, Clone)]
pub struct JournalEntry {
    pub id: String,
    pub user_id: String,
    pub title: String,
    pub body: String,
    pub created_at: Timestamp,
    pub updated_at: Timestamp,
    pub mood: Option<String>,
    pub tags: Option<Vec<String>>,
}

/// What a user hands in to create an entry.
#[derive(Debug, Clone)]
pub struct CreateEntryRequest {
    pub title: String,
    pub body: String,
    pub mood: Option<String>,
    pub tags: Option<Vec<String>>,
}

/// What a user hands in to change an entry: the fields that are present
/// replace the stored ones.
#[derive(Debug, Clone)]
pub struct UpdateEntryRequest {
    pub id: String,
    pub title: Option<String>,
    pub body: Option<String>,
    pub mood: Option<String>,
    pub tags: Option<Vec<String>>,
}

/// A search for entries.
#[derive(Debug, Clone)]
pub struct SearchRequest {
    pub query: String,
    pub limit: Option<i32>,
}

/// One message of a conversation. Messages are only ever added.
#[derive(Debug, Clone)]
pub struct ChatMessage {
    pub id: String,
    pub user_id: String,
    pub content: String,
    pub is_user: bool,
    /// RFC 3339 text of the moment the message was stored.
    pub created_at: String,
}

/// An entry as its row holds it: instants as RFC 3339 text, tags as JSON
/// text.
#[derive(Debug, Clone)]
pub struct EntryRow {
    pub id: String,
    pub user_id: String,
    pub title: String,
    pub body: String,
    pub created_at: String,
    pub updated_at: String,
    pub mood: Option<String>,
    pub tags: Option<String>,
}

/// A statement with the texts bound to its question marks, in their
/// order.
#[derive(Debug, Clone)]
pub struct Statement {
    pub sql: String,
    pub binds: Vec<String>,
}

/// The two queries of a lexical search, and the number of rows asked for.
#[derive(Debug, Clone)]
pub struct SearchPlan {
    /// The query as a phrase for the full-text index.
    pub phrase_query: String,
    /// The query as a pattern that matches it anywhere in a text.
    pub like_query: String,
    pub limit: i32,
}

/// The text of an optional field, as a list of none or one.
pub open spec fn present(field: Option<String>) -> Seq<Seq<char>> {
    match field {
        Some(text) => seq![text@],
        None => Seq::empty(),
    }
}

/// `clause` where `present` holds, else nothing.
pub open spec fn clause_if(present: bool, clause: Seq<char>) -> Seq<char> {
    if present {
        clause
    } else {
        Seq::empty()
    }
}

/// The statement that changes the entry of `request`: the time of the
/// change first, then one assignment for each field that is present.
pub open spec fn update_sql(request: UpdateEntryRequest) -> Seq<char> {
    "UPDATE entries SET updated_at = ?"@ + clause_if(request.title is Some, ", title = ?"@)
        + clause_if(request.body is Some, ", body = ?"@) + clause_if(
        request.mood is Some,
        ", mood = ?"@,
    ) + clause_if(request.tags is Some, ", tags = ?"@) + " WHERE id = ?"@
}

/// The JSON text of the tags of a request, where it has tags and they can
/// be written.
pub open spec fn tags_json(tags: Option<Vec<String>>) -> Option<Seq<char>> {
    match tags {
        Some(list) => json_of_tags(list.deep_view()),
        None => None,
    }
}

/// The texts bound to `update_sql`, with `now` as the time of the change
/// and `tags` as the JSON text of the tags.
pub open spec fn update_binds(request: UpdateEntryRequest, now: Seq<char>, tags: Option<Seq<char>>) -> Seq<
    Seq<char>,
> {
    seq![now] + present(request.title) + present(request.body) + present(request.mood) + (match tags {
        Some(text) => seq![text],
        None => Seq::empty(),
    }) + seq![request.id@]
}

/// `statement` changes the entry of `request` at the instant `now`.
pub open spec fn is_update_of(request: UpdateEntryRequest, now: Timestamp, statement: Statement) -> bool {
    &&& rfc3339_of(now.secs as int, now.nanos as int) is Some
    &&& statement.sql@ == update_sql(request)
    &&& statement.binds.deep_view() == update_binds(
        request,
        rfc3339_of(now.secs as int, now.nanos as int).unwrap(),
        tags_json(request.tags),
    )
}

/// The instant `now` has an RFC 3339 text, and the tags of `request`, if it
/// has any, a JSON text.
pub open spec fn update_can_be_written(request: UpdateEntryRequest, now: Timestamp) -> bool {
    &&& rfc3339_of(now.secs as int, now.nanos as int) is Some
    &&& request.tags is Some ==> tags_json(request.tags) is Some
}

/// Adds `text` to `binds`.
fn bind(binds: &mut Vec<String>, text: String)
    ensures
        final(binds).deep_view() == old(binds).deep_view().push(text@),
{
    let ghost before = binds.deep_view();
    binds.push(text);
    assert(binds.deep_view() =~= before.push(text@));
}

/// Builds the statement that changes the entry of `request` at the instant
/// `now`. Fails with `MalformedInput` exactly where the instant or the
/// tags cannot be written.
pub fn update_statement(request: &UpdateEntryRequest, now: Timestamp) -> (result: Result<
    Statement,
    RagError,
>)
    ensures
        match result {
            Ok(statement) => update_can_be_written(*request, now) && is_update_of(
                *request,
                now,
                statement,
            ),
            Err(error) => error == RagError::MalformedInput && !update_can_be_written(
                *request,
                now,
            ),
        },
{
    let now_text = match format_rfc3339(now) {
        Some(text) => text,
        None => {
            return Err(RagError::MalformedInput);
        },
    };
    let tags_text: Option<String> = match &request.tags {
        Some(list) => match tags_to_json(list) {
            Some(text) => Some(text),
            None => {
                return Err(RagError::MalformedInput);
            },
        },
        None => None,
    };
    let mut sql = String::from_str("UPDATE entries SET updated_at = ?");
    let mut binds: Vec<String> = Vec::new();
    assert(binds.deep_view() =~= Seq::<Seq<char>>::empty());
    bind(&mut binds, now_text);
    let ghost start = sql@;
    match &request.title {
        Some(title) => {
            sql.append(", title = ?");
            bind(&mut binds, title.clone());
        },
        None => {},
    }
    match &request.body {
        Some(body) => {
            sql.append(", body = ?");
            bind(&mut binds, body.clone());
        },
        None => {},
    }
    match &request.mood {
        Some(mood) => {
            sql.append(", mood = ?");
            bind(&mut binds, mood.clone());
        },
        None => {},
    }
    match tags_text {
        Some(text) => {
            sql.append(", tags = ?");
            bind(&mut binds, text);
        },
        None => {},
    }
    sql.append(" WHERE id = ?");
    bind(&mut binds, request.id.clone());
    proof {
        assert(sql@ =~= update_sql(*request));
        assert(binds.deep_view() =~= update_binds(
            *request,
            rfc3339_of(now.secs as int, now.nanos as int).unwrap(),
            tags_json(request.tags),
        ));
    }
    Ok(Statement { sql, binds })
}

/// `result` is what comes of building the statement that changes the entry
/// of `request` at the instant `now`: the statement, or `MalformedInput`
/// where the instant or the tags cannot be written.
pub open spec fn is_update_outcome(
    request: UpdateEntryRequest,
    now: Timestamp,
    result: Result<Statement, RagError>,
) -> bool {
    match result {
        Ok(statement) => update_can_be_written(request, now) && is_update_of(
            request,
            now,
            statement,
        ),
        Err(error) => error == RagError::MalformedInput && !update_can_be_written(request, now),
    }
}

/// Builds the statement that changes the entry of `request` now: what
/// `update_statement` gives for the present instant.
pub fn update_statement_now(request: &UpdateEntryRequest) -> (result: Result<Statement, RagError>)
    ensures
        exists|now: Timestamp| #[trigger] is_update_outcome(*request, now, result),
{
    let now = current_time();
    let result = update_statement(request, now);
    assert(is_update_outcome(*request, now, result));
    result
}

/// Makes the entry that `request` asks for, owned by `user_id`, under the
/// identifier `id` and written at `now`.
pub fn assemble_entry(id: String, user_id: &str, request: CreateEntryRequest, now: Timestamp) -> (entry:
    JournalEntry)
    ensures
        entry.id == id,
        entry.user_id@ == user_id@,
        entry.title == request.title,
        entry.body == request.body,
        entry.mood == request.mood,
        entry.tags == request.tags,
        entry.created_at == now,
        entry.updated_at == now,
{
    JournalEntry {
        id,
        user_id: String::from_str(user_id),
        title: request.title,
        body: request.body,
        created_at: now,
        updated_at: now,
        mood: request.mood,
        tags: request.tags,
    }
}

/// Makes the entry that `request` asks for, owned by `user_id`, under a
/// fresh identifier and written now.
pub fn prepare_entry(user_id: &str, request: CreateEntryRequest) -> (entry: JournalEntry)
    ensures
        entry.user_id@ == user_id@,
        entry.title == request.title,
        entry.body == request.body,
        entry.mood == request.mood,
        entry.tags == request.tags,
        entry.updated_at == entry.created_at,
{
    let id = fresh_id();
    let now = current_time();
    assemble_entry(id, user_id, request, now)
}

/// `row` holds `entry`.
pub open spec fn row_holds(row: EntryRow, entry: JournalEntry) -> bool {
    &&& row.id == entry.id
    &&& row.user_id == entry.user_id
    &&& row.title == entry.title
    &&& row.body == entry.body
    &&& row.mood == entry.mood
    &&& rfc3339_of(entry.created_at.secs as int, entry.created_at.nanos as int) == Some(
        row.created_at@,
    )
    &&& rfc3339_of(entry.updated_at.secs as int, entry.updated_at.nanos as int) == Some(
        row.updated_at@,
    )
    &&& match row.tags {
        Some(text) => tags_json(entry.tags) == Some(text@),
        None => entry.tags is None,
    }
}

/// Both instants of `entry` have an RFC 3339 text, and its tags, if it has
/// any, a JSON text.
pub open spec fn entry_can_be_written(entry: JournalEntry) -> bool {
    &&& rfc3339_of(entry.created_at.secs as int, entry.created_at.nanos as int) is Some
    &&& rfc3339_of(entry.updated_at.secs as int, entry.updated_at.nanos as int) is Some
    &&& entry.tags is Some ==> tags_json(entry.tags) is Some
}

/// Writes `entry` as a row. Fails with `MalformedInput` exactly where an
/// instant or the tags cannot be written.
pub fn entry_to_row(entry: JournalEntry) -> (result: Result<EntryRow, RagError>)
    ensures
        match result {
            Ok(row) => entry_can_be_written(entry) && row_holds(row, entry),
            Err(error) => error == RagError::MalformedInput && !entry_can_be_written(entry),
        },
{
    let created_at = match format_rfc3339(entry.created_at) {
        Some(text) => text,
        None => {
            return Err(RagError::MalformedInput);
        },
    };
    let updated_at = match format_rfc3339(entry.updated_at) {
        Some(text) => text,
        None => {
            return Err(RagError::MalformedInput);
        },
    };
    let tags: Option<String> = match &entry.tags {
        Some(list) => match tags_to_json(list) {
            Some(text) => Some(text),
            None => {
                return Err(RagError::MalformedInput);
            },
        },
        None => None,
    };
    Ok(
        EntryRow {
            id: entry.id,
            user_id: entry.user_id,
            title: entry.title,
            body: entry.body,
            created_at,
            updated_at,
            mood: entry.mood,
            tags,
        },
    )
}

/// The tags that the stored text `tags` holds: none where there is no
/// text, and none where the text is no JSON list of strings.
pub open spec fn stored_tags(tags: Option<String>) -> Option<Seq<Seq<char>>> {
    match tags {
        Some(text) => tags_of_json(text@),
        None => None,
    }
}

/// `entry` is what `row` holds.
pub open spec fn entry_of_row(row: EntryRow, entry: JournalEntry) -> bool {
    &&& entry.id == row.id
    &&& entry.user_id == row.user_id
    &&& entry.title == row.title
    &&& entry.body == row.body
    &&& entry.mood == row.mood
    &&& rfc3339_instant(row.created_at@) == Some(
        (entry.created_at.secs as int, entry.created_at.nanos as int),
    )
    &&& rfc3339_instant(row.updated_at@) == Some(
        (entry.updated_at.secs as int, entry.updated_at.nanos as int),
    )
    &&& match entry.tags {
        Some(list) => stored_tags(row.tags) == Some(list.deep_view()),
        None => stored_tags(row.tags) is None,
    }
}

/// Both instants of `row` are RFC 3339 texts.
pub open spec fn row_can_be_read(row: EntryRow) -> bool {
    &&& rfc3339_instant(row.created_at@) is Some
    &&& rfc3339_instant(row.updated_at@) is Some
}

/// Reads the entry that `row` holds. Tags that cannot be read are left
/// out. Fails with `MalformedInput` exactly where an instant cannot be
/// read.
pub fn row_to_entry(row: EntryRow) -> (result: Result<JournalEntry, RagError>)
    ensures
        match result {
            Ok(entry) => row_can_be_read(row) && entry_of_row(row, entry),
            Err(error) => error == RagError::MalformedInput && !row_can_be_read(row),
        },
{
    let tags: Option<Vec<String>> = match &row.tags {
        Some(text) => tags_from_json(text.as_str()),
        None => None,
    };
    let created_at = match parse_rfc3339(row.created_at.as_str()) {
        Some(at) => at,
        None => {
            return Err(RagError::MalformedInput);
        },
    };
    let updated_at = match parse_rfc3339(row.updated_at.as_str()) {
        Some(at) => at,
        None => {
            return Err(RagError::MalformedInput);
        },
    };
    Ok(
        JournalEntry {
            id: row.id,
            user_id: row.user_id,
            title: row.title,
            body: row.body,
            created_at,
            updated_at,
            mood: row.mood,
            tags,
        },
    )
}

/// The number of rows to ask for: `limit`, or `DEFAULT_LIMIT` without one.
pub fn row_limit(limit: Option<i32>) -> (rows: i32)
    ensures
        rows == match limit {
            Some(n) => n,
            None => DEFAULT_LIMIT,
        },
{
    match limit {
        Some(n) => n,
        None => DEFAULT_LIMIT,
    }
}

/// `text` with every double quote written twice.
pub open spec fn doubled_quotes(text: Seq<char>) -> Seq<char>
    decreases text.len(),
{
    if text.len() == 0 {
        Seq::empty()
    } else if text.last() == '"' {
        doubled_quotes(text.drop_last()) + seq!['"', '"']
    } else {
        doubled_quotes(text.drop_last()) + seq![text.last()]
    }
}

/// The query as one phrase for the full-text index: between double
/// quotes, its own double quotes written twice.
pub open spec fn phrase_of(query: Seq<char>) -> Seq<char> {
    seq!['"'] + doubled_quotes(query) + seq!['"']
}

/// A stretch without double quotes is taken over as it is.
proof fn lemma_doubled_stretch(text: Seq<char>, from: int, to: int)
    requires
        0 <= from <= to <= text.len(),
        forall|k: int| from <= k < to ==> text[k] != '"',
    ensures
        doubled_quotes(text.take(to)) == doubled_quotes(text.take(from)) + text.subrange(from, to),
    decreases to - from,
{
    if from == to {
        assert(doubled_quotes(text.take(from)) + text.subrange(from, to) =~= doubled_quotes(
            text.take(from),
        ));
    } else {
        lemma_doubled_stretch(text, from, to - 1);
        assert(text.take(to).drop_last() =~= text.take(to - 1));
        assert(text.take(to).last() == text[to - 1]);
        assert(doubled_quotes(text.take(from)) + text.subrange(from, to - 1) + seq![text[to - 1]]
            =~= doubled_quotes(text.take(from)) + text.subrange(from, to));
    }
}

/// Writes `query` as one phrase for the full-text index.
pub fn phrase_query(query: &str) -> (phrase: String)
    ensures
        phrase@ == phrase_of(query@),
{
    let chars = chars_of(query);
    let n = chars.len();
    let mut phrase = String::from_str("\"");
    let mut start: usize = 0;
    let mut i: usize = 0;
    proof {
        reveal_strlit("\"");
        assert(query@.take(0) =~= Seq::<char>::empty());
        assert(phrase@ =~= seq!['"'] + doubled_quotes(query@.take(0)));
    }
    while i < n
        invariant
            chars@ == query@,
            n == chars@.len(),
            start <= i <= n,
            phrase@ == seq!['"'] + doubled_quotes(query@.take(start as int)),
            forall|k: int| start <= k < i ==> query@[k] != '"',
        decreases n - i,
    {
        if chars[i] == '"' {
            let ghost before = phrase@;
            phrase.append(query.substring_char(start, i));
            phrase.append("\"");
            phrase.append("\"");
            proof {
                reveal_strlit("\"");
                lemma_doubled_stretch(query@, start as int, i as int);
                assert(query@.take(i + 1).drop_last() =~= query@.take(i as int));
                assert(query@.take(i + 1).last() == '"');
                assert(phrase@ =~= seq!['"'] + doubled_quotes(query@.take(i + 1)));
            }
            start = i + 1;
        }
        i += 1;
    }
    phrase.append(query.substring_char(start, n));
    phrase.append("\"");
    proof {
        reveal_strlit("\"");
        lemma_doubled_stretch(query@, start as int, n as int);
        assert(query@.take(n as int) =~= query@);
        assert(phrase@ =~= phrase_of(query@));
    }
    phrase
}

/// Lays out a lexical search: the query as one phrase for the full-text
/// index, and between percent signs for the substring match.
pub fn search_plan(request: &SearchRequest) -> (plan: SearchPlan)
    ensures
        plan.phrase_query@ == phrase_of(request.query@),
        plan.like_query@ == "%"@ + request.query@ + "%"@,
        plan.limit == match request.limit {
            Some(n) => n,
            None => DEFAULT_LIMIT,
        },
{
    let phrase_query = phrase_query(request.query.as_str());
    let mut like_query = String::from_str("%");
    like_query.append(request.query.as_str());
    like_query.append("%");
    SearchPlan { phrase_query, like_query, limit: row_limit(request.limit) }
}

/// What follows the full-text query of a lexical search.
#[derive(Clone, Copy, Debug, PartialEq, Eq, Structural)]
pub enum SearchStep {
    /// The query found rows: they are the result.
    UsePrimary,
    /// The query found nothing: the substring match runs.
    Fallback,
    /// The store failed: the search fails with it.
    Fail,
}

/// Tells what follows the full-text query, given its outcome. The
/// substring match runs only where the query found no rows; a failure of
/// the store is no empty result.
pub fn after_primary<T>(primary: &Result<Vec<T>, RagError>) -> (step: SearchStep)
    ensures
        step == match primary {
            Ok(rows) => if rows@.len() == 0 {
                SearchStep::Fallback
            } else {
                SearchStep::UsePrimary
            },
            Err(_) => SearchStep::Fail,
        },
{
    match primary {
        Ok(rows) => {
            if rows.len() == 0 {
                SearchStep::Fallback
            } else {
                SearchStep::UsePrimary
            }
        },
        Err(_) => SearchStep::Fail,
    }
}

/// Makes the message with `content` of `user_id`, under the identifier
/// `id` and stored at the moment with the RFC 3339 text `created_at`.
pub fn assemble_chat_message(
    id: String,
    user_id: &str,
    content: &str,
    is_user: bool,
    created_at: String,
) -> (message: ChatMessage)
    ensures
        message.id == id,
        message.user_id@ == user_id@,
        message.content@ == content@,
        message.is_user == is_user,
        message.created_at == created_at,
{
    ChatMessage {
        id,
        user_id: String::from_str(user_id),
        content: String::from_str(content),
        is_user,
        created_at,
    }
}

/// Makes the message with `content` of `user_id`, under a fresh identifier
/// and stored now: the message of `chat_message_at` for the present
/// instant. There is none exactly where that instant has no RFC 3339 text.
pub fn prepare_chat_message(user_id: &str, content: &str, is_user: bool) -> (message: Option<
    ChatMessage,
>)
    ensures
        exists|now: Timestamp| #[trigger]
            is_chat_message_at(user_id@, content@, is_user, now, message),
{
    let id = fresh_id();
    let now = current_time();
    let message = chat_message_at(id, user_id, content, is_user, now);
    assert(is_chat_message_at(user_id@, content@, is_user, now, message));
    message
}

/// `message` is what comes of storing `content` of `user_id` at the
/// instant `now`: a message with these fields and the RFC 3339 text of
/// `now`, or none where `now` has no such text.
pub open spec fn is_chat_message_at(
    user_id: Seq<char>,
    content: Seq<char>,
    is_user: bool,
    now: Timestamp,
    message: Option<ChatMessage>,
) -> bool {
    match message {
        Some(made) => {
            &&& made.user_id@ == user_id
            &&& made.content@ == content
            &&& made.is_user == is_user
            &&& rfc3339_of(now.secs as int, now.nanos as int) == Some(made.created_at@)
        },
        None => rfc3339_of(now.secs as int, now.nanos as int) is None,
    }
}

/// Makes the message with `content` of `user_id`, under the identifier
/// `id` and stored at the instant `now`. There is none exactly where `now`
/// has no RFC 3339 text.
pub fn chat_message_at(
    id: String,
    user_id: &str,
    content: &str,
    is_user: bool,
    now: Timestamp,
) -> (message: Option<ChatMessage>)
    ensures
        is_chat_message_at(user_id@, content@, is_user, now, message),
        message matches Some(made) ==> made.id == id,
{
    match format_rfc3339(now) {
        Some(created_at) => Some(assemble_chat_message(id, user_id, content, is_user, created_at)),
        None => None,
    }
}

/// Turns messages fetched newest first into the order in which they were
/// written.
pub fn chronological(messages: Vec<ChatMessage>) -> (ordered: Vec<ChatMessage>)
    ensures
        ordered@ == messages@.reverse(),
{
    let mut remaining = messages;
    let mut ordered: Vec<ChatMessage> = Vec::new();
    while remaining.len() > 0
        invariant
            remaining@.len() <= messages@.len(),
            remaining@ == messages@.take(remaining@.len() as int),
            ordered@ == messages@.skip(remaining@.len() as int).reverse(),
        decreases remaining@.len(),
    {
        let ghost before = remaining@;
        match remaining.pop() {
            Some(message) => {
                ordered.push(message);
                proof {
                    assert(remaining@ =~= messages@.take(remaining@.len() as int));
                    assert(ordered@ =~= messages@.skip(remaining@.len() as int).reverse());
                }
            },
            None => {},
        }
    }
    proof {
        assert(messages@.skip(0) =~= messages@);
    }
    ordered
}

} // verus!
