//! The course of one query, from the question to the answer.
//!
//! The engine does no outside work itself. `query_step` takes what the
//! outside reports and says what is to be done next; the caller does it and
//! reports back.

use vstd::prelude::*;
use crate::error::RagError;
use crate::llm::{build_journal_prompt, journal_prompt_text};
use crate::rag::{
    combine_and_rerank, is_fused, is_fused_ranking, lexical_counts, semantic_counts, RagResponse,
    RetrievedDocument,
};

verus! {

/// Number of tokens that the generative model may spend on an answer.
pub const ANSWER_TOKENS: usize = 512;

/// Where a query stands.
#[derive(Debug)]
pub enum QueryState {
    /// The question has come in.
    Received { user_id: String, question: String, max_results: usize },
    /// Both retrievers are at work.
    Retrieving { user_id: String, question: String, max_results: usize },
    /// Both result lists are in and wait to be fused.
    Fusing {
        user_id: String,
        question: String,
        max_results: usize,
        lexical: Vec<RetrievedDocument>,
        semantic: Vec<RetrievedDocument>,
    },
    /// The sources are ranked and wait to be laid out in a prompt.
    PromptReady { user_id: String, question: String, sources: Vec<RetrievedDocument> },
    /// The generative model is at work.
    Generating { user_id: String, question: String, sources: Vec<RetrievedDocument> },
    /// The answer has gone out.
    Completed,
    /// The query has failed.
    Failed { error: RagError },
}

/// What the outside reports to a query.
#[derive(Debug)]
pub enum QueryEvent {
    /// Nothing new: the query may go on by itself.
    Tick,
    /// Both retrievers have answered.
    Retrieved { lexical: Vec<RetrievedDocument>, semantic: Vec<RetrievedDocument> },
    /// The store failed during retrieval.
    StoreFailed,
    /// The generative model has answered.
    Generated { answer: String },
    /// The generative model gave no answer, or none in time.
    GenerationFailed { timed_out: bool },
}

/// What a query asks of the outside next.
#[derive(Debug)]
pub enum QueryAction {
    /// Run the lexical and the semantic retriever, each for `limit`
    /// results, and report `Retrieved` or `StoreFailed`.
    Retrieve { user_id: String, query: String, limit: usize },
    /// Report `Tick`.
    Continue,
    /// Add `user_message` to the conversation of `user_id`, then have
    /// `prompt` answered within `max_tokens` and report `Generated` or
    /// `GenerationFailed`. A message that cannot be stored is logged and
    /// holds nothing up.
    Generate { user_id: String, user_message: String, prompt: String, max_tokens: usize },
    /// Add the answer to the conversation of `user_id`, in the same way,
    /// and hand `response` to the caller.
    Respond { user_id: String, response: RagResponse },
    /// Hand `error` to the caller, together with the sources that had been
    /// found by then.
    Abort { error: RagError, sources: Vec<RetrievedDocument> },
    /// The event does not belong here; nothing changes.
    Ignore,
}

/// Number of results asked of each retriever for a query that is to show
/// `max_results`: twice as many, as far as `usize` goes.
pub open spec fn retrieval_limit(max_results: usize) -> usize {
    if max_results > usize::MAX / 2 {
        usize::MAX
    } else {
        (max_results * 2) as usize
    }
}

/// The context that `sources` give to a prompt: date, title and content of
/// each, in their order.
pub open spec fn context_of(sources: Seq<RetrievedDocument>) -> Seq<(String, String, String)> {
    Seq::new(sources.len(), |i: int| (sources[i].date, sources[i].title, sources[i].content))
}

/// The failure that a generative model without an answer stands for.
pub open spec fn generation_error(timed_out: bool) -> RagError {
    if timed_out {
        RagError::GenerationTimeout
    } else {
        RagError::GenerationUnavailable
    }
}

/// `next` and `action` are what follows `state` on `event`.
///
/// A question that is not empty is retrieved for, the two result lists are
/// fused and cut to the number of results asked for, the prompt is laid
/// out over the fused sources, and the answer goes out with them. An empty
/// question fails as malformed, a failing store fails the query, and a
/// failing model fails it with the sources kept. Any other event leaves
/// the state as it is.
pub open spec fn follows(
    state: QueryState,
    event: QueryEvent,
    next: QueryState,
    action: QueryAction,
) -> bool {
    match (state, event) {
        (QueryState::Received { user_id, question, max_results }, QueryEvent::Tick) => {
            if question@.len() == 0 {
                &&& next == (QueryState::Failed { error: RagError::MalformedInput })
                &&& action matches QueryAction::Abort { error, sources }
                &&& error == RagError::MalformedInput
                &&& sources@.len() == 0
            } else {
                &&& next == (QueryState::Retrieving { user_id, question, max_results })
                &&& action == (QueryAction::Retrieve {
                    user_id,
                    query: question,
                    limit: retrieval_limit(max_results),
                })
            }
        },
        (
            QueryState::Retrieving { user_id, question, max_results },
            QueryEvent::Retrieved { lexical, semantic },
        ) => {
            &&& next == (QueryState::Fusing { user_id, question, max_results, lexical, semantic })
            &&& action is Continue
        },
        (QueryState::Retrieving { user_id, question, max_results }, QueryEvent::StoreFailed) => {
            &&& next == (QueryState::Failed { error: RagError::StoreUnavailable })
            &&& action matches QueryAction::Abort { error, sources }
            &&& error == RagError::StoreUnavailable
            &&& sources@.len() == 0
        },
        (
            QueryState::Fusing { user_id, question, max_results, lexical, semantic },
            QueryEvent::Tick,
        ) => {
            &&& next matches QueryState::PromptReady { user_id: owner, question: asked, sources }
            &&& owner == user_id
            &&& asked == question
            &&& is_fused_ranking(lexical@, semantic@, max_results as int, sources@)
            &&& action is Continue
        },
        (QueryState::PromptReady { user_id, question, sources }, QueryEvent::Tick) => {
            &&& next == (QueryState::Generating { user_id, question, sources })
            &&& action matches QueryAction::Generate {
                user_id: owner,
                user_message,
                prompt,
                max_tokens,
            }
            &&& owner == user_id
            &&& user_message == question
            &&& prompt@ == journal_prompt_text(question@, context_of(sources@))
            &&& max_tokens == ANSWER_TOKENS
        },
        (QueryState::Generating { user_id, question, sources }, QueryEvent::Generated { answer }) => {
            &&& next is Completed
            &&& action == (QueryAction::Respond {
                user_id,
                response: RagResponse { answer, sources, query: question },
            })
        },
        (
            QueryState::Generating { user_id, question, sources },
            QueryEvent::GenerationFailed { timed_out },
        ) => {
            &&& next == (QueryState::Failed { error: generation_error(timed_out) })
            &&& action == (QueryAction::Abort { error: generation_error(timed_out), sources })
        },
        _ => next == state && action is Ignore,
    }
}

/// Starts a query of `user_id` for `question` that is to show at most
/// `max_results` sources.
pub fn begin_query(user_id: &str, question: &str, max_results: usize) -> (state: QueryState)
    ensures
        state matches QueryState::Received { user_id: owner, question: asked, max_results: shown }
            && owner@ == user_id@ && asked@ == question@ && shown == max_results,
{
    QueryState::Received {
        user_id: String::from_str(user_id),
        question: String::from_str(question),
        max_results,
    }
}

/// Computes `retrieval_limit`.
fn double_limit(max_results: usize) -> (limit: usize)
    ensures
        limit == retrieval_limit(max_results),
{
    if max_results > usize::MAX / 2 {
        usize::MAX
    } else {
        max_results * 2
    }
}

/// Lists date, title and content of each source.
pub fn context_entries(sources: &Vec<RetrievedDocument>) -> (context: Vec<(String, String, String)>)
    ensures
        context@ == context_of(sources@),
{
    let mut context: Vec<(String, String, String)> = Vec::new();
    let mut i: usize = 0;
    while i < sources.len()
        invariant
            i <= sources@.len(),
            context@ == context_of(sources@.take(i as int)),
        decreases sources@.len() - i,
    {
        let ghost before = context@;
        context.push((sources[i].date.clone(), sources[i].title.clone(), sources[i].content.clone()));
        proof {
            assert(context@ =~= context_of(sources@.take(i + 1)));
        }
        i += 1;
    }
    proof {
        assert(sources@.take(i as int) =~= sources@);
    }
    context
}

/// Takes `event` into the query that stands at `state`.
pub fn query_step(state: QueryState, event: QueryEvent) -> (result: (QueryState, QueryAction))
    ensures
        follows(state, event, result.0, result.1),
{
    match (state, event) {
        (QueryState::Received { user_id, question, max_results }, QueryEvent::Tick) => {
            if question.as_str().unicode_len() == 0 {
                (
                    QueryState::Failed { error: RagError::MalformedInput },
                    QueryAction::Abort { error: RagError::MalformedInput, sources: Vec::new() },
                )
            } else {
                let action = QueryAction::Retrieve {
                    user_id: user_id.clone(),
                    query: question.clone(),
                    limit: double_limit(max_results),
                };
                (QueryState::Retrieving { user_id, question, max_results }, action)
            }
        },
        (
            QueryState::Retrieving { user_id, question, max_results },
            QueryEvent::Retrieved { lexical, semantic },
        ) => (
            QueryState::Fusing { user_id, question, max_results, lexical, semantic },
            QueryAction::Continue,
        ),
        (QueryState::Retrieving { user_id, question, max_results }, QueryEvent::StoreFailed) => (
            QueryState::Failed { error: RagError::StoreUnavailable },
            QueryAction::Abort { error: RagError::StoreUnavailable, sources: Vec::new() },
        ),
        (
            QueryState::Fusing { user_id, question, max_results, lexical, semantic },
            QueryEvent::Tick,
        ) => {
            let sources = combine_and_rerank(lexical, semantic, max_results);
            (QueryState::PromptReady { user_id, question, sources }, QueryAction::Continue)
        },
        (QueryState::PromptReady { user_id, question, sources }, QueryEvent::Tick) => {
            let context = context_entries(&sources);
            let prompt = build_journal_prompt(question.as_str(), context.as_slice());
            let action = QueryAction::Generate {
                user_id: user_id.clone(),
                user_message: question.clone(),
                prompt,
                max_tokens: ANSWER_TOKENS,
            };
            (QueryState::Generating { user_id, question, sources }, action)
        },
        (QueryState::Generating { user_id, question, sources }, QueryEvent::Generated { answer }) => (
            QueryState::Completed,
            QueryAction::Respond {
                user_id,
                response: RagResponse { answer, sources, query: question },
            },
        ),
        (
            QueryState::Generating { user_id, question, sources },
            QueryEvent::GenerationFailed { timed_out },
        ) => {
            let error = if timed_out {
                RagError::GenerationTimeout
            } else {
                RagError::GenerationUnavailable
            };
            (QueryState::Failed { error }, QueryAction::Abort { error, sources })
        },
        (state, _) => (state, QueryAction::Ignore),
    }
}

/// Two empty result lists fuse into an empty ranking.
pub proof fn lemma_nothing_fuses_to_nothing(
    lexical: Seq<RetrievedDocument>,
    semantic: Seq<RetrievedDocument>,
    limit: int,
    out: Seq<RetrievedDocument>,
)
    requires
        lexical.len() == 0,
        semantic.len() == 0,
        is_fused_ranking(lexical, semantic, limit, out),
    ensures
        out.len() == 0,
{
    if out.len() > 0 {
        assert(is_fused(lexical, semantic, out[0]));
        assert(forall|i: int| !lexical_counts(lexical, i));
        assert(forall|j: int| !semantic_counts(lexical, semantic, j));
    }
}

/// A question that is not empty and for which nothing is found is still
/// answered once the generative model answers: the query completes, and
/// the response holds the model's answer, the question and no sources.
pub proof fn lemma_no_match_is_answered(
    received: QueryState,
    retrieving: QueryState,
    fusing: QueryState,
    ready: QueryState,
    generating: QueryState,
    last: QueryState,
    first_action: QueryAction,
    second_action: QueryAction,
    third_action: QueryAction,
    fourth_action: QueryAction,
    last_action: QueryAction,
    lexical: Vec<RetrievedDocument>,
    semantic: Vec<RetrievedDocument>,
    answer: String,
)
    requires
        received matches QueryState::Received { question, .. } && question@.len() > 0,
        lexical@.len() == 0,
        semantic@.len() == 0,
        follows(received, QueryEvent::Tick, retrieving, first_action),
        follows(retrieving, QueryEvent::Retrieved { lexical, semantic }, fusing, second_action),
        follows(fusing, QueryEvent::Tick, ready, third_action),
        follows(ready, QueryEvent::Tick, generating, fourth_action),
        follows(generating, QueryEvent::Generated { answer }, last, last_action),
    ensures
        last is Completed,
        last_action matches QueryAction::Respond { response, .. } && response.answer == answer
            && response.sources@.len() == 0 && response.query == received->Received_question,
{
    let max_results = received->Received_max_results;
    lemma_nothing_fuses_to_nothing(
        lexical@,
        semantic@,
        max_results as int,
        ready->PromptReady_sources@,
    );
}

/// Where the generative model fails, the caller gets the failure together
/// with the very sources that had been fused.
pub proof fn lemma_failed_generation_keeps_sources(
    generating: QueryState,
    timed_out: bool,
    next: QueryState,
    action: QueryAction,
)
    requires
        generating is Generating,
        follows(generating, QueryEvent::GenerationFailed { timed_out }, next, action),
    ensures
        next is Failed,
        action matches QueryAction::Abort { sources, .. } && sources
            == generating->Generating_sources,
{
}

} // verus!
