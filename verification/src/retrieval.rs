//! From what the store holds to the result lists of the two retrievers.

use vstd::prelude::*;
use crate::db::JournalEntry;
use crate::error::RagError;
use crate::rag::{RetrievedDocument, SCORE_ONE};
use crate::time::{calendar_date, format_date};

verus! {

/// `doc` presents `entry` as a lexical result: the entry's id, title and
/// body, the calendar date on which it was created, the score 1.0 until
/// fusion sets another, and no chunk.
pub open spec fn presents(entry: JournalEntry, doc: RetrievedDocument) -> bool {
    &&& doc.entry_id == entry.id
    &&& doc.title == entry.title
    &&& doc.content == entry.body
    &&& calendar_date(entry.created_at.secs as int, entry.created_at.nanos as int) == Some(
        doc.date@,
    )
    &&& doc.score == SCORE_ONE
    &&& doc.chunk_id is None
}

/// The instant at which `entry` was created has a calendar date.
pub open spec fn is_dated(entry: JournalEntry) -> bool {
    calendar_date(entry.created_at.secs as int, entry.created_at.nanos as int) is Some
}

/// Presents `entry` as a lexical result. There is none exactly where the
/// entry has no calendar date.
pub fn keyword_document(entry: &JournalEntry) -> (result: Option<RetrievedDocument>)
    ensures
        match result {
            Some(doc) => presents(*entry, doc),
            None => !is_dated(*entry),
        },
{
    match format_date(entry.created_at) {
        Some(date) => Some(
            RetrievedDocument {
                entry_id: entry.id.clone(),
                title: entry.title.clone(),
                content: entry.body.clone(),
                date,
                score: SCORE_ONE,
                chunk_id: None,
            },
        ),
        None => None,
    }
}

/// Presents the entries that a lexical search found, in their order.
/// Fails with `MalformedInput` exactly where an entry has no calendar
/// date.
pub fn keyword_documents(entries: &Vec<JournalEntry>) -> (result: Result<
    Vec<RetrievedDocument>,
    RagError,
>)
    ensures
        match result {
            Ok(docs) => {
                &&& docs@.len() == entries@.len()
                &&& forall|i: int| 0 <= i < docs@.len() ==> presents(entries@[i], #[trigger] docs@[i])
            },
            Err(error) => {
                &&& error == RagError::MalformedInput
                &&& exists|i: int| 0 <= i < entries@.len() && !is_dated(#[trigger] entries@[i])
            },
        },
{
    let mut docs: Vec<RetrievedDocument> = Vec::new();
    let mut i: usize = 0;
    while i < entries.len()
        invariant
            i <= entries@.len(),
            docs@.len() == i,
            forall|k: int| 0 <= k < i ==> presents(entries@[k], #[trigger] docs@[k]),
        decreases entries@.len() - i,
    {
        match keyword_document(&entries[i]) {
            Some(doc) => {
                docs.push(doc);
            },
            None => {
                assert(!is_dated(entries@[i as int]));
                return Err(RagError::MalformedInput);
            },
        }
        i += 1;
    }
    Ok(docs)
}

/// The entries among `entries` that `owner` owns, in their order.
pub open spec fn owned_entries(entries: Seq<JournalEntry>, owner: Seq<char>) -> Seq<JournalEntry>
    decreases entries.len(),
{
    if entries.len() == 0 {
        Seq::empty()
    } else if entries.last().user_id@ == owner {
        owned_entries(entries.drop_last(), owner).push(entries.last())
    } else {
        owned_entries(entries.drop_last(), owner)
    }
}

/// The entries that a lexical search of `owner` shows out of what the
/// store found: those that `owner` owns, in their order, `limit` at most.
pub open spec fn shown_entries(entries: Seq<JournalEntry>, owner: Seq<char>, limit: int) -> Seq<
    JournalEntry,
> {
    let owned = owned_entries(entries, owner);
    if owned.len() <= limit {
        owned
    } else {
        owned.take(limit)
    }
}

/// What is owned among the first `upto` entries stands first among what is
/// owned of all.
proof fn lemma_owned_prefix(entries: Seq<JournalEntry>, owner: Seq<char>, upto: int)
    requires
        0 <= upto <= entries.len(),
    ensures
        owned_entries(entries.take(upto), owner).len() <= owned_entries(entries, owner).len(),
        owned_entries(entries.take(upto), owner) == owned_entries(entries, owner).take(
            owned_entries(entries.take(upto), owner).len() as int,
        ),
    decreases entries.len(),
{
    if upto == entries.len() {
        assert(entries.take(upto) =~= entries);
        assert(owned_entries(entries, owner).take(owned_entries(entries, owner).len() as int)
            =~= owned_entries(entries, owner));
    } else {
        let shorter = entries.drop_last();
        assert(shorter.take(upto) =~= entries.take(upto));
        lemma_owned_prefix(shorter, owner, upto);
        let part = owned_entries(entries.take(upto), owner);
        assert(owned_entries(shorter, owner).take(part.len() as int) =~= owned_entries(
            entries,
            owner,
        ).take(part.len() as int));
    }
}

/// Presents what a lexical search of `user_id` found: the entries of that
/// owner among `entries`, in their order and `limit` at most. Entries of
/// another owner are never shown. Fails with `MalformedInput` exactly
/// where an entry that would be shown has no calendar date.
pub fn keyword_results(user_id: &str, entries: &Vec<JournalEntry>, limit: usize) -> (result: Result<
    Vec<RetrievedDocument>,
    RagError,
>)
    ensures
        match result {
            Ok(docs) => {
                let shown = shown_entries(entries@, user_id@, limit as int);
                &&& docs@.len() == shown.len()
                &&& forall|i: int| 0 <= i < docs@.len() ==> presents(shown[i], #[trigger] docs@[i])
            },
            Err(error) => {
                let shown = shown_entries(entries@, user_id@, limit as int);
                &&& error == RagError::MalformedInput
                &&& exists|i: int| 0 <= i < shown.len() && !is_dated(#[trigger] shown[i])
            },
        },
{
    let owner = String::from_str(user_id);
    let mut docs: Vec<RetrievedDocument> = Vec::new();
    let mut i: usize = 0;
    proof {
        assert(entries@.take(0) =~= Seq::<JournalEntry>::empty());
    }
    while i < entries.len()
        invariant
            i <= entries@.len(),
            owner@ == user_id@,
            docs@.len() <= limit,
            docs@.len() == shown_entries(entries@.take(i as int), user_id@, limit as int).len(),
            forall|k: int|
                0 <= k < docs@.len() ==> presents(
                    owned_entries(entries@.take(i as int), user_id@)[k],
                    #[trigger] docs@[k],
                ),
        decreases entries@.len() - i,
    {
        let ghost before = owned_entries(entries@.take(i as int), user_id@);
        proof {
            let next = entries@.take(i + 1);
            assert(next.drop_last() =~= entries@.take(i as int));
            assert(next.last() == entries@[i as int]);
        }
        if entries[i].user_id == owner && docs.len() < limit {
            match keyword_document(&entries[i]) {
                Some(doc) => {
                    docs.push(doc);
                },
                None => {
                    proof {
                        let part = owned_entries(entries@.take(i + 1), user_id@);
                        lemma_owned_prefix(entries@, user_id@, i + 1);
                        let shown = shown_entries(entries@, user_id@, limit as int);
                        assert(part[before.len() as int] == entries@[i as int]);
                        assert(shown[before.len() as int] == entries@[i as int]);
                        assert(!is_dated(shown[before.len() as int]));
                    }
                    return Err(RagError::MalformedInput);
                },
            }
        }
        i += 1;
    }
    proof {
        assert(entries@.take(i as int) =~= entries@);
    }
    Ok(docs)
}

/// Position `i` is ranked before position `j`: by the higher score, and
/// among equal scores by the earlier position.
pub open spec fn precedes(scores: Seq<i64>, i: int, j: int) -> bool {
    scores[i] > scores[j] || (scores[i] == scores[j] && i < j)
}

/// `order` lists the positions of the best `limit` of `scores`, best
/// first: positions of `scores` only, in ranking order, and whatever
/// position is left out is ranked after all of a full list.
pub open spec fn is_top_order(scores: Seq<i64>, limit: int, order: Seq<usize>) -> bool {
    &&& order.len() <= limit
    &&& forall|k: int| 0 <= k < order.len() ==> (#[trigger] order[k]) < scores.len()
    &&& forall|a: int, b: int|
        0 <= a < b < order.len() ==> precedes(
            scores,
            (#[trigger] order[a]) as int,
            (#[trigger] order[b]) as int,
        )
    &&& forall|j: int|
        0 <= j < scores.len() && !(#[trigger] order.contains(j as usize)) ==> {
            &&& order.len() == limit
            &&& forall|k: int|
                0 <= k < order.len() ==> precedes(scores, (#[trigger] order[k]) as int, j)
        }
}

/// Finds the position that is ranked before all others not yet taken.
fn best_open_position(scores: &Vec<i64>, taken: &Vec<bool>) -> (best: Option<usize>)
    requires
        taken@.len() == scores@.len(),
    ensures
        match best {
            Some(b) => {
                &&& b < scores@.len()
                &&& !taken@[b as int]
                &&& forall|k: int|
                    0 <= k < scores@.len() && !(#[trigger] taken@[k]) && k != b ==> precedes(
                        scores@,
                        b as int,
                        k,
                    )
            },
            None => forall|k: int| 0 <= k < scores@.len() ==> #[trigger] taken@[k],
        },
{
    let mut best: Option<usize> = None;
    let mut j: usize = 0;
    while j < scores.len()
        invariant
            j <= scores@.len(),
            taken@.len() == scores@.len(),
            match best {
                Some(b) => {
                    &&& b < j
                    &&& !taken@[b as int]
                    &&& forall|k: int|
                        0 <= k < j && !(#[trigger] taken@[k]) && k != b ==> precedes(
                            scores@,
                            b as int,
                            k,
                        )
                },
                None => forall|k: int| 0 <= k < j ==> #[trigger] taken@[k],
            },
        decreases scores@.len() - j,
    {
        if !taken[j] {
            match best {
                Some(b) => {
                    if scores[j] > scores[b] {
                        best = Some(j);
                    }
                },
                None => {
                    best = Some(j);
                },
            }
        }
        j += 1;
    }
    best
}

/// Ranks the positions of `scores` and returns the best `limit` of them,
/// best first.
pub fn top_positions(scores: &Vec<i64>, limit: usize) -> (order: Vec<usize>)
    ensures
        is_top_order(scores@, limit as int, order@),
{
    let n = scores.len();
    let mut taken: Vec<bool> = Vec::new();
    let mut i: usize = 0;
    while i < n
        invariant
            i <= n,
            taken@.len() == i,
            forall|k: int| 0 <= k < i ==> !(#[trigger] taken@[k]),
        decreases n - i,
    {
        taken.push(false);
        i += 1;
    }
    let mut order: Vec<usize> = Vec::new();
    let mut open = true;
    while open && order.len() < limit
        invariant
            n == scores@.len(),
            taken@.len() == n,
            order@.len() <= limit,
            forall|k: int| 0 <= k < order@.len() ==> (#[trigger] order@[k]) < n,
            forall|j: int| 0 <= j < n ==> (#[trigger] taken@[j] <==> order@.contains(j as usize)),
            forall|a: int, b: int|
                0 <= a < b < order@.len() ==> precedes(
                    scores@,
                    (#[trigger] order@[a]) as int,
                    (#[trigger] order@[b]) as int,
                ),
            forall|a: int, j: int|
                0 <= a < order@.len() && 0 <= j < n && !(#[trigger] taken@[j]) ==> precedes(
                    scores@,
                    (#[trigger] order@[a]) as int,
                    j,
                ),
            !open ==> forall|j: int| 0 <= j < n ==> #[trigger] taken@[j],
        decreases limit - order@.len() + (if open { 1int } else { 0int }),
    {
        match best_open_position(scores, &taken) {
            Some(b) => {
                let ghost old_order = order@;
                let ghost old_taken = taken@;
                taken.set(b, true);
                order.push(b);
                proof {
                    assert(order@[old_order.len() as int] == b);
                    assert forall|j: int| 0 <= j < n implies (#[trigger] taken@[j]
                        <==> order@.contains(j as usize)) by {
                        if j == b {
                            assert(order@[old_order.len() as int] == j as usize);
                        } else if old_taken[j] {
                            assert(old_order.contains(j as usize));
                            let k = choose|k: int|
                                0 <= k < old_order.len() && old_order[k] == j as usize;
                            assert(order@[k] == j as usize);
                        } else {
                            assert(!old_order.contains(j as usize));
                            if order@.contains(j as usize) {
                                let k = choose|k: int|
                                    0 <= k < order@.len() && order@[k] == j as usize;
                                if k < old_order.len() {
                                    assert(old_order[k] == j as usize);
                                }
                            }
                        }
                    }
                    assert forall|a: int, c: int| 0 <= a < c < order@.len() implies precedes(
                        scores@,
                        (#[trigger] order@[a]) as int,
                        (#[trigger] order@[c]) as int,
                    ) by {
                        assert(order@[a] == old_order[a]);
                        if c < old_order.len() {
                            assert(order@[c] == old_order[c]);
                        } else {
                            assert(!old_taken[b as int]);
                        }
                    }
                    assert forall|a: int, j: int|
                        0 <= a < order@.len() && 0 <= j < n && !(#[trigger] taken@[j]) implies precedes(
                        scores@,
                        (#[trigger] order@[a]) as int,
                        j,
                    ) by {
                        assert(!old_taken[j]);
                        if a < old_order.len() {
                            assert(order@[a] == old_order[a]);
                        }
                    }
                }
            },
            None => {
                open = false;
            },
        }
    }
    proof {
        assert forall|j: int|
            0 <= j < scores@.len() && !(#[trigger] order@.contains(j as usize)) implies {
            &&& order@.len() == limit
            &&& forall|k: int|
                0 <= k < order@.len() ==> precedes(scores@, (#[trigger] order@[k]) as int, j)
        } by {
            assert(!taken@[j]);
        }
    }
    order
}

/// `out` is the semantic result list made of `candidates`, each a chunk
/// with its similarity as its score: the best `limit` of them, best
/// first, candidates of equal score in the order in which they came.
pub open spec fn is_semantic_ranking(
    candidates: Seq<RetrievedDocument>,
    limit: int,
    out: Seq<RetrievedDocument>,
) -> bool {
    exists|order: Seq<usize>|
        {
            &&& #[trigger] is_top_order(candidate_scores(candidates), limit, order)
            &&& out.len() == order.len()
            &&& forall|k: int| 0 <= k < out.len() ==> #[trigger] out[k] == candidates[order[k] as int]
        }
}

/// The scores of `candidates`, in their order.
pub open spec fn candidate_scores(candidates: Seq<RetrievedDocument>) -> Seq<i64> {
    Seq::new(candidates.len(), |i: int| candidates[i].score)
}

/// Makes the semantic result list of at most `limit` documents out of the
/// chunks that have an embedding, each given with its similarity to the
/// query as its score. Without candidates the list is empty.
pub fn semantic_documents(candidates: &Vec<RetrievedDocument>, limit: usize) -> (results: Vec<
    RetrievedDocument,
>)
    ensures
        is_semantic_ranking(candidates@, limit as int, results@),
{
    let mut scores: Vec<i64> = Vec::new();
    let mut i: usize = 0;
    while i < candidates.len()
        invariant
            i <= candidates@.len(),
            scores@ == candidate_scores(candidates@.take(i as int)),
        decreases candidates@.len() - i,
    {
        scores.push(candidates[i].score);
        proof {
            assert(scores@ =~= candidate_scores(candidates@.take(i + 1)));
        }
        i += 1;
    }
    proof {
        assert(candidates@.take(i as int) =~= candidates@);
    }
    let order = top_positions(&scores, limit);
    let mut results: Vec<RetrievedDocument> = Vec::new();
    let mut k: usize = 0;
    while k < order.len()
        invariant
            k <= order@.len(),
            results@.len() == k,
            scores@.len() == candidates@.len(),
            forall|m: int| 0 <= m < order@.len() ==> (#[trigger] order@[m]) < scores@.len(),
            forall|m: int| 0 <= m < k ==> #[trigger] results@[m] == candidates@[order@[m] as int],
        decreases order@.len() - k,
    {
        results.push(candidates[order[k]].clone());
        k += 1;
    }
    results
}

/// Makes the semantic result list of a query. A query for which no
/// embedding could be had, shown as `None`, has an empty list: the lexical
/// results stand alone then. Else the list is that of `semantic_documents`
/// over the candidates.
pub fn semantic_results(candidates: &Option<Vec<RetrievedDocument>>, limit: usize) -> (results: Vec<
    RetrievedDocument,
>)
    ensures
        match candidates {
            Some(found) => is_semantic_ranking(found@, limit as int, results@),
            None => results@.len() == 0,
        },
{
    match candidates {
        Some(found) => semantic_documents(found, limit),
        None => Vec::new(),
    }
}

} // verus!
