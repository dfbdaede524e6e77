//! Retrieved documents and the fusion of two ranked result lists.

use vstd::prelude::*;
use crate::text::{
    lemma_text_lt_irreflexive, lemma_text_lt_total, lemma_text_lt_transitive, text_before, text_lt,
};

verus! {

/// The score 1.0. Scores are counted in millionths.
pub const SCORE_ONE: i64 = 1_000_000;

/// One entry found for a query.
#[derive(Debug)]
pub struct RetrievedDocument {
    pub entry_id: String,
    pub title: String,
    pub content: String,
    /// Calendar date of the entry, as `YYYY-MM-DD`.
    pub date: String,
    /// Relevance in millionths: `SCORE_ONE` stands for 1.0.
    pub score: i64,
    /// The chunk that matched, where the match was made on a chunk.
    pub chunk_id: Option<String>,
}

/// The answer to a query, with the documents it was built on, best first.
#[derive(Debug, Clone)]
pub struct RagResponse {
    pub answer: String,
    pub sources: Vec<RetrievedDocument>,
    pub query: String,
}

impl Clone for RetrievedDocument {
    fn clone(&self) -> (copy: Self)
        ensures
            copy == *self,
    {
        let chunk_id = match &self.chunk_id {
            Some(id) => Some(id.clone()),
            None => None,
        };
        RetrievedDocument {
            entry_id: self.entry_id.clone(),
            title: self.title.clone(),
            content: self.content.clone(),
            date: self.date.clone(),
            score: self.score,
            chunk_id,
        }
    }
}

/// Score of the lexical result at `position` among `total`: from 1.0 down
/// towards 0.5, the part taken off rounded down to a millionth.
pub open spec fn lexical_score(position: int, total: int) -> int {
    1_000_000 - (500_000 * position) / total
}

/// Score of the semantic result at `position` among `total`: from 0.5 down
/// towards 0.2, the part taken off rounded down to a millionth.
pub open spec fn semantic_score(position: int, total: int) -> int {
    500_000 - (300_000 * position) / total
}

/// `doc` with its score replaced.
pub open spec fn rescored(doc: RetrievedDocument, score: int) -> RetrievedDocument {
    RetrievedDocument { score: score as i64, ..doc }
}

/// Some document of `docs` belongs to entry `id`.
pub open spec fn has_entry(docs: Seq<RetrievedDocument>, id: Seq<char>) -> bool {
    exists|i: int| 0 <= i < docs.len() && (#[trigger] docs[i]).entry_id@ == id
}

/// `docs[i]` is the last document of its entry in `docs`.
pub open spec fn is_last_of_entry(docs: Seq<RetrievedDocument>, i: int) -> bool {
    &&& 0 <= i < docs.len()
    &&& forall|j: int| i < j < docs.len() ==> (#[trigger] docs[j]).entry_id@ != docs[i].entry_id@
}

/// `docs[i]` is the first document of its entry in `docs`.
pub open spec fn is_first_of_entry(docs: Seq<RetrievedDocument>, i: int) -> bool {
    &&& 0 <= i < docs.len()
    &&& forall|j: int| 0 <= j < i ==> (#[trigger] docs[j]).entry_id@ != docs[i].entry_id@
}

/// The document that the lexical result at `i` contributes.
pub open spec fn lexical_candidate(lexical: Seq<RetrievedDocument>, i: int) -> RetrievedDocument {
    rescored(lexical[i], lexical_score(i, lexical.len() as int))
}

/// The document that the semantic result at `j` contributes.
pub open spec fn semantic_candidate(semantic: Seq<RetrievedDocument>, j: int) -> RetrievedDocument {
    rescored(semantic[j], semantic_score(j, semantic.len() as int))
}

/// The lexical result at `i` stands for its entry: it is the last lexical
/// result of that entry.
pub open spec fn lexical_counts(lexical: Seq<RetrievedDocument>, i: int) -> bool {
    is_last_of_entry(lexical, i)
}

/// The semantic result at `j` stands for its entry: no lexical result
/// belongs to that entry, and it is the first semantic result of it.
pub open spec fn semantic_counts(
    lexical: Seq<RetrievedDocument>,
    semantic: Seq<RetrievedDocument>,
    j: int,
) -> bool {
    &&& is_first_of_entry(semantic, j)
    &&& !has_entry(lexical, semantic[j].entry_id@)
}

/// `doc` is what the two lists hold for its entry after merging: the
/// lexical result with its lexical score where there is one, else the
/// semantic result with its semantic score.
pub open spec fn is_fused(
    lexical: Seq<RetrievedDocument>,
    semantic: Seq<RetrievedDocument>,
    doc: RetrievedDocument,
) -> bool {
    ||| exists|i: int| #[trigger]
        lexical_counts(lexical, i) && doc == lexical_candidate(lexical, i)
    ||| exists|j: int| #[trigger]
        semantic_counts(lexical, semantic, j) && doc == semantic_candidate(semantic, j)
}

/// `a` is ranked before `b`: by the higher score, and among equal scores
/// by the smaller entry id.
pub open spec fn ranks_before(a: RetrievedDocument, b: RetrievedDocument) -> bool {
    a.score > b.score || (a.score == b.score && text_lt(a.entry_id@, b.entry_id@))
}

/// `out` is the fused ranking of the two lists cut to `limit`: merged
/// documents only, in ranking order, and whatever merged document is left
/// out is ranked after all of a full list.
pub open spec fn is_fused_ranking(
    lexical: Seq<RetrievedDocument>,
    semantic: Seq<RetrievedDocument>,
    limit: int,
    out: Seq<RetrievedDocument>,
) -> bool {
    &&& out.len() <= limit
    &&& forall|k: int| 0 <= k < out.len() ==> is_fused(lexical, semantic, #[trigger] out[k])
    &&& forall|a: int, b: int|
        0 <= a < b < out.len() ==> ranks_before(#[trigger] out[a], #[trigger] out[b])
    &&& forall|doc: RetrievedDocument| #[trigger]
        is_fused(lexical, semantic, doc) && !out.contains(doc) ==> {
            &&& out.len() == limit
            &&& forall|k: int| 0 <= k < out.len() ==> ranks_before(#[trigger] out[k], doc)
        }
}

/// Ranking is transitive.
pub proof fn lemma_ranks_before_transitive(
    a: RetrievedDocument,
    b: RetrievedDocument,
    c: RetrievedDocument,
)
    requires
        ranks_before(a, b),
        ranks_before(b, c),
    ensures
        ranks_before(a, c),
{
    if a.score == b.score && b.score == c.score {
        lemma_text_lt_transitive(a.entry_id@, b.entry_id@, c.entry_id@);
    }
}

/// Of two documents of different entries one is ranked before the other.
pub proof fn lemma_ranks_before_total(a: RetrievedDocument, b: RetrievedDocument)
    requires
        a.entry_id@ != b.entry_id@,
    ensures
        ranks_before(a, b) || ranks_before(b, a),
{
    lemma_text_lt_total(a.entry_id@, b.entry_id@);
}

/// No document is ranked before itself, nor two each before the other.
pub proof fn lemma_ranks_before_asymmetric(a: RetrievedDocument, b: RetrievedDocument)
    requires
        ranks_before(a, b),
    ensures
        !ranks_before(b, a),
        a != b,
{
    if a.score == b.score {
        lemma_text_lt_irreflexive(a.entry_id@);
        if text_lt(b.entry_id@, a.entry_id@) {
            lemma_text_lt_transitive(a.entry_id@, b.entry_id@, a.entry_id@);
        }
    }
}

/// A lexical score lies above 0.5 and at most at 1.0, and falls with the
/// position.
pub proof fn lemma_lexical_score_range(position: int, later: int, total: int)
    requires
        0 <= position <= later < total,
    ensures
        500_000 < lexical_score(later, total) <= lexical_score(position, total) <= 1_000_000,
{
    assert((500_000 * later) / total < 500_000 && 0 <= (500_000 * position) / total <= (500_000
        * later) / total) by (nonlinear_arith)
        requires
            0 <= position <= later < total,
    ;
}

/// A semantic score lies above 0.2 and at most at 0.5, and falls with the
/// position.
pub proof fn lemma_semantic_score_range(position: int, later: int, total: int)
    requires
        0 <= position <= later < total,
    ensures
        200_000 < semantic_score(later, total) <= semantic_score(position, total) <= 500_000,
{
    assert((300_000 * later) / total < 300_000 && 0 <= (300_000 * position) / total <= (300_000
        * later) / total) by (nonlinear_arith)
        requires
            0 <= position <= later < total,
    ;
}

/// Two merged documents of one entry are the same document.
pub proof fn lemma_fused_once_per_entry(
    lexical: Seq<RetrievedDocument>,
    semantic: Seq<RetrievedDocument>,
    a: RetrievedDocument,
    b: RetrievedDocument,
)
    requires
        is_fused(lexical, semantic, a),
        is_fused(lexical, semantic, b),
        a.entry_id@ == b.entry_id@,
    ensures
        a == b,
{
    if exists|i: int| #[trigger] lexical_counts(lexical, i) && a == lexical_candidate(lexical, i) {
        let i = choose|i: int| #[trigger]
            lexical_counts(lexical, i) && a == lexical_candidate(lexical, i);
        if exists|k: int| #[trigger]
            lexical_counts(lexical, k) && b == lexical_candidate(lexical, k) {
            let k = choose|k: int| #[trigger]
                lexical_counts(lexical, k) && b == lexical_candidate(lexical, k);
            assert(lexical[i].entry_id@ == lexical[k].entry_id@);
            assert(i == k);
        } else {
            let j = choose|j: int| #[trigger]
                semantic_counts(lexical, semantic, j) && b == semantic_candidate(semantic, j);
            assert(lexical[i].entry_id@ == semantic[j].entry_id@);
            assert(has_entry(lexical, semantic[j].entry_id@));
        }
    } else {
        let j = choose|j: int| #[trigger]
            semantic_counts(lexical, semantic, j) && a == semantic_candidate(semantic, j);
        if exists|k: int| #[trigger]
            lexical_counts(lexical, k) && b == lexical_candidate(lexical, k) {
            let k = choose|k: int| #[trigger]
                lexical_counts(lexical, k) && b == lexical_candidate(lexical, k);
            assert(lexical[k].entry_id@ == semantic[j].entry_id@);
            assert(has_entry(lexical, semantic[j].entry_id@));
        } else {
            let k = choose|k: int| #[trigger]
                semantic_counts(lexical, semantic, k) && b == semantic_candidate(semantic, k);
            assert(semantic[j].entry_id@ == semantic[k].entry_id@);
            assert(j == k);
        }
    }
}

/// What holds of every fused ranking: it has at most `limit` documents,
/// its scores never rise, no entry occurs twice, and an entry with a
/// lexical result carries the score of its last lexical result.
pub proof fn lemma_fused_ranking_properties(
    lexical: Seq<RetrievedDocument>,
    semantic: Seq<RetrievedDocument>,
    limit: int,
    out: Seq<RetrievedDocument>,
)
    requires
        is_fused_ranking(lexical, semantic, limit, out),
    ensures
        out.len() <= limit,
        forall|a: int, b: int| 0 <= a < b < out.len() ==> out[a].score >= out[b].score,
        forall|a: int, b: int|
            0 <= a < out.len() && 0 <= b < out.len() && a != b ==> out[a].entry_id@
                != out[b].entry_id@,
        forall|k: int|
            0 <= k < out.len() && has_entry(lexical, out[k].entry_id@) ==> exists|i: int|
                #![trigger lexical_counts(lexical, i)]
                lexical_counts(lexical, i) && lexical[i].entry_id@ == out[k].entry_id@
                    && out[k].score == lexical_score(i, lexical.len() as int),
{
    assert forall|a: int, b: int| 0 <= a < b < out.len() implies out[a].score
        >= out[b].score by {
        assert(ranks_before(out[a], out[b]));
    }
    assert forall|a: int, b: int|
        0 <= a < out.len() && 0 <= b < out.len() && a != b implies out[a].entry_id@
        != out[b].entry_id@ by {
        if out[a].entry_id@ == out[b].entry_id@ {
            lemma_fused_once_per_entry(lexical, semantic, out[a], out[b]);
            if a < b {
                lemma_ranks_before_asymmetric(out[a], out[b]);
            } else {
                lemma_ranks_before_asymmetric(out[b], out[a]);
            }
        }
    }
    assert forall|k: int|
        0 <= k < out.len() && has_entry(lexical, out[k].entry_id@) implies exists|i: int|
        #![trigger lexical_counts(lexical, i)]
        lexical_counts(lexical, i) && lexical[i].entry_id@ == out[k].entry_id@ && out[k].score
            == lexical_score(i, lexical.len() as int) by {
        assert(is_fused(lexical, semantic, out[k]));
        if exists|i: int| #[trigger]
            lexical_counts(lexical, i) && out[k] == lexical_candidate(lexical, i) {
            let i = choose|i: int| #[trigger]
                lexical_counts(lexical, i) && out[k] == lexical_candidate(lexical, i);
            lemma_lexical_score_range(i, i, lexical.len() as int);
        } else {
            let j = choose|j: int| #[trigger]
                semantic_counts(lexical, semantic, j) && out[k] == semantic_candidate(
                    semantic,
                    j,
                );
            assert(out[k].entry_id@ == semantic[j].entry_id@);
        }
    }
}

/// Two fused rankings of the same lists agree on their first `upto`
/// documents.
proof fn lemma_fused_rankings_agree(
    lexical: Seq<RetrievedDocument>,
    semantic: Seq<RetrievedDocument>,
    limit: int,
    first: Seq<RetrievedDocument>,
    second: Seq<RetrievedDocument>,
    upto: int,
)
    requires
        is_fused_ranking(lexical, semantic, limit, first),
        is_fused_ranking(lexical, semantic, limit, second),
        0 <= upto <= first.len(),
        upto <= second.len(),
    ensures
        forall|k: int| 0 <= k < upto ==> first[k] == second[k],
    decreases upto,
{
    if upto > 0 {
        let k = upto - 1;
        lemma_fused_rankings_agree(lexical, semantic, limit, first, second, k);
        let a = first[k];
        let b = second[k];
        if a != b {
            lemma_placed_later(lexical, semantic, limit, first, second, k);
            lemma_placed_later(lexical, semantic, limit, second, first, k);
            lemma_ranks_before_asymmetric(a, b);
        }
    }
}

/// Where two fused rankings agree before `k` and differ at `k`, the second
/// ranks its document at `k` before the first's.
proof fn lemma_placed_later(
    lexical: Seq<RetrievedDocument>,
    semantic: Seq<RetrievedDocument>,
    limit: int,
    first: Seq<RetrievedDocument>,
    second: Seq<RetrievedDocument>,
    k: int,
)
    requires
        is_fused_ranking(lexical, semantic, limit, first),
        is_fused_ranking(lexical, semantic, limit, second),
        0 <= k < first.len(),
        k < second.len(),
        forall|j: int| 0 <= j < k ==> first[j] == second[j],
        first[k] != second[k],
    ensures
        ranks_before(second[k], first[k]),
{
    let a = first[k];
    assert(is_fused(lexical, semantic, a));
    if second.contains(a) {
        let m = choose|m: int| 0 <= m < second.len() && second[m] == a;
        if m < k {
            assert(first[m] == a);
            assert(ranks_before(first[m], first[k]));
            lemma_ranks_before_asymmetric(a, a);
        } else {
            assert(ranks_before(second[k], second[m]));
        }
    }
}

/// The fused ranking is determined by the two lists and the limit.
pub proof fn lemma_fused_ranking_unique(
    lexical: Seq<RetrievedDocument>,
    semantic: Seq<RetrievedDocument>,
    limit: int,
    first: Seq<RetrievedDocument>,
    second: Seq<RetrievedDocument>,
)
    requires
        is_fused_ranking(lexical, semantic, limit, first),
        is_fused_ranking(lexical, semantic, limit, second),
    ensures
        first == second,
{
    let shorter = if first.len() <= second.len() { first } else { second };
    let longer = if first.len() <= second.len() { second } else { first };
    let n = shorter.len() as int;
    lemma_fused_rankings_agree(lexical, semantic, limit, shorter, longer, n);
    if n < longer.len() {
        let extra = longer[n];
        assert(is_fused(lexical, semantic, extra));
        if shorter.contains(extra) {
            let m = choose|m: int| 0 <= m < shorter.len() && shorter[m] == extra;
            assert(longer[m] == extra);
            assert(ranks_before(longer[m], longer[n]));
            lemma_ranks_before_asymmetric(extra, extra);
        }
    }
    assert(first =~= second);
}

/// Computes `lexical_score`.
fn score_lexical(position: usize, total: usize) -> (score: i64)
    requires
        position < total,
    ensures
        score == lexical_score(position as int, total as int),
{
    proof {
        lemma_lexical_score_range(position as int, position as int, total as int);
    }
    let taken: u128 = (500_000u128 * (position as u128)) / (total as u128);
    SCORE_ONE - (taken as i64)
}

/// Computes `semantic_score`.
fn score_semantic(position: usize, total: usize) -> (score: i64)
    requires
        position < total,
    ensures
        score == semantic_score(position as int, total as int),
{
    proof {
        lemma_semantic_score_range(position as int, position as int, total as int);
    }
    let taken: u128 = (300_000u128 * (position as u128)) / (total as u128);
    500_000i64 - (taken as i64)
}

/// Tells whether a document of `docs[from..to]` belongs to entry `id`.
fn entry_in_range(docs: &Vec<RetrievedDocument>, id: &String, from: usize, to: usize) -> (found:
    bool)
    requires
        from <= to <= docs@.len(),
    ensures
        found == exists|k: int| from <= k < to && (#[trigger] docs@[k]).entry_id@ == id@,
{
    let mut k: usize = from;
    while k < to
        invariant
            from <= k <= to <= docs@.len(),
            forall|j: int| from <= j < k ==> (#[trigger] docs@[j]).entry_id@ != id@,
        decreases to - k,
    {
        if docs[k].entry_id == *id {
            return true;
        }
        k += 1;
    }
    false
}

/// Tells whether `a` is ranked before `b`.
fn outranks(a: &RetrievedDocument, b: &RetrievedDocument) -> (before: bool)
    ensures
        before == ranks_before(*a, *b),
{
    if a.score != b.score {
        a.score > b.score
    } else {
        text_before(a.entry_id.as_str(), b.entry_id.as_str())
    }
}

/// The documents of `pool` belong to different entries.
pub open spec fn distinct_entries(pool: Seq<RetrievedDocument>) -> bool {
    forall|a: int, b: int|
        0 <= a < b < pool.len() ==> (#[trigger] pool[a]).entry_id@ != (#[trigger] pool[b]).entry_id@
}

/// Finds the document of `pool` that is ranked before all others.
fn best_index(pool: &Vec<RetrievedDocument>) -> (best: usize)
    requires
        pool@.len() > 0,
        distinct_entries(pool@),
    ensures
        best < pool@.len(),
        forall|k: int|
            0 <= k < pool@.len() && k != best ==> ranks_before(
                pool@[best as int],
                #[trigger] pool@[k],
            ),
{
    let mut best: usize = 0;
    let mut i: usize = 1;
    while i < pool.len()
        invariant
            best < i <= pool@.len(),
            distinct_entries(pool@),
            forall|k: int| 0 <= k < i && k != best ==> ranks_before(pool@[best as int], #[trigger] pool@[k]),
        decreases pool@.len() - i,
    {
        if outranks(&pool[i], &pool[best]) {
            proof {
                assert forall|k: int| 0 <= k < i + 1 && k != i implies ranks_before(
                    pool@[i as int],
                    #[trigger] pool@[k],
                ) by {
                    if k != best {
                        lemma_ranks_before_transitive(pool@[i as int], pool@[best as int], pool@[k]);
                    }
                }
            }
            best = i;
        } else {
            proof {
                lemma_ranks_before_total(pool@[best as int], pool@[i as int]);
            }
        }
        i += 1;
    }
    best
}

/// `doc` is what a lexical result before position `upto` contributes.
spec fn lexical_source_before(lexical: Seq<RetrievedDocument>, doc: RetrievedDocument, upto: int) -> bool {
    exists|s: int|
        0 <= s < upto && #[trigger] lexical_counts(lexical, s) && doc == lexical_candidate(
            lexical,
            s,
        )
}

/// `doc` is what a semantic result before position `upto` contributes.
spec fn semantic_source_before(
    lexical: Seq<RetrievedDocument>,
    semantic: Seq<RetrievedDocument>,
    doc: RetrievedDocument,
    upto: int,
) -> bool {
    exists|s: int|
        0 <= s < upto && #[trigger] semantic_counts(lexical, semantic, s) && doc
            == semantic_candidate(semantic, s)
}

/// Merges the documents of both lists into one pool, one per entry.
fn merge_candidates(lexical: &Vec<RetrievedDocument>, semantic: &Vec<RetrievedDocument>) -> (pool:
    Vec<RetrievedDocument>)
    ensures
        distinct_entries(pool@),
        forall|k: int| 0 <= k < pool@.len() ==> is_fused(lexical@, semantic@, #[trigger] pool@[k]),
        forall|doc: RetrievedDocument| #[trigger]
            is_fused(lexical@, semantic@, doc) ==> pool@.contains(doc),
{
    let mut pool: Vec<RetrievedDocument> = Vec::new();
    let n = lexical.len();
    let mut i: usize = 0;
    while i < n
        invariant
            i <= n == lexical@.len(),
            distinct_entries(pool@),
            forall|k: int|
                0 <= k < pool@.len() ==> lexical_source_before(lexical@, #[trigger] pool@[k], i as int),
            forall|s: int|
                0 <= s < i && #[trigger] lexical_counts(lexical@, s) ==> pool@.contains(
                    lexical_candidate(lexical@, s),
                ),
        decreases n - i,
    {
        let later = entry_in_range(lexical, &lexical[i].entry_id, i + 1, n);
        if !later {
            let mut doc = lexical[i].clone();
            doc.score = score_lexical(i, n);
            let ghost before = pool@;
            pool.push(doc);
            proof {
                assert(lexical_counts(lexical@, i as int));
                assert(doc == lexical_candidate(lexical@, i as int));
                assert(pool@[before.len() as int] == doc);
                assert forall|s: int|
                    0 <= s < i + 1 && #[trigger] lexical_counts(lexical@, s) implies pool@.contains(
                    lexical_candidate(lexical@, s),
                ) by {
                    if s < i {
                        let k = choose|k: int|
                            0 <= k < before.len() && before[k] == lexical_candidate(lexical@, s);
                        assert(pool@[k] == lexical_candidate(lexical@, s));
                    }
                }
                assert forall|a: int, b: int| 0 <= a < b < pool@.len() implies (#[trigger] pool@[a]).entry_id@
                    != (#[trigger] pool@[b]).entry_id@ by {
                    if b == before.len() {
                        assert(lexical_source_before(lexical@, before[a], i as int));
                        let s = choose|s: int|
                            0 <= s < i && #[trigger] lexical_counts(lexical@, s) && before[a]
                                == lexical_candidate(lexical@, s);
                        assert(lexical@[i as int].entry_id@ != lexical@[s].entry_id@);
                    } else {
                        assert(pool@[a] == before[a] && pool@[b] == before[b]);
                    }
                }
                assert forall|k: int| 0 <= k < pool@.len() implies lexical_source_before(
                    lexical@,
                    #[trigger] pool@[k],
                    i + 1,
                ) by {
                    if k < before.len() {
                        assert(pool@[k] == before[k]);
                        assert(lexical_source_before(lexical@, before[k], i as int));
                    }
                }
            }
        } else {
            proof {
                assert(!lexical_counts(lexical@, i as int));
                assert forall|k: int| 0 <= k < pool@.len() implies lexical_source_before(
                    lexical@,
                    #[trigger] pool@[k],
                    i + 1,
                ) by {
                    assert(lexical_source_before(lexical@, pool@[k], i as int));
                }
            }
        }
        i += 1;
    }
    let m = semantic.len();
    let ghost lexical_part = pool@;
    let mut j: usize = 0;
    while j < m
        invariant
            j <= m == semantic@.len(),
            n == lexical@.len(),
            distinct_entries(pool@),
            forall|k: int| 0 <= k < pool@.len() ==> is_fused(lexical@, semantic@, #[trigger] pool@[k]),
            forall|k: int|
                0 <= k < pool@.len() ==> has_entry(lexical@, (#[trigger] pool@[k]).entry_id@)
                    || semantic_source_before(lexical@, semantic@, pool@[k], j as int),
            forall|s: int| #[trigger]
                lexical_counts(lexical@, s) ==> pool@.contains(lexical_candidate(lexical@, s)),
            forall|s: int|
                0 <= s < j && #[trigger] semantic_counts(lexical@, semantic@, s) ==> pool@.contains(
                    semantic_candidate(semantic@, s),
                ),
        decreases m - j,
    {
        let in_lexical = entry_in_range(lexical, &semantic[j].entry_id, 0, n);
        let earlier = entry_in_range(semantic, &semantic[j].entry_id, 0, j);
        if !in_lexical && !earlier {
            let mut doc = semantic[j].clone();
            doc.score = score_semantic(j, m);
            let ghost before = pool@;
            pool.push(doc);
            proof {
                assert(semantic_counts(lexical@, semantic@, j as int));
                assert(doc == semantic_candidate(semantic@, j as int));
                assert(pool@[before.len() as int] == doc);
                assert forall|k: int| 0 <= k < pool@.len() implies is_fused(
                    lexical@,
                    semantic@,
                    #[trigger] pool@[k],
                ) by {
                    if k < before.len() {
                        assert(pool@[k] == before[k]);
                    }
                }
                assert forall|s: int| #[trigger] lexical_counts(lexical@, s) implies pool@.contains(
                    lexical_candidate(lexical@, s),
                ) by {
                    let k = choose|k: int|
                        0 <= k < before.len() && before[k] == lexical_candidate(lexical@, s);
                    assert(pool@[k] == lexical_candidate(lexical@, s));
                }
                assert forall|s: int|
                    0 <= s < j + 1 && #[trigger] semantic_counts(
                        lexical@,
                        semantic@,
                        s,
                    ) implies pool@.contains(semantic_candidate(semantic@, s)) by {
                    if s < j {
                        let k = choose|k: int|
                            0 <= k < before.len() && before[k] == semantic_candidate(semantic@, s);
                        assert(pool@[k] == semantic_candidate(semantic@, s));
                    }
                }
                assert forall|k: int| 0 <= k < pool@.len() implies has_entry(
                    lexical@,
                    (#[trigger] pool@[k]).entry_id@,
                ) || semantic_source_before(lexical@, semantic@, pool@[k], j + 1) by {
                    if k < before.len() {
                        assert(pool@[k] == before[k]);
                        if !has_entry(lexical@, before[k].entry_id@) {
                            assert(semantic_source_before(lexical@, semantic@, before[k], j as int));
                        }
                    }
                }
                assert forall|a: int, b: int| 0 <= a < b < pool@.len() implies (#[trigger] pool@[a]).entry_id@
                    != (#[trigger] pool@[b]).entry_id@ by {
                    if b == before.len() {
                        assert(pool@[a] == before[a]);
                        if !has_entry(lexical@, before[a].entry_id@) {
                            assert(semantic_source_before(lexical@, semantic@, before[a], j as int));
                            let s = choose|s: int|
                                0 <= s < j && #[trigger] semantic_counts(lexical@, semantic@, s)
                                    && before[a] == semantic_candidate(semantic@, s);
                            assert(semantic@[s].entry_id@ != semantic@[j as int].entry_id@);
                        }
                    } else {
                        assert(pool@[a] == before[a] && pool@[b] == before[b]);
                    }
                }
            }
        } else {
            proof {
                assert(!semantic_counts(lexical@, semantic@, j as int));
                assert forall|k: int| 0 <= k < pool@.len() implies has_entry(
                    lexical@,
                    (#[trigger] pool@[k]).entry_id@,
                ) || semantic_source_before(lexical@, semantic@, pool@[k], j + 1) by {
                    if !has_entry(lexical@, pool@[k].entry_id@) {
                        assert(semantic_source_before(lexical@, semantic@, pool@[k], j as int));
                    }
                }
            }
        }
        j += 1;
    }
    pool
}

/// Fuses a lexical and a semantic result list into one ranking of at most
/// `max_results` documents, one per entry.
///
/// A lexical result at position `i` of `n` scores `1.0 - (i / n) * 0.5`; a
/// semantic result at position `j` of `m` scores `0.5 - (j / m) * 0.3` and
/// counts only for an entry without a lexical result. The scores that the
/// documents come with play no part.
pub fn combine_and_rerank(
    keyword_results: Vec<RetrievedDocument>,
    semantic_results: Vec<RetrievedDocument>,
    max_results: usize,
) -> (results: Vec<RetrievedDocument>)
    ensures
        is_fused_ranking(keyword_results@, semantic_results@, max_results as int, results@),
{
    let mut pool = merge_candidates(&keyword_results, &semantic_results);
    let mut results: Vec<RetrievedDocument> = Vec::new();
    while results.len() < max_results && pool.len() > 0
        invariant
            results@.len() <= max_results,
            distinct_entries(pool@),
            forall|k: int|
                0 <= k < pool@.len() ==> is_fused(keyword_results@, semantic_results@, #[trigger] pool@[k]),
            forall|k: int|
                0 <= k < results@.len() ==> is_fused(
                    keyword_results@,
                    semantic_results@,
                    #[trigger] results@[k],
                ),
            forall|a: int, b: int|
                0 <= a < b < results@.len() ==> ranks_before(#[trigger] results@[a], #[trigger] results@[b]),
            forall|a: int, b: int|
                0 <= a < results@.len() && 0 <= b < pool@.len() ==> ranks_before(
                    #[trigger] results@[a],
                    #[trigger] pool@[b],
                ),
            forall|doc: RetrievedDocument| #[trigger]
                is_fused(keyword_results@, semantic_results@, doc) ==> results@.contains(doc)
                    || pool@.contains(doc),
        decreases pool@.len(),
    {
        let best = best_index(&pool);
        let ghost old_pool = pool@;
        let ghost old_results = results@;
        let doc = pool.swap_remove(best);
        results.push(doc);
        proof {
            let last = old_pool.len() - 1;
            assert(results@[old_results.len() as int] == doc);
            assert forall|k: int| 0 <= k < pool@.len() implies (#[trigger] pool@[k]) == old_pool[if k
                == best {
                last
            } else {
                k
            }] by {}
            assert forall|a: int, b: int| 0 <= a < b < pool@.len() implies (#[trigger] pool@[a]).entry_id@
                != (#[trigger] pool@[b]).entry_id@ by {
                let a0 = if a == best { last } else { a };
                let b0 = if b == best { last } else { b };
                assert(pool@[a] == old_pool[a0] && pool@[b] == old_pool[b0]);
                if a0 < b0 {
                    assert(old_pool[a0].entry_id@ != old_pool[b0].entry_id@);
                } else {
                    assert(old_pool[b0].entry_id@ != old_pool[a0].entry_id@);
                }
            }
            assert forall|k: int| 0 <= k < pool@.len() implies is_fused(
                keyword_results@,
                semantic_results@,
                #[trigger] pool@[k],
            ) by {
                let k0 = if k == best { last } else { k };
                assert(pool@[k] == old_pool[k0]);
            }
            assert forall|k: int| 0 <= k < results@.len() implies is_fused(
                keyword_results@,
                semantic_results@,
                #[trigger] results@[k],
            ) by {
                if k < old_results.len() {
                    assert(results@[k] == old_results[k]);
                }
            }
            assert forall|a: int, b: int| 0 <= a < b < results@.len() implies ranks_before(
                #[trigger] results@[a],
                #[trigger] results@[b],
            ) by {
                assert(results@[a] == old_results[a]);
                if b < old_results.len() {
                    assert(results@[b] == old_results[b]);
                }
            }
            assert forall|a: int, b: int|
                0 <= a < results@.len() && 0 <= b < pool@.len() implies ranks_before(
                #[trigger] results@[a],
                #[trigger] pool@[b],
            ) by {
                let b0 = if b == best { last } else { b };
                assert(pool@[b] == old_pool[b0]);
                if a < old_results.len() {
                    assert(results@[a] == old_results[a]);
                }
            }
            assert forall|d: RetrievedDocument| #[trigger]
                is_fused(keyword_results@, semantic_results@, d) implies results@.contains(d)
                || pool@.contains(d) by {
                if old_results.contains(d) {
                    let k = choose|k: int| 0 <= k < old_results.len() && old_results[k] == d;
                    assert(results@[k] == d);
                } else {
                    let k = choose|k: int| 0 <= k < old_pool.len() && old_pool[k] == d;
                    if k == best {
                        assert(results@[old_results.len() as int] == d);
                    } else if k == last {
                        assert(pool@[best as int] == d);
                    } else {
                        assert(pool@[k] == d);
                    }
                }
            }
        }
    }
    proof {
        assert forall|d: RetrievedDocument| #[trigger]
            is_fused(keyword_results@, semantic_results@, d) && !results@.contains(d) implies {
            &&& results@.len() == max_results
            &&& forall|k: int| 0 <= k < results@.len() ==> ranks_before(#[trigger] results@[k], d)
        } by {
            let k = choose|k: int| 0 <= k < pool@.len() && pool@[k] == d;
            assert(pool@[k] == d);
        }
    }
    results
}

} // verus!
