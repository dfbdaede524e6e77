//! How many words two texts share.

use vstd::prelude::*;
use vstd::seq_lib::seq_to_set_is_finite;
use vstd::set_lib::lemma_set_intersect_union_lens;
use crate::canned::{lowercase, lowercase_of, texts};
use crate::keywords::{word_end, words_from};
use crate::scan::{blank, is_blank};
use crate::text::chars_of;

verus! {

/// The count of the words that two texts share, and of all their words.
#[derive(Clone, Copy, Debug, PartialEq, Eq, Structural)]
pub struct WordOverlap {
    /// Number of different words that stand in both texts.
    pub shared: usize,
    /// Number of different words that stand in either text.
    pub total: u128,
}

/// The texts of the words of `text` that `words` mark out.
pub open spec fn word_texts(text: Seq<char>, words: Seq<(int, int)>) -> Seq<Seq<char>> {
    Seq::new(words.len(), |i: int| text.subrange(words[i].0, words[i].1))
}

/// The different words of a text as it stands.
pub open spec fn words_in(text: Seq<char>) -> Set<Seq<char>> {
    word_texts(text, words_from(text, 0)).to_set()
}

/// The different words of `text`, in lower case.
pub open spec fn word_set(text: Seq<char>) -> Set<Seq<char>> {
    words_in(lowercase_of(text))
}

/// Number of different words that stand in both texts.
pub open spec fn shared_words(first: Seq<char>, second: Seq<char>) -> nat {
    word_set(first).intersect(word_set(second)).len()
}

/// Number of different words that stand in either text.
pub open spec fn all_words(first: Seq<char>, second: Seq<char>) -> nat {
    word_set(first).union(word_set(second)).len()
}

/// One more element in a sequence is one more element in its set.
proof fn lemma_push_to_set(s: Seq<Seq<char>>, x: Seq<char>)
    ensures
        s.push(x).to_set() == s.to_set().insert(x),
{
    assert forall|a: Seq<char>| s.push(x).to_set().contains(a) <==> s.to_set().insert(x).contains(
        a,
    ) by {
        if s.push(x).contains(a) {
            let k = choose|k: int| 0 <= k < s.push(x).len() && s.push(x)[k] == a;
            if k < s.len() {
                assert(s[k] == a);
            }
        }
        if s.contains(a) {
            let k = choose|k: int| 0 <= k < s.len() && s[k] == a;
            assert(s.push(x)[k] == a);
        }
        if a == x {
            assert(s.push(x)[s.len() as int] == a);
        }
    }
    assert(s.push(x).to_set() =~= s.to_set().insert(x));
}

/// Tells whether two texts are the same.
fn same_text(a: &Vec<char>, b: &Vec<char>) -> (same: bool)
    ensures
        same == (a@ == b@),
{
    if a.len() != b.len() {
        return false;
    }
    let mut i: usize = 0;
    while i < a.len()
        invariant
            i <= a@.len(),
            a@.len() == b@.len(),
            forall|k: int| 0 <= k < i ==> a@[k] == b@[k],
        decreases a@.len() - i,
    {
        if a[i] != b[i] {
            return false;
        }
        i += 1;
    }
    assert(a@ =~= b@);
    true
}

/// Tells whether `word` is among `words`.
fn holds_word(words: &Vec<Vec<char>>, word: &Vec<char>) -> (found: bool)
    ensures
        found == texts(words@).contains(word@),
{
    let mut i: usize = 0;
    while i < words.len()
        invariant
            i <= words@.len(),
            forall|k: int| 0 <= k < i ==> texts(words@)[k] != word@,
        decreases words@.len() - i,
    {
        if same_text(&words[i], word) {
            assert(texts(words@)[i as int] == word@);
            return true;
        }
        i += 1;
    }
    false
}

/// Copies `chars[from..to]`.
fn copy_range(chars: &Vec<char>, from: usize, to: usize) -> (copy: Vec<char>)
    requires
        from <= to <= chars@.len(),
    ensures
        copy@ == chars@.subrange(from as int, to as int),
{
    let mut copy: Vec<char> = Vec::new();
    let mut i: usize = from;
    while i < to
        invariant
            from <= i <= to <= chars@.len(),
            copy@ == chars@.subrange(from as int, i as int),
        decreases to - i,
    {
        copy.push(chars[i]);
        assert(copy@ =~= chars@.subrange(from as int, i + 1));
        i += 1;
    }
    copy
}

/// Lists the different words of `text` as it stands.
fn distinct_words(text: &str) -> (words: Vec<Vec<char>>)
    ensures
        texts(words@).no_duplicates(),
        texts(words@).to_set() == words_in(text@),
{
    let chars = chars_of(text);
    let n = chars.len();
    let mut words: Vec<Vec<char>> = Vec::new();
    let ghost mut ranges: Seq<(int, int)> = Seq::empty();
    let mut i: usize = 0;
    proof {
        assert(texts(words@) =~= word_texts(chars@, ranges));
        assert(ranges + words_from(chars@, 0) =~= words_from(chars@, 0));
    }
    while i < n
        invariant
            chars@ == text@,
            n == chars@.len(),
            i <= n,
            texts(words@).no_duplicates(),
            texts(words@).to_set() == word_texts(chars@, ranges).to_set(),
            words_from(chars@, 0) == ranges + words_from(chars@, i as int),
        decreases n - i,
    {
        if blank(chars[i]) {
            i += 1;
        } else {
            let mut stop: usize = i + 1;
            while stop < n && !blank(chars[stop])
                invariant
                    i < stop <= n,
                    n == chars@.len(),
                    !is_blank(chars@[i as int]),
                    word_end(chars@, i as int) == word_end(chars@, stop as int),
                decreases n - stop,
            {
                stop += 1;
            }
            let word = copy_range(&chars, i, stop);
            let known = holds_word(&words, &word);
            proof {
                let rest = words_from(chars@, stop as int);
                let range = (i as int, stop as int);
                assert(word_end(chars@, i as int) == stop);
                assert(ranges + (seq![range] + rest) =~= ranges.push(range) + rest);
                assert(word_texts(chars@, ranges.push(range)) =~= word_texts(chars@, ranges).push(
                    word@,
                ));
                lemma_push_to_set(word_texts(chars@, ranges), word@);
                if known {
                    assert(texts(words@).to_set().contains(word@));
                    assert(texts(words@).to_set().insert(word@) =~= texts(words@).to_set());
                }
                ranges = ranges.push(range);
            }
            if !known {
                let ghost before = texts(words@);
                words.push(word);
                proof {
                    assert(texts(words@) =~= before.push(word@));
                    lemma_push_to_set(before, word@);
                    assert forall|a: int, b: int|
                        0 <= a < texts(words@).len() && 0 <= b < texts(words@).len() && a
                            != b implies texts(words@)[a] != texts(words@)[b] by {
                        if a < before.len() && b < before.len() {
                            assert(before[a] != before[b]);
                        } else if a < before.len() {
                            assert(before.contains(before[a]));
                        } else {
                            assert(before.contains(before[b]));
                        }
                    }
                }
            }
            i = stop;
        }
    }
    proof {
        assert(ranges + words_from(chars@, n as int) =~= ranges);
    }
    words
}

/// Counts the different words that two texts share as they stand, and
/// the different words of both together.
pub fn lowered_overlap(query: &str, text: &str) -> (overlap: WordOverlap)
    ensures
        overlap.shared == words_in(query@).intersect(words_in(text@)).len(),
        overlap.total == words_in(query@).union(words_in(text@)).len(),
{
    let first = distinct_words(query);
    let second = distinct_words(text);
    let ghost first_set = words_in(query@);
    let ghost second_set = words_in(text@);
    let mut shared: usize = 0;
    let mut i: usize = 0;
    proof {
        seq_to_set_is_finite(texts(first@));
        seq_to_set_is_finite(texts(second@));
        assert(texts(first@).take(0).to_set() =~= Set::<Seq<char>>::empty());
        assert(Set::<Seq<char>>::empty().intersect(second_set) =~= Set::<Seq<char>>::empty());
    }
    while i < first.len()
        invariant
            i <= first@.len(),
            shared <= i,
            texts(first@).no_duplicates(),
            texts(second@).to_set() == second_set,
            second_set.finite(),
            shared == texts(first@).take(i as int).to_set().intersect(second_set).len(),
        decreases first@.len() - i,
    {
        let found = holds_word(&second, &first[i]);
        proof {
            let before = texts(first@).take(i as int);
            let word = texts(first@)[i as int];
            assert(texts(first@).take(i + 1) =~= before.push(word));
            lemma_push_to_set(before, word);
            seq_to_set_is_finite(before);
            assert(!before.to_set().contains(word)) by {
                if before.contains(word) {
                    let k = choose|k: int| 0 <= k < before.len() && before[k] == word;
                    assert(texts(first@)[k] == word);
                }
            }
            let met = before.to_set().intersect(second_set);
            if found {
                assert(second_set.contains(word));
                assert(before.to_set().insert(word).intersect(second_set) =~= met.insert(word));
            } else {
                assert(!second_set.contains(word));
                assert(before.to_set().insert(word).intersect(second_set) =~= met);
            }
        }
        if found {
            shared += 1;
        }
        i += 1;
    }
    proof {
        assert(texts(first@).take(i as int) =~= texts(first@));
        texts(first@).unique_seq_to_set();
        texts(second@).unique_seq_to_set();
        lemma_set_intersect_union_lens(first_set, second_set);
    }
    let total: u128 = (first.len() as u128) + (second.len() as u128) - (shared as u128);
    WordOverlap { shared, total }
}

/// Counts the different words that `query` and `text` share, and the
/// different words of both together. Words are told apart in lower case.
pub fn word_overlap(query: &str, text: &str) -> (overlap: WordOverlap)
    ensures
        overlap.shared == shared_words(query@, text@),
        overlap.total == all_words(query@, text@),
{
    let first = lowercase(query);
    let second = lowercase(text);
    lowered_overlap(first.as_str(), second.as_str())
}

} // verus!
