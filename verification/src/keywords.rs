//! The words of a query that are worth searching for.

use vstd::prelude::*;
use vstd::string::StringSliceAdditionalSpecFns;
use vstd::utf8::encode_utf8;
use crate::canned::{lowercase, lowercase_of};
use crate::scan::{blank, is_blank};
use crate::text::chars_of;

verus! {

/// `c` is a letter or a number, as the standard library tells.
pub uninterp spec fn is_alphanumeric(c: char) -> bool;

/// `char::is_alphanumeric`. It is believed that the outcome depends on the
/// character alone.
#[verifier::external_body]
pub(crate) fn alphanumeric(c: char) -> (is: bool)
    ensures
        is == is_alphanumeric(c),
{
    c.is_alphanumeric()
}

/// Where the word that begins at `from` ends: at the next white space, or
/// at the end of `text`.
pub open spec fn word_end(text: Seq<char>, from: int) -> int
    decreases text.len() - from,
{
    if from < 0 || from >= text.len() {
        text.len() as int
    } else if is_blank(text[from]) {
        from
    } else {
        word_end(text, from + 1)
    }
}

/// The ranges of the words of `text` from `from` on: the runs of
/// characters between white space.
pub open spec fn words_from(text: Seq<char>, from: int) -> Seq<(int, int)>
    decreases text.len() - from,
{
    if from < 0 || from >= text.len() {
        Seq::empty()
    } else if is_blank(text[from]) {
        words_from(text, from + 1)
    } else if word_end(text, from) <= from || word_end(text, from) > text.len() {
        Seq::empty()
    } else {
        seq![(from, word_end(text, from))] + words_from(text, word_end(text, from))
    }
}

/// Where `text[from..to]` begins once what is neither letter nor number at
/// its start is left out; `to` where it holds neither.
pub open spec fn core_start(text: Seq<char>, from: int, to: int) -> int
    decreases to - from,
{
    if from >= to {
        to
    } else if !is_alphanumeric(text[from]) {
        core_start(text, from + 1, to)
    } else {
        from
    }
}

/// Where `text[from..to]` ends once what is neither letter nor number at
/// its end is left out; `from` where it holds neither.
pub open spec fn core_end(text: Seq<char>, from: int, to: int) -> int
    decreases to - from,
{
    if from >= to {
        from
    } else if !is_alphanumeric(text[to - 1]) {
        core_end(text, from, to - 1)
    } else {
        to
    }
}

/// The range of the keyword in the word `text[word.0..word.1]`: the word
/// from its first to its last letter or number.
pub open spec fn keyword_range(text: Seq<char>, word: (int, int)) -> (int, int) {
    let start = core_start(text, word.0, word.1);
    (start, core_end(text, start, word.1))
}

/// The word `text[word.0..word.1]` yields a keyword: it takes more than
/// two bytes in UTF-8, and holds a letter or a number.
pub open spec fn yields_keyword(text: Seq<char>, word: (int, int)) -> bool {
    &&& encode_utf8(text.subrange(word.0, word.1)).len() > 2
    &&& keyword_range(text, word).0 < keyword_range(text, word).1
}

/// The keywords that `words` of `text` yield, in their order.
pub open spec fn keywords_among(text: Seq<char>, words: Seq<(int, int)>) -> Seq<Seq<char>>
    decreases words.len(),
{
    if words.len() == 0 {
        Seq::empty()
    } else if yields_keyword(text, words.last()) {
        keywords_among(text, words.drop_last()).push(
            text.subrange(
                keyword_range(text, words.last()).0,
                keyword_range(text, words.last()).1,
            ),
        )
    } else {
        keywords_among(text, words.drop_last())
    }
}

/// The keywords of a text that is in lower case already: its words,
/// short ones left out, each from its first to its last letter or number.
pub open spec fn keywords_in(lower: Seq<char>) -> Seq<Seq<char>> {
    keywords_among(lower, words_from(lower, 0))
}

/// The keywords of `query`: those of its lower-case form.
pub open spec fn keywords_of(query: Seq<char>) -> Seq<Seq<char>> {
    keywords_in(lowercase_of(query))
}

/// Takes the word `chars[start..stop]` of `text`: where it yields a
/// keyword, the keyword is added to `keywords`.
fn take_word(
    text: &str,
    chars: &Vec<char>,
    keywords: &mut Vec<String>,
    start: usize,
    stop: usize,
    Ghost(words): Ghost<Seq<(int, int)>>,
)
    requires
        chars@ == text@,
        start <= stop <= chars@.len(),
        old(keywords).deep_view() == keywords_among(chars@, words),
    ensures
        final(keywords).deep_view() == keywords_among(
            chars@,
            words.push((start as int, stop as int)),
        ),
{
    let ghost word = (start as int, stop as int);
    proof {
        assert(words.push(word).last() == word);
        assert(words.push(word).drop_last() =~= words);
    }
    let word = text.substring_char(start, stop);
    let long = word.as_bytes().len() > 2;
    proof {
        assert(word@ == chars@.subrange(start as int, stop as int));
        assert(word.spec_bytes() == encode_utf8(word@));
    }
    if long {
        let mut from: usize = start;
        while from < stop && !alphanumeric(chars[from])
            invariant
                start <= from <= stop <= chars@.len(),
                core_start(chars@, start as int, stop as int) == core_start(
                    chars@,
                    from as int,
                    stop as int,
                ),
            decreases stop - from,
        {
            from += 1;
        }
        let mut to: usize = stop;
        while from < to && !alphanumeric(chars[to - 1])
            invariant
                from <= to <= stop <= chars@.len(),
                core_end(chars@, from as int, stop as int) == core_end(
                    chars@,
                    from as int,
                    to as int,
                ),
            decreases to - from,
        {
            to -= 1;
        }
        if from < to {
            let keyword = String::from_str(text.substring_char(from, to));
            let ghost before = keywords.deep_view();
            keywords.push(keyword);
            proof {
                assert(keywords.deep_view() =~= before.push(keyword@));
            }
        }
    }
}

/// Picks the keywords out of `text`, which is in lower case already.
pub fn lowered_keywords(text: &str) -> (keywords: Vec<String>)
    ensures
        keywords.deep_view() == keywords_in(text@),
{
    let chars = chars_of(text);
    let n = chars.len();
    let mut keywords: Vec<String> = Vec::new();
    let ghost mut words: Seq<(int, int)> = Seq::empty();
    let mut i: usize = 0;
    proof {
        assert(keywords.deep_view() =~= keywords_among(chars@, words));
        assert(words + words_from(chars@, 0) =~= words_from(chars@, 0));
    }
    while i < n
        invariant
            chars@ == text@,
            n == chars@.len(),
            i <= n,
            keywords.deep_view() == keywords_among(chars@, words),
            words_from(chars@, 0) == words + words_from(chars@, i as int),
        decreases n - i,
    {
        if blank(chars[i]) {
            i += 1;
        } else {
            let mut stop: usize = i + 1;
            while stop < n && !blank(chars[stop])
                invariant
                    i < stop <= n,
                    n == chars@.len(),
                    !is_blank(chars@[i as int]),
                    word_end(chars@, i as int) == word_end(chars@, stop as int),
                decreases n - stop,
            {
                stop += 1;
            }
            take_word(text, &chars, &mut keywords, i, stop, Ghost(words));
            proof {
                let rest = words_from(chars@, stop as int);
                assert(word_end(chars@, i as int) == stop);
                assert(words + (seq![(i as int, stop as int)] + rest) =~= words.push(
                    (i as int, stop as int),
                ) + rest);
                words = words.push((i as int, stop as int));
            }
            i = stop;
        }
    }
    proof {
        assert(words + words_from(chars@, n as int) =~= words);
    }
    keywords
}

/// Picks the keywords out of `query`: those of its lower-case form.
pub fn extract_keywords(query: &str) -> (keywords: Vec<String>)
    ensures
        keywords.deep_view() == keywords_of(query@),
{
    let lower = lowercase(query);
    lowered_keywords(lower.as_str())
}

} // verus!
