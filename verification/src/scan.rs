//! Looking through a text: for a pattern, for its blank ends, for its
//! lines; and the decimal text of a number.

use vstd::prelude::*;

verus! {

/// `pattern` stands in `text` at position `at`.
pub open spec fn occurs_at(text: Seq<char>, pattern: Seq<char>, at: int) -> bool {
    0 <= at && at + pattern.len() <= text.len() && text.subrange(at, at + pattern.len())
        == pattern
}

/// Position of the first occurrence of `pattern` that lies within
/// `text[from..to]`; `None` where there is none.
pub open spec fn search_in(text: Seq<char>, pattern: Seq<char>, from: int, to: int) -> Option<int>
    decreases to - from,
{
    if from < 0 || from + pattern.len() > to {
        None
    } else if occurs_at(text, pattern, from) {
        Some(from)
    } else if from >= to {
        None
    } else {
        search_in(text, pattern, from + 1, to)
    }
}

/// `pattern` occurs somewhere in `text`.
pub open spec fn mentions(text: Seq<char>, pattern: Seq<char>) -> bool {
    search_in(text, pattern, 0, text.len() as int) is Some
}

/// What `search_in` finds is an occurrence within the range, and the first
/// one; where it finds none, there is none.
pub proof fn lemma_search_in(text: Seq<char>, pattern: Seq<char>, from: int, to: int)
    requires
        0 <= from,
        to <= text.len(),
    ensures
        match search_in(text, pattern, from, to) {
            Some(at) => {
                &&& from <= at
                &&& at + pattern.len() <= to
                &&& occurs_at(text, pattern, at)
                &&& forall|i: int| from <= i < at ==> !occurs_at(text, pattern, i)
            },
            None => forall|i: int|
                from <= i && i + pattern.len() <= to ==> !occurs_at(text, pattern, i),
        },
    decreases to - from,
{
    if from + pattern.len() <= to && !occurs_at(text, pattern, from) && from < to {
        lemma_search_in(text, pattern, from + 1, to);
    }
}

/// Tells whether `pattern` stands in `text` at `at`.
pub fn matches_at(text: &Vec<char>, pattern: &Vec<char>, at: usize) -> (found: bool)
    requires
        at + pattern@.len() <= text@.len(),
    ensures
        found == occurs_at(text@, pattern@, at as int),
{
    let n = text.len();
    let mut k: usize = 0;
    while k < pattern.len()
        invariant
            k <= pattern@.len(),
            n == text@.len(),
            at + pattern@.len() <= n,
            forall|j: int| 0 <= j < k ==> text@[at + j] == pattern@[j],
        decreases pattern@.len() - k,
    {
        if text[at + k] != pattern[k] {
            proof {
                assert(text@.subrange(at as int, at + pattern@.len())[k as int] == text@[at + k]);
            }
            return false;
        }
        k += 1;
    }
    proof {
        assert(text@.subrange(at as int, at + pattern@.len()) =~= pattern@);
    }
    true
}

/// Finds the first occurrence of `pattern` within `text[from..to]`.
pub fn find_in(text: &Vec<char>, pattern: &Vec<char>, from: usize, to: usize) -> (found: Option<
    usize,
>)
    requires
        to <= text@.len(),
    ensures
        match found {
            Some(at) => search_in(text@, pattern@, from as int, to as int) == Some(at as int),
            None => search_in(text@, pattern@, from as int, to as int) is None,
        },
{
    if pattern.len() > to {
        return None;
    }
    let last = to - pattern.len();
    let mut i: usize = from;
    while i <= last
        invariant
            from <= i,
            to <= text@.len(),
            last == to - pattern@.len(),
            search_in(text@, pattern@, from as int, to as int) == search_in(
                text@,
                pattern@,
                i as int,
                to as int,
            ),
        decreases last - i,
    {
        if matches_at(text, pattern, i) {
            return Some(i);
        }
        if i == last {
            return None;
        }
        i += 1;
    }
    None
}

/// Tells whether `pattern` occurs in `text`.
pub fn contains_text(text: &Vec<char>, pattern: &Vec<char>) -> (found: bool)
    ensures
        found == mentions(text@, pattern@),
{
    find_in(text, pattern, 0, text.len()).is_some()
}

/// `c` is white space: one of the characters that Unicode lists as such.
pub open spec fn is_blank(c: char) -> bool {
    let code = c as u32;
    ||| 0x09 <= code <= 0x0D
    ||| code == 0x20
    ||| code == 0x85
    ||| code == 0xA0
    ||| code == 0x1680
    ||| 0x2000 <= code <= 0x200A
    ||| code == 0x2028
    ||| code == 0x2029
    ||| code == 0x202F
    ||| code == 0x205F
    ||| code == 0x3000
}

/// Tells whether `c` is white space.
pub fn blank(c: char) -> (is: bool)
    ensures
        is == is_blank(c),
{
    let code = c as u32;
    (0x09 <= code && code <= 0x0D) || code == 0x20 || code == 0x85 || code == 0xA0 || code
        == 0x1680 || (0x2000 <= code && code <= 0x200A) || code == 0x2028 || code == 0x2029
        || code == 0x202F || code == 0x205F || code == 0x3000
}

/// Where `text[from..to]` begins once the white space at its start is
/// left out; `to` where it is white space throughout.
pub open spec fn trim_start(text: Seq<char>, from: int, to: int) -> int
    decreases to - from,
{
    if from >= to {
        to
    } else if is_blank(text[from]) {
        trim_start(text, from + 1, to)
    } else {
        from
    }
}

/// Where `text[from..to]` ends once the white space at its end is left
/// out; `from` where it is white space throughout.
pub open spec fn trim_end(text: Seq<char>, from: int, to: int) -> int
    decreases to - from,
{
    if from >= to {
        from
    } else if is_blank(text[to - 1]) {
        trim_end(text, from, to - 1)
    } else {
        to
    }
}

/// The range of `text[from..to]` without the white space at both ends.
pub open spec fn trimmed_range(text: Seq<char>, from: int, to: int) -> (int, int) {
    let start = trim_start(text, from, to);
    (start, trim_end(text, start, to))
}

/// Finds the range of `text[from..to]` without the white space at both
/// ends.
pub fn trim_range(text: &Vec<char>, from: usize, to: usize) -> (range: (usize, usize))
    requires
        from <= to <= text@.len(),
    ensures
        (range.0 as int, range.1 as int) == trimmed_range(text@, from as int, to as int),
        from <= range.0 <= range.1 <= to,
{
    let mut start: usize = from;
    while start < to && blank(text[start])
        invariant
            from <= start <= to <= text@.len(),
            trim_start(text@, from as int, to as int) == trim_start(text@, start as int, to as int),
        decreases to - start,
    {
        start += 1;
    }
    let mut end: usize = to;
    while start < end && blank(text[end - 1])
        invariant
            start <= end <= to <= text@.len(),
            trim_end(text@, start as int, to as int) == trim_end(text@, start as int, end as int),
        decreases end - start,
    {
        end -= 1;
    }
    (start, end)
}

/// The decimal digit `d` as a character.
pub open spec fn digit_char(d: nat) -> char {
    if d == 0 {
        '0'
    } else if d == 1 {
        '1'
    } else if d == 2 {
        '2'
    } else if d == 3 {
        '3'
    } else if d == 4 {
        '4'
    } else if d == 5 {
        '5'
    } else if d == 6 {
        '6'
    } else if d == 7 {
        '7'
    } else if d == 8 {
        '8'
    } else {
        '9'
    }
}

/// The decimal text of `n`, without leading zeros.
pub open spec fn decimal_text(n: nat) -> Seq<char>
    decreases n,
{
    if n < 10 {
        seq![digit_char(n)]
    } else {
        decimal_text(n / 10) + seq![digit_char(n % 10)]
    }
}

/// Appends the decimal text of `n` to `out`.
pub fn append_decimal(out: &mut String, n: usize)
    ensures
        final(out)@ == old(out)@ + decimal_text(n as nat),
    decreases n,
{
    if n >= 10 {
        append_decimal(out, n / 10);
    }
    let ghost before = out@;
    let d = n % 10;
    proof {
        reveal_strlit("0");
        reveal_strlit("1");
        reveal_strlit("2");
        reveal_strlit("3");
        reveal_strlit("4");
        reveal_strlit("5");
        reveal_strlit("6");
        reveal_strlit("7");
        reveal_strlit("8");
        reveal_strlit("9");
    }
    if d == 0 {
        out.append("0");
    } else if d == 1 {
        out.append("1");
    } else if d == 2 {
        out.append("2");
    } else if d == 3 {
        out.append("3");
    } else if d == 4 {
        out.append("4");
    } else if d == 5 {
        out.append("5");
    } else if d == 6 {
        out.append("6");
    } else if d == 7 {
        out.append("7");
    } else if d == 8 {
        out.append("8");
    } else {
        out.append("9");
    }
    proof {
        assert(out@ =~= before + seq![digit_char(d as nat)]);
        if n >= 10 {
            assert(out@ =~= old(out)@ + (decimal_text((n / 10) as nat) + seq![
                digit_char((n % 10) as nat),
            ]));
        }
    }
}

} // verus!
