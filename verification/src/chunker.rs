//! Cuts the text of an entry into chunks of whole paragraphs.

use vstd::prelude::*;
use crate::text::chars_of;

verus! {

/// The length, in characters, that a chunk of several paragraphs may not
/// exceed.
pub const CHUNK_LIMIT: usize = 500;

/// What separates two paragraphs: a blank line.
pub open spec fn paragraph_break() -> Seq<char> {
    seq!['\n', '\n']
}

/// A paragraph break stands at position `i` of `text`.
pub open spec fn break_at(text: Seq<char>, i: int) -> bool {
    0 <= i && i + 1 < text.len() && text[i] == '\n' && text[i + 1] == '\n'
}

/// Position of the first paragraph break at or after `from`; the length of
/// `text` where there is none.
#[verifier::opaque]
pub open spec fn next_break(text: Seq<char>, from: int) -> int
    decreases text.len() - from,
{
    if from < 0 || from + 1 >= text.len() {
        text.len() as int
    } else if break_at(text, from) {
        from
    } else {
        next_break(text, from + 1)
    }
}

/// The paragraphs of `text` from position `start` on: the text between one
/// paragraph break and the next, breaks found from left to right.
#[verifier::opaque]
pub open spec fn paragraphs_from(text: Seq<char>, start: int) -> Seq<Seq<char>>
    decreases text.len() - start,
{
    let stop = next_break(text, start);
    if start < 0 || stop < start || stop + 2 > text.len() {
        seq![text.subrange(start, text.len() as int)]
    } else {
        seq![text.subrange(start, stop)] + paragraphs_from(text, stop + 2)
    }
}

/// The paragraphs of `text`. A text without a break is one paragraph.
pub open spec fn paragraphs(text: Seq<char>) -> Seq<Seq<char>> {
    paragraphs_from(text, 0)
}

/// The chunks made of the paragraphs `rest` after `buffer` has been
/// gathered: a paragraph joins the buffer behind a break unless the buffer
/// holds text and would grow beyond `CHUNK_LIMIT`; then the buffer becomes
/// a chunk and the paragraph starts the next buffer. A buffer without text
/// is never made a chunk.
#[verifier::opaque]
pub open spec fn pack(rest: Seq<Seq<char>>, buffer: Seq<char>) -> Seq<Seq<char>>
    decreases rest.len(),
{
    if rest.len() == 0 {
        if buffer.len() > 0 {
            seq![buffer]
        } else {
            Seq::empty()
        }
    } else if buffer.len() == 0 {
        pack(rest.drop_first(), rest.first())
    } else if buffer.len() + 2 + rest.first().len() > CHUNK_LIMIT {
        seq![buffer] + pack(rest.drop_first(), rest.first())
    } else {
        pack(rest.drop_first(), buffer + paragraph_break() + rest.first())
    }
}

/// The chunks of `text`.
pub open spec fn chunks_of(text: Seq<char>) -> Seq<Seq<char>> {
    pack(paragraphs(text), Seq::empty())
}

/// `parts` joined by paragraph breaks.
pub open spec fn join_paragraphs(parts: Seq<Seq<char>>) -> Seq<char>
    decreases parts.len(),
{
    if parts.len() == 0 {
        Seq::empty()
    } else if parts.len() == 1 {
        parts.first()
    } else {
        parts.first() + paragraph_break() + join_paragraphs(parts.drop_first())
    }
}

/// The next break lies between `from` and the end of the text, and no break
/// stands before it.
pub proof fn lemma_next_break(text: Seq<char>, from: int)
    requires
        0 <= from <= text.len(),
    ensures
        from <= next_break(text, from) <= text.len(),
        next_break(text, from) < text.len() ==> break_at(text, next_break(text, from)),
        forall|i: int| from <= i < next_break(text, from) ==> !break_at(text, i),
    decreases text.len() - from,
{
    reveal(next_break);
    if from + 1 < text.len() && !break_at(text, from) {
        lemma_next_break(text, from + 1);
    }
}

/// Where no break stands at `from`, the next break is that after `from`.
proof fn lemma_next_break_skip(text: Seq<char>, from: int)
    requires
        0 <= from,
        !break_at(text, from),
    ensures
        next_break(text, from) == next_break(text, from + 1),
{
    reveal(next_break);
    if from + 1 >= text.len() {
        assert(next_break(text, from + 1) == text.len());
    }
}

/// A break at `from` is the next break from there.
proof fn lemma_next_break_here(text: Seq<char>, from: int)
    requires
        break_at(text, from),
    ensures
        next_break(text, from) == from,
{
    reveal(next_break);
}

/// From `from` on, at most one character is left: no break follows.
proof fn lemma_next_break_end(text: Seq<char>, from: int)
    requires
        from + 1 >= text.len(),
    ensures
        next_break(text, from) == text.len(),
{
    reveal(next_break);
}

/// The paragraphs from `start` on are the text up to the next break and
/// the paragraphs behind that break.
proof fn lemma_paragraphs_step(text: Seq<char>, start: int)
    requires
        0 <= start <= text.len(),
        next_break(text, start) < text.len(),
    ensures
        paragraphs_from(text, start) == seq![text.subrange(start, next_break(text, start))]
            + paragraphs_from(text, next_break(text, start) + 2),
{
    reveal(paragraphs_from);
    lemma_next_break(text, start);
}

/// Without a break from `start` on, the rest of the text is one paragraph.
proof fn lemma_paragraphs_last(text: Seq<char>, start: int)
    requires
        0 <= start <= text.len(),
        next_break(text, start) == text.len(),
    ensures
        paragraphs_from(text, start) == seq![text.subrange(start, text.len() as int)],
{
    reveal(paragraphs_from);
}

/// With nothing left to gather, the buffer is the last chunk if it holds
/// text.
proof fn lemma_pack_end(rest: Seq<Seq<char>>, buffer: Seq<char>)
    requires
        rest.len() == 0,
    ensures
        pack(rest, buffer) == if buffer.len() > 0 {
            seq![buffer]
        } else {
            Seq::<Seq<char>>::empty()
        },
{
    reveal(pack);
}

/// One step of gathering.
proof fn lemma_pack_step(rest: Seq<Seq<char>>, buffer: Seq<char>)
    requires
        rest.len() > 0,
    ensures
        pack(rest, buffer) == if buffer.len() == 0 {
            pack(rest.drop_first(), rest.first())
        } else if buffer.len() + 2 + rest.first().len() > CHUNK_LIMIT {
            seq![buffer] + pack(rest.drop_first(), rest.first())
        } else {
            pack(rest.drop_first(), buffer + paragraph_break() + rest.first())
        },
{
    reveal(pack);
}

/// An empty text has no chunks.
pub proof fn lemma_chunks_of_empty()
    ensures
        chunks_of(Seq::<char>::empty()) == Seq::<Seq<char>>::empty(),
{
    let text = Seq::<char>::empty();
    lemma_next_break_end(text, 0);
    lemma_paragraphs_last(text, 0);
    let all = paragraphs(text);
    lemma_pack_step(all, text);
    lemma_pack_end(all.drop_first(), all.first());
}

/// A text that is not empty and holds no paragraph break is its own single
/// chunk, however long it is.
pub proof fn lemma_chunks_without_break(text: Seq<char>)
    requires
        text.len() > 0,
        forall|i: int| !break_at(text, i),
    ensures
        chunks_of(text) == seq![text],
{
    lemma_next_break(text, 0);
    lemma_paragraphs_last(text, 0);
    assert(text.subrange(0, text.len() as int) =~= text);
    let all = paragraphs(text);
    lemma_pack_step(all, Seq::empty());
    lemma_pack_end(all.drop_first(), all.first());
}

/// `chunk` holds text, and is within the limit or is one whole paragraph
/// of `all`.
pub open spec fn chunk_in_bounds(all: Seq<Seq<char>>, chunk: Seq<char>) -> bool {
    chunk.len() > 0 && (chunk.len() <= CHUNK_LIMIT || all.contains(chunk))
}

/// Gathering paragraphs of `all` behind a buffer that is within the limit,
/// or one of them, gives chunks in bounds.
proof fn lemma_pack_bounded(all: Seq<Seq<char>>, rest: Seq<Seq<char>>, buffer: Seq<char>)
    requires
        forall|i: int| 0 <= i < rest.len() ==> all.contains(#[trigger] rest[i]),
        buffer.len() <= CHUNK_LIMIT || all.contains(buffer),
    ensures
        forall|i: int|
            0 <= i < pack(rest, buffer).len() ==> chunk_in_bounds(all, #[trigger] pack(rest, buffer)[i]),
    decreases rest.len(),
{
    if rest.len() == 0 {
        lemma_pack_end(rest, buffer);
    } else {
        lemma_pack_step(rest, buffer);
        let tail = rest.drop_first();
        assert forall|i: int| 0 <= i < tail.len() implies all.contains(#[trigger] tail[i]) by {
            assert(tail[i] == rest[i + 1]);
        }
        assert(all.contains(rest[0]));
        if buffer.len() == 0 || buffer.len() + 2 + rest.first().len() > CHUNK_LIMIT {
            lemma_pack_bounded(all, tail, rest.first());
        } else {
            lemma_pack_bounded(all, tail, buffer + paragraph_break() + rest.first());
        }
    }
}

/// No chunk is empty, and none exceeds `CHUNK_LIMIT` characters except one
/// that is a single paragraph of the text.
pub proof fn lemma_chunks_bounded(text: Seq<char>)
    ensures
        forall|i: int|
            0 <= i < chunks_of(text).len() ==> chunk_in_bounds(
                paragraphs(text),
                #[trigger] chunks_of(text)[i],
            ),
{
    lemma_pack_bounded(paragraphs(text), paragraphs(text), Seq::empty());
}

/// A text has at least one paragraph.
proof fn lemma_paragraphs_exist(text: Seq<char>, start: int)
    requires
        0 <= start <= text.len(),
    ensures
        paragraphs_from(text, start).len() > 0,
{
    lemma_next_break(text, start);
    if next_break(text, start) < text.len() {
        lemma_paragraphs_step(text, start);
    } else {
        lemma_paragraphs_last(text, start);
    }
}

/// The paragraphs of a text, joined by breaks, are the text.
pub proof fn lemma_paragraphs_rejoin(text: Seq<char>, start: int)
    requires
        0 <= start <= text.len(),
    ensures
        join_paragraphs(paragraphs_from(text, start)) == text.subrange(start, text.len() as int),
    decreases text.len() - start,
{
    lemma_next_break(text, start);
    let stop = next_break(text, start);
    if stop < text.len() {
        lemma_paragraphs_step(text, start);
        lemma_paragraphs_exist(text, stop + 2);
        lemma_paragraphs_rejoin(text, stop + 2);
        let all = paragraphs_from(text, start);
        assert(all.drop_first() =~= paragraphs_from(text, stop + 2));
        assert(all.first() == text.subrange(start, stop));
        assert(text.subrange(start, stop) + paragraph_break() + text.subrange(
            stop + 2,
            text.len() as int,
        ) =~= text.subrange(start, text.len() as int));
    } else {
        lemma_paragraphs_last(text, start);
    }
}

/// Joining a first part and at least one more puts a break behind the
/// first.
proof fn lemma_join_cons(first: Seq<char>, more: Seq<Seq<char>>)
    requires
        more.len() > 0,
    ensures
        join_paragraphs(seq![first] + more) == first + paragraph_break() + join_paragraphs(more),
{
    let all = seq![first] + more;
    assert(all.first() == first);
    assert(all.drop_first() =~= more);
}

/// Gathering paragraphs that all hold text loses nothing: the chunks,
/// joined by breaks, are the buffer and the paragraphs joined by breaks.
proof fn lemma_pack_rejoin(rest: Seq<Seq<char>>, buffer: Seq<char>)
    requires
        forall|i: int| 0 <= i < rest.len() ==> (#[trigger] rest[i]).len() > 0,
    ensures
        buffer.len() > 0 ==> join_paragraphs(pack(rest, buffer)) == join_paragraphs(
            seq![buffer] + rest,
        ),
        buffer.len() == 0 ==> join_paragraphs(pack(rest, buffer)) == join_paragraphs(rest),
        buffer.len() > 0 || rest.len() > 0 ==> pack(rest, buffer).len() > 0,
    decreases rest.len(),
{
    if rest.len() == 0 {
        lemma_pack_end(rest, buffer);
        assert(seq![buffer] + rest =~= seq![buffer]);
    } else {
        lemma_pack_step(rest, buffer);
        let head = rest.first();
        let tail = rest.drop_first();
        assert(head == rest[0]);
        assert forall|i: int| 0 <= i < tail.len() implies (#[trigger] tail[i]).len() > 0 by {
            assert(tail[i] == rest[i + 1]);
        }
        assert(seq![head] + tail =~= rest);
        if buffer.len() == 0 {
            lemma_pack_rejoin(tail, head);
        } else if buffer.len() + 2 + head.len() > CHUNK_LIMIT {
            lemma_pack_rejoin(tail, head);
            lemma_join_cons(buffer, pack(tail, head));
            lemma_join_cons(buffer, rest);
        } else {
            let grown = buffer + paragraph_break() + head;
            lemma_pack_rejoin(tail, grown);
            lemma_join_cons(buffer, rest);
            if tail.len() == 0 {
                assert(seq![grown] + tail =~= seq![grown]);
                assert(rest =~= seq![head]);
                assert(join_paragraphs(rest) == head);
                assert(join_paragraphs(seq![grown]) == grown);
            } else {
                lemma_join_cons(grown, tail);
                lemma_join_cons(head, tail);
                assert(grown + paragraph_break() + join_paragraphs(tail) =~= buffer
                    + paragraph_break() + (head + paragraph_break() + join_paragraphs(tail)));
            }
        }
    }
}

/// The chunks of a text whose paragraphs all hold text, joined by
/// paragraph breaks in their order, are the text.
pub proof fn lemma_chunks_rejoin(text: Seq<char>)
    requires
        forall|i: int| 0 <= i < paragraphs(text).len() ==> (#[trigger] paragraphs(text)[i]).len() > 0,
    ensures
        join_paragraphs(chunks_of(text)) == text,
{
    lemma_pack_rejoin(paragraphs(text), Seq::empty());
    lemma_paragraphs_rejoin(text, 0);
    assert(text.subrange(0, text.len() as int) =~= text);
}

/// `count` paragraph breaks in a row.
pub open spec fn breaks(count: nat) -> Seq<char>
    decreases count,
{
    if count == 0 {
        Seq::empty()
    } else {
        paragraph_break() + breaks((count - 1) as nat)
    }
}

/// Gathering `rest` behind `buffer` loses no break between two chunks:
/// once a chunk has been made (`flushed`), no paragraph that holds text
/// meets a buffer without text. The breaks that are lost then stand before
/// the first chunk or behind the last.
pub open spec fn keeps_inner_breaks(rest: Seq<Seq<char>>, buffer: Seq<char>, flushed: bool) -> bool
    decreases rest.len(),
{
    if rest.len() == 0 {
        true
    } else if buffer.len() == 0 {
        !(flushed && rest.first().len() > 0) && keeps_inner_breaks(
            rest.drop_first(),
            rest.first(),
            flushed,
        )
    } else if buffer.len() + 2 + rest.first().len() > CHUNK_LIMIT {
        keeps_inner_breaks(rest.drop_first(), rest.first(), true)
    } else {
        keeps_inner_breaks(rest.drop_first(), buffer + paragraph_break() + rest.first(), flushed)
    }
}

/// Paragraphs without text, joined, are breaks only.
proof fn lemma_join_blank(parts: Seq<Seq<char>>)
    requires
        parts.len() > 0,
        forall|i: int| 0 <= i < parts.len() ==> (#[trigger] parts[i]).len() == 0,
    ensures
        join_paragraphs(parts) == breaks((parts.len() - 1) as nat),
    decreases parts.len(),
{
    assert(parts[0].len() == 0);
    if parts.len() == 1 {
        assert(parts.first() =~= Seq::<char>::empty());
    } else {
        let tail = parts.drop_first();
        assert forall|i: int| 0 <= i < tail.len() implies (#[trigger] tail[i]).len() == 0 by {
            assert(tail[i] == parts[i + 1]);
        }
        lemma_join_blank(tail);
        assert(parts.first() + paragraph_break() + join_paragraphs(tail) =~= paragraph_break()
            + breaks((tail.len() - 1) as nat));
    }
}

/// Once a chunk has been made and the buffer is without text, gathering
/// that keeps the inner breaks meets only paragraphs without text and
/// makes no further chunk.
proof fn lemma_pack_blank_rest(rest: Seq<Seq<char>>, buffer: Seq<char>)
    requires
        buffer.len() == 0,
        keeps_inner_breaks(rest, buffer, true),
    ensures
        pack(rest, buffer).len() == 0,
        forall|i: int| 0 <= i < rest.len() ==> (#[trigger] rest[i]).len() == 0,
    decreases rest.len(),
{
    if rest.len() == 0 {
        lemma_pack_end(rest, buffer);
    } else {
        lemma_pack_step(rest, buffer);
        let tail = rest.drop_first();
        lemma_pack_blank_rest(tail, rest.first());
        assert forall|i: int| 0 <= i < rest.len() implies (#[trigger] rest[i]).len() == 0 by {
            if i > 0 {
                assert(rest[i] == tail[i - 1]);
            }
        }
    }
}

/// Gathering behind a buffer that holds text, with the inner breaks kept,
/// gives chunks that rejoin to the buffer and the paragraphs, but for
/// breaks at the end. Returns their number.
proof fn lemma_pack_keeps_text(rest: Seq<Seq<char>>, buffer: Seq<char>, flushed: bool) -> (trail:
    nat)
    requires
        buffer.len() > 0,
        keeps_inner_breaks(rest, buffer, flushed),
    ensures
        pack(rest, buffer).len() > 0,
        join_paragraphs(seq![buffer] + rest) == join_paragraphs(pack(rest, buffer)) + breaks(
            trail,
        ),
    decreases rest.len(),
{
    if rest.len() == 0 {
        lemma_pack_end(rest, buffer);
        assert(seq![buffer] + rest =~= seq![buffer]);
        assert(buffer + breaks(0) =~= buffer);
        0
    } else {
        lemma_pack_step(rest, buffer);
        let head = rest.first();
        let tail = rest.drop_first();
        assert(seq![head] + tail =~= rest);
        lemma_join_cons(buffer, rest);
        if buffer.len() + 2 + head.len() > CHUNK_LIMIT {
            if head.len() > 0 {
                let trail = lemma_pack_keeps_text(tail, head, true);
                lemma_join_cons(buffer, pack(tail, head));
                assert(buffer + paragraph_break() + (join_paragraphs(pack(tail, head)) + breaks(
                    trail,
                )) =~= (buffer + paragraph_break() + join_paragraphs(pack(tail, head))) + breaks(
                    trail,
                ));
                trail
            } else {
                lemma_pack_blank_rest(tail, head);
                assert(seq![buffer] + pack(tail, head) =~= seq![buffer]);
                assert forall|i: int| 0 <= i < rest.len() implies (#[trigger] rest[i]).len()
                    == 0 by {
                    if i > 0 {
                        assert(rest[i] == tail[i - 1]);
                    }
                }
                lemma_join_blank(rest);
                assert(buffer + paragraph_break() + breaks((rest.len() - 1) as nat) =~= buffer
                    + breaks(rest.len()));
                rest.len()
            }
        } else {
            let grown = buffer + paragraph_break() + head;
            let trail = lemma_pack_keeps_text(tail, grown, flushed);
            if tail.len() == 0 {
                assert(seq![grown] + tail =~= seq![grown]);
                assert(rest =~= seq![head]);
                assert(join_paragraphs(rest) == head);
                assert(join_paragraphs(seq![grown]) == grown);
            } else {
                lemma_join_cons(grown, tail);
                lemma_join_cons(head, tail);
                assert(grown + paragraph_break() + join_paragraphs(tail) =~= buffer
                    + paragraph_break() + (head + paragraph_break() + join_paragraphs(tail)));
            }
            trail
        }
    }
}

/// Gathering from the start, with the inner breaks kept, gives chunks that
/// rejoin to the paragraphs, but for breaks at both ends. Returns their
/// numbers.
proof fn lemma_pack_keeps_start(rest: Seq<Seq<char>>) -> (ends: (nat, nat))
    requires
        rest.len() > 0,
        keeps_inner_breaks(rest, Seq::empty(), false),
    ensures
        join_paragraphs(rest) == breaks(ends.0) + join_paragraphs(pack(rest, Seq::empty()))
            + breaks(ends.1),
    decreases rest.len(),
{
    let nothing = Seq::<char>::empty();
    lemma_pack_step(rest, nothing);
    let head = rest.first();
    let tail = rest.drop_first();
    assert(seq![head] + tail =~= rest);
    if head.len() > 0 {
        let trail = lemma_pack_keeps_text(tail, head, false);
        assert(breaks(0) + join_paragraphs(pack(tail, head)) + breaks(trail) =~= join_paragraphs(
            pack(tail, head),
        ) + breaks(trail));
        (0, trail)
    } else {
        assert(head =~= nothing);
        if tail.len() == 0 {
            lemma_pack_end(tail, head);
            assert(join_paragraphs(rest) == head);
            assert(breaks(0) + join_paragraphs(Seq::<Seq<char>>::empty()) + breaks(0) =~= nothing);
            (0, 0)
        } else {
            let ends = lemma_pack_keeps_start(tail);
            lemma_join_cons(head, tail);
            let middle = join_paragraphs(pack(tail, nothing));
            assert(head + paragraph_break() + (breaks(ends.0) + middle + breaks(ends.1)) =~= breaks(
                ends.0 + 1,
            ) + middle + breaks(ends.1));
            ((ends.0 + 1) as nat, ends.1)
        }
    }
}

/// The chunks of a text, joined by paragraph breaks in their order, are
/// the text but for paragraph breaks at its start and at its end, provided
/// that no break between two chunks is lost. One is lost where a
/// paragraph without text fills the buffer beyond the limit and text
/// follows.
pub proof fn lemma_chunks_rejoin_trimmed(text: Seq<char>)
    requires
        keeps_inner_breaks(paragraphs(text), Seq::empty(), false),
    ensures
        exists|lead: nat, trail: nat|
            text == #[trigger] breaks(lead) + join_paragraphs(chunks_of(text)) + #[trigger] breaks(
                trail,
            ),
{
    lemma_paragraphs_exist(text, 0);
    let ends = lemma_pack_keeps_start(paragraphs(text));
    lemma_paragraphs_rejoin(text, 0);
    assert(text.subrange(0, text.len() as int) =~= text);
    assert(text == breaks(ends.0) + join_paragraphs(chunks_of(text)) + breaks(ends.1));
}

/// Gathering paragraphs that all hold text keeps the inner breaks.
proof fn lemma_full_paragraphs_keep_breaks(rest: Seq<Seq<char>>, buffer: Seq<char>, flushed: bool)
    requires
        forall|i: int| 0 <= i < rest.len() ==> (#[trigger] rest[i]).len() > 0,
        buffer.len() > 0 || !flushed,
    ensures
        keeps_inner_breaks(rest, buffer, flushed),
    decreases rest.len(),
{
    if rest.len() > 0 {
        let head = rest.first();
        let tail = rest.drop_first();
        assert(head == rest[0]);
        assert forall|i: int| 0 <= i < tail.len() implies (#[trigger] tail[i]).len() > 0 by {
            assert(tail[i] == rest[i + 1]);
        }
        if buffer.len() == 0 {
            lemma_full_paragraphs_keep_breaks(tail, head, flushed);
        } else if buffer.len() + 2 + head.len() > CHUNK_LIMIT {
            lemma_full_paragraphs_keep_breaks(tail, head, true);
        } else {
            lemma_full_paragraphs_keep_breaks(tail, buffer + paragraph_break() + head, flushed);
        }
    }
}

/// A text whose paragraphs all hold text loses no break between two
/// chunks.
pub proof fn lemma_full_text_keeps_breaks(text: Seq<char>)
    requires
        forall|i: int| 0 <= i < paragraphs(text).len() ==> (#[trigger] paragraphs(text)[i]).len() > 0,
    ensures
        keeps_inner_breaks(paragraphs(text), Seq::empty(), false),
{
    lemma_full_paragraphs_keep_breaks(paragraphs(text), Seq::empty(), false);
}

/// Takes one paragraph, `text[start..stop]`, into the run of gathering:
/// the buffer is `text[from..to]`, and a chunk is pushed where the
/// paragraph does not fit behind it. Returns the new buffer.
fn gather(
    text: &str,
    chunks: &mut Vec<String>,
    from: usize,
    to: usize,
    start: usize,
    stop: usize,
    Ghost(rest): Ghost<Seq<Seq<char>>>,
) -> (buffer: (usize, usize))
    requires
        from <= to <= text@.len(),
        start <= stop <= text@.len(),
        from < to ==> to + 2 == start && break_at(text@, to as int),
    ensures
        buffer.0 <= buffer.1 <= text@.len(),
        buffer.0 < buffer.1 ==> buffer.1 == stop,
        old(chunks).deep_view() + pack(
            seq![text@.subrange(start as int, stop as int)] + rest,
            text@.subrange(from as int, to as int),
        ) == final(chunks).deep_view() + pack(
            rest,
            text@.subrange(buffer.0 as int, buffer.1 as int),
        ),
{
    let ghost paragraph = text@.subrange(start as int, stop as int);
    let ghost held = text@.subrange(from as int, to as int);
    proof {
        let all = seq![paragraph] + rest;
        assert(all.first() == paragraph);
        assert(all.drop_first() =~= rest);
        lemma_pack_step(all, held);
    }
    if from == to {
        (start, stop)
    } else if stop - from > CHUNK_LIMIT {
        let chunk = String::from_str(text.substring_char(from, to));
        let ghost before = chunks.deep_view();
        chunks.push(chunk);
        proof {
            assert(chunks.deep_view() =~= before + seq![held]);
            assert(before + (seq![held] + pack(rest, paragraph)) =~= (before + seq![held]) + pack(
                rest,
                paragraph,
            ));
        }
        (start, stop)
    } else {
        proof {
            assert(text@.subrange(from as int, stop as int) =~= held + paragraph_break()
                + paragraph);
        }
        (from, stop)
    }
}

/// Cuts `text` into chunks: whole paragraphs, gathered greedily up to
/// `CHUNK_LIMIT` characters. A paragraph longer than that is a chunk by
/// itself.
pub fn chunk_text(text: &str) -> (chunks: Vec<String>)
    ensures
        chunks.deep_view() == chunks_of(text@),
{
    let chars = chars_of(text);
    let n = chars.len();
    let mut chunks: Vec<String> = Vec::new();
    let mut from: usize = 0;
    let mut to: usize = 0;
    let mut start: usize = 0;
    let mut i: usize = 0;
    proof {
        assert(text@.subrange(0, 0) =~= Seq::<char>::empty());
        assert(chunks.deep_view() =~= Seq::<Seq<char>>::empty());
        assert(chunks.deep_view() + chunks_of(text@) =~= chunks_of(text@));
    }
    while i < n && i + 1 < n
        invariant
            chars@ == text@,
            n == text@.len(),
            start <= i <= n,
            from <= to <= n,
            from < to ==> to + 2 == start && break_at(text@, to as int),
            next_break(text@, start as int) == next_break(text@, i as int),
            chunks_of(text@) == chunks.deep_view() + pack(
                paragraphs_from(text@, start as int),
                text@.subrange(from as int, to as int),
            ),
        decreases n - i,
    {
        if chars[i] == '\n' && chars[i + 1] == '\n' {
            proof {
                assert(break_at(text@, i as int));
                lemma_next_break_here(text@, i as int);
                lemma_paragraphs_step(text@, start as int);
            }
            let buffer = gather(
                text,
                &mut chunks,
                from,
                to,
                start,
                i,
                Ghost(paragraphs_from(text@, i + 2)),
            );
            from = buffer.0;
            to = buffer.1;
            start = i + 2;
            i = i + 2;
        } else {
            proof {
                lemma_next_break_skip(text@, i as int);
            }
            i = i + 1;
        }
    }
    proof {
        lemma_next_break_end(text@, i as int);
        lemma_paragraphs_last(text@, start as int);
        assert(seq![text@.subrange(start as int, n as int)] + Seq::<Seq<char>>::empty() =~= seq![
            text@.subrange(start as int, n as int),
        ]);
    }
    let buffer = gather(text, &mut chunks, from, to, start, n, Ghost(Seq::empty()));
    proof {
        lemma_pack_end(Seq::empty(), text@.subrange(buffer.0 as int, buffer.1 as int));
    }
    if buffer.0 < buffer.1 {
        let chunk = String::from_str(text.substring_char(buffer.0, buffer.1));
        let ghost before = chunks.deep_view();
        chunks.push(chunk);
        proof {
            assert(chunks.deep_view() =~= before + seq![
                text@.subrange(buffer.0 as int, buffer.1 as int),
            ]);
        }
    } else {
        assert(chunks.deep_view() + Seq::<Seq<char>>::empty() =~= chunks.deep_view());
    }
    chunks
}

} // verus!
