//! What holds of the spans of every stream that the first stage gives.

use vstd::prelude::*;
use crate::text::{byte_len, lemma_offset_monotone, offset_of};
use crate::syntax::v2::Failure;
use crate::syntax::v2::muncher::{
    after, lemma_skip_cr, location_at, peek_2nd_at, peek_at, span_at, Location, Span,
};
use crate::syntax::v2::stage1::{
    block_comment_end, digit, is_closing, is_opening, lemma_line_comment_end, lex, lex_at,
    lex_group, lex_number, lex_string, lex_symbol, lex_token, lex_tt, lex_tts, lex_word,
    line_comment_end, moved, number_end, string_body, white_space, with_spacing, word_end,
    word_start, RawTree,
};

verus! {

/// True when the spans of the token tree and of all the token trees in it
/// are in order: none ends before it starts, that of a word, a number or a
/// symbol is not empty, and those that a group or a string holds lie
/// inside it, one behind the other.
pub open spec fn tree_in_order(tt: RawTree) -> bool
    decreases tt, 0int,
{
    &&& tt.span().start.byte <= tt.span().end.byte
    &&& (tt is Word || tt is Number || tt is Symbol) ==> tt.span().start.byte < tt.span().end.byte
    &&& match tt {
        RawTree::Group { span, interior, .. } => stream_in_order(
            interior,
            span.start.byte as int,
            span.end.byte as int,
        ),
        RawTree::String { span, subtrees } => stream_in_order(
            subtrees,
            span.start.byte as int,
            span.end.byte as int,
        ),
        _ => true,
    }
}

/// True when the token trees of the stream lie between the byte offsets
/// `from` and `to`, one behind the other, none overlapping the next, and
/// each is in order in itself.
pub open spec fn stream_in_order(stream: Seq<RawTree>, from: int, to: int) -> bool
    decreases stream, 1int,
{
    if stream.len() == 0 {
        from <= to
    } else {
        proof {
            assert(stream.drop_first() =~= stream.subrange(1, stream.len() as int));
        }
        &&& from <= stream[0].span().start.byte
        &&& tree_in_order(stream[0])
        &&& stream_in_order(stream.drop_first(), stream[0].span().end.byte as int, to)
    }
}

/// Where the white space and the comments from `p` on end: at the next
/// character of a token, at a closing delimiter, or at the end of the
/// text.
pub open spec fn gap_end(chars: Seq<char>, p: int) -> int
    decreases chars.len() - p,
{
    match peek_at(chars, p) {
        None => p,
        Some(c) => {
            let q = after(chars, p);
            if !moved(chars, p, q) || is_closing(c) {
                p
            } else if c == '#' {
                let r = line_comment_end(chars, q);
                if moved(chars, p, r) {
                    gap_end(chars, r)
                } else {
                    p
                }
            } else if c == '<' && peek_2nd_at(chars, p) == Some('#') {
                match block_comment_end(chars, after(chars, q)) {
                    Err(e) => p,
                    Ok(r) => if moved(chars, p, r) {
                        gap_end(chars, r)
                    } else {
                        p
                    },
                }
            } else if white_space(c) && c != '\n' {
                gap_end(chars, q)
            } else {
                p
            }
        },
    }
}

/// The byte offset of a location of the text is the offset of its
/// position, and grows with the position.
pub proof fn lemma_byte_of(chars: Seq<char>, p: int, q: int)
    requires
        byte_len(chars) <= u32::MAX,
        0 <= p <= q <= chars.len(),
    ensures
        location_at(chars, p).byte == offset_of(chars, p),
        location_at(chars, q).byte == offset_of(chars, q),
        location_at(chars, p).byte <= location_at(chars, q).byte <= byte_len(chars),
        p < q ==> location_at(chars, p).byte < location_at(chars, q).byte,
{
    reveal(location_at);
    lemma_offset_monotone(chars, p, q);
    lemma_offset_monotone(chars, p, p);
}

/// A stream that is in order stays in order between wider bounds.
pub proof fn lemma_wider(stream: Seq<RawTree>, from: int, to: int, lower: int, upper: int)
    requires
        stream_in_order(stream, from, to),
        lower <= from,
        to <= upper,
    ensures
        stream_in_order(stream, lower, upper),
        from <= to,
    decreases stream.len(),
{
    if stream.len() > 0 {
        assert(tree_in_order(stream[0]));
        assert(stream[0].span().start.byte <= stream[0].span().end.byte);
        lemma_wider(
            stream.drop_first(),
            stream[0].span().end.byte as int,
            to,
            stream[0].span().end.byte as int,
            upper,
        );
    }
}

/// A stream that is in order stays in order with one more token tree
/// behind it.
pub proof fn lemma_push(stream: Seq<RawTree>, from: int, mid: int, tt: RawTree, to: int)
    requires
        stream_in_order(stream, from, mid),
        tree_in_order(tt),
        mid <= tt.span().start.byte,
        tt.span().end.byte <= to,
    ensures
        stream_in_order(stream.push(tt), from, to),
    decreases stream.len(),
{
    let next = stream.push(tt);
    if stream.len() == 0 {
        assert(next.drop_first() =~= Seq::<RawTree>::empty());
        assert(next[0] == tt);
        assert(stream_in_order(next.drop_first(), tt.span().end.byte as int, to));
    } else {
        lemma_push(stream.drop_first(), stream[0].span().end.byte as int, mid, tt, to);
        assert(next.drop_first() =~= stream.drop_first().push(tt));
        assert(next[0] == stream[0]);
    }
}

/// Marking token trees as joined moves no span.
pub proof fn lemma_spacing_keeps_order(stream: Seq<RawTree>, from: int, to: int)
    requires
        stream_in_order(stream, from, to),
    ensures
        stream_in_order(with_spacing(stream), from, to),
    decreases stream.len(),
{
    assert(stream.skip(0) =~= stream);
    lemma_spaced_from(stream, 0, from, to);
    assert(with_spacing(stream).skip(0) =~= with_spacing(stream));
}

proof fn lemma_spaced_from(stream: Seq<RawTree>, k: int, from: int, to: int)
    requires
        0 <= k <= stream.len(),
        stream_in_order(stream.skip(k), from, to),
    ensures
        stream_in_order(with_spacing(stream).skip(k), from, to),
    decreases stream.len() - k,
{
    let marked = with_spacing(stream);
    if k < stream.len() {
        let rest = stream.skip(k);
        let marked_rest = marked.skip(k);
        assert(rest[0] == stream[k]);
        assert(marked_rest[0] == marked[k]);
        assert(marked[k].span() == stream[k].span());
        assert(tree_in_order(marked[k])) by {
            assert(tree_in_order(stream[k]));
        }
        assert(rest.drop_first() =~= stream.skip(k + 1));
        assert(marked_rest.drop_first() =~= marked.skip(k + 1));
        lemma_spaced_from(stream, k + 1, stream[k].span().end.byte as int, to);
    } else {
        assert(stream.skip(k) =~= Seq::<RawTree>::empty());
        assert(marked.skip(k) =~= Seq::<RawTree>::empty());
    }
}

/// True when the token tree `tt` is what was read from position `p` up to
/// position `q`: its span starts at the one and ends at the other, and it
/// is in order in itself.
pub open spec fn read_as(chars: Seq<char>, p: int, tt: RawTree, q: int) -> bool {
    &&& moved(chars, p, q)
    &&& tt.span() == (Span { start: location_at(chars, p), end: location_at(chars, q) })
    &&& tree_in_order(tt)
}

proof fn lemma_word_end(chars: Seq<char>, p: int)
    requires
        0 <= p <= chars.len(),
    ensures
        p <= word_end(chars, p) <= chars.len(),
    decreases chars.len() - p,
{
    lemma_skip_cr(chars, p);
    match peek_at(chars, p) {
        Some(c) => if crate::syntax::v2::stage1::word_part(c) {
            lemma_word_end(chars, after(chars, p));
        },
        None => {},
    }
}

proof fn lemma_number_end(chars: Seq<char>, p: int)
    requires
        0 <= p <= chars.len(),
    ensures
        p <= number_end(chars, p) <= chars.len(),
        (peek_at(chars, p) matches Some(c) && digit(c)) ==> p < number_end(chars, p),
    decreases chars.len() - p,
{
    lemma_skip_cr(chars, p);
    match peek_at(chars, p) {
        Some(c) => if digit(c) {
            lemma_number_end(chars, after(chars, p));
        },
        None => {},
    }
}

proof fn lemma_block_comment_end(chars: Seq<char>, p: int)
    requires
        0 <= p <= chars.len(),
    ensures
        block_comment_end(chars, p) matches Ok(q) ==> p <= q <= chars.len(),
    decreases chars.len() - p,
{
    lemma_skip_cr(chars, p);
    match peek_at(chars, p) {
        None => {},
        Some(c) => {
            let q = after(chars, p);
            lemma_skip_cr(chars, q);
            if c == '#' && peek_at(chars, q) == Some('>') {
            } else if moved(chars, p, q) {
                lemma_block_comment_end(chars, q);
            }
        },
    }
}

proof fn lemma_leaf_in_order(chars: Seq<char>, p: int, q: int, tt: RawTree)
    requires
        byte_len(chars) <= u32::MAX,
        0 <= p < q <= chars.len(),
        tt.span() == (Span { start: location_at(chars, p), end: location_at(chars, q) }),
        tt is Word || tt is Symbol || tt is Number,
    ensures
        tree_in_order(tt),
{
    lemma_byte_of(chars, p, q);
}

/// The gap before a token lies inside the text.
pub proof fn lemma_gap_end(chars: Seq<char>, p: int)
    requires
        0 <= p <= chars.len(),
    ensures
        p <= gap_end(chars, p) <= chars.len(),
    decreases chars.len() - p,
{
    lemma_skip_cr(chars, p);
    match peek_at(chars, p) {
        None => {},
        Some(c) => {
            let q = after(chars, p);
            if !moved(chars, p, q) || is_closing(c) {
            } else if c == '#' {
                let r = line_comment_end(chars, q);
                if moved(chars, p, r) {
                    lemma_gap_end(chars, r);
                }
            } else if c == '<' && peek_2nd_at(chars, p) == Some('#') {
                match block_comment_end(chars, after(chars, q)) {
                    Err(e) => {},
                    Ok(r) => if moved(chars, p, r) {
                        lemma_gap_end(chars, r);
                    },
                }
            } else if white_space(c) && c != '\n' {
                lemma_gap_end(chars, q);
            }
        },
    }
}

/// A token tree is read from where the white space and the comments
/// before it end; where none is read, a closing delimiter or the end of
/// the text stands there.
pub proof fn lemma_tt_after_gap(chars: Seq<char>, p: int)
    requires
        0 <= p <= chars.len(),
    ensures
        match lex_tt(chars, p) {
            Ok((Some(tt), q)) => peek_at(chars, gap_end(chars, p)) is Some && lex_token(
                chars,
                gap_end(chars, p),
            ) == Ok::<(RawTree, int), Failure>((tt, q)),
            Ok((None, q)) => q == gap_end(chars, p) && match peek_at(chars, q) {
                Some(c) => is_closing(c),
                None => true,
            },
            Err(e) => true,
        },
    decreases chars.len() - p,
{
    lemma_skip_cr(chars, p);
    match peek_at(chars, p) {
        None => {},
        Some(c) => {
            let q = after(chars, p);
            if !moved(chars, p, q) || is_closing(c) {
            } else if c == '#' {
                let r = line_comment_end(chars, q);
                lemma_line_comment_end(chars, q);
                if moved(chars, p, r) {
                    lemma_tt_after_gap(chars, r);
                }
            } else if c == '<' && peek_2nd_at(chars, p) == Some('#') {
                lemma_skip_cr(chars, q);
                match block_comment_end(chars, after(chars, q)) {
                    Err(e) => {},
                    Ok(r) => {
                        lemma_block_comment_end(chars, after(chars, q));
                        if moved(chars, p, r) {
                            lemma_tt_after_gap(chars, r);
                        }
                    },
                }
            } else if white_space(c) && c != '\n' {
                lemma_tt_after_gap(chars, q);
            }
        },
    }
}

/// The span of a token tree is what was read for it, and the token trees
/// inside it are in order.
pub proof fn lemma_token(chars: Seq<char>, p: int)
    requires
        byte_len(chars) <= u32::MAX,
        0 <= p <= chars.len(),
        peek_at(chars, p) is Some,
        lex_token(chars, p) is Ok,
    ensures
        read_as(chars, p, lex_token(chars, p)->Ok_0.0, lex_token(chars, p)->Ok_0.1),
    decreases chars.len() - p, 2int,
{
    lemma_skip_cr(chars, p);
    let c = peek_at(chars, p).unwrap();
    if is_opening(c) {
        lemma_group(chars, p);
    } else if c == '@' {
        lemma_at(chars, p);
    } else if c == '\'' || c == '"' {
        lemma_string(chars, p, None);
    } else if word_start(c) {
        lemma_word_end(chars, after(chars, p));
        lemma_leaf_in_order(chars, p, lex_word(chars, p).1, lex_word(chars, p).0);
    } else if digit(c) {
        lemma_number_end(chars, p);
        lemma_leaf_in_order(chars, p, lex_number(chars, p).1, lex_number(chars, p).0);
    } else {
        lemma_leaf_in_order(chars, p, after(chars, p), lex_symbol(chars, p).0);
    }
}

proof fn lemma_group(chars: Seq<char>, p: int)
    requires
        byte_len(chars) <= u32::MAX,
        0 <= p <= chars.len(),
        peek_at(chars, p) is Some,
        lex_group(chars, p) is Ok,
    ensures
        read_as(chars, p, lex_group(chars, p)->Ok_0.0, lex_group(chars, p)->Ok_0.1),
    decreases chars.len() - p, 0int,
{
    lemma_skip_cr(chars, p);
    let q = after(chars, p);
    assert(moved(chars, p, q));
    lemma_byte_of(chars, p, q);
    lemma_tts(chars, q, Seq::empty(), location_at(chars, q).byte as int);
    let (interior, r) = lex_tts(chars, q, Seq::empty())->Ok_0;
    lemma_skip_cr(chars, r);
    let end = after(chars, r);
    lemma_byte_of(chars, q, r);
    lemma_byte_of(chars, r, end);
    lemma_byte_of(chars, p, end);
    lemma_wider(
        interior,
        location_at(chars, q).byte as int,
        location_at(chars, r).byte as int,
        location_at(chars, p).byte as int,
        location_at(chars, end).byte as int,
    );
}

proof fn lemma_at(chars: Seq<char>, p: int)
    requires
        byte_len(chars) <= u32::MAX,
        0 <= p <= chars.len(),
        peek_at(chars, p) is Some,
        lex_at(chars, p) is Ok,
    ensures
        read_as(chars, p, lex_at(chars, p)->Ok_0.0, lex_at(chars, p)->Ok_0.1),
    decreases chars.len() - p, 1int,
{
    lemma_skip_cr(chars, p);
    let q = after(chars, p);
    lemma_byte_of(chars, p, q);
    if moved(chars, p, q) && (peek_at(chars, q) == Some('"') || peek_at(chars, q) == Some('\'')) {
        lemma_string(chars, q, Some(span_at(chars, p).start));
    } else {
        lemma_leaf_in_order(chars, p, q, lex_symbol(chars, p).0);
    }
}

/// The position at which the span of a string starts: that of its `@`
/// where it is a here-string, else that of its quote.
pub open spec fn string_start(chars: Seq<char>, p: int, here: Option<Location>) -> Location {
    match here {
        Some(at) => at,
        None => location_at(chars, p),
    }
}

proof fn lemma_string(chars: Seq<char>, p: int, here: Option<Location>)
    requires
        byte_len(chars) <= u32::MAX,
        0 <= p <= chars.len(),
        peek_at(chars, p) is Some,
        lex_string(chars, p, here) is Ok,
        here matches Some(at) ==> at.byte <= location_at(chars, p).byte,
    ensures
        ({
            let (tt, q) = lex_string(chars, p, here)->Ok_0;
            &&& moved(chars, p, q)
            &&& tt.span() == (Span {
                start: string_start(chars, p, here),
                end: location_at(chars, q),
            })
            &&& tree_in_order(tt)
        }),
    decreases chars.len() - p, 0int,
{
    lemma_skip_cr(chars, p);
    let start = string_start(chars, p, here);
    let double = peek_at(chars, p) == Some('"');
    let q = after(chars, p);
    lemma_byte_of(chars, p, q);
    lemma_body(chars, q, double, here is Some, start, Seq::empty(), location_at(chars, q).byte as int);
    let (subtrees, r) = string_body(chars, q, double, here is Some, start, Seq::empty())->Ok_0;
    lemma_byte_of(chars, q, r);
    lemma_byte_of(chars, p, r);
    lemma_wider(
        subtrees,
        location_at(chars, q).byte as int,
        location_at(chars, r).byte as int,
        start.byte as int,
        location_at(chars, r).byte as int,
    );
}

proof fn lemma_body(
    chars: Seq<char>,
    p: int,
    double: bool,
    here: bool,
    start: Location,
    done: Seq<RawTree>,
    from: int,
)
    requires
        byte_len(chars) <= u32::MAX,
        0 <= p <= chars.len(),
        stream_in_order(done, from, location_at(chars, p).byte as int),
        string_body(chars, p, double, here, start, done) is Ok,
    ensures
        ({
            let (subtrees, q) = string_body(chars, p, double, here, start, done)->Ok_0;
            &&& p < q <= chars.len()
            &&& stream_in_order(subtrees, from, location_at(chars, q).byte as int)
        }),
    decreases chars.len() - p, 0int,
{
    lemma_skip_cr(chars, p);
    let c = peek_at(chars, p).unwrap();
    let q = after(chars, p);
    lemma_skip_cr(chars, q);
    let quote = if double {
        '"'
    } else {
        '\''
    };
    let at_p = location_at(chars, p).byte as int;
    lemma_byte_of(chars, p, q);
    lemma_byte_of(chars, q, after(chars, q));
    lemma_byte_of(chars, p, after(chars, q));
    if c == '`' && double {
        lemma_wider(done, from, at_p, from, location_at(chars, after(chars, q)).byte as int);
        lemma_body(chars, after(chars, q), double, here, start, done, from);
    } else if c == quote && !here {
        if peek_at(chars, q) == Some(c) {
            lemma_wider(done, from, at_p, from, location_at(chars, after(chars, q)).byte as int);
            lemma_body(chars, after(chars, q), double, here, start, done, from);
        } else {
            lemma_wider(done, from, at_p, from, location_at(chars, q).byte as int);
        }
    } else if c == quote && here {
        if crate::syntax::v2::muncher::clip_u16(crate::syntax::v2::muncher::col_at(chars, p)) == 1
            && peek_at(chars, q) == Some('@') {
            lemma_wider(done, from, at_p, from, location_at(chars, after(chars, q)).byte as int);
        } else {
            lemma_wider(done, from, at_p, from, location_at(chars, q).byte as int);
            lemma_body(chars, q, double, here, start, done, from);
        }
    } else if c == '$' && double {
        match peek_at(chars, q) {
            Some(n) => if n == '(' || n == '{' {
                lemma_group(chars, q);
                let (tt, r) = lex_group(chars, q)->Ok_0;
                lemma_byte_of(chars, q, r);
                lemma_push(done, from, at_p, tt, location_at(chars, r).byte as int);
                lemma_body(chars, r, double, here, start, done.push(tt), from);
            } else if word_start(n) {
                let (tt, r) = lex_word(chars, q);
                lemma_word_end(chars, after(chars, q));
                lemma_leaf_in_order(chars, q, r, tt);
                lemma_byte_of(chars, q, r);
                lemma_push(done, from, at_p, tt, location_at(chars, r).byte as int);
                lemma_body(chars, r, double, here, start, done.push(tt), from);
            } else {
                lemma_wider(done, from, at_p, from, location_at(chars, q).byte as int);
                lemma_body(chars, q, double, here, start, done, from);
            },
            None => {
                lemma_wider(done, from, at_p, from, location_at(chars, q).byte as int);
                lemma_body(chars, q, double, here, start, done, from);
            },
        }
    } else {
        lemma_wider(done, from, at_p, from, location_at(chars, q).byte as int);
        lemma_body(chars, q, double, here, start, done, from);
    }
}

proof fn lemma_tts(chars: Seq<char>, p: int, done: Seq<RawTree>, from: int)
    requires
        byte_len(chars) <= u32::MAX,
        0 <= p <= chars.len(),
        stream_in_order(done, from, location_at(chars, p).byte as int),
        lex_tts(chars, p, done) is Ok,
    ensures
        ({
            let (stream, q) = lex_tts(chars, p, done)->Ok_0;
            &&& p <= q <= chars.len()
            &&& stream_in_order(stream, from, location_at(chars, q).byte as int)
            &&& match peek_at(chars, q) {
                Some(c) => is_closing(c),
                None => true,
            }
        }),
    decreases chars.len() - p, 4int,
{
    lemma_tt_after_gap(chars, p);
    lemma_gap_end(chars, p);
    let at_p = location_at(chars, p).byte as int;
    match lex_tt(chars, p) {
        Err(e) => {},
        Ok((None, q)) => {
            lemma_byte_of(chars, p, q);
            lemma_wider(done, from, at_p, from, location_at(chars, q).byte as int);
            lemma_spacing_keeps_order(done, from, location_at(chars, q).byte as int);
        },
        Ok((Some(tt), q)) => {
            let s = gap_end(chars, p);
            lemma_token(chars, s);
            lemma_byte_of(chars, p, s);
            lemma_byte_of(chars, s, q);
            lemma_push(done, from, at_p, tt, location_at(chars, q).byte as int);
            lemma_tts(chars, q, done.push(tt), from);
        },
    }
}

/// The spans of a stream never overlap: the token trees of a text lie one
/// behind the other inside the text, those that a group or a string holds
/// inside the group or the string, and none ends before it starts. At
/// every depth the span of a word, a number or a symbol is not empty.
pub proof fn law_spans_in_order(chars: Seq<char>)
    requires
        byte_len(chars) <= u32::MAX,
        lex(chars) is Ok,
    ensures
        stream_in_order(lex(chars)->Ok_0, 0, byte_len(chars) as int),
{
    lemma_byte_of(chars, 0, 0);
    lemma_tts(chars, 0, Seq::empty(), 0);
    let (stream, q) = lex_tts(chars, 0, Seq::empty())->Ok_0;
    lemma_byte_of(chars, q, chars.len() as int);
    lemma_wider(stream, 0, location_at(chars, q).byte as int, 0, byte_len(chars) as int);
}

/// Between two token trees there is nothing but white space and comments:
/// each token tree of a stream is read from where the white space and the
/// comments behind the one before it end, its span starts there, and its
/// span ends where reading goes on.
pub proof fn law_spans_cover_what_was_read(chars: Seq<char>, p: int)
    requires
        byte_len(chars) <= u32::MAX,
        0 <= p <= chars.len(),
        lex_tt(chars, p) matches Ok((Some(_), _)),
    ensures
        ({
            let (tt, q) = lex_tt(chars, p)->Ok_0;
            &&& p <= gap_end(chars, p)
            &&& read_as(chars, gap_end(chars, p), tt->Some_0, q)
        }),
{
    lemma_tt_after_gap(chars, p);
    lemma_gap_end(chars, p);
    lemma_token(chars, gap_end(chars, p));
}

/// White space and comments are discarded: what is read from a position is
/// what is read from the end of the white space and the comments that
/// begin there.
pub proof fn law_gap_is_discarded(chars: Seq<char>, p: int)
    requires
        0 <= p <= chars.len(),
    ensures
        lex_tt(chars, gap_end(chars, p)) == lex_tt(chars, p),
    decreases chars.len() - p,
{
    lemma_skip_cr(chars, p);
    match peek_at(chars, p) {
        None => {},
        Some(c) => {
            let q = after(chars, p);
            if !moved(chars, p, q) || is_closing(c) {
            } else if c == '#' {
                let r = line_comment_end(chars, q);
                lemma_line_comment_end(chars, q);
                if moved(chars, p, r) {
                    law_gap_is_discarded(chars, r);
                }
            } else if c == '<' && peek_2nd_at(chars, p) == Some('#') {
                lemma_skip_cr(chars, q);
                match block_comment_end(chars, after(chars, q)) {
                    Err(e) => {},
                    Ok(r) => {
                        lemma_block_comment_end(chars, after(chars, q));
                        if moved(chars, p, r) {
                            law_gap_is_discarded(chars, r);
                        }
                    },
                }
            } else if white_space(c) && c != '\n' {
                law_gap_is_discarded(chars, q);
            }
        },
    }
}

/// True when the token trees of `stream` from number `i` on are what is
/// read from position `p` on: each has the span of what is read from the
/// end of the white space and the comments behind the one before it up to
/// the position at which reading goes on, and behind the last one there is
/// nothing but white space and comments up to position `end`.
pub open spec fn tiled(chars: Seq<char>, stream: Seq<RawTree>, i: int, p: int, end: int) -> bool
    decreases stream.len() - i,
{
    if i < 0 || i >= stream.len() {
        gap_end(chars, p) == end
    } else {
        match lex_tt(chars, p) {
            Ok((Some(tt), q)) => {
                &&& stream[i].span() == tt.span()
                &&& read_as(chars, gap_end(chars, p), tt, q)
                &&& tiled(chars, stream, i + 1, q, end)
            },
            _ => false,
        }
    }
}

proof fn lemma_tiled(chars: Seq<char>, p: int, done: Seq<RawTree>)
    requires
        byte_len(chars) <= u32::MAX,
        0 <= p <= chars.len(),
        lex_tts(chars, p, done) is Ok,
    ensures
        ({
            let (stream, q) = lex_tts(chars, p, done)->Ok_0;
            &&& stream.len() >= done.len()
            &&& forall|k: int| 0 <= k < done.len() ==> (#[trigger] stream[k]).span() == done[k].span()
            &&& tiled(chars, stream, done.len() as int, p, q)
        }),
    decreases chars.len() - p,
{
    lemma_tt_after_gap(chars, p);
    lemma_gap_end(chars, p);
    match lex_tt(chars, p) {
        Err(e) => {},
        Ok((None, q)) => {
            let stream = with_spacing(done);
            assert forall|k: int| 0 <= k < done.len() implies (#[trigger] stream[k]).span()
                == done[k].span() by {}
        },
        Ok((Some(tt), q)) => {
            lemma_token(chars, gap_end(chars, p));
            lemma_tiled(chars, q, done.push(tt));
            let (stream, end) = lex_tts(chars, q, done.push(tt))->Ok_0;
            assert(stream[done.len() as int].span() == done.push(tt)[done.len() as int].span());
            assert forall|k: int| 0 <= k < done.len() implies (#[trigger] stream[k]).span()
                == done[k].span() by {
                assert(done.push(tt)[k] == done[k]);
            }
        },
    }
}

/// The spans of a stream cover the text: the token trees of a text are
/// read one after the other, each from the end of the white space and the
/// comments behind the one before it, the span of each is what was read
/// for it, and behind the last one nothing is left but white space and
/// comments. With `law_spans_in_order`: every byte of the text lies in
/// just one token tree of the stream, or in the white space and the
/// comments between two of them.
pub proof fn law_span_coverage(chars: Seq<char>)
    requires
        byte_len(chars) <= u32::MAX,
        lex(chars) is Ok,
    ensures
        ({
            let end = lex_tts(chars, 0, Seq::empty())->Ok_0.1;
            &&& tiled(chars, lex(chars)->Ok_0, 0, 0, end)
            &&& peek_at(chars, end) is None
        }),
{
    lemma_tiled(chars, 0, Seq::empty());
}

/// The token trees that a group or a string holds; none for a word, a
/// number or a symbol.
pub open spec fn held_by(tt: RawTree) -> Seq<RawTree> {
    match tt {
        RawTree::Group { interior, .. } => interior,
        RawTree::String { subtrees, .. } => subtrees,
        _ => Seq::empty(),
    }
}

/// The token tree to which `path` leads in `stream`: its first number
/// picks a token tree of the stream, the next one a token tree among those
/// that this one holds, and so on.
pub open spec fn tree_at(stream: Seq<RawTree>, path: Seq<int>) -> Option<RawTree>
    decreases path.len(),
{
    if path.len() == 0 || !(0 <= path[0] < stream.len()) {
        None
    } else if path.len() == 1 {
        Some(stream[path[0]])
    } else {
        tree_at(held_by(stream[path[0]]), path.drop_first())
    }
}

/// Each token tree of a stream that is in order lies between the bounds of
/// the stream and is in order in itself.
proof fn lemma_each_in_order(stream: Seq<RawTree>, from: int, to: int, k: int)
    requires
        stream_in_order(stream, from, to),
        0 <= k < stream.len(),
    ensures
        from <= stream[k].span().start.byte,
        stream[k].span().end.byte <= to,
        tree_in_order(stream[k]),
    decreases stream.len(),
{
    let rest = stream.drop_first();
    let mid = stream[0].span().end.byte as int;
    assert(tree_in_order(stream[0]));
    assert(stream[0].span().start.byte <= stream[0].span().end.byte);
    if k == 0 {
        lemma_wider(rest, mid, to, mid, to);
    } else {
        assert(stream[k] == rest[k - 1]);
        lemma_each_in_order(rest, mid, to, k - 1);
    }
}

/// What a path leads to in a stream that is in order lies between the
/// bounds of the stream and is in order in itself.
proof fn lemma_tree_at(stream: Seq<RawTree>, from: int, to: int, path: Seq<int>)
    requires
        stream_in_order(stream, from, to),
        tree_at(stream, path) is Some,
    ensures
        from <= tree_at(stream, path)->Some_0.span().start.byte,
        tree_at(stream, path)->Some_0.span().end.byte <= to,
        tree_in_order(tree_at(stream, path)->Some_0),
    decreases path.len(),
{
    let first = stream[path[0]];
    lemma_each_in_order(stream, from, to, path[0]);
    if path.len() > 1 {
        lemma_tree_at(
            held_by(first),
            first.span().start.byte as int,
            first.span().end.byte as int,
            path.drop_first(),
        );
    }
}

/// What holds of the span of a token tree at any depth of the stream of a
/// text: it lies inside the text and does not end before it starts; it is
/// not empty where the token tree is a word, a number or a symbol; and the
/// spans of the token trees that a group or a string holds lie inside the
/// span of the group or the string.
pub proof fn law_spans_at_every_depth(chars: Seq<char>, path: Seq<int>)
    requires
        byte_len(chars) <= u32::MAX,
        lex(chars) is Ok,
        tree_at(lex(chars)->Ok_0, path) is Some,
    ensures
        ({
            let tt = tree_at(lex(chars)->Ok_0, path)->Some_0;
            &&& tt.span().start.byte <= tt.span().end.byte <= byte_len(chars)
            &&& (tt is Word || tt is Number || tt is Symbol) ==> tt.span().start.byte
                < tt.span().end.byte
            &&& forall|k: int|
                0 <= k < held_by(tt).len() ==> tt.span().start.byte <= (
                #[trigger] held_by(tt)[k]).span().start.byte && held_by(tt)[k].span().end.byte
                    <= tt.span().end.byte
        }),
{
    law_spans_in_order(chars);
    lemma_tree_at(lex(chars)->Ok_0, 0, byte_len(chars) as int, path);
    let tt = tree_at(lex(chars)->Ok_0, path)->Some_0;
    assert forall|k: int| 0 <= k < held_by(tt).len() implies tt.span().start.byte <= (
    #[trigger] held_by(tt)[k]).span().start.byte && held_by(tt)[k].span().end.byte
        <= tt.span().end.byte by {
        lemma_each_in_order(
            held_by(tt),
            tt.span().start.byte as int,
            tt.span().end.byte as int,
            k,
        );
    }
}

} // verus!
