//! A cursor over source text that hands out one character at a time together
//! with the place it was found at.

use vstd::prelude::*;
use crate::text::{
    byte_len, chars_of, find_line, lemma_offset_monotone, lemma_offset_step, line_text, offset_of,
    utf8_width, width_of,
};

verus! {

/// A point location in a file
#[derive(Debug, Copy, Clone, Eq, PartialEq, Structural)]
pub struct Location {
    /// 0-indexed byte in a file
    pub byte: u32,
    /// 1-indexed line
    pub line: u32,
    /// 1-indexed column, counted in bytes
    pub col: u16,
}

/// A span between two locations in a file
#[derive(Debug, Copy, Clone, Eq, PartialEq, Structural)]
pub struct Span {
    pub start: Location,
    pub end: Location,
}

/// `n`, or the largest `u32` if `n` is beyond it.
pub open spec fn clip_u32(n: nat) -> u32 {
    if n >= u32::MAX {
        u32::MAX
    } else {
        n as u32
    }
}

/// `n`, or the largest `u16` if `n` is beyond it.
pub open spec fn clip_u16(n: nat) -> u16 {
    if n >= u16::MAX {
        u16::MAX
    } else {
        n as u16
    }
}

/// The number of the line that character number `p` of `chars` is on: one
/// more than the number of line feeds before it.
pub open spec fn line_at(chars: Seq<char>, p: int) -> nat
    decreases p,
{
    if p <= 0 {
        1
    } else if chars[p - 1] == '\n' {
        line_at(chars, p - 1) + 1
    } else {
        line_at(chars, p - 1)
    }
}

/// The column of character number `p` of `chars`: one more than the number
/// of bytes since the last line feed.
pub open spec fn col_at(chars: Seq<char>, p: int) -> nat
    decreases p,
{
    if p <= 0 {
        1
    } else if chars[p - 1] == '\n' {
        1
    } else {
        col_at(chars, p - 1) + width_of(chars[p - 1])
    }
}

/// The location of character number `p` of `chars`. Lines and columns that
/// do not fit their type stay at its largest value.
#[verifier::opaque]
pub open spec fn location_at(chars: Seq<char>, p: int) -> Location {
    Location {
        byte: offset_of(chars, p) as u32,
        line: clip_u32(line_at(chars, p)),
        col: clip_u16(col_at(chars, p)),
    }
}

/// The first position from `p` on that holds no carriage return.
pub open spec fn skip_cr(chars: Seq<char>, p: int) -> int
    decreases chars.len() - p,
{
    if 0 <= p < chars.len() && chars[p] == '\r' {
        skip_cr(chars, p + 1)
    } else {
        p
    }
}

/// The next character from position `p` on, carriage returns passed over.
pub open spec fn peek_at(chars: Seq<char>, p: int) -> Option<char> {
    let q = skip_cr(chars, p);
    if 0 <= q < chars.len() {
        Some(chars[q])
    } else {
        None
    }
}

/// The character that stands right behind the next one, whatever it is.
/// At the end of the text, where there is no next one, this is the first of
/// the carriage returns that close the text.
pub open spec fn peek_2nd_at(chars: Seq<char>, p: int) -> Option<char> {
    let q = skip_cr(chars, p);
    if 0 <= q < chars.len() {
        if q + 1 < chars.len() {
            Some(chars[q + 1])
        } else {
            None
        }
    } else if 0 <= p < chars.len() {
        Some(chars[p])
    } else {
        None
    }
}

/// The position behind the next character; `p` itself where there is none.
pub open spec fn after(chars: Seq<char>, p: int) -> int {
    let q = skip_cr(chars, p);
    if 0 <= q < chars.len() {
        q + 1
    } else {
        p
    }
}

/// The span of the next character: from `p`, so that it takes in the
/// carriage returns before the character, to the position behind it.
pub open spec fn span_at(chars: Seq<char>, p: int) -> Span {
    Span { start: location_at(chars, p), end: location_at(chars, after(chars, p)) }
}

/// The next character with its span.
pub open spec fn next_at(chars: Seq<char>, p: int) -> Option<(char, Span)> {
    match peek_at(chars, p) {
        Some(c) => Some((c, span_at(chars, p))),
        None => None,
    }
}

pub proof fn lemma_skip_cr(chars: Seq<char>, p: int)
    requires
        0 <= p <= chars.len(),
    ensures
        p <= skip_cr(chars, p) <= chars.len(),
        after(chars, p) <= chars.len(),
        peek_at(chars, p) is Some ==> p < after(chars, p),
        peek_at(chars, p) is None ==> after(chars, p) == p,
        skip_cr(chars, p) < chars.len() ==> chars[skip_cr(chars, p)] != '\r',
    decreases chars.len() - p,
{
    if p < chars.len() && chars[p] == '\r' {
        lemma_skip_cr(chars, p + 1);
    }
}

/// An iterator-like adapter for a string that can peek and consume a
/// character while annotating it with a location.
///
/// Carriage returns are never handed out: the character that follows them
/// gets a span that takes them in, so that `\r\n` comes out as a single
/// `\n` two bytes wide.
pub struct Muncher {
    chars: Vec<char>,
    cursor: Cursor,
}

/// How far a muncher has come: the number of characters passed and the
/// location reached.
#[derive(Clone, Copy)]
struct Cursor {
    pos: usize,
    location: Location,
}

impl Location {
    pub fn start() -> (l: Location)
        ensures
            l == (Location { byte: 0, line: 1, col: 1 }),
    {
        Location { byte: 0, line: 1, col: 1 }
    }

    /// The line of `source` on which this location lies.
    pub fn find_line<'source>(&self, source: &'source str) -> (line: &'source str)
        ensures
            line@ == line_text(source@, self.byte as int),
    {
        find_line(self.byte as usize, source)
    }

    pub fn to_span(self) -> (s: Span)
        ensures
            s == (Span { start: self, end: self }),
    {
        Span { start: self, end: self }
    }
}

impl Span {
    pub fn dummy() -> (s: Span)
        ensures
            s.start == (Location { byte: 0, line: 1, col: 1 }),
            s.end == s.start,
    {
        Location::start().to_span()
    }

    pub fn to(self, right: Span) -> (s: Span)
        ensures
            s == (Span { start: self.start, end: right.end }),
    {
        Span { start: self.start, end: right.end }
    }
}

impl Muncher {
    #[verifier::type_invariant]
    spec fn inv(self) -> bool {
        &&& self.cursor.pos <= self.chars@.len()
        &&& byte_len(self.chars@) <= u32::MAX
        &&& self.cursor.location == location_at(self.chars@, self.cursor.pos as int)
    }

    /// The text that the muncher goes through.
    pub closed spec fn source(&self) -> Seq<char> {
        self.chars@
    }

    /// The number of characters that were passed, carriage returns among them.
    pub closed spec fn position(&self) -> int {
        self.cursor.pos as int
    }

    pub fn new(source: &str) -> (m: Muncher)
        requires
            byte_len(source@) <= u32::MAX,
        ensures
            m.source() == source@,
            m.position() == 0,
    {
        let chars = chars_of(source);
        proof {
            reveal(location_at);
            assert(chars@.take(0) =~= Seq::<char>::empty());
        }
        Muncher { chars, cursor: Cursor { pos: 0, location: Location::start() } }
    }

    /// Passes over carriage returns; gives the position reached and its location.
    fn skip(&self) -> (r: (usize, Location))
        ensures
            r.0 == skip_cr(self.chars@, self.cursor.pos as int),
            r.1 == location_at(self.chars@, r.0 as int),
            self.cursor.pos <= r.0 <= self.chars@.len(),
            byte_len(self.chars@) <= u32::MAX,
    {
        proof {
            use_type_invariant(self);
        }
        let mut q: usize = self.cursor.pos;
        let mut loc: Location = self.cursor.location;
        while q < self.chars.len() && self.chars[q] == '\r'
            invariant
                self.cursor.pos <= q <= self.chars@.len(),
                byte_len(self.chars@) <= u32::MAX,
                loc == location_at(self.chars@, q as int),
                skip_cr(self.chars@, q as int) == skip_cr(self.chars@, self.cursor.pos as int),
            decreases self.chars@.len() - q,
        {
            proof {
                reveal(location_at);
                lemma_offset_step(self.chars@, q as int);
                lemma_offset_monotone(self.chars@, q + 1, self.chars@.len() as int);
                assert(width_of('\r') == 1) by {
                    assert(vstd::utf8::encode_scalar('\r' as u32).len() == 1);
                }
            }
            loc = Location {
                byte: loc.byte + 1,
                line: loc.line,
                col: if loc.col < u16::MAX {
                    loc.col + 1
                } else {
                    loc.col
                },
            };
            q += 1;
        }
        (q, loc)
    }

    pub fn peek_char(&self) -> (r: Option<char>)
        ensures
            r == peek_at(self.source(), self.position()),
            0 <= self.position() <= self.source().len(),
            byte_len(self.source()) <= u32::MAX,
    {
        let (q, _) = self.skip();
        if q < self.chars.len() {
            Some(self.chars[q])
        } else {
            None
        }
    }

    pub fn peek_2nd_char(&self) -> (r: Option<char>)
        ensures
            r == peek_2nd_at(self.source(), self.position()),
    {
        let (q, _) = self.skip();
        if q < self.chars.len() {
            if q + 1 < self.chars.len() {
                Some(self.chars[q + 1])
            } else {
                None
            }
        } else if self.cursor.pos < self.chars.len() {
            Some(self.chars[self.cursor.pos])
        } else {
            None
        }
    }

    pub fn next_char(&mut self) -> (r: Option<(char, Span)>)
        ensures
            r == next_at(old(self).source(), old(self).position()),
            final(self).source() == old(self).source(),
            final(self).position() == after(old(self).source(), old(self).position()),
            0 <= old(self).position() <= final(self).position() <= old(self).source().len(),
            byte_len(old(self).source()) <= u32::MAX,
    {
        proof {
            use_type_invariant(&*self);
        }
        let (q, loc) = self.skip();
        proof {
            lemma_skip_cr(self.chars@, self.cursor.pos as int);
        }
        if q < self.chars.len() {
            let c = self.chars[q];
            let w = utf8_width(c);
            proof {
                reveal(location_at);
                lemma_offset_step(self.chars@, q as int);
                lemma_offset_monotone(self.chars@, q + 1, self.chars@.len() as int);
                lemma_skip_cr(self.chars@, self.cursor.pos as int);
                assert(line_at(self.chars@, q + 1) == line_at(self.chars@, q as int) + (if c
                    == '\n' {
                    1nat
                } else {
                    0nat
                }));
                assert(col_at(self.chars@, q + 1) == (if c == '\n' {
                    1nat
                } else {
                    col_at(self.chars@, q as int) + w as nat
                }));
            }
            let end = if c == '\n' {
                Location {
                    byte: loc.byte + w,
                    line: if loc.line < u32::MAX { loc.line + 1 } else { loc.line },
                    col: 1,
                }
            } else {
                Location {
                    byte: loc.byte + w,
                    line: loc.line,
                    col: if loc.col as u32 + w >= 0xffff {
                        0xffff
                    } else {
                        (loc.col as u32 + w) as u16
                    },
                }
            };
            let span = Span { start: self.cursor.location, end };
            self.cursor = Cursor { pos: q + 1, location: end };
            Some((c, span))
        } else {
            None
        }
    }

    pub fn current_location(&self) -> (l: Location)
        ensures
            l == location_at(self.source(), self.position()),
            0 <= self.position() <= self.source().len(),
            byte_len(self.source()) <= u32::MAX,
    {
        proof {
            use_type_invariant(self);
        }
        self.cursor.location
    }
}

} // verus!
