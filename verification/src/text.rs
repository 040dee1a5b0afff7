//! Source text seen two ways at once: as a sequence of characters, which is
//! what the lexer reads, and as UTF-8 bytes, which is what locations count.

use vstd::prelude::*;
use vstd::string::*;
use vstd::utf8::*;

verus! {

/// Number of bytes that `c` takes in UTF-8.
pub open spec fn width_of(c: char) -> nat {
    encode_scalar(c as u32).len()
}

/// Length in bytes of the UTF-8 encoding of `chars`.
pub open spec fn byte_len(chars: Seq<char>) -> nat {
    encode_utf8(chars).len()
}

/// Byte offset at which character number `i` of `chars` begins.
pub open spec fn offset_of(chars: Seq<char>, i: int) -> nat {
    encode_utf8(chars.take(i)).len()
}

/// True when byte offset `at` falls between two characters of `chars`
/// (or at either end).
pub open spec fn on_boundary(chars: Seq<char>, at: int) -> bool {
    is_char_boundary(encode_utf8(chars), at)
}

/// The characters of `chars` that lie between byte offsets `from` and `to`.
pub open spec fn text_between(chars: Seq<char>, from: int, to: int) -> Seq<char> {
    decode_utf8(encode_utf8(chars).subrange(from, to))
}

/// True when `whole` ends with `tail`.
pub open spec fn has_suffix(whole: Seq<char>, tail: Seq<char>) -> bool {
    tail.len() <= whole.len() && whole.subrange(whole.len() - tail.len(), whole.len() as int)
        == tail
}

pub proof fn lemma_width_bounds(c: char)
    ensures
        1 <= width_of(c) <= 4,
{
    char_is_scalar(c);
}

pub proof fn lemma_encode_single(c: char)
    ensures
        encode_utf8(seq![c]) == encode_scalar(c as u32),
{
    let s = seq![c];
    assert(s.drop_first() =~= Seq::<char>::empty());
    assert(encode_utf8(s.drop_first()) =~= Seq::<u8>::empty());
    assert(encode_utf8(s) =~= encode_scalar(c as u32) + encode_utf8(s.drop_first()));
    assert(encode_scalar(c as u32) + Seq::<u8>::empty() =~= encode_scalar(c as u32));
}

/// Encoding distributes over concatenation.
pub proof fn lemma_encode_concat(a: Seq<char>, b: Seq<char>)
    ensures
        encode_utf8(a + b) == encode_utf8(a) + encode_utf8(b),
    decreases a.len(),
{
    if a.len() == 0 {
        assert(a + b =~= b);
        assert(encode_utf8(a) + encode_utf8(b) =~= encode_utf8(b));
    } else {
        let ab = a + b;
        assert(ab.drop_first() =~= a.drop_first() + b);
        lemma_encode_concat(a.drop_first(), b);
        assert(ab[0] == a[0]);
        assert(encode_utf8(ab) == encode_scalar(a[0] as u32) + encode_utf8(ab.drop_first()));
        assert(encode_utf8(a) == encode_scalar(a[0] as u32) + encode_utf8(a.drop_first()));
        assert(encode_utf8(ab) =~= encode_utf8(a) + encode_utf8(b));
    }
}

/// Each character moves the offset on by its own width.
pub proof fn lemma_offset_step(chars: Seq<char>, i: int)
    requires
        0 <= i < chars.len(),
    ensures
        offset_of(chars, i + 1) == offset_of(chars, i) + width_of(chars[i]),
        offset_of(chars, 0) == 0,
{
    assert(chars.take(i + 1) =~= chars.take(i) + seq![chars[i]]);
    lemma_encode_concat(chars.take(i), seq![chars[i]]);
    lemma_encode_single(chars[i]);
    assert(chars.take(0) =~= Seq::<char>::empty());
}

/// Offsets grow with the index, and end at the length of the whole text.
pub proof fn lemma_offset_monotone(chars: Seq<char>, i: int, j: int)
    requires
        0 <= i <= j <= chars.len(),
    ensures
        offset_of(chars, i) <= offset_of(chars, j) <= byte_len(chars),
        offset_of(chars, chars.len() as int) == byte_len(chars),
        j - i <= offset_of(chars, j) - offset_of(chars, i),
    decreases j - i,
{
    assert(chars.take(chars.len() as int) =~= chars);
    if i < j {
        lemma_offset_monotone(chars, i, j - 1);
        lemma_offset_step(chars, j - 1);
        lemma_width_bounds(chars[j - 1]);
    }
    assert(chars =~= chars.take(j) + chars.skip(j));
    lemma_encode_concat(chars.take(j), chars.skip(j));
}

/// The offset of every character is a character boundary of the encoding.
pub proof fn lemma_offset_boundary(chars: Seq<char>, i: int)
    requires
        0 <= i <= chars.len(),
    ensures
        on_boundary(chars, offset_of(chars, i) as int),
    decreases chars.len(),
{
    let bytes = encode_utf8(chars);
    encode_utf8_valid_utf8(chars);
    if i == 0 {
        assert(chars.take(0) =~= Seq::<char>::empty());
    } else {
        let rest = chars.drop_first();
        encode_utf8_first_scalar(chars);
        assert(pop_first_scalar(bytes) =~= encode_utf8(rest));
        assert(chars.take(i) =~= seq![chars[0]] + rest.take(i - 1));
        lemma_encode_concat(seq![chars[0]], rest.take(i - 1));
        lemma_encode_single(chars[0]);
        lemma_width_bounds(chars[0]);
        lemma_offset_monotone(chars, i, i);
        lemma_offset_boundary(rest, i - 1);
        assert(offset_of(chars, i) == length_of_first_scalar(bytes) + offset_of(rest, i - 1));
    }
}

/// Cutting the bytes at the offsets of two characters gives the characters
/// between them.
pub proof fn lemma_text_between(chars: Seq<char>, i: int, j: int)
    requires
        0 <= i <= j <= chars.len(),
    ensures
        text_between(chars, offset_of(chars, i) as int, offset_of(chars, j) as int)
            == chars.subrange(i, j),
{
    let head = chars.take(i);
    let mid = chars.subrange(i, j);
    let tail = chars.skip(j);
    assert(chars.take(j) =~= head + mid);
    assert(chars =~= chars.take(j) + tail);
    lemma_encode_concat(head, mid);
    lemma_encode_concat(chars.take(j), tail);
    assert(encode_utf8(chars).subrange(offset_of(chars, i) as int, offset_of(chars, j) as int)
        =~= encode_utf8(mid));
    encode_utf8_decode_utf8(mid);
}

/// A boundary of the whole text is a boundary of each prefix that reaches it.
pub proof fn lemma_boundary_in_prefix(bytes: Seq<u8>, from: int, to: int)
    requires
        valid_utf8(bytes),
        0 <= from <= to <= bytes.len(),
        is_char_boundary(bytes, from),
        is_char_boundary(bytes, to),
    ensures
        valid_utf8(bytes.subrange(0, to)),
        is_char_boundary(bytes.subrange(0, to), from),
{
    let head = bytes.subrange(0, to);
    valid_utf8_split(bytes, to);
    if from == to {
        is_char_boundary_start_end_of_seq(head);
    } else {
        is_char_boundary_iff_not_is_continuation_byte(bytes, from);
        is_char_boundary_iff_not_is_continuation_byte(head, from);
    }
}

/// Number of bytes that `c` takes in UTF-8.
pub fn utf8_width(c: char) -> (w: u32)
    ensures
        w == width_of(c),
        1 <= w <= 4,
{
    let v: u32 = c as u32;
    proof {
        char_is_scalar(c);
    }
    if v < 0x80 {
        1
    } else if v < 0x800 {
        2
    } else if v < 0x10000 {
        3
    } else {
        4
    }
}

/// Whether the byte offsets of `source` fit the `u32` of a location.
pub fn locatable(source: &str) -> (r: bool)
    ensures
        r == (byte_len(source@) <= u32::MAX),
{
    source.as_bytes().len() <= 0xffff_ffff
}

/// The characters of `s`, in order.
pub fn chars_of(s: &str) -> (v: Vec<char>)
    ensures
        v@ == s@,
{
    let mut v: Vec<char> = Vec::new();
    for c in it: s.chars()
        invariant
            v@ == it.seq().take(it.index() as int),
    {
        v.push(c);
    }
    v
}

/// The part of `s` between byte offsets `from` and `to`.
pub fn substring<'a>(s: &'a str, from: usize, to: usize) -> (r: &'a str)
    requires
        from <= to <= byte_len(s@),
        on_boundary(s@, from as int),
        on_boundary(s@, to as int),
    ensures
        r@ == text_between(s@, from as int, to as int),
{
    proof {
        encode_utf8_valid_utf8(s@);
        lemma_boundary_in_prefix(encode_utf8(s@), from as int, to as int);
    }
    let (head, _) = s.split_at(to);
    let (_, r) = head.split_at(from);
    proof {
        let cut = encode_utf8(s@).subrange(from as int, to as int);
        assert(head.spec_bytes().subrange(from as int, head.spec_bytes().len() as int) =~= cut);
        assert(encode_utf8(r@) == cut);
        encode_utf8_decode_utf8(r@);
    }
    r
}

/// Whether two strings hold the same characters.
pub fn str_equal(a: &str, b: &str) -> (r: bool)
    ensures
        r == (a@ == b@),
{
    let x = a.as_bytes();
    let y = b.as_bytes();
    proof {
        encode_utf8_decode_utf8(a@);
        encode_utf8_decode_utf8(b@);
    }
    if x.len() != y.len() {
        return false;
    }
    let mut i: usize = 0;
    while i < x.len()
        invariant
            i <= x@.len(),
            x@.len() == y@.len(),
            x@ == encode_utf8(a@),
            y@ == encode_utf8(b@),
            x@.take(i as int) == y@.take(i as int),
        decreases x@.len() - i,
    {
        if x[i] != y[i] {
            return false;
        }
        assert(x@.take(i + 1) =~= x@.take(i as int).push(x@[i as int]));
        assert(y@.take(i + 1) =~= y@.take(i as int).push(y@[i as int]));
        i += 1;
    }
    assert(x@ =~= x@.take(i as int));
    assert(y@ =~= y@.take(i as int));
    true
}

/// Whether `whole` ends with `tail`.
pub fn ends_with(whole: &Vec<char>, tail: &Vec<char>) -> (r: bool)
    ensures
        r == has_suffix(whole@, tail@),
{
    if tail.len() > whole.len() {
        return false;
    }
    let shift: usize = whole.len() - tail.len();
    let mut i: usize = 0;
    while i < tail.len()
        invariant
            i <= tail@.len(),
            shift + tail@.len() == whole@.len() <= usize::MAX,
            forall|k: int| 0 <= k < i ==> whole@[shift + k] == tail@[k],
        decreases tail@.len() - i,
    {
        assert(shift + i < whole@.len());
        if whole[shift + i] != tail[i] {
            assert(whole@.subrange(shift as int, whole@.len() as int)[i as int] != tail@[i as int]);
            return false;
        }
        i += 1;
    }
    assert(whole@.subrange(shift as int, whole@.len() as int) =~= tail@);
    true
}

/// The position of the line feed that ends the line of `from`, or the end
/// of the text where no line feed follows.
pub open spec fn line_end(chars: Seq<char>, from: int) -> int
    decreases chars.len() - from,
{
    if 0 <= from < chars.len() && chars[from] != '\n' {
        line_end(chars, from + 1)
    } else {
        from
    }
}

/// Where the text of the line that starts at `from` stops: at its line
/// feed, or at the carriage return that stands right before the line feed.
pub open spec fn line_stop(chars: Seq<char>, from: int) -> int {
    let end = line_end(chars, from);
    if from < end < chars.len() && chars[end - 1] == '\r' {
        end - 1
    } else {
        end
    }
}

/// The lines of `chars` from position `from` on, each as the positions at
/// which its text starts and stops. A line ends with a line feed, which a
/// carriage return may precede; neither belongs to its text. What follows
/// the last line feed is a line too, unless it is empty.
pub open spec fn lines_from(chars: Seq<char>, from: int) -> Seq<(int, int)>
    decreases chars.len() - from,
{
    if 0 <= from < chars.len() {
        let line = (from, line_stop(chars, from));
        if from <= line_end(chars, from) < chars.len() {
            seq![line] + lines_from(chars, line_end(chars, from) + 1)
        } else {
            seq![line]
        }
    } else {
        Seq::empty()
    }
}

pub proof fn lemma_line_end(chars: Seq<char>, from: int)
    requires
        0 <= from <= chars.len(),
    ensures
        from <= line_stop(chars, from) <= line_end(chars, from) <= chars.len(),
        line_end(chars, from) < chars.len() ==> chars[line_end(chars, from)] == '\n',
    decreases chars.len() - from,
{
    if from < chars.len() && chars[from] != '\n' {
        lemma_line_end(chars, from + 1);
    }
}

/// The number of lines does not exceed the number of characters.
pub proof fn lemma_lines_count(chars: Seq<char>, from: int)
    requires
        0 <= from <= chars.len(),
    ensures
        lines_from(chars, from).len() <= chars.len() - from,
    decreases chars.len() - from,
{
    lemma_line_end(chars, from);
    if from < chars.len() {
        let next = line_end(chars, from) + 1;
        if next <= chars.len() {
            lemma_lines_count(chars, next);
        }
    }
    assert(lines_from(chars, chars.len() as int) =~= Seq::<(int, int)>::empty());
}

/// A line of a text by the byte offsets at which its text starts and ends.
#[derive(Debug, Copy, Clone, PartialEq, Eq, Structural)]
pub struct LineRange {
    pub start: usize,
    pub end: usize,
}

/// The byte offsets of the line that goes from position `line.0` to
/// position `line.1` of `chars`.
pub open spec fn range_of_line(chars: Seq<char>, line: (int, int)) -> LineRange {
    LineRange {
        start: offset_of(chars, line.0) as usize,
        end: offset_of(chars, line.1) as usize,
    }
}

/// The byte offsets of each line of `chars`.
pub open spec fn line_ranges_of(chars: Seq<char>) -> Seq<LineRange> {
    lines_from(chars, 0).map_values(|line: (int, int)| range_of_line(chars, line))
}

pub proof fn lemma_ascii_width(c: char)
    requires
        c == '\n' || c == '\r',
    ensures
        width_of(c) == 1,
{
    assert(encode_scalar('\n' as u32).len() == 1);
    assert(encode_scalar('\r' as u32).len() == 1);
}

/// Splits a text into lines.
pub fn line_ranges(chars: &Vec<char>) -> (r: Vec<LineRange>)
    requires
        byte_len(chars@) <= usize::MAX,
    ensures
        r@ == line_ranges_of(chars@),
{
    let n = chars.len();
    let mut out: Vec<LineRange> = Vec::new();
    let mut i: usize = 0;
    let mut off: usize = 0;
    let ghost mut done: Seq<(int, int)> = Seq::empty();
    proof {
        lemma_offset_monotone(chars@, 0, 0);
        assert(chars@.take(0) =~= Seq::<char>::empty());
    }
    while i < n
        invariant
            n == chars@.len(),
            byte_len(chars@) <= usize::MAX,
            i <= n,
            off == offset_of(chars@, i as int),
            lines_from(chars@, 0) == done + lines_from(chars@, i as int),
            out@ == done.map_values(|line: (int, int)| range_of_line(chars@, line)),
        decreases n - i,
    {
        let start = off;
        let first = i;
        let ghost from = i as int;
        while i < n && chars[i] != '\n'
            invariant
                n == chars@.len(),
                byte_len(chars@) <= usize::MAX,
                from <= i <= n,
                off == offset_of(chars@, i as int),
                line_end(chars@, i as int) == line_end(chars@, from),
            decreases n - i,
        {
            proof {
                lemma_offset_step(chars@, i as int);
                lemma_offset_monotone(chars@, i + 1, n as int);
            }
            off = off + utf8_width(chars[i]) as usize;
            i = i + 1;
        }
        let stop = if first < i && i < n && chars[i - 1] == '\r' {
            proof {
                lemma_offset_step(chars@, i - 1);
                lemma_ascii_width('\r');
            }
            off - 1
        } else {
            off
        };
        let ghost line = (from, line_stop(chars@, from));
        proof {
            lemma_line_end(chars@, from);
            assert(lines_from(chars@, n as int) =~= Seq::<(int, int)>::empty());
            assert(done.push(line) + lines_from(chars@, i + 1) =~= done + (seq![line]
                + lines_from(chars@, i + 1)));
            assert(done.push(line).map_values(|line: (int, int)| range_of_line(chars@, line))
                =~= done.map_values(|line: (int, int)| range_of_line(chars@, line)).push(
                range_of_line(chars@, line),
            ));
            done = done.push(line);
        }
        out.push(LineRange { start, end: stop });
        if i < n {
            proof {
                lemma_offset_step(chars@, i as int);
                lemma_offset_monotone(chars@, i + 1, n as int);
                lemma_ascii_width('\n');
            }
            off = off + 1;
            i = i + 1;
        } else {
            assert(done.push(line) + lines_from(chars@, n as int) =~= done + seq![line]);
        }
    }
    proof {
        assert(lines_from(chars@, n as int) =~= Seq::<(int, int)>::empty());
        assert(done + Seq::<(int, int)>::empty() =~= done);
    }
    out
}

/// The position at which the line of byte offset `at` starts, as far as
/// the first `n` characters tell: behind the last line feed among them
/// that stands at an offset from 1 to `at`, and at the start of the text
/// where there is none.
pub open spec fn line_start(chars: Seq<char>, at: int, n: int) -> int
    decreases n,
{
    if n <= 0 {
        0
    } else if n <= chars.len() && chars[n - 1] == '\n' && 1 <= offset_of(chars, n - 1) <= at {
        n
    } else {
        line_start(chars, at, n - 1)
    }
}

/// The text of the line that byte offset `at` points into. The line starts
/// behind the last line feed at an offset from 1 to `at`: an offset that
/// points at a line feed gives the line that follows it, and a line feed
/// at the very start of the text is not looked at. It stops before its own
/// line feed, or before the carriage return in front of that.
pub open spec fn line_text(chars: Seq<char>, at: int) -> Seq<char> {
    let start = line_start(chars, at, chars.len() as int);
    chars.subrange(start, line_stop(chars, start))
}

/// Each line lies inside the text, and its ends fall between characters.
pub proof fn lemma_lines_inside(chars: Seq<char>, from: int, k: int)
    requires
        0 <= from <= chars.len(),
        0 <= k < lines_from(chars, from).len(),
    ensures
        from <= lines_from(chars, from)[k].0 <= lines_from(chars, from)[k].1 <= chars.len(),
    decreases chars.len() - from,
{
    lemma_line_end(chars, from);
    if k > 0 {
        let next = line_end(chars, from) + 1;
        assert(lines_from(chars, from)[k] == lines_from(chars, next)[k - 1]);
        if next <= chars.len() {
            lemma_lines_inside(chars, next, k - 1);
        }
    }
}

/// The line of `source` that byte offset `at` points into.
pub fn find_line<'source>(at: usize, source: &'source str) -> (r: &'source str)
    ensures
        r@ == line_text(source@, at as int),
{
    let chars = chars_of(source);
    let total = source.as_bytes().len();
    let n = chars.len();
    let mut start: usize = 0;
    let mut start_off: usize = 0;
    let mut i: usize = 0;
    let mut off: usize = 0;
    proof {
        lemma_offset_monotone(chars@, 0, 0);
        assert(chars@.take(0) =~= Seq::<char>::empty());
    }
    while i < n
        invariant
            chars@ == source@,
            n == chars@.len(),
            byte_len(chars@) <= usize::MAX,
            start <= i <= n,
            off == offset_of(chars@, i as int),
            start == line_start(chars@, at as int, i as int),
            start_off == offset_of(chars@, start as int),
        decreases n - i,
    {
        proof {
            lemma_offset_step(chars@, i as int);
            lemma_offset_monotone(chars@, i + 1, n as int);
        }
        let next = off + utf8_width(chars[i]) as usize;
        if chars[i] == '\n' && 1 <= off && off <= at {
            start = i + 1;
            start_off = next;
        }
        off = next;
        i = i + 1;
    }
    let mut j: usize = start;
    let mut stop_off: usize = start_off;
    while j < n && chars[j] != '\n'
        invariant
            n == chars@.len(),
            byte_len(chars@) <= usize::MAX,
            start <= j <= n,
            stop_off == offset_of(chars@, j as int),
            line_end(chars@, j as int) == line_end(chars@, start as int),
        decreases n - j,
    {
        proof {
            lemma_offset_step(chars@, j as int);
            lemma_offset_monotone(chars@, j + 1, n as int);
        }
        stop_off = stop_off + utf8_width(chars[j]) as usize;
        j = j + 1;
    }
    let ghost stop = line_stop(chars@, start as int);
    if start < j && j < n && chars[j - 1] == '\r' {
        proof {
            lemma_offset_step(chars@, j - 1);
            lemma_ascii_width('\r');
        }
        stop_off = stop_off - 1;
    }
    proof {
        lemma_line_end(chars@, start as int);
        lemma_offset_boundary(chars@, start as int);
        lemma_offset_boundary(chars@, stop);
        lemma_offset_monotone(chars@, start as int, stop);
        lemma_offset_monotone(chars@, stop, n as int);
        lemma_text_between(chars@, start as int, stop);
    }
    substring(source, start_off, stop_off)
}

/// What is cut from a text between two boundaries is as long, in bytes, as
/// the boundaries are apart.
pub proof fn lemma_cut_len(chars: Seq<char>, from: int, to: int)
    requires
        0 <= from <= to <= byte_len(chars),
        on_boundary(chars, from),
        on_boundary(chars, to),
    ensures
        byte_len(text_between(chars, from, to)) == to - from,
{
    let bytes = encode_utf8(chars);
    encode_utf8_valid_utf8(chars);
    lemma_boundary_in_prefix(bytes, from, to);
    let head = bytes.subrange(0, to);
    valid_utf8_split(head, from);
    assert(head.subrange(from, head.len() as int) =~= bytes.subrange(from, to));
    decode_utf8_encode_utf8(bytes.subrange(from, to));
}

/// The string that holds the characters of `chars` from `from` up to `to`.
pub fn string_of(chars: &Vec<char>, from: usize, to: usize) -> (s: String)
    requires
        from <= to <= chars@.len(),
    ensures
        s@ == chars@.subrange(from as int, to as int),
{
    let mut s = String::new();
    let mut i: usize = from;
    while i < to
        invariant
            from <= i <= to <= chars@.len(),
            s@ == chars@.subrange(from as int, i as int),
        decreases to - i,
    {
        s.push(chars[i]);
        assert(chars@.subrange(from as int, i + 1) =~= chars@.subrange(from as int, i as int).push(
            chars@[i as int],
        ));
        i = i + 1;
    }
    s
}

} // verus!
