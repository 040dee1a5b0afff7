//! The first stage: source text into raw token trees, comments stripped.

pub mod laws;

use vstd::prelude::*;
use vstd::string::*;
use crate::text::byte_len;
use crate::syntax::v2::{char_string, Error, Failure};
use crate::syntax::v2::muncher::{
    after, clip_u16, col_at, lemma_skip_cr, location_at, next_at, peek_2nd_at, peek_at, span_at,
    Location, Muncher, Span,
};

verus! {

#[derive(Debug, Copy, Clone, PartialEq, Eq, Structural)]
pub enum Spacing {
    Alone,
    Joined,
}

#[derive(Debug, Copy, Clone, PartialEq, Eq, Structural)]
pub enum Delimiter {
    Parenthesis,
    Brace,
    Bracket,
}

/// A single lexeme or paren-delimited group
///
/// A single token tree is either a code "atom" or a list of token trees
/// grouped in various parens ( `()`, `{}`, or `[]`). Note that a string
/// literal can contain nested token trees.
#[derive(Debug)]
pub enum TokenTree {
    /// `[A-Za-z_][A-Za-z0-9_]*`
    Word { span: Span, spacing: Spacing },
    /// A newline or any non-whitespace symbol
    Symbol { span: Span, symbol: char, spacing: Spacing },
    /// A run of digits; the value is of no interest
    Number { span: Span },
    /// String literal; `subtrees` holds `$`-variables and `$()` or `${}`
    /// interpolations.
    String { span: Span, subtrees: Vec<TokenTree> },
    /// A nested stream delimited by a set of parens ( `()` `[]` `{}` )
    Group { span: Span, interior: Vec<TokenTree>, delimiter: Delimiter },
}

/// A token tree as a plain value.
pub enum RawTree {
    Word { span: Span, spacing: Spacing },
    Symbol { span: Span, symbol: char, spacing: Spacing },
    Number { span: Span },
    String { span: Span, subtrees: Seq<RawTree> },
    Group { span: Span, interior: Seq<RawTree>, delimiter: Delimiter },
}

impl RawTree {
    pub open spec fn span(self) -> Span {
        match self {
            RawTree::Word { span, .. } => span,
            RawTree::Symbol { span, .. } => span,
            RawTree::Number { span } => span,
            RawTree::String { span, .. } => span,
            RawTree::Group { span, .. } => span,
        }
    }
}

impl TokenTree {
    pub open spec fn view(&self) -> RawTree
        decreases self,
    {
        match self {
            TokenTree::Word { span, spacing } => RawTree::Word { span: *span, spacing: *spacing },
            TokenTree::Symbol { span, symbol, spacing } => RawTree::Symbol {
                span: *span,
                symbol: *symbol,
                spacing: *spacing,
            },
            TokenTree::Number { span } => RawTree::Number { span: *span },
            TokenTree::String { span, subtrees } => RawTree::String {
                span: *span,
                subtrees: Seq::new(
                    subtrees@.len(),
                    |i: int|
                        if 0 <= i < subtrees@.len() {
                            subtrees@[i].view()
                        } else {
                            RawTree::Number { span: *span }
                        },
                ),
            },
            TokenTree::Group { span, interior, delimiter } => RawTree::Group {
                span: *span,
                interior: Seq::new(
                    interior@.len(),
                    |i: int|
                        if 0 <= i < interior@.len() {
                            interior@[i].view()
                        } else {
                            RawTree::Number { span: *span }
                        },
                ),
                delimiter: *delimiter,
            },
        }
    }

    /// The symbol `symbol` found at `span`, with nothing known yet of what
    /// follows it.
    pub fn symbol(symbol: char, span: Span) -> (tt: TokenTree)
        ensures
            tt@ == (RawTree::Symbol { span, symbol, spacing: Spacing::Alone }),
    {
        TokenTree::Symbol { symbol, span, spacing: Spacing::Alone }
    }

    pub fn span(&self) -> (s: Span)
        ensures
            s == self@.span(),
    {
        match self {
            TokenTree::Word { span, .. } => *span,
            TokenTree::Symbol { span, .. } => *span,
            TokenTree::Number { span } => *span,
            TokenTree::String { span, .. } => *span,
            TokenTree::Group { span, .. } => *span,
        }
    }
}

/// The token trees of a stream as plain values.
pub open spec fn trees(stream: Seq<TokenTree>) -> Seq<RawTree> {
    Seq::new(stream.len(), |i: int| stream[i]@)
}

pub proof fn lemma_trees_push(stream: Seq<TokenTree>, tt: TokenTree)
    ensures
        trees(stream.push(tt)) == trees(stream).push(tt@),
{
    assert(trees(stream.push(tt)) =~= trees(stream).push(tt@));
}

pub proof fn lemma_trees_empty()
    ensures
        trees(Seq::<TokenTree>::empty()) == Seq::<RawTree>::empty(),
{
    assert(trees(Seq::<TokenTree>::empty()) =~= Seq::<RawTree>::empty());
}

pub proof fn lemma_view_nested(span: Span, inner: Vec<TokenTree>, delimiter: Delimiter)
    ensures
        (TokenTree::Group { span, interior: inner, delimiter })@ == (RawTree::Group {
            span,
            interior: trees(inner@),
            delimiter,
        }),
        (TokenTree::String { span, subtrees: inner })@ == (RawTree::String {
            span,
            subtrees: trees(inner@),
        }),
{
    let g = TokenTree::Group { span, interior: inner, delimiter };
    assert(g@->Group_interior =~= trees(inner@));
    let s = TokenTree::String { span, subtrees: inner };
    assert(s@->String_subtrees =~= trees(inner@));
}

impl Delimiter {
    pub open spec fn opening(self) -> char {
        match self {
            Delimiter::Parenthesis => '(',
            Delimiter::Brace => '{',
            Delimiter::Bracket => '[',
        }
    }

    pub open spec fn closing_char(self) -> char {
        match self {
            Delimiter::Parenthesis => ')',
            Delimiter::Brace => '}',
            Delimiter::Bracket => ']',
        }
    }

    pub fn from_opening(c: char) -> (d: Delimiter)
        requires
            is_opening(c),
        ensures
            d == delimiter_of(c),
            d.opening() == c,
    {
        if c == '(' {
            Delimiter::Parenthesis
        } else if c == '{' {
            Delimiter::Brace
        } else {
            Delimiter::Bracket
        }
    }

    pub fn closing(&self) -> (c: char)
        ensures
            c == self.closing_char(),
    {
        match self {
            Delimiter::Parenthesis => ')',
            Delimiter::Brace => '}',
            Delimiter::Bracket => ']',
        }
    }
}

pub open spec fn is_opening(c: char) -> bool {
    c == '(' || c == '{' || c == '['
}

pub open spec fn is_closing(c: char) -> bool {
    c == ')' || c == '}' || c == ']'
}

pub open spec fn delimiter_of(c: char) -> Delimiter {
    if c == '(' {
        Delimiter::Parenthesis
    } else if c == '{' {
        Delimiter::Brace
    } else {
        Delimiter::Bracket
    }
}

/// A letter of the Latin alphabet or an underscore.
pub open spec fn word_start(c: char) -> bool {
    c == '_' || ('a' <= c && c <= 'z') || ('A' <= c && c <= 'Z')
}

pub open spec fn digit(c: char) -> bool {
    '0' <= c && c <= '9'
}

pub open spec fn word_part(c: char) -> bool {
    word_start(c) || digit(c)
}

/// A character with the Unicode property `White_Space`.
pub open spec fn white_space(c: char) -> bool {
    ||| ('\u{9}' <= c && c <= '\u{d}')
    ||| c == ' '
    ||| c == '\u{85}'
    ||| c == '\u{a0}'
    ||| c == '\u{1680}'
    ||| ('\u{2000}' <= c && c <= '\u{200a}')
    ||| c == '\u{2028}'
    ||| c == '\u{2029}'
    ||| c == '\u{202f}'
    ||| c == '\u{205f}'
    ||| c == '\u{3000}'
}

pub fn can_start_word(c: char) -> (r: bool)
    ensures
        r == word_start(c),
{
    c == '_' || ('a' <= c && c <= 'z') || ('A' <= c && c <= 'Z')
}

pub fn can_continue_word(c: char) -> (r: bool)
    ensures
        r == word_part(c),
{
    can_start_word(c) || is_digit(c)
}

pub fn is_digit(c: char) -> (r: bool)
    ensures
        r == digit(c),
{
    '0' <= c && c <= '9'
}

pub fn is_white_space(c: char) -> (r: bool)
    ensures
        r == white_space(c),
{
    ('\u{9}' <= c && c <= '\u{d}') || c == ' ' || c == '\u{85}' || c == '\u{a0}' || c
        == '\u{1680}' || ('\u{2000}' <= c && c <= '\u{200a}') || c == '\u{2028}' || c
        == '\u{2029}' || c == '\u{202f}' || c == '\u{205f}' || c == '\u{3000}'
}

/// What one step of the lexer gives: a value and the position behind what
/// was read, or the failure that ends the parse.
pub type Lexed<T> = Result<(T, int), Failure>;

pub open spec fn msg_unexpected_closing(found: char) -> Seq<char> {
    "Unexpected closing `"@ + seq![found] + "`"@
}

pub open spec fn msg_expected_found(expected: char, found: char) -> Seq<char> {
    "Expected `"@ + seq![expected] + "`, but found `"@ + seq![found] + "`"@
}

pub open spec fn msg_expected_eof(expected: char) -> Seq<char> {
    "Expected `"@ + seq![expected] + "`, but found end of file"@
}

/// True when reading from `p` has come to `q`, further on and still inside
/// the text.
pub open spec fn moved(chars: Seq<char>, p: int, q: int) -> bool {
    0 <= p < q <= chars.len()
}

/// The position behind the run of word characters that starts at `p`.
pub open spec fn word_end(chars: Seq<char>, p: int) -> int
    decreases chars.len() - p,
{
    match peek_at(chars, p) {
        Some(c) => if word_part(c) && moved(chars, p, after(chars, p)) {
            word_end(chars, after(chars, p))
        } else {
            p
        },
        None => p,
    }
}

/// The position behind the run of digits that starts at `p`.
pub open spec fn number_end(chars: Seq<char>, p: int) -> int
    decreases chars.len() - p,
{
    match peek_at(chars, p) {
        Some(c) => if digit(c) && moved(chars, p, after(chars, p)) {
            number_end(chars, after(chars, p))
        } else {
            p
        },
        None => p,
    }
}

/// The position of the line feed that ends the line of `p`, or the end of
/// the text where no line feed follows.
pub open spec fn line_comment_end(chars: Seq<char>, p: int) -> int
    decreases chars.len() - p,
{
    match peek_at(chars, p) {
        Some(c) => if c != '\n' && moved(chars, p, after(chars, p)) {
            line_comment_end(chars, after(chars, p))
        } else {
            p
        },
        None => p,
    }
}

/// The position behind the first `#>` from `p` on. Without one the comment
/// is unclosed, which is reported at the end of the text.
pub open spec fn block_comment_end(chars: Seq<char>, p: int) -> Result<int, Failure>
    decreases chars.len() - p,
{
    match peek_at(chars, p) {
        None => Err(Failure { what: "Unclosed long comment"@, where_: location_at(chars, p) }),
        Some(c) => {
            let q = after(chars, p);
            if c == '#' && peek_at(chars, q) == Some('>') {
                Ok(after(chars, q))
            } else if moved(chars, p, q) {
                block_comment_end(chars, q)
            } else {
                Err(Failure { what: "Unclosed long comment"@, where_: location_at(chars, p) })
            }
        },
    }
}

pub proof fn lemma_line_comment_end(chars: Seq<char>, p: int)
    requires
        0 <= p <= chars.len(),
    ensures
        p <= line_comment_end(chars, p) <= chars.len(),
    decreases chars.len() - p,
{
    lemma_skip_cr(chars, p);
    match peek_at(chars, p) {
        Some(c) => if c != '\n' {
            lemma_line_comment_end(chars, after(chars, p));
        },
        None => {},
    }
}

/// The word that starts at `p`.
pub open spec fn lex_word(chars: Seq<char>, p: int) -> (RawTree, int) {
    let end = word_end(chars, after(chars, p));
    (
        RawTree::Word {
            span: Span { start: location_at(chars, p), end: location_at(chars, end) },
            spacing: Spacing::Alone,
        },
        end,
    )
}

/// The number that starts at `p`.
pub open spec fn lex_number(chars: Seq<char>, p: int) -> (RawTree, int) {
    let end = number_end(chars, p);
    (
        RawTree::Number {
            span: Span { start: location_at(chars, p), end: location_at(chars, end) },
        },
        end,
    )
}

/// The next character as a symbol.
pub open spec fn lex_symbol(chars: Seq<char>, p: int) -> (RawTree, int) {
    (
        RawTree::Symbol {
            span: span_at(chars, p),
            symbol: peek_at(chars, p).unwrap(),
            spacing: Spacing::Alone,
        },
        after(chars, p),
    )
}

/// The token trees from `p` up to the nearest closing delimiter or the end
/// of the text, added to `done`, with the position of that delimiter.
pub open spec fn lex_tts(chars: Seq<char>, p: int, done: Seq<RawTree>) -> Lexed<Seq<RawTree>>
    decreases chars.len() - p, 4int,
{
    match lex_tt(chars, p) {
        Err(e) => Err(e),
        Ok((None, q)) => Ok((with_spacing(done), q)),
        Ok((Some(tt), q)) => if moved(chars, p, q) {
            lex_tts(chars, q, done.push(tt))
        } else {
            Ok((with_spacing(done), q))
        },
    }
}

/// The next token tree from `p` on, white space and comments passed over;
/// none before a closing delimiter or the end of the text.
pub open spec fn lex_tt(chars: Seq<char>, p: int) -> Lexed<Option<RawTree>>
    decreases chars.len() - p, 3int,
{
    match peek_at(chars, p) {
        None => Ok((None, p)),
        Some(c) => {
            let q = after(chars, p);
            if !moved(chars, p, q) || is_closing(c) {
                Ok((None, p))
            } else if c == '#' {
                let r = line_comment_end(chars, q);
                if moved(chars, p, r) {
                    lex_tt(chars, r)
                } else {
                    Ok((None, p))
                }
            } else if c == '<' && peek_2nd_at(chars, p) == Some('#') {
                match block_comment_end(chars, after(chars, q)) {
                    Err(e) => Err(e),
                    Ok(r) => if moved(chars, p, r) {
                        lex_tt(chars, r)
                    } else {
                        Ok((None, p))
                    },
                }
            } else if white_space(c) && c != '\n' {
                lex_tt(chars, q)
            } else {
                match lex_token(chars, p) {
                    Err(e) => Err(e),
                    Ok((tt, r)) => Ok((Some(tt), r)),
                }
            }
        },
    }
}

/// The token tree that begins with the next character, which is no white
/// space but a line feed, opens no comment and closes no group.
pub open spec fn lex_token(chars: Seq<char>, p: int) -> Lexed<RawTree>
    decreases chars.len() - p, 2int,
{
    let c = peek_at(chars, p).unwrap();
    if is_opening(c) {
        lex_group(chars, p)
    } else if c == '@' {
        lex_at(chars, p)
    } else if c == '\'' || c == '"' {
        lex_string(chars, p, None)
    } else if word_start(c) {
        Ok(lex_word(chars, p))
    } else if digit(c) {
        Ok(lex_number(chars, p))
    } else {
        Ok(lex_symbol(chars, p))
    }
}

/// The group whose opening delimiter is the next character.
pub open spec fn lex_group(chars: Seq<char>, p: int) -> Lexed<RawTree>
    decreases chars.len() - p, 0int,
{
    let opening = peek_at(chars, p).unwrap();
    let delimiter = delimiter_of(opening);
    let expected = delimiter.closing_char();
    let q = after(chars, p);
    if !moved(chars, p, q) {
        Err(Failure { what: msg_expected_eof(expected), where_: location_at(chars, p) })
    } else {
        match lex_tts(chars, q, Seq::empty()) {
            Err(e) => Err(e),
            Ok((interior, r)) => match next_at(chars, r) {
                Some((found, end)) => if found == expected {
                    Ok(
                        (
                            RawTree::Group {
                                span: Span { start: span_at(chars, p).start, end: end.end },
                                interior,
                                delimiter,
                            },
                            after(chars, r),
                        ),
                    )
                } else {
                    Err(Failure { what: msg_expected_found(expected, found), where_: end.start })
                },
                None => Err(
                    Failure { what: msg_expected_eof(expected), where_: location_at(chars, r) },
                ),
            },
        }
    }
}

/// What an `@` begins: a here-string where a quote follows it, else the
/// symbol itself.
pub open spec fn lex_at(chars: Seq<char>, p: int) -> Lexed<RawTree>
    decreases chars.len() - p, 1int,
{
    let q = after(chars, p);
    if moved(chars, p, q) && (peek_at(chars, q) == Some('"') || peek_at(chars, q) == Some('\'')) {
        lex_string(chars, q, Some(span_at(chars, p).start))
    } else {
        Ok((lex_symbol(chars, p).0, q))
    }
}

/// The string whose opening quote is the next character. A here-string
/// brings the location of its `@`, where the string's span starts.
pub open spec fn lex_string(chars: Seq<char>, p: int, here: Option<Location>) -> Lexed<RawTree>
    decreases chars.len() - p, 0int,
{
    let start = match here {
        Some(at) => at,
        None => location_at(chars, p),
    };
    let double = peek_at(chars, p) == Some('"');
    let q = after(chars, p);
    if !moved(chars, p, q) {
        Err(Failure { what: "Unclosed string"@, where_: start })
    } else {
        match string_body(chars, q, double, here is Some, start, Seq::empty()) {
            Err(e) => Err(e),
            Ok((subtrees, r)) => Ok(
                (
                    RawTree::String {
                        span: Span { start, end: location_at(chars, r) },
                        subtrees,
                    },
                    r,
                ),
            ),
        }
    }
}

/// The rest of a string from `p` on, up to and with its closing quote: the
/// interpolations found, added to `done`, and the position behind the
/// string.
///
/// In a double-quoted string a backtick takes the character behind it
/// along, and a `$` before `(`, `{` or a word begins an interpolation. A
/// plain string ends at its quote unless the quote is doubled; a
/// here-string ends at its quote only where the quote stands in column 1
/// and an `@` follows.
pub open spec fn string_body(
    chars: Seq<char>,
    p: int,
    double: bool,
    here: bool,
    start: Location,
    done: Seq<RawTree>,
) -> Lexed<Seq<RawTree>>
    decreases chars.len() - p, 0int,
{
    match peek_at(chars, p) {
        None => Err(Failure { what: "Unclosed string"@, where_: start }),
        Some(c) => {
            let q = after(chars, p);
            let quote = if double {
                '"'
            } else {
                '\''
            };
            if !moved(chars, p, q) {
                Err(Failure { what: "Unclosed string"@, where_: start })
            } else if c == '`' && double {
                proof {
                    lemma_skip_cr(chars, q);
                }
                string_body(chars, after(chars, q), double, here, start, done)
            } else if c == quote && !here {
                if peek_at(chars, q) == Some(c) {
                    proof {
                        lemma_skip_cr(chars, q);
                    }
                    string_body(chars, after(chars, q), double, here, start, done)
                } else {
                    Ok((done, q))
                }
            } else if c == quote && here {
                if clip_u16(col_at(chars, p)) == 1 && peek_at(chars, q) == Some('@') {
                    Ok((done, after(chars, q)))
                } else {
                    string_body(chars, q, double, here, start, done)
                }
            } else if c == '$' && double {
                match peek_at(chars, q) {
                    Some(n) => if n == '(' || n == '{' {
                        match lex_group(chars, q) {
                            Err(e) => Err(e),
                            Ok((tt, r)) => if moved(chars, q, r) {
                                string_body(chars, r, double, here, start, done.push(tt))
                            } else {
                                Err(Failure { what: "Unclosed string"@, where_: start })
                            },
                        }
                    } else if word_start(n) {
                        let (tt, r) = lex_word(chars, q);
                        if moved(chars, q, r) {
                            string_body(chars, r, double, here, start, done.push(tt))
                        } else {
                            Err(Failure { what: "Unclosed string"@, where_: start })
                        }
                    } else {
                        string_body(chars, q, double, here, start, done)
                    },
                    None => string_body(chars, q, double, here, start, done),
                }
            } else {
                string_body(chars, q, double, here, start, done)
            }
        },
    }
}

/// Whether the token `left` touches the token that starts at `right`.
pub open spec fn spaced(left: RawTree, right: Location) -> RawTree {
    match left {
        RawTree::Word { span, spacing } => if span.end == right {
            RawTree::Word { span, spacing: Spacing::Joined }
        } else {
            left
        },
        RawTree::Symbol { span, symbol, spacing } => if span.end == right {
            RawTree::Symbol { span, symbol, spacing: Spacing::Joined }
        } else {
            left
        },
        _ => left,
    }
}

/// The stream with each word and symbol marked as joined where the next
/// token of the stream starts at the very place where it ends.
pub open spec fn with_spacing(stream: Seq<RawTree>) -> Seq<RawTree> {
    Seq::new(
        stream.len(),
        |i: int|
            if i + 1 < stream.len() {
                spaced(stream[i], stream[i + 1].span().start)
            } else {
                stream[i]
            },
    )
}

/// The token trees of a whole text. A closing delimiter that nothing opened
/// is an error.
pub open spec fn lex(chars: Seq<char>) -> Result<Seq<RawTree>, Failure> {
    match lex_tts(chars, 0, Seq::empty()) {
        Err(e) => Err(e),
        Ok((stream, q)) => match next_at(chars, q) {
            None => Ok(stream),
            Some((found, span)) => Err(
                Failure { what: msg_unexpected_closing(found), where_: span.start },
            ),
        },
    }
}

pub open spec fn tree_result(r: Result<TokenTree, Error>) -> Result<RawTree, Failure> {
    match r {
        Ok(tt) => Ok(tt@),
        Err(e) => Err(e@),
    }
}

pub open spec fn option_result(r: Result<Option<TokenTree>, Error>) -> Result<
    Option<RawTree>,
    Failure,
> {
    match r {
        Ok(Some(tt)) => Ok(Some(tt@)),
        Ok(None) => Ok(None),
        Err(e) => Err(e@),
    }
}

pub open spec fn stream_result(r: Result<Vec<TokenTree>, Error>) -> Result<Seq<RawTree>, Failure> {
    match r {
        Ok(stream) => Ok(trees(stream@)),
        Err(e) => Err(e@),
    }
}

/// True when `got`, reached at position `pos`, is what `want` asks for.
pub open spec fn lexed_as<V>(want: Lexed<V>, got: Result<V, Failure>, pos: int) -> bool {
    match want {
        Ok((v, q)) => got == Ok::<V, Failure>(v) && pos == q,
        Err(f) => got == Err::<V, Failure>(f),
    }
}

fn fail_unexpected_closing<T>(at: Location, found: char) -> (r: Result<T, Error>)
    ensures
        r matches Err(e) && e@ == (Failure { what: msg_unexpected_closing(found), where_: at }),
{
    let msg = String::from_str("Unexpected closing `").concat(char_string(found).as_str()).concat(
        "`",
    );
    at.error(msg)
}

fn fail_expected_found<T>(at: Location, expected: char, found: char) -> (r: Result<T, Error>)
    ensures
        r matches Err(e) && e@ == (Failure {
            what: msg_expected_found(expected, found),
            where_: at,
        }),
{
    let msg = String::from_str("Expected `").concat(char_string(expected).as_str()).concat(
        "`, but found `",
    ).concat(char_string(found).as_str()).concat("`");
    at.error(msg)
}

fn fail_expected_eof<T>(at: Location, expected: char) -> (r: Result<T, Error>)
    ensures
        r matches Err(e) && e@ == (Failure { what: msg_expected_eof(expected), where_: at }),
{
    let msg = String::from_str("Expected `").concat(char_string(expected).as_str()).concat(
        "`, but found end of file",
    );
    at.error(msg)
}

/// Marks each word and symbol of the stream as joined where the next token
/// starts at the very place where it ends.
pub fn compute_spacing(tts: &mut Vec<TokenTree>)
    ensures
        trees(final(tts)@) == with_spacing(trees(old(tts)@)),
{
    let ghost before = trees(tts@);
    let n = tts.len();
    if n == 0 {
        assert(trees(tts@) =~= with_spacing(before));
        return ;
    }
    let mut i: usize = 0;
    while i < n - 1
        invariant
            n == tts@.len(),
            n > 0,
            before.len() == n,
            i <= n,
            forall|k: int| 0 <= k < i ==> #[trigger] trees(tts@)[k] == with_spacing(before)[k],
            forall|k: int| i <= k < n ==> #[trigger] trees(tts@)[k] == before[k],
        decreases n - i,
    {
        let right_start = tts[i + 1].span().start;
        assert(trees(tts@)[i + 1] == before[i + 1]);
        assert(trees(tts@)[i as int] == before[i as int]);
        let ghost prev = tts@;
        let joined = match &tts[i] {
            TokenTree::Word { span, .. } => if span.end == right_start {
                Some(TokenTree::Word { span: *span, spacing: Spacing::Joined })
            } else {
                None
            },
            TokenTree::Symbol { span, symbol, .. } => if span.end == right_start {
                Some(TokenTree::Symbol { span: *span, symbol: *symbol, spacing: Spacing::Joined })
            } else {
                None
            },
            _ => None,
        };
        match joined {
            Some(tt) => {
                tts.set(i, tt);
            },
            None => {},
        }
        proof {
            assert forall|k: int| 0 <= k < n && k != i implies #[trigger] trees(tts@)[k] == trees(
                prev,
            )[k] by {
                assert(tts@[k] == prev[k]);
            }
            assert(trees(tts@)[i as int] == with_spacing(before)[i as int]);
        }
        i += 1;
    }
    assert(trees(tts@) =~= with_spacing(before));
}

/// The lexer at work: a muncher and the functions that read token trees
/// from it.
pub struct Parser {
    muncher: Muncher,
}

impl Parser {
    /// The text that is read.
    pub closed spec fn chars(&self) -> Seq<char> {
        self.muncher.source()
    }

    /// The number of characters that were read.
    pub closed spec fn pos(&self) -> int {
        self.muncher.position()
    }

    /// Parses a source file into list of token trees, stripping comments.
    pub fn parse(source: &str) -> (r: Result<Vec<TokenTree>, Error>)
        requires
            byte_len(source@) <= u32::MAX,
        ensures
            stream_result(r) == lex(source@),
    {
        let mut parser = Parser { muncher: Muncher::new(source) };
        let tts = match parser.parse_tts() {
            Ok(tts) => tts,
            Err(e) => {
                return Err(e);
            },
        };
        match parser.consume_char() {
            None => Ok(tts),
            Some((delimiter, sp_bad)) => fail_unexpected_closing(sp_bad.start, delimiter),
        }
    }

    /// Parses all it can up to the nearest closing delimiter or the end of
    /// file.
    fn parse_tts(&mut self) -> (r: Result<Vec<TokenTree>, Error>)
        requires
            0 <= old(self).pos() <= old(self).chars().len(),
        ensures
            final(self).chars() == old(self).chars(),
            lexed_as(
                lex_tts(old(self).chars(), old(self).pos(), Seq::empty()),
                stream_result(r),
                final(self).pos(),
            ),
            r is Ok ==> 0 <= old(self).pos() <= final(self).pos() <= old(self).chars().len(),
        decreases old(self).chars().len() - old(self).pos(), 4int,
    {
        let ghost chars = self.chars();
        let ghost p0 = self.pos();
        let mut tts: Vec<TokenTree> = Vec::new();
        proof {
            lemma_trees_empty();
        }
        loop
            invariant_except_break
                self.chars() == chars,
                chars == old(self).chars(),
                p0 == old(self).pos(),
                0 <= p0 <= self.pos() <= chars.len(),
                lex_tts(chars, p0, Seq::empty()) == lex_tts(chars, self.pos(), trees(tts@)),
            ensures
                self.chars() == chars,
                0 <= p0 <= self.pos() <= chars.len(),
                lex_tts(chars, p0, Seq::empty()) == Ok::<(Seq<RawTree>, int), Failure>(
                    (with_spacing(trees(tts@)), self.pos()),
                ),
            decreases chars.len() - self.pos(),
        {
            match self.parse_tt() {
                Err(e) => {
                    return Err(e);
                },
                Ok(None) => {
                    break ;
                },
                Ok(Some(tt)) => {
                    proof {
                        lemma_trees_push(tts@, tt);
                    }
                    tts.push(tt);
                },
            }
        }
        compute_spacing(&mut tts);
        Ok(tts)
    }

    /// Parses the next token tree, if one comes before the nearest closing
    /// delimiter or the end of file. Spacing is left for `parse_tts`.
    fn parse_tt(&mut self) -> (r: Result<Option<TokenTree>, Error>)
        requires
            0 <= old(self).pos() <= old(self).chars().len(),
        ensures
            final(self).chars() == old(self).chars(),
            lexed_as(
                lex_tt(old(self).chars(), old(self).pos()),
                option_result(r),
                final(self).pos(),
            ),
            r is Ok ==> 0 <= old(self).pos() <= final(self).pos() <= old(self).chars().len(),
            r matches Ok(Some(_)) ==> old(self).pos() < final(self).pos(),
        decreases old(self).chars().len() - old(self).pos(), 3int,
    {
        let ghost chars = self.chars();
        let ghost p0 = self.pos();
        let ghost goal = lex_tt(chars, p0);
        loop
            invariant
                self.chars() == chars,
                chars == old(self).chars(),
                p0 == old(self).pos(),
                0 <= p0 <= self.pos() <= chars.len(),
                lex_tt(chars, self.pos()) == goal,
                goal == lex_tt(old(self).chars(), old(self).pos()),
            decreases chars.len() - self.pos(),
        {
            let ghost p = self.pos();
            let c = match self.peek_char() {
                Some(c) => c,
                None => {
                    return Ok(None);
                },
            };
            proof {
                lemma_skip_cr(chars, p);
            }
            if c == ')' || c == '}' || c == ']' {
                return Ok(None);
            } else if c == '#' {
                self.consume_char();
                proof {
                    lemma_line_comment_end(chars, self.pos());
                }
                self.skip_to_newline();
            } else if c == '<' && self.muncher.peek_2nd_char() == Some('#') {
                match self.skip_long_comment() {
                    Ok(()) => {},
                    Err(e) => {
                        return Err(e);
                    },
                }
            } else if is_white_space(c) && c != '\n' {
                self.consume_char();
            } else {
                return match self.parse_token() {
                    Ok(tt) => Ok(Some(tt)),
                    Err(e) => Err(e),
                };
            }
        }
    }

    /// Parses the token tree that begins with the next character.
    fn parse_token(&mut self) -> (r: Result<TokenTree, Error>)
        requires
            peek_at(old(self).chars(), old(self).pos()) is Some,
            0 <= old(self).pos() <= old(self).chars().len(),
        ensures
            final(self).chars() == old(self).chars(),
            lexed_as(
                lex_token(old(self).chars(), old(self).pos()),
                tree_result(r),
                final(self).pos(),
            ),
            r is Ok ==> moved(old(self).chars(), old(self).pos(), final(self).pos()),
        decreases old(self).chars().len() - old(self).pos(), 2int,
    {
        let c = self.peek_char().unwrap();
        if c == '(' || c == '{' || c == '[' {
            self.parse_group()
        } else if c == '@' {
            self.parse_at()
        } else if c == '\'' || c == '"' {
            self.parse_string(None)
        } else if can_start_word(c) {
            Ok(self.parse_word())
        } else if is_digit(c) {
            Ok(self.parse_number())
        } else {
            Ok(self.parse_symbol())
        }
    }

    /// Whether a character that can continue a word comes next.
    fn at_word_part(&self) -> (r: bool)
        ensures
            r == (peek_at(self.chars(), self.pos()) matches Some(c) && word_part(c)),
            0 <= self.pos() <= self.chars().len(),
    {
        match self.peek_char() {
            Some(c) => can_continue_word(c),
            None => false,
        }
    }

    /// Whether a digit comes next.
    fn at_digit(&self) -> (r: bool)
        ensures
            r == (peek_at(self.chars(), self.pos()) matches Some(c) && digit(c)),
            0 <= self.pos() <= self.chars().len(),
    {
        match self.peek_char() {
            Some(c) => is_digit(c),
            None => false,
        }
    }

    /// Parses a word; its first character is taken as it is.
    fn parse_word(&mut self) -> (tt: TokenTree)
        requires
            peek_at(old(self).chars(), old(self).pos()) is Some,
        ensures
            final(self).chars() == old(self).chars(),
            (tt@, final(self).pos()) == lex_word(old(self).chars(), old(self).pos()),
            moved(old(self).chars(), old(self).pos(), final(self).pos()),
    {
        let ghost chars = self.chars();
        let ghost p0 = self.pos();
        let start = self.current_location();
        self.consume_char();
        proof {
            lemma_skip_cr(chars, p0);
        }
        while self.at_word_part()
            invariant
                self.chars() == chars,
                chars == old(self).chars(),
                p0 == old(self).pos(),
                p0 < self.pos() <= chars.len(),
                word_end(chars, self.pos()) == word_end(chars, after(chars, p0)),
            decreases chars.len() - self.pos(),
        {
            proof {
                lemma_skip_cr(chars, self.pos());
            }
            self.consume_char();
        }
        let end = self.current_location();
        TokenTree::Word { spacing: Spacing::Alone, span: Span { start, end } }
    }

    /// Parses a run of digits.
    fn parse_number(&mut self) -> (tt: TokenTree)
        requires
            peek_at(old(self).chars(), old(self).pos()) matches Some(c) && digit(c),
        ensures
            final(self).chars() == old(self).chars(),
            (tt@, final(self).pos()) == lex_number(old(self).chars(), old(self).pos()),
            moved(old(self).chars(), old(self).pos(), final(self).pos()),
    {
        let ghost chars = self.chars();
        let ghost p0 = self.pos();
        let start = self.current_location();
        proof {
            lemma_skip_cr(chars, p0);
        }
        while self.at_digit()
            invariant
                self.chars() == chars,
                chars == old(self).chars(),
                p0 == old(self).pos(),
                p0 <= self.pos() <= chars.len(),
                number_end(chars, self.pos()) == number_end(chars, p0),
                self.pos() == p0 ==> (peek_at(chars, p0) matches Some(c) && digit(c)),
            decreases chars.len() - self.pos(),
        {
            proof {
                lemma_skip_cr(chars, self.pos());
            }
            self.consume_char();
        }
        let end = self.current_location();
        TokenTree::Number { span: Span { start, end } }
    }

    /// Takes the next character as a symbol.
    fn parse_symbol(&mut self) -> (tt: TokenTree)
        requires
            peek_at(old(self).chars(), old(self).pos()) is Some,
        ensures
            final(self).chars() == old(self).chars(),
            (tt@, final(self).pos()) == lex_symbol(old(self).chars(), old(self).pos()),
            moved(old(self).chars(), old(self).pos(), final(self).pos()),
    {
        let ghost chars = self.chars();
        let ghost p0 = self.pos();
        let (symbol, span) = self.consume_char().unwrap();
        proof {
            lemma_skip_cr(chars, p0);
        }
        TokenTree::symbol(symbol, span)
    }

    /// Parses a group; an opening delimiter comes next.
    fn parse_group(&mut self) -> (r: Result<TokenTree, Error>)
        requires
            peek_at(old(self).chars(), old(self).pos()) matches Some(c) && is_opening(c),
        ensures
            final(self).chars() == old(self).chars(),
            lexed_as(
                lex_group(old(self).chars(), old(self).pos()),
                tree_result(r),
                final(self).pos(),
            ),
            r is Ok ==> moved(old(self).chars(), old(self).pos(), final(self).pos()),
        decreases old(self).chars().len() - old(self).pos(), 0int,
    {
        let ghost chars = self.chars();
        let ghost p0 = self.pos();
        let (opening, sp_start) = self.consume_char().unwrap();
        proof {
            lemma_skip_cr(chars, p0);
        }
        let delimiter = Delimiter::from_opening(opening);
        let tts = match self.parse_tts() {
            Ok(tts) => tts,
            Err(e) => {
                return Err(e);
            },
        };
        let expected = delimiter.closing();
        let ghost p2 = self.pos();
        proof {
            lemma_skip_cr(chars, p2);
        }
        match self.consume_char() {
            Some((closing, sp_end)) => {
                if closing == expected {
                    proof {
                        lemma_view_nested(Span { start: sp_start.start, end: sp_end.end }, tts, delimiter);
                    }
                    Ok(TokenTree::Group { interior: tts, delimiter, span: sp_start.to(sp_end) })
                } else {
                    fail_expected_found(sp_end.start, expected, closing)
                }
            },
            None => fail_expected_eof(self.current_location(), expected),
        }
    }

    /// Passes over the rest of the line; the line feed stays.
    fn skip_to_newline(&mut self)
        ensures
            final(self).chars() == old(self).chars(),
            final(self).pos() == line_comment_end(old(self).chars(), old(self).pos()),
            0 <= old(self).pos() <= final(self).pos() <= old(self).chars().len(),
    {
        let ghost chars = self.chars();
        let ghost p0 = self.pos();
        loop
            invariant_except_break
                self.chars() == chars,
                chars == old(self).chars(),
                p0 == old(self).pos(),
                p0 <= self.pos(),
                line_comment_end(chars, self.pos()) == line_comment_end(chars, p0),
            ensures
                self.chars() == chars,
                0 <= p0 <= self.pos() <= chars.len(),
                self.pos() == line_comment_end(chars, p0),
            decreases chars.len() - self.pos(),
        {
            match self.peek_char() {
                Some(c) => {
                    proof {
                        lemma_skip_cr(chars, self.pos());
                    }
                    if c == '\n' {
                        break ;
                    }
                    self.consume_char();
                },
                None => {
                    break ;
                },
            }
        }
    }

    /// Passes over a block comment; its `<#` comes next.
    fn skip_long_comment(&mut self) -> (r: Result<(), Error>)
        ensures
            final(self).chars() == old(self).chars(),
            match block_comment_end(
                old(self).chars(),
                after(old(self).chars(), after(old(self).chars(), old(self).pos())),
            ) {
                Ok(q) => r is Ok && final(self).pos() == q,
                Err(f) => r matches Err(e) && e@ == f,
            },
            0 <= old(self).pos() <= final(self).pos() <= old(self).chars().len(),
            r is Ok && peek_at(old(self).chars(), old(self).pos()) is Some ==> old(self).pos()
                < final(self).pos(),
    {
        let ghost chars = self.chars();
        let ghost p0 = self.pos();
        self.consume_char();
        let ghost p1 = self.pos();
        proof {
            lemma_skip_cr(chars, p0);
        }
        self.consume_char();
        let ghost p2 = self.pos();
        loop
            invariant
                self.chars() == chars,
                chars == old(self).chars(),
                p0 == old(self).pos(),
                0 <= p0 <= p2 <= self.pos() <= chars.len(),
                peek_at(chars, p0) is Some ==> p0 < p2,
                p2 == after(chars, after(chars, p0)),
                block_comment_end(chars, self.pos()) == block_comment_end(chars, p2),
            decreases chars.len() - self.pos(),
        {
            let ghost p = self.pos();
            proof {
                lemma_skip_cr(chars, p);
            }
            match self.consume_char() {
                Some((c, _)) => {
                    proof {
                        lemma_skip_cr(chars, self.pos());
                    }
                    if c == '#' && self.peek_char() == Some('>') {
                        self.consume_char();
                        return Ok(());
                    }
                },
                None => {
                    let msg = String::from_str("Unclosed long comment");
                    return self.current_location().error(msg);
                },
            }
        }
    }

    /// Parses what an `@` begins; the `@` comes next.
    fn parse_at(&mut self) -> (r: Result<TokenTree, Error>)
        requires
            peek_at(old(self).chars(), old(self).pos()) is Some,
        ensures
            final(self).chars() == old(self).chars(),
            lexed_as(
                lex_at(old(self).chars(), old(self).pos()),
                tree_result(r),
                final(self).pos(),
            ),
            r is Ok ==> moved(old(self).chars(), old(self).pos(), final(self).pos()),
        decreases old(self).chars().len() - old(self).pos(), 1int,
    {
        let ghost chars = self.chars();
        let ghost p0 = self.pos();
        let (symbol, span) = self.consume_char().unwrap();
        proof {
            lemma_skip_cr(chars, p0);
        }
        match self.peek_char() {
            Some(c) => if c == '"' || c == '\'' {
                self.parse_string(Some(span.start))
            } else {
                Ok(TokenTree::symbol(symbol, span))
            },
            None => Ok(TokenTree::symbol(symbol, span)),
        }
    }

    /// Parses a string; its opening quote comes next. A here-string brings
    /// the location of its `@`.
    fn parse_string(&mut self, here: Option<Location>) -> (r: Result<TokenTree, Error>)
        requires
            peek_at(old(self).chars(), old(self).pos()) is Some,
        ensures
            final(self).chars() == old(self).chars(),
            lexed_as(
                lex_string(old(self).chars(), old(self).pos(), here),
                tree_result(r),
                final(self).pos(),
            ),
            r is Ok ==> moved(old(self).chars(), old(self).pos(), final(self).pos()),
        decreases old(self).chars().len() - old(self).pos(), 0int,
    {
        let ghost chars = self.chars();
        let ghost p0 = self.pos();
        let at = self.current_location();
        let (hereness, start) = match here {
            Some(at) => (true, at),
            None => (false, at),
        };
        proof {
            lemma_skip_cr(chars, p0);
        }
        let (quote, _) = self.consume_char().unwrap();
        let double = quote == '"';
        let ghost p1 = self.pos();
        let ghost goal = string_body(chars, p1, double, hereness, start, Seq::empty());
        let mut subtrees: Vec<TokenTree> = Vec::new();
        proof {
            lemma_trees_empty();
        }
        loop
            invariant_except_break
                self.chars() == chars,
                chars == old(self).chars(),
                p0 == old(self).pos(),
                0 <= p0 < self.pos() <= chars.len(),
                string_body(chars, self.pos(), double, hereness, start, trees(subtrees@)) == goal,
                goal is Err ==> lex_string(chars, p0, here) == Err::<(RawTree, int), Failure>(
                    goal->Err_0,
                ),
            ensures
                self.chars() == chars,
                0 <= p0 < self.pos() <= chars.len(),
                goal == Ok::<(Seq<RawTree>, int), Failure>((trees(subtrees@), self.pos())),
            decreases chars.len() - self.pos(),
        {
            match self.string_step(double, hereness, start, &mut subtrees) {
                Err(e) => {
                    return Err(e);
                },
                Ok(true) => {
                    break ;
                },
                Ok(false) => {},
            }
        }
        let span = Span { start, end: self.current_location() };
        proof {
            lemma_view_nested(span, subtrees, Delimiter::Brace);
        }
        Ok(TokenTree::String { subtrees, span })
    }

    /// Reads on in a string by one character and what it takes along; says
    /// whether that was the end of the string.
    fn string_step(
        &mut self,
        double: bool,
        hereness: bool,
        start: Location,
        subtrees: &mut Vec<TokenTree>,
    ) -> (r: Result<bool, Error>)
        requires
            0 <= old(self).pos() <= old(self).chars().len(),
        ensures
            final(self).chars() == old(self).chars(),
            match r {
                Ok(ended) => {
                    &&& old(self).pos() < final(self).pos() <= old(self).chars().len()
                    &&& string_body(
                        old(self).chars(),
                        old(self).pos(),
                        double,
                        hereness,
                        start,
                        trees(old(subtrees)@),
                    ) == (if ended {
                        Ok::<(Seq<RawTree>, int), Failure>(
                            (trees(final(subtrees)@), final(self).pos()),
                        )
                    } else {
                        string_body(
                            old(self).chars(),
                            final(self).pos(),
                            double,
                            hereness,
                            start,
                            trees(final(subtrees)@),
                        )
                    })
                },
                Err(e) => string_body(
                    old(self).chars(),
                    old(self).pos(),
                    double,
                    hereness,
                    start,
                    trees(old(subtrees)@),
                ) == Err::<(Seq<RawTree>, int), Failure>(e@),
            },
        decreases old(self).chars().len() - old(self).pos(), 1int,
    {
        let ghost chars = self.chars();
        let ghost p = self.pos();
        proof {
            lemma_skip_cr(chars, p);
            reveal(location_at);
        }
        let (c, c_span) = match self.consume_char() {
            Some(consumed) => consumed,
            None => {
                let msg = String::from_str("Unclosed string");
                return start.error(msg);
            },
        };
        let ghost q = self.pos();
        proof {
            lemma_skip_cr(chars, q);
        }
        let quote = if double {
            '"'
        } else {
            '\''
        };
        if c == '`' && double {
            self.consume_char();
            Ok(false)
        } else if c == quote && !hereness {
            if self.peek_char() == Some(c) {
                self.consume_char();
                Ok(false)
            } else {
                Ok(true)
            }
        } else if c == quote && hereness {
            if c_span.start.col == 1 && self.peek_char() == Some('@') {
                self.consume_char();
                Ok(true)
            } else {
                Ok(false)
            }
        } else if c == '$' && double {
            match self.peek_char() {
                Some(n) => if n == '(' || n == '{' {
                    let tt = match self.parse_group() {
                        Ok(tt) => tt,
                        Err(e) => {
                            return Err(e);
                        },
                    };
                    proof {
                        lemma_trees_push(subtrees@, tt);
                    }
                    subtrees.push(tt);
                    Ok(false)
                } else if can_start_word(n) {
                    let tt = self.parse_word();
                    proof {
                        lemma_trees_push(subtrees@, tt);
                    }
                    subtrees.push(tt);
                    Ok(false)
                } else {
                    Ok(false)
                },
                None => Ok(false),
            }
        } else {
            Ok(false)
        }
    }

    fn consume_char(&mut self) -> (r: Option<(char, Span)>)
        ensures
            r == next_at(old(self).chars(), old(self).pos()),
            final(self).chars() == old(self).chars(),
            final(self).pos() == after(old(self).chars(), old(self).pos()),
            0 <= old(self).pos() <= final(self).pos() <= old(self).chars().len(),
    {
        self.muncher.next_char()
    }

    fn peek_char(&self) -> (r: Option<char>)
        ensures
            r == peek_at(self.chars(), self.pos()),
            0 <= self.pos() <= self.chars().len(),
    {
        self.muncher.peek_char()
    }

    fn current_location(&self) -> (l: Location)
        ensures
            l == location_at(self.chars(), self.pos()),
            0 <= self.pos() <= self.chars().len(),
    {
        self.muncher.current_location()
    }
}

/// Parses a source file into list of token trees, stripping comments.
pub fn parse(source: &str) -> (r: Result<Vec<TokenTree>, Error>)
    requires
        byte_len(source@) <= u32::MAX,
    ensures
        stream_result(r) == lex(source@),
{
    Parser::parse(source)
}

} // verus!
