//! The second stage: raw token trees into token trees that say what each
//! word is for.

use vstd::prelude::*;
use vstd::string::*;
use vstd::utf8::is_char_boundary;
use crate::text::{byte_len, on_boundary, str_equal, substring, text_between};
use crate::syntax::v2::{Error, Failure};
use crate::syntax::v2::muncher::Span;
use crate::syntax::v2::stage1::{
    lemma_view_nested as lemma_raw_nested, trees as raw_trees, Delimiter, RawTree, Spacing,
    TokenTree as TT1,
};
use crate::syntax::v2::stream::Stream;

verus! {

#[derive(Debug)]
pub enum TokenTree {
    /// `$Variable`
    ///
    /// `Using:Variable` are represented as separate tts.
    Variable { span: Span, ident: FileStr },
    /// `-Flag`
    Flag { span: Span, ident: FileStr },
    /// `Command-Let`
    Cmdlet { span: Span, ident: FileStr },
    /// `Field` as in `$Foo.Field` or `@{ Field = 42 }`.
    /// Also a method name.
    /// Also (it's a stretch), a word inside []-brackets.
    Field { span: Span, ident: FileStr },
    /// The `function` keyword.
    FunctionKeyword { span: Span },
    /// The `class` keyword.
    ClassKeyword { span: Span },
    /// The `return` keyword.
    ReturnKeyword { span: Span },
    /// The `in` keyword. The rest of keywords are parsed as commandlets.
    InKeyword { span: Span },
    /// A bunch of characters in argument position treated as a string,
    /// rather than an identifier. Eg. `foo-bar` in
    /// `New-Something -Flag foo-bar`
    Word { span: Span },
    Number { span: Span },
    String { span: Span, subtrees: Vec<TokenTree> },
    Group { span: Span, interior: Vec<TokenTree>, delimiter: Delimiter, prefix: Option<char> },
    /// The `::` double-symbol
    Square { span: Span },
    /// All the symbols left here are the ones that work as semantically
    /// separate entity, eg. `.` in dot-import, `|` as pipe or `-` as a minus
    /// sign, but not `-` inside a commandlet name or backtick at the end of
    /// line.
    Symbol { span: Span, symbol: char },
}

/// A token tree of the second stage as a plain value.
pub enum Tree {
    Variable { span: Span, ident: FileStr },
    Flag { span: Span, ident: FileStr },
    Cmdlet { span: Span, ident: FileStr },
    Field { span: Span, ident: FileStr },
    FunctionKeyword { span: Span },
    ClassKeyword { span: Span },
    ReturnKeyword { span: Span },
    InKeyword { span: Span },
    Word { span: Span },
    Number { span: Span },
    String { span: Span, subtrees: Seq<Tree> },
    Group { span: Span, interior: Seq<Tree>, delimiter: Delimiter, prefix: Option<char> },
    Square { span: Span },
    Symbol { span: Span, symbol: char },
}

/// A string within a file, represented by a range of byte offsets.
#[derive(Debug, Copy, Clone, PartialEq, Eq, Structural)]
pub struct FileStr {
    pub start: u32,
    pub end: u32,
}

/// What the transformer expects to read next.
#[derive(Debug, Copy, Clone, Eq, PartialEq, Structural)]
pub enum Mode {
    /// A mode in which you expect a commandlet (or other expression)
    /// Default mode for the top-level and in {}-block
    Function,
    /// Expecting a field: mode that you enter when in @{}-block or after a
    /// dot.
    Field,
    /// A mode that you enter after parsing a commandlet name
    Argument,
    /// Inside []-brackets
    Annotation,
}

/// The range of bytes that `span` covers.
pub open spec fn range_of(span: Span) -> FileStr {
    FileStr { start: span.start.byte, end: span.end.byte }
}

/// From the start of `left` to the end of `right`.
pub open spec fn joined(left: Span, right: Span) -> Span {
    Span { start: left.start, end: right.end }
}

/// True when `range` can be cut from `text`: it lies inside the text, does
/// not end before it starts and splits no character.
pub open spec fn cuttable(text: Seq<char>, range: FileStr) -> bool {
    &&& range.start <= range.end <= byte_len(text)
    &&& on_boundary(text, range.start as int)
    &&& on_boundary(text, range.end as int)
}

/// The characters of `text` that `range` covers; none where the range
/// cannot be cut from the text.
pub open spec fn cut(text: Seq<char>, range: FileStr) -> Seq<char> {
    if cuttable(text, range) {
        text_between(text, range.start as int, range.end as int)
    } else {
        Seq::empty()
    }
}

impl TokenTree {
    pub open spec fn view(&self) -> Tree
        decreases self,
    {
        match self {
            TokenTree::Variable { span, ident } => Tree::Variable { span: *span, ident: *ident },
            TokenTree::Flag { span, ident } => Tree::Flag { span: *span, ident: *ident },
            TokenTree::Cmdlet { span, ident } => Tree::Cmdlet { span: *span, ident: *ident },
            TokenTree::Field { span, ident } => Tree::Field { span: *span, ident: *ident },
            TokenTree::FunctionKeyword { span } => Tree::FunctionKeyword { span: *span },
            TokenTree::ClassKeyword { span } => Tree::ClassKeyword { span: *span },
            TokenTree::ReturnKeyword { span } => Tree::ReturnKeyword { span: *span },
            TokenTree::InKeyword { span } => Tree::InKeyword { span: *span },
            TokenTree::Word { span } => Tree::Word { span: *span },
            TokenTree::Number { span } => Tree::Number { span: *span },
            TokenTree::String { span, subtrees } => Tree::String {
                span: *span,
                subtrees: Seq::new(
                    subtrees@.len(),
                    |i: int|
                        if 0 <= i < subtrees@.len() {
                            subtrees@[i].view()
                        } else {
                            Tree::Number { span: *span }
                        },
                ),
            },
            TokenTree::Group { span, interior, delimiter, prefix } => Tree::Group {
                span: *span,
                interior: Seq::new(
                    interior@.len(),
                    |i: int|
                        if 0 <= i < interior@.len() {
                            interior@[i].view()
                        } else {
                            Tree::Number { span: *span }
                        },
                ),
                delimiter: *delimiter,
                prefix: *prefix,
            },
            TokenTree::Square { span } => Tree::Square { span: *span },
            TokenTree::Symbol { span, symbol } => Tree::Symbol { span: *span, symbol: *symbol },
        }
    }

    /// The symbol `symbol` found at `span`.
    pub fn symbol(symbol: char, span: Span) -> (tt: TokenTree)
        ensures
            tt@ == (Tree::Symbol { span, symbol }),
    {
        TokenTree::Symbol { span, symbol }
    }

    /// The group of `interior` found at `span`, with the `@` before it where
    /// it has one.
    pub fn group(span: Span, interior: Vec<TokenTree>, delimiter: Delimiter, at: bool) -> (tt:
        TokenTree)
        ensures
            tt@ == (Tree::Group {
                span,
                interior: trees(interior@),
                delimiter,
                prefix: if at {
                    Some('@')
                } else {
                    None
                },
            }),
    {
        let prefix = if at {
            Some('@')
        } else {
            None
        };
        let tt = TokenTree::Group { span, interior, delimiter, prefix };
        assert(tt@->Group_interior =~= trees(interior@));
        tt
    }

    /// The `$(..)` of `interior` found in a string at `span`.
    pub fn interpolation(span: Span, interior: Vec<TokenTree>, delimiter: Delimiter) -> (tt:
        TokenTree)
        ensures
            tt@ == (Tree::Group {
                span,
                interior: trees(interior@),
                delimiter,
                prefix: Some('$'),
            }),
    {
        let tt = TokenTree::Group { span, interior, delimiter, prefix: Some('$') };
        assert(tt@->Group_interior =~= trees(interior@));
        tt
    }

    /// The string found at `span` with what its interpolations gave.
    pub fn string(span: Span, subtrees: Vec<TokenTree>) -> (tt: TokenTree)
        ensures
            tt@ == (Tree::String { span, subtrees: trees(subtrees@) }),
    {
        let tt = TokenTree::String { span, subtrees };
        assert(tt@->String_subtrees =~= trees(subtrees@));
        tt
    }
}

/// The token trees of a stream as plain values.
pub open spec fn trees(stream: Seq<TokenTree>) -> Seq<Tree> {
    Seq::new(stream.len(), |i: int| stream[i]@)
}

pub proof fn lemma_trees_push(stream: Seq<TokenTree>, tt: TokenTree)
    ensures
        trees(stream.push(tt)) == trees(stream).push(tt@),
{
    assert(trees(stream.push(tt)) =~= trees(stream).push(tt@));
}

pub proof fn lemma_trees_empty()
    ensures
        trees(Seq::<TokenTree>::empty()) == Seq::<Tree>::empty(),
{
    assert(trees(Seq::<TokenTree>::empty()) =~= Seq::<Tree>::empty());
}

/// What stays the same while one stream is transformed.
pub struct Setting {
    /// The mode in which the stream starts and to which a statement's end
    /// brings it back.
    pub start_mode: Mode,
    /// What the stream stands in; `Brace` for a whole file.
    pub delimiter: Delimiter,
    /// The text of the file.
    pub text: Seq<char>,
}

/// What changes while a stream is transformed.
pub struct Machine {
    pub mode: Mode,
    /// True from a `class` keyword to the next group.
    pub class_seen: bool,
    /// What was written so far.
    pub out: Seq<Tree>,
}

impl Machine {
    pub open spec fn put(self, tt: Tree) -> Machine {
        Machine { out: self.out.push(tt), ..self }
    }

    pub open spec fn to(self, mode: Mode) -> Machine {
        Machine { mode, ..self }
    }
}

/// What one step gives: the number of further token trees that it took from
/// the stream and the machine it leaves, or the failure that ends the
/// transformation.
pub type Stepped = Result<(int, Machine), Failure>;

pub open spec fn is_symbol(tt: RawTree, c: char) -> bool {
    tt matches RawTree::Symbol { symbol, .. } && symbol == c
}

pub open spec fn front_is_symbol(rest: Seq<RawTree>, c: char) -> bool {
    rest.len() > 0 && is_symbol(rest[0], c)
}

/// The name of a command grows over the words, `-`, `+` and `.` that touch
/// it: the number of token trees taken from `rest` from `k` on, and the span
/// reached.
pub open spec fn merge_cmdlet(rest: Seq<RawTree>, k: int, span: Span, spacing: Spacing) -> (
    int,
    Span,
)
    decreases rest.len() - k,
{
    if spacing == Spacing::Joined && 0 <= k < rest.len() {
        match rest[k] {
            RawTree::Word { span: next, spacing: then } => merge_cmdlet(
                rest,
                k + 1,
                joined(span, next),
                then,
            ),
            RawTree::Symbol { span: next, symbol, spacing: then } => if symbol == '-' || symbol
                == '+' || symbol == '.' {
                merge_cmdlet(rest, k + 1, joined(span, next), then)
            } else {
                (k, span)
            },
            _ => (k, span),
        }
    } else {
        (k, span)
    }
}

/// An argument written without quotes grows over the words and symbols that
/// touch it, up to the end of the line.
pub open spec fn merge_argument(rest: Seq<RawTree>, k: int, span: Span, spacing: Spacing) -> (
    int,
    Span,
)
    decreases rest.len() - k,
{
    if spacing == Spacing::Joined && 0 <= k < rest.len() {
        match rest[k] {
            RawTree::Word { span: next, spacing: then } => merge_argument(
                rest,
                k + 1,
                joined(span, next),
                then,
            ),
            RawTree::Symbol { span: next, symbol, spacing: then } => if symbol != '\n' {
                merge_argument(rest, k + 1, joined(span, next), then)
            } else {
                (k, span)
            },
            _ => (k, span),
        }
    } else {
        (k, span)
    }
}

/// A variable name, or several joined by `:` as in `Using:Variable`, read
/// from `rest` from `k` on: the number of token trees taken and what was
/// written. The first variable's span takes in the `$` at `dollar`.
pub open spec fn variable_name(rest: Seq<RawTree>, k: int, dollar: Option<Span>, out: Seq<Tree>)
    -> (int, Seq<Tree>)
    decreases rest.len() - k,
{
    if 0 <= k < rest.len() {
        match rest[k] {
            RawTree::Word { span, spacing } => {
                let whole = match dollar {
                    Some(d) => joined(d, span),
                    None => span,
                };
                let out1 = out.push(Tree::Variable { span: whole, ident: range_of(span) });
                if spacing == Spacing::Joined && k + 1 < rest.len() {
                    match rest[k + 1] {
                        RawTree::Symbol { span: colon, symbol, spacing: then } => if symbol == ':'
                            && then == Spacing::Joined {
                            variable_name(
                                rest,
                                k + 2,
                                None,
                                out1.push(Tree::Symbol { span: colon, symbol: ':' }),
                            )
                        } else {
                            (k + 1, out1)
                        },
                        _ => (k + 1, out1),
                    }
                } else {
                    (k + 1, out1)
                }
            },
            _ => (k, out),
        }
    } else {
        (k, out)
    }
}

/// What a symbol does to the machine.
pub open spec fn step_symbol(
    span: Span,
    symbol: char,
    spacing: Spacing,
    rest: Seq<RawTree>,
    cfg: Setting,
    m: Machine,
) -> Stepped {
    if symbol == '`' && spacing == Spacing::Joined {
        if front_is_symbol(rest, '\n') {
            Ok((1, m))
        } else {
            Err(Failure { what: "Unknown escape"@, where_: span.start })
        }
    } else if symbol == '\n' && cfg.delimiter == Delimiter::Brace {
        Ok((0, m.put(Tree::Symbol { span, symbol: ';' }).to(cfg.start_mode)))
    } else if symbol == '|' || symbol == '+' {
        let taken: int = if front_is_symbol(rest, '\n') {
            1
        } else {
            0
        };
        let mode = if symbol == '|' {
            Mode::Function
        } else {
            m.mode
        };
        Ok((taken, m.put(Tree::Symbol { span, symbol }).to(mode)))
    } else if symbol == '$' && spacing == Spacing::Joined {
        if rest.len() > 0 && rest[0] is Word {
            let (taken, out) = variable_name(rest, 0, Some(span), m.out);
            Ok((taken, Machine { mode: Mode::Argument, class_seen: m.class_seen, out }))
        } else {
            Ok((0, m.put(Tree::Symbol { span, symbol })))
        }
    } else if symbol == '-' && spacing == Spacing::Joined {
        if rest.len() > 0 && rest[0] is Word {
            let word = rest[0]->Word_span;
            Ok(
                (
                    1,
                    m.put(Tree::Flag { span: joined(span, word), ident: range_of(word) }).to(
                        Mode::Argument,
                    ),
                ),
            )
        } else {
            Ok((0, m.put(Tree::Symbol { span, symbol })))
        }
    } else if symbol == '=' {
        Ok((0, m.put(Tree::Symbol { span, symbol }).to(Mode::Function)))
    } else if symbol == '.' {
        Ok((0, m.put(Tree::Symbol { span, symbol }).to(Mode::Field)))
    } else if symbol == ':' && spacing == Spacing::Joined {
        if front_is_symbol(rest, ':') {
            Ok(
                (
                    1,
                    m.put(Tree::Square { span: joined(span, rest[0].span()) }).to(Mode::Field),
                ),
            )
        } else {
            Ok((0, m.put(Tree::Symbol { span, symbol })))
        }
    } else if symbol == ';' || (symbol == ',' && cfg.start_mode == Mode::Annotation) {
        Ok((0, m.put(Tree::Symbol { span, symbol }).to(cfg.start_mode)))
    } else {
        Ok((0, m.put(Tree::Symbol { span, symbol })))
    }
}

/// What a word does to the machine.
pub open spec fn step_word(
    span: Span,
    spacing: Spacing,
    rest: Seq<RawTree>,
    cfg: Setting,
    m: Machine,
) -> Stepped {
    match m.mode {
        Mode::Field | Mode::Annotation => Ok(
            (0, m.put(Tree::Field { span, ident: range_of(span) }).to(Mode::Argument)),
        ),
        Mode::Function => {
            let (taken, whole) = merge_cmdlet(rest, 0, span, spacing);
            let name = cut(cfg.text, range_of(whole));
            if name == "function"@ {
                Ok((taken, m.put(Tree::FunctionKeyword { span: whole })))
            } else if name == "class"@ {
                Ok(
                    (
                        taken,
                        Machine {
                            mode: Mode::Field,
                            class_seen: true,
                            out: m.out.push(Tree::ClassKeyword { span: whole }),
                        },
                    ),
                )
            } else if name == "return"@ {
                Ok((taken, m.put(Tree::ReturnKeyword { span: whole }).to(Mode::Function)))
            } else {
                Ok(
                    (
                        taken,
                        m.put(Tree::Cmdlet { span: whole, ident: range_of(whole) }).to(
                            Mode::Argument,
                        ),
                    ),
                )
            }
        },
        Mode::Argument => {
            if cut(cfg.text, range_of(span)) == "in"@ {
                Ok((0, m.put(Tree::InKeyword { span }).to(Mode::Function)))
            } else {
                let (taken, whole) = merge_argument(rest, 0, span, spacing);
                Ok((taken, m.put(Tree::Word { span: whole })))
            }
        },
    }
}

/// The mode in which the inside of a group is read.
pub open spec fn group_mode(prefixed: bool, delimiter: Delimiter, cfg: Setting, m: Machine)
    -> Mode {
    if prefixed {
        Mode::Field
    } else if m.class_seen && delimiter == Delimiter::Brace {
        Mode::Field
    } else if cfg.start_mode == Mode::Annotation {
        Mode::Annotation
    } else if delimiter == Delimiter::Bracket {
        Mode::Annotation
    } else {
        Mode::Function
    }
}

/// True when the last thing written is an `@` that ends where `span` starts.
pub open spec fn at_before(out: Seq<Tree>, span: Span) -> bool {
    out.len() > 0 && (out.last() matches Tree::Symbol { symbol, span: at } && symbol == '@'
        && at.end == span.start)
}

/// The whole of a stream transformed, from the machine `m` on.
pub open spec fn run(all: Seq<RawTree>, cfg: Setting, m: Machine) -> Result<Seq<Tree>, Failure>
    decreases all, 0int,
{
    if all.len() == 0 {
        Ok(m.out)
    } else {
        match step(all[0], all.drop_first(), cfg, m) {
            Err(e) => Err(e),
            Ok((taken, next)) => if 0 <= taken < all.len() {
                proof {
                    assert(all.drop_first().skip(taken) =~= all.subrange(
                        1 + taken,
                        all.len() as int,
                    ));
                }
                run(all.drop_first().skip(taken), cfg, next)
            } else {
                Ok(next.out)
            },
        }
    }
}

/// A stream transformed.
pub open spec fn transformed(
    input: Seq<RawTree>,
    start_mode: Mode,
    delimiter: Delimiter,
    text: Seq<char>,
) -> Result<Seq<Tree>, Failure>
    decreases input, 1int,
{
    run(
        input,
        Setting { start_mode, delimiter, text },
        Machine { mode: start_mode, class_seen: false, out: Seq::empty() },
    )
}

/// What the token tree `cur` does to the machine, with `rest` behind it in
/// the stream.
pub open spec fn step(cur: RawTree, rest: Seq<RawTree>, cfg: Setting, m: Machine) -> Stepped
    decreases cur, 2int,
{
    match cur {
        RawTree::Symbol { span, symbol, spacing } => step_symbol(
            span,
            symbol,
            spacing,
            rest,
            cfg,
            m,
        ),
        RawTree::Word { span, spacing } => step_word(span, spacing, rest, cfg, m),
        RawTree::Number { span } => Ok((0, m.put(Tree::Number { span }).to(Mode::Argument))),
        RawTree::Group { span, interior, delimiter } => {
            let prefixed = at_before(m.out, span);
            let mode = group_mode(prefixed, delimiter, cfg, m);
            match transformed(interior, mode, delimiter, cfg.text) {
                Err(e) => Err(e),
                Ok(inner) => {
                    let group = if prefixed {
                        Tree::Group {
                            span: joined(m.out.last().span(), span),
                            interior: inner,
                            delimiter,
                            prefix: Some('@'),
                        }
                    } else {
                        Tree::Group { span, interior: inner, delimiter, prefix: None }
                    };
                    let before = if prefixed {
                        m.out.drop_last()
                    } else {
                        m.out
                    };
                    Ok((0, Machine { mode: m.mode, class_seen: false, out: before.push(group) }))
                },
            }
        },
        RawTree::String { span, subtrees } => match string_parts(
            subtrees,
            cfg.delimiter,
            cfg.text,
            Seq::empty(),
        ) {
            Err(e) => Err(e),
            Ok(parts) => Ok(
                (0, m.put(Tree::String { span, subtrees: parts }).to(Mode::Argument)),
            ),
        },
    }
}

/// What the interpolations of a string become, added to `done`.
pub open spec fn string_parts(
    subtrees: Seq<RawTree>,
    around: Delimiter,
    text: Seq<char>,
    done: Seq<Tree>,
) -> Result<Seq<Tree>, Failure>
    decreases subtrees, 1int,
{
    if subtrees.len() == 0 {
        Ok(done)
    } else {
        match string_part(subtrees[0], around, text) {
            Err(e) => Err(e),
            Ok(part) => {
                proof {
                    assert(subtrees.drop_first() =~= subtrees.subrange(1, subtrees.len() as int));
                }
                string_parts(subtrees.drop_first(), around, text, done.push(part))
            },
        }
    }
}

/// What one interpolation of a string becomes: `$name` a variable,
/// `${..}` a group read as fields, `$(..)` a group read as commands and
/// marked with `$` and with `around`, the delimiter of the stream that the
/// string stands in.
pub open spec fn string_part(part: RawTree, around: Delimiter, text: Seq<char>) -> Result<
    Tree,
    Failure,
>
    decreases part, 0int,
{
    match part {
        RawTree::Group { span, interior, delimiter } => match delimiter {
            Delimiter::Brace => match transformed(interior, Mode::Field, Delimiter::Brace, text) {
                Err(e) => Err(e),
                Ok(inner) => Ok(
                    Tree::Group {
                        span,
                        interior: inner,
                        delimiter: Delimiter::Parenthesis,
                        prefix: None,
                    },
                ),
            },
            Delimiter::Parenthesis => match transformed(
                interior,
                Mode::Function,
                Delimiter::Parenthesis,
                text,
            ) {
                Err(e) => Err(e),
                Ok(inner) => Ok(
                    Tree::Group { span, interior: inner, delimiter: around, prefix: Some('$') },
                ),
            },
            Delimiter::Bracket => Err(
                Failure { what: "ICE: Weird subtree in string"@, where_: span.start },
            ),
        },
        RawTree::Word { span, .. } => Ok(Tree::Variable { span, ident: range_of(span) }),
        other => Err(
            Failure { what: "ICE: Weird subtree in string"@, where_: other.span().start },
        ),
    }
}

impl Tree {
    pub open spec fn span(self) -> Span {
        match self {
            Tree::Variable { span, .. } => span,
            Tree::Flag { span, .. } => span,
            Tree::Cmdlet { span, .. } => span,
            Tree::Field { span, .. } => span,
            Tree::FunctionKeyword { span } => span,
            Tree::ClassKeyword { span } => span,
            Tree::ReturnKeyword { span } => span,
            Tree::InKeyword { span } => span,
            Tree::Word { span } => span,
            Tree::Number { span } => span,
            Tree::String { span, .. } => span,
            Tree::Group { span, .. } => span,
            Tree::Square { span } => span,
            Tree::Symbol { span, .. } => span,
        }
    }
}

impl FileStr {
    /// The range of bytes that `span` covers.
    pub fn from_span(sp: Span) -> (r: FileStr)
        ensures
            r == range_of(sp),
    {
        FileStr { start: sp.start.byte, end: sp.end.byte }
    }

    /// Whether the range can be cut from `source`: it lies inside the text,
    /// does not end before it starts and splits no character.
    pub fn fits(&self, source: &str) -> (r: bool)
        ensures
            r == cuttable(source@, *self),
    {
        let len = source.as_bytes().len();
        let start = self.start as usize;
        let end = self.end as usize;
        start <= end && end <= len && source.is_char_boundary(start) && source.is_char_boundary(end)
    }

    /// The part of `source` that the range covers.
    pub fn cut_from<'source>(&self, source: &'source str) -> (r: &'source str)
        requires
            cuttable(source@, *self),
        ensures
            r@ == text_between(source@, self.start as int, self.end as int),
            r@ == cut(source@, *self),
    {
        substring(source, self.start as usize, self.end as usize)
    }

    /// The part of `source` that the range covers, and nothing where the
    /// range cannot be cut from `source`.
    pub(crate) fn cut_or_nothing<'source>(&self, source: &'source str) -> (r: &'source str)
        ensures
            r@ == cut(source@, *self),
    {
        if self.fits(source) {
            self.cut_from(source)
        } else {
            proof {
                reveal_strlit("");
                assert(""@ =~= Seq::<char>::empty());
            }
            ""
        }
    }

    /// Whether the range covers just the characters of `word` in `source`.
    pub fn reads(&self, source: &str, word: &str) -> (r: bool)
        ensures
            r == (cut(source@, *self) == word@),
    {
        str_equal(self.cut_or_nothing(source), word)
    }
}

impl TokenTree {
    pub fn from_stage1(tt1: Vec<TT1>, source: &str) -> (r: Result<Vec<TokenTree>, Error>)
        ensures
            stream_result(r) == transformed(
                raw_trees(tt1@),
                Mode::Function,
                Delimiter::Brace,
                source@,
            ),
    {
        transform(tt1, Mode::Function, Delimiter::Brace, source)
    }
}

pub open spec fn stream_result(r: Result<Vec<TokenTree>, Error>) -> Result<Seq<Tree>, Failure> {
    match r {
        Ok(stream) => Ok(trees(stream@)),
        Err(e) => Err(e@),
    }
}

/// True when `got` and the state reached are what `want` asks for, `before`
/// being what was left of the stream when the step began.
pub open spec fn stepped_as(
    want: Stepped,
    got: Result<(), Failure>,
    before: Seq<RawTree>,
    left: Seq<RawTree>,
    reached: Machine,
) -> bool {
    match want {
        Ok((taken, m)) => {
            &&& got is Ok
            &&& 0 <= taken <= before.len()
            &&& left == before.skip(taken)
            &&& reached == m
        },
        Err(f) => got == Err::<(), Failure>(f),
    }
}

pub open spec fn unit_result(r: Result<(), Error>) -> Result<(), Failure> {
    match r {
        Ok(()) => Ok(()),
        Err(e) => Err(e@),
    }
}

/// Transforms a stream that stands in `delimiter` and starts in
/// `start_mode`.
pub fn transform(input: Vec<TT1>, start_mode: Mode, delimiter: Delimiter, whole_source: &str) -> (r:
    Result<Vec<TokenTree>, Error>)
    ensures
        stream_result(r) == transformed(raw_trees(input@), start_mode, delimiter, whole_source@),
    decreases raw_trees(input@), 1int,
{
    let ghost all = raw_trees(input@);
    let mut t = Transformer {
        stream: Stream::new(input),
        output: Vec::new(),
        mode: start_mode,
        class_seen: false,
        start_mode,
        delimiter,
        source: whole_source,
    };
    let ghost cfg = t.cfg();
    let ghost goal = run(all, cfg, t.machine());
    let ghost mut passed: int = 0;
    proof {
        lemma_trees_empty();
        assert(all.skip(0) =~= all);
    }
    loop
        invariant
            all == raw_trees(input@),
            0 <= passed <= all.len(),
            t.rest() == all.skip(passed),
            t.cfg() == cfg,
            run(t.rest(), cfg, t.machine()) == goal,
            goal == transformed(raw_trees(input@), start_mode, delimiter, whole_source@),
        decreases all.len() - passed,
    {
        let ghost before = t.rest();
        let ghost m0 = t.machine();
        let cur = match t.stream.pop_front() {
            Some(cur) => cur,
            None => {
                return Ok(t.output);
            },
        };
        let ghost rest = t.rest();
        let ghost want = step(cur@, rest, cfg, m0);
        proof {
            assert(cur@ == all[passed]);
            assert(rest =~= before.drop_first());
        }
        match t.step(cur) {
            Ok(()) => {
                proof {
                    let taken = want->Ok_0.0;
                    assert(t.rest() =~= all.skip(passed + 1 + taken));
                    passed = passed + 1 + taken;
                }
            },
            Err(e) => {
                return Err(e);
            },
        }
    }
}

/// A stream on its way through the transformer.
struct Transformer<'a> {
    stream: Stream<TT1>,
    output: Vec<TokenTree>,
    mode: Mode,
    class_seen: bool,
    start_mode: Mode,
    delimiter: Delimiter,
    source: &'a str,
}

impl<'a> Transformer<'a> {
    spec fn cfg(&self) -> Setting {
        Setting { start_mode: self.start_mode, delimiter: self.delimiter, text: self.source@ }
    }

    spec fn machine(&self) -> Machine {
        Machine { mode: self.mode, class_seen: self.class_seen, out: trees(self.output@) }
    }

    spec fn rest(&self) -> Seq<RawTree> {
        raw_trees(self.stream@)
    }
}

impl<'a> Transformer<'a> {
    /// Lets the token tree `cur`, just taken from the stream, act on the
    /// machine.
    fn step(&mut self, cur: TT1) -> (r: Result<(), Error>)
        ensures
            final(self).cfg() == old(self).cfg(),
            stepped_as(
                step(cur@, old(self).rest(), old(self).cfg(), old(self).machine()),
                unit_result(r),
                old(self).rest(),
                final(self).rest(),
                final(self).machine(),
            ),
        decreases cur@, 2int,
    {
        match cur {
            TT1::Symbol { span, symbol, spacing } => self.on_symbol(span, symbol, spacing),
            TT1::Word { span, spacing } => {
                self.on_word(span, spacing);
                Ok(())
            },
            TT1::Number { span } => {
                self.put(TokenTree::Number { span });
                self.mode = Mode::Argument;
                proof {
                    assert(self.rest() =~= old(self).rest().skip(0));
                }
                Ok(())
            },
            TT1::Group { span, interior, delimiter } => {
                proof {
                    lemma_raw_nested(span, interior, delimiter);
                }
                self.on_group(span, interior, delimiter)
            },
            TT1::String { span, subtrees } => {
                proof {
                    lemma_raw_nested(span, subtrees, Delimiter::Brace);
                }
                self.on_string(span, subtrees)
            },
        }
    }

    /// Writes `tt`.
    fn put(&mut self, tt: TokenTree)
        ensures
            final(self).cfg() == old(self).cfg(),
            final(self).rest() == old(self).rest(),
            final(self).machine() == old(self).machine().put(tt@),
    {
        proof {
            lemma_trees_push(self.output@, tt);
        }
        self.output.push(tt);
    }

    /// Whether the symbol `c` is at the front of the stream.
    fn next_is_symbol(&self, c: char) -> (r: bool)
        ensures
            r == front_is_symbol(self.rest(), c),
    {
        match self.stream.peek() {
            Some(TT1::Symbol { symbol, .. }) => *symbol == c,
            _ => false,
        }
    }

    /// The span of the word at the front of the stream, if a word is there.
    fn next_word(&self) -> (r: Option<Span>)
        ensures
            match r {
                Some(span) => self.rest().len() > 0 && self.rest()[0] is Word && span
                    == self.rest()[0]->Word_span,
                None => !(self.rest().len() > 0 && self.rest()[0] is Word),
            },
    {
        match self.stream.peek() {
            Some(TT1::Word { span, .. }) => Some(*span),
            _ => None,
        }
    }

    /// Takes the token tree at the front of the stream away.
    fn drop_next(&mut self)
        requires
            old(self).rest().len() > 0,
        ensures
            final(self).cfg() == old(self).cfg(),
            final(self).machine() == old(self).machine(),
            final(self).rest() == old(self).rest().drop_first(),
    {
        let _ = self.stream.pop_front();
        assert(self.rest() =~= old(self).rest().drop_first());
    }

    fn on_symbol(&mut self, span: Span, symbol: char, spacing: Spacing) -> (r: Result<(), Error>)
        ensures
            final(self).cfg() == old(self).cfg(),
            stepped_as(
                step_symbol(
                    span,
                    symbol,
                    spacing,
                    old(self).rest(),
                    old(self).cfg(),
                    old(self).machine(),
                ),
                unit_result(r),
                old(self).rest(),
                final(self).rest(),
                final(self).machine(),
            ),
    {
        let ghost rest = self.rest();
        proof {
            assert(rest.skip(0) =~= rest);
            if rest.len() > 0 {
                assert(rest.skip(1) =~= rest.drop_first());
            }
        }
        let joined = spacing == Spacing::Joined;
        if symbol == '`' && joined {
            if self.next_is_symbol('\n') {
                self.drop_next();
                Ok(())
            } else {
                span.start.error(String::from_str("Unknown escape"))
            }
        } else if symbol == '\n' && self.delimiter == Delimiter::Brace {
            self.put(TokenTree::symbol(';', span));
            self.mode = self.start_mode;
            Ok(())
        } else if symbol == '|' || symbol == '+' {
            if self.next_is_symbol('\n') {
                self.drop_next();
            }
            if symbol == '|' {
                self.mode = Mode::Function;
            }
            self.put(TokenTree::symbol(symbol, span));
            Ok(())
        } else if symbol == '$' && joined {
            match self.next_word() {
                Some(_) => {
                    self.variable(span);
                    self.mode = Mode::Argument;
                },
                None => {
                    self.put(TokenTree::symbol(symbol, span));
                },
            }
            Ok(())
        } else if symbol == '-' && joined {
            match self.next_word() {
                Some(word) => {
                    self.drop_next();
                    self.put(
                        TokenTree::Flag { span: span.to(word), ident: FileStr::from_span(word) },
                    );
                    self.mode = Mode::Argument;
                },
                None => {
                    self.put(TokenTree::symbol(symbol, span));
                },
            }
            Ok(())
        } else if symbol == '=' {
            self.put(TokenTree::symbol(symbol, span));
            self.mode = Mode::Function;
            Ok(())
        } else if symbol == '.' {
            self.put(TokenTree::symbol(symbol, span));
            self.mode = Mode::Field;
            Ok(())
        } else if symbol == ':' && joined {
            let second = match self.stream.peek() {
                Some(TT1::Symbol { symbol: next, span: second, .. }) => if *next == ':' {
                    Some(*second)
                } else {
                    None
                },
                _ => None,
            };
            match second {
                Some(second) => {
                    self.drop_next();
                    self.put(TokenTree::Square { span: span.to(second) });
                    self.mode = Mode::Field;
                },
                None => {
                    self.put(TokenTree::symbol(symbol, span));
                },
            }
            Ok(())
        } else if symbol == ';' || (symbol == ',' && self.start_mode == Mode::Annotation) {
            self.put(TokenTree::symbol(symbol, span));
            self.mode = self.start_mode;
            Ok(())
        } else {
            self.put(TokenTree::symbol(symbol, span));
            Ok(())
        }
    }

    /// Reads a variable name, or several joined by `:`, from the front of
    /// the stream; the first one's span takes in the `$` at `dollar`.
    fn variable(&mut self, dollar: Span)
        ensures
            final(self).cfg() == old(self).cfg(),
            final(self).mode == old(self).mode,
            final(self).class_seen == old(self).class_seen,
            ({
                let (taken, out) = variable_name(
                    old(self).rest(),
                    0,
                    Some(dollar),
                    old(self).machine().out,
                );
                &&& 0 <= taken <= old(self).rest().len()
                &&& final(self).rest() == old(self).rest().skip(taken)
                &&& final(self).machine().out == out
            }),
    {
        parse_variable_name(Some(dollar), &mut self.stream, &mut self.output);
    }

    fn on_word(&mut self, span: Span, spacing: Spacing)
        ensures
            final(self).cfg() == old(self).cfg(),
            stepped_as(
                step_word(span, spacing, old(self).rest(), old(self).cfg(), old(self).machine()),
                Ok(()),
                old(self).rest(),
                final(self).rest(),
                final(self).machine(),
            ),
    {
        let ghost rest = self.rest();
        proof {
            assert(rest.skip(0) =~= rest);
        }
        match self.mode {
            Mode::Field | Mode::Annotation => {
                self.put(TokenTree::Field { span, ident: FileStr::from_span(span) });
                self.mode = Mode::Argument;
            },
            Mode::Function => {
                let whole = self.merge(span, spacing, true);
                let ident = FileStr::from_span(whole);
                if ident.reads(self.source, "function") {
                    self.put(TokenTree::FunctionKeyword { span: whole });
                } else if ident.reads(self.source, "class") {
                    self.put(TokenTree::ClassKeyword { span: whole });
                    self.class_seen = true;
                    self.mode = Mode::Field;
                } else if ident.reads(self.source, "return") {
                    self.put(TokenTree::ReturnKeyword { span: whole });
                    self.mode = Mode::Function;
                } else {
                    self.put(TokenTree::Cmdlet { span: whole, ident });
                    self.mode = Mode::Argument;
                }
            },
            Mode::Argument => {
                if FileStr::from_span(span).reads(self.source, "in") {
                    self.put(TokenTree::InKeyword { span });
                    self.mode = Mode::Function;
                } else {
                    let whole = self.merge(span, spacing, false);
                    self.put(TokenTree::Word { span: whole });
                }
            },
        }
    }

    /// Lets `span` grow over what touches it at the front of the stream: as
    /// a command's name does where `command` is set, else as an argument
    /// does.
    fn merge(&mut self, span: Span, spacing: Spacing, command: bool) -> (whole: Span)
        ensures
            final(self).cfg() == old(self).cfg(),
            final(self).machine() == old(self).machine(),
            ({
                let (taken, reached) = if command {
                    merge_cmdlet(old(self).rest(), 0, span, spacing)
                } else {
                    merge_argument(old(self).rest(), 0, span, spacing)
                };
                &&& 0 <= taken <= old(self).rest().len()
                &&& final(self).rest() == old(self).rest().skip(taken)
                &&& whole == reached
            }),
    {
        let ghost all = self.rest();
        let ghost goal = if command {
            merge_cmdlet(all, 0, span, spacing)
        } else {
            merge_argument(all, 0, span, spacing)
        };
        let ghost mut k: int = 0;
        let mut span = span;
        let mut spacing = spacing;
        proof {
            assert(all.skip(0) =~= all);
        }
        loop
            invariant_except_break
                self.cfg() == old(self).cfg(),
                self.machine() == old(self).machine(),
                all == old(self).rest(),
                0 <= k <= all.len(),
                self.rest() == all.skip(k),
                goal == (if command {
                    merge_cmdlet(all, k, span, spacing)
                } else {
                    merge_argument(all, k, span, spacing)
                }),
            ensures
                self.cfg() == old(self).cfg(),
                self.machine() == old(self).machine(),
                0 <= k <= all.len(),
                self.rest() == all.skip(k),
                goal == (k, span),
            decreases all.len() - k,
        {
            if spacing != Spacing::Joined {
                break ;
            }
            let next = match self.stream.peek() {
                Some(TT1::Word { span: next, spacing: then }) => Some((*next, *then)),
                Some(TT1::Symbol { span: next, symbol, spacing: then }) => {
                    let fits = if command {
                        *symbol == '-' || *symbol == '+' || *symbol == '.'
                    } else {
                        *symbol != '\n'
                    };
                    if fits {
                        Some((*next, *then))
                    } else {
                        None
                    }
                },
                _ => None,
            };
            proof {
                assert(self.rest().len() == self.stream@.len());
                if k < all.len() {
                    assert(self.rest()[0] == all[k]);
                }
            }
            match next {
                Some((next, then)) => {
                    span = span.to(next);
                    spacing = then;
                    self.drop_next();
                    proof {
                        assert(self.rest() =~= all.skip(k + 1));
                        k = k + 1;
                    }
                },
                None => {
                    break ;
                },
            }
        }
        span
    }

    fn on_group(&mut self, span: Span, interior: Vec<TT1>, delimiter: Delimiter) -> (r: Result<
        (),
        Error,
    >)
        ensures
            final(self).cfg() == old(self).cfg(),
            stepped_as(
                step(
                    RawTree::Group { span, interior: raw_trees(interior@), delimiter },
                    old(self).rest(),
                    old(self).cfg(),
                    old(self).machine(),
                ),
                unit_result(r),
                old(self).rest(),
                final(self).rest(),
                final(self).machine(),
            ),
        decreases raw_trees(interior@), 2int,
    {
        let ghost rest = self.rest();
        proof {
            assert(rest.skip(0) =~= rest);
        }
        let n = self.output.len();
        let at: Option<Span> = if n > 0 {
            match &self.output[n - 1] {
                TokenTree::Symbol { symbol, span: at } => if *symbol == '@' && at.end
                    == span.start {
                    Some(*at)
                } else {
                    None
                },
                _ => None,
            }
        } else {
            None
        };
        proof {
            if n > 0 {
                assert(trees(self.output@).last() == self.output@[n - 1]@);
            }
        }
        let mode = if at.is_some() {
            Mode::Field
        } else if self.class_seen && delimiter == Delimiter::Brace {
            Mode::Field
        } else if self.start_mode == Mode::Annotation {
            Mode::Annotation
        } else if delimiter == Delimiter::Bracket {
            Mode::Annotation
        } else {
            Mode::Function
        };
        let inner = match transform(interior, mode, delimiter, self.source) {
            Ok(inner) => inner,
            Err(e) => {
                return Err(e);
            },
        };
        match at {
            Some(at) => {
                let ghost before = self.output@;
                let _ = self.output.pop();
                proof {
                    assert(trees(self.output@) =~= trees(before).drop_last());
                }
                self.put(TokenTree::group(at.to(span), inner, delimiter, true));
            },
            None => {
                self.put(TokenTree::group(span, inner, delimiter, false));
            },
        }
        self.class_seen = false;
        Ok(())
    }

    fn on_string(&mut self, span: Span, subtrees: Vec<TT1>) -> (r: Result<(), Error>)
        ensures
            final(self).cfg() == old(self).cfg(),
            stepped_as(
                step(
                    RawTree::String { span, subtrees: raw_trees(subtrees@) },
                    old(self).rest(),
                    old(self).cfg(),
                    old(self).machine(),
                ),
                unit_result(r),
                old(self).rest(),
                final(self).rest(),
                final(self).machine(),
            ),
        decreases raw_trees(subtrees@), 2int,
    {
        let ghost rest = self.rest();
        let ghost all = raw_trees(subtrees@);
        let ghost cfg = self.cfg();
        let ghost goal = string_parts(all, cfg.delimiter, cfg.text, Seq::empty());
        proof {
            assert(rest.skip(0) =~= rest);
            assert(all.skip(0) =~= all);
            lemma_trees_empty();
        }
        let mut parts: Vec<TokenTree> = Vec::new();
        let mut left = Stream::new(subtrees);
        let ghost mut passed: int = 0;
        loop
            invariant_except_break
                self.cfg() == cfg,
                cfg == old(self).cfg(),
                self.rest() == rest,
                rest == old(self).rest(),
                self.machine() == old(self).machine(),
                all == raw_trees(subtrees@),
                0 <= passed <= all.len(),
                raw_trees(left@) == all.skip(passed),
                string_parts(raw_trees(left@), cfg.delimiter, cfg.text, trees(parts@)) == goal,
                goal == string_parts(
                    raw_trees(subtrees@),
                    old(self).cfg().delimiter,
                    old(self).cfg().text,
                    Seq::empty(),
                ),
            ensures
                self.cfg() == cfg,
                self.rest() == rest,
                self.machine() == old(self).machine(),
                goal == Ok::<Seq<Tree>, Failure>(trees(parts@)),
            decreases all.len() - passed,
        {
            let ghost before = raw_trees(left@);
            let part = match left.pop_front() {
                Some(part) => part,
                None => {
                    break ;
                },
            };
            proof {
                assert(part@ == all[passed]);
                assert(raw_trees(left@) =~= before.drop_first());
                assert(raw_trees(left@) =~= all.skip(passed + 1));
                passed = passed + 1;
            }
            let tt = match string_piece(part, self.delimiter, self.source) {
                Ok(tt) => tt,
                Err(e) => {
                    return Err(e);
                },
            };
            proof {
                lemma_trees_push(parts@, tt);
            }
            parts.push(tt);
        }
        self.put(TokenTree::string(span, parts));
        self.mode = Mode::Argument;
        Ok(())
    }
}

/// Turns one interpolation of a string into what it stands for; `around` is
/// the delimiter of the stream that the string stands in.
fn string_piece(part: TT1, around: Delimiter, source: &str) -> (r: Result<TokenTree, Error>)
    ensures
        match string_part(part@, around, source@) {
            Ok(tt) => r matches Ok(got) && got@ == tt,
            Err(f) => r matches Err(e) && e@ == f,
        },
    decreases part@, 0int,
{
    match part {
        TT1::Group { span, interior, delimiter } => {
            proof {
                lemma_raw_nested(span, interior, delimiter);
            }
            match delimiter {
                Delimiter::Brace => {
                    match transform(interior, Mode::Field, Delimiter::Brace, source) {
                        Ok(inner) => Ok(
                            TokenTree::group(span, inner, Delimiter::Parenthesis, false),
                        ),
                        Err(e) => Err(e),
                    }
                },
                Delimiter::Parenthesis => {
                    match transform(interior, Mode::Function, Delimiter::Parenthesis, source) {
                        Ok(inner) => Ok(TokenTree::interpolation(span, inner, around)),
                        Err(e) => Err(e),
                    }
                },
                Delimiter::Bracket => span.start.error(
                    String::from_str("ICE: Weird subtree in string"),
                ),
            }
        },
        TT1::Word { span, .. } => Ok(
            TokenTree::Variable { span, ident: FileStr::from_span(span) },
        ),
        other => other.span().start.error(String::from_str("ICE: Weird subtree in string")),
    }
}

/// Parses a single variable name or `Using:Variable` into a stream of tts.
pub fn parse_variable_name(
    dollar_span: Option<Span>,
    stream: &mut Stream<TT1>,
    output: &mut Vec<TokenTree>,
)
    ensures
        ({
            let (taken, out) = variable_name(
                raw_trees(old(stream)@),
                0,
                dollar_span,
                trees(old(output)@),
            );
            &&& 0 <= taken <= old(stream)@.len()
            &&& raw_trees(final(stream)@) == raw_trees(old(stream)@).skip(taken)
            &&& trees(final(output)@) == out
        }),
{
    let ghost all = raw_trees(stream@);
    let ghost goal = variable_name(all, 0, dollar_span, trees(output@));
    let ghost mut k: int = 0;
    let mut dollar_span = dollar_span;
    proof {
        assert(all.skip(0) =~= all);
    }
    loop
        invariant_except_break
            all == raw_trees(old(stream)@),
            0 <= k <= all.len(),
            raw_trees(stream@) == all.skip(k),
            goal == variable_name(all, k, dollar_span, trees(output@)),
        ensures
            0 <= k <= all.len(),
            raw_trees(stream@) == all.skip(k),
            goal == (k, trees(output@)),
        decreases all.len() - k,
    {
        let word = match stream.peek() {
            Some(TT1::Word { span, spacing }) => Some((*span, *spacing)),
            _ => None,
        };
        proof {
            if k < all.len() {
                assert(raw_trees(stream@)[0] == all[k]);
            }
        }
        assert(raw_trees(stream@).len() == stream@.len());
        let (span, spacing) = match word {
            Some(word) => word,
            None => {
                break ;
            },
        };
        let ghost prev = stream@;
        let _ = stream.pop_front();
        proof {
            assert(raw_trees(stream@) =~= raw_trees(prev).drop_first());
            assert(raw_trees(stream@) =~= all.skip(k + 1));
            assert(raw_trees(stream@).len() == stream@.len());
            if k + 1 < all.len() {
                assert(raw_trees(stream@)[0] == all[k + 1]);
            }
        }
        let span_with_dollar = match dollar_span {
            Some(dollar) => dollar.to(span),
            None => span,
        };
        dollar_span = None;
        let tt = TokenTree::Variable { span: span_with_dollar, ident: FileStr::from_span(span) };
        proof {
            lemma_trees_push(output@, tt);
        }
        output.push(tt);
        if spacing == Spacing::Alone {
            proof {
                k = k + 1;
            }
            break ;
        }
        let colon = match stream.peek() {
            Some(TT1::Symbol { symbol, span, spacing }) => if *symbol == ':' && *spacing
                == Spacing::Joined {
                Some(*span)
            } else {
                None
            },
            _ => None,
        };
        match colon {
            Some(colon) => {
                let ghost prev = stream@;
                let _ = stream.pop_front();
                let tt = TokenTree::symbol(':', colon);
                proof {
                    lemma_trees_push(output@, tt);
                    assert(raw_trees(stream@) =~= raw_trees(prev).drop_first());
                    assert(raw_trees(stream@) =~= all.skip(k + 2));
                    k = k + 2;
                }
                output.push(tt);
            },
            None => {
                proof {
                    k = k + 1;
                }
                break ;
            },
        }
    }
}

} // verus!
