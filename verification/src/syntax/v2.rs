//! Parsing is done in stages:
//!
//! 1. Parsing source into dumb token trees: words, symbols, numbers, strings
//!    and groups. Comments are stripped at this stage. This representation
//!    also contains explicit newlines.
//! 2. Converting to a little bit smarter token trees: inserting semicolons
//!    and handling line continuations, joining adjacent tokens into command
//!    names, and converting known words to keywords.

pub mod muncher;
pub mod stage1;
pub mod stream;
pub mod stage2;

use vstd::prelude::*;
use crate::foreign::{lowercased, to_lowercase};
use crate::text::{byte_len, str_equal};
use crate::syntax::v2::muncher::Location;
use crate::syntax::v2::stage1::{lex, Delimiter};
use crate::syntax::v2::stage2::{stream_result, transformed, Mode, Tree};

verus! {

/// Why a file could not be parsed, and where.
#[derive(Debug)]
pub struct Error {
    pub what: String,
    pub where_: Location,
}

/// What an [`Error`] holds, as plain values.
pub struct Failure {
    pub what: Seq<char>,
    pub where_: Location,
}

impl View for Error {
    type V = Failure;

    open spec fn view(&self) -> Failure {
        Failure { what: self.what@, where_: self.where_ }
    }
}

impl Location {
    /// The error that says `msg` about this location.
    pub fn error<T>(self, msg: String) -> (r: Result<T, Error>)
        ensures
            r matches Err(e) && e@ == (Failure { what: msg@, where_: self }),
    {
        Err(Error { what: msg, where_: self })
    }
}

/// The string that holds `c` and nothing else.
pub(crate) fn char_string(c: char) -> (s: String)
    ensures
        s@ == seq![c],
{
    let mut s = String::new();
    s.push(c);
    assert(s@ =~= seq![c]);
    s
}

/// The token trees that a whole text stands for: those of the first stage,
/// transformed by the second.
pub open spec fn parsed(text: Seq<char>) -> Result<Seq<Tree>, Failure> {
    match lex(text) {
        Err(e) => Err(e),
        Ok(raw) => transformed(raw, Mode::Function, Delimiter::Brace, text),
    }
}

/// Parses a source text into token trees. The first failure of either stage
/// ends the parse.
pub fn parse(source: &str) -> (r: Result<Vec<stage2::TokenTree>, Error>)
    requires
        byte_len(source@) <= u32::MAX,
    ensures
        stream_result(r) == parsed(source@),
{
    match stage1::parse(source) {
        Err(e) => Err(e),
        Ok(tts1) => stage2::TokenTree::from_stage1(tts1, source),
    }
}

/// True of the words of the language that are written like commands.
pub open spec fn is_keyword(lower: Seq<char>) -> bool {
    ||| lower == "throw"@
    ||| lower == "try"@
    ||| lower == "catch"@
    ||| lower == "finally"@
    ||| lower == "if"@
    ||| lower == "elseif"@
    ||| lower == "else"@
    ||| lower == "foreach"@
    ||| lower == "do"@
    ||| lower == "while"@
    ||| lower == "begin"@
    ||| lower == "process"@
    ||| lower == "end"@
    ||| lower == "exit"@
    ||| lower == "continue"@
    ||| lower == "break"@
    ||| lower == "return"@
    ||| lower == "function"@
    ||| lower == "in"@
    ||| lower == "param"@
}

/// Whether `lower`, a name in lower case, is a keyword.
pub fn keyword(lower: &str) -> (r: bool)
    ensures
        r == is_keyword(lower@),
{
    str_equal(lower, "throw") || str_equal(lower, "try") || str_equal(lower, "catch") || str_equal(
        lower,
        "finally",
    ) || str_equal(lower, "if") || str_equal(lower, "elseif") || str_equal(lower, "else")
        || str_equal(lower, "foreach") || str_equal(lower, "do") || str_equal(lower, "while")
        || str_equal(lower, "begin") || str_equal(lower, "process") || str_equal(lower, "end")
        || str_equal(lower, "exit") || str_equal(lower, "continue") || str_equal(lower, "break")
        || str_equal(lower, "return") || str_equal(lower, "function") || str_equal(lower, "in")
        || str_equal(lower, "param")
}

/// Whether `ident` is a keyword, whatever the case of its letters.
pub fn ident_is_keyword(ident: &str) -> (r: bool)
    ensures
        r == is_keyword(lowercased(ident@)),
{
    let lower = to_lowercase(ident);
    keyword(lower.as_str())
}

} // verus!
