//! The functions of other crates, and of the standard library, that the
//! library calls without a proof of what they do. Each contract here is
//! believed, not verified.

use vstd::prelude::*;
use crate::text::{byte_len, on_boundary};

verus! {

/// What the regular expression `pattern` finds in `text`, as the `regex`
/// crate reads patterns: `None` where `pattern` does not match `text` (or is
/// no pattern at all), else the place of capture group number `group` in
/// `text`, as byte offsets, if that group took part in the match.
pub uninterp spec fn regex_group(pattern: Seq<char>, text: Seq<char>, group: nat) -> Option<
    Option<(usize, usize)>,
>;

/// The case-folded form of `name`, as the `unicase` crate computes it: two
/// names are the same but for case when their folded forms are equal.
pub uninterp spec fn folded(name: Seq<char>) -> Seq<char>;

/// `text` in lower case, as `str::to_lowercase` gives it.
pub uninterp spec fn lowercased(text: Seq<char>) -> Seq<char>;

/// `regex::Regex`, a compiled regular expression. Nothing of what it holds
/// is seen here.
#[verifier::external_type_specification]
#[verifier::external_body]
pub struct ExRegex(regex::Regex);

/// A regular expression ready for use: its text, and what became of the
/// text when it was compiled. Only `Pattern::new` makes one, and nothing
/// changes one, so that what was compiled always belongs to the text.
pub struct Pattern {
    text: String,
    compiled: Option<regex::Regex>,
}

impl Pattern {
    /// The text of the pattern.
    pub closed spec fn view(&self) -> Seq<char> {
        self.text@
    }

    /// `regex::Regex::new` on `pattern`; the pattern keeps its text beside
    /// what was compiled, and nothing was compiled where the text is no
    /// regular expression.
    #[verifier::external_body]
    pub(crate) fn new(pattern: &str) -> (p: Pattern)
        ensures
            p@ == pattern@,
    {
        Pattern { text: pattern.to_owned(), compiled: regex::Regex::new(pattern).ok() }
    }

    /// `Regex::captures` on `text` and `Captures::get` on `group`, with
    /// `Match::start` and `Match::end` of what was found, all on what was
    /// compiled from the text of this pattern. The offsets of a match do
    /// not exceed the text, come in order and fall between characters.
    #[verifier::external_body]
    pub(crate) fn capture(&self, text: &str, group: usize) -> (r: Option<Option<(usize, usize)>>)
        ensures
            r == regex_group(self@, text@, group as nat),
            r matches Some(Some((start, end))) ==> start <= end <= byte_len(text@) && on_boundary(
                text@,
                start as int,
            ) && on_boundary(text@, end as int),
    {
        let found = match &self.compiled {
            Some(re) => re.captures(text),
            None => None,
        };
        match found {
            Some(groups) => match groups.get(group) {
                Some(m) => Some(Some((m.start(), m.end()))),
                None => Some(None),
            },
            None => None,
        }
    }
}

/// `unicase::UniCase::new` on `name`, then `UniCase::to_folded_case`.
#[verifier::external_body]
pub(crate) fn fold_case(name: &str) -> (r: String)
    ensures
        r@ == folded(name@),
{
    unicase::UniCase::new(name).to_folded_case()
}

/// `str::to_lowercase`.
#[verifier::external_body]
pub(crate) fn to_lowercase(text: &str) -> (r: String)
    ensures
        r@ == lowercased(text@),
{
    text.to_lowercase()
}

/// `String::push` appends the character to the end of the string.
pub assume_specification[ std::string::String::push ](s: &mut std::string::String, ch: char)
    ensures
        final(s)@ == old(s)@.push(ch),
;

} // verus!
