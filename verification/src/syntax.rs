//! Parsing of a source file into definitions, usages, imports and test cases.

pub mod v2;

use vstd::prelude::*;
use vstd::string::*;
use crate::foreign::{lowercased, regex_group, Pattern};
use crate::text::{
    byte_len, chars_of, ends_with, has_suffix, lemma_cut_len, lemma_lines_inside,
    lemma_offset_boundary, lemma_offset_monotone, line_ranges, line_ranges_of, lines_from,
    on_boundary, string_of, substring, text_between, LineRange,
};
use crate::syntax::v2::{ident_is_keyword, is_keyword, parsed, Failure};
use crate::syntax::v2::muncher::{clip_u16, Location};
use crate::syntax::v2::stage1::Delimiter;
use crate::syntax::v2::stage2::{cut, trees, TokenTree, Tree};

pub use crate::syntax::v2::Error;
pub use crate::syntax::v2::muncher::Span;

verus! {

/// Parsed source file
#[derive(Debug)]
pub struct File {
    pub imports: Vec<Import>,
    pub definitions: Vec<Definition>,
    pub usages: Vec<Usage>,
    pub testcases: Vec<Testcase>,
}

/// A `.` import
#[derive(Debug, Clone, Eq, PartialEq)]
pub struct Import {
    pub span: Span,
    pub importee: Importee,
}

/// An importee pointed by `.` import
#[derive(Debug, Clone, Eq, PartialEq)]
pub enum Importee {
    /// `$PSScriptRoot/...`: the path behind it, with `/` between its parts
    /// and none at its ends
    Relative(String),
    /// Points to system under test, namely `$here/$sut`
    HereSut,
    Unrecognized(String),
}

/// An item – function, class, etc.
#[derive(Debug, Copy, Clone, Eq, PartialEq, Ord, PartialOrd)]
pub struct Item<S> {
    pub name: S,
    pub kind: ItemKind,
}

#[derive(Debug, Copy, Clone, Eq, PartialEq, Ord, PartialOrd, Structural)]
pub enum ItemKind {
    Function,
    Class,
    /// Pseudoitems are items that are propagated similarly to normal
    /// definitions, but they're created by some part of analysis. Eg. we
    /// have "uses strict mode" pseudoitem, that gets injected on
    /// "Set-StrictMode" and propagates to downstream files.
    Pseudoitem,
}

/// An item as a plain value.
pub struct Named {
    pub name: Seq<char>,
    pub kind: ItemKind,
}

/// An item at the place where it was found, as a plain value.
pub struct Occurrence {
    pub span: Span,
    pub item: Named,
}

impl<S> Item<S> {
    pub fn function(name: S) -> (item: Self)
        ensures
            item.name == name,
            item.kind == ItemKind::Function,
    {
        Item { name, kind: ItemKind::Function }
    }

    pub fn class(name: S) -> (item: Self)
        ensures
            item.name == name,
            item.kind == ItemKind::Class,
    {
        Item { name, kind: ItemKind::Class }
    }

    pub fn pseudo(name: S) -> (item: Self)
        ensures
            item.name == name,
            item.kind == ItemKind::Pseudoitem,
    {
        Item { name, kind: ItemKind::Pseudoitem }
    }

    pub fn is_function(&self) -> (r: bool)
        ensures
            r == (self.kind == ItemKind::Function),
    {
        self.kind == ItemKind::Function
    }

    pub fn is_class(&self) -> (r: bool)
        ensures
            r == (self.kind == ItemKind::Class),
    {
        self.kind == ItemKind::Class
    }
}

impl Item<String> {
    pub open spec fn view(&self) -> Named {
        Named { name: self.name@, kind: self.kind }
    }

    pub fn as_ref(&self) -> (item: Item<&str>)
        ensures
            item.name@ == self.name@,
            item.kind == self.kind,
    {
        Item { name: self.name.as_str(), kind: self.kind }
    }

    /// Whether the two items have the same kind and the same name, letter
    /// for letter.
    pub fn same(&self, other: &Item<String>) -> (r: bool)
        ensures
            r == (self@ == other@),
    {
        self.kind == other.kind && self.name == other.name
    }
}

/// Definition of an item
#[derive(Debug)]
pub struct Definition {
    pub span: Span,
    pub item: Item<String>,
}

/// Function/commandlet call / usage of a class
#[derive(Debug)]
pub struct Usage {
    pub span: Span,
    pub item: Item<String>,
}

/// `It` testcase
#[derive(Debug)]
pub struct Testcase {
    pub span: Span,
    pub name: String,
}

impl Definition {
    pub open spec fn view(&self) -> Occurrence {
        Occurrence { span: self.span, item: self.item@ }
    }
}

impl Usage {
    pub open spec fn view(&self) -> Occurrence {
        Occurrence { span: self.span, item: self.item@ }
    }

    pub fn name(&self) -> (name: &str)
        ensures
            name@ == self@.item.name,
    {
        self.item.name.as_str()
    }
}

/// The definitions of a list as plain values.
pub open spec fn definitions_of(list: Seq<Definition>) -> Seq<Occurrence> {
    list.map_values(|d: Definition| d@)
}

/// The usages of a list as plain values.
pub open spec fn usages_of(list: Seq<Usage>) -> Seq<Occurrence> {
    list.map_values(|u: Usage| u@)
}

/// The definitions and usages gathered from token trees.
pub struct Harvest {
    pub definitions: Seq<Occurrence>,
    pub usages: Seq<Occurrence>,
}

impl Harvest {
    pub open spec fn define(self, name: Seq<char>, kind: ItemKind, span: Span) -> Harvest {
        Harvest {
            definitions: self.definitions.push(Occurrence { span, item: Named { name, kind } }),
            usages: self.usages,
        }
    }

    pub open spec fn mention(self, name: Seq<char>, kind: ItemKind, span: Span) -> Harvest {
        Harvest {
            definitions: self.definitions,
            usages: self.usages.push(Occurrence { span, item: Named { name, kind } }),
        }
    }
}

/// True when a command of this name counts as a usage: it is no keyword,
/// whatever its case, and names no `.exe` file.
pub open spec fn counts_as_usage(name: Seq<char>) -> bool {
    !is_keyword(lowercased(name)) && !has_suffix(name, ".exe"@)
}

/// The commands of one stream from `i` on, nested streams left aside: a
/// command right behind the `function` keyword is defined there, any other
/// is used, if its name counts.
pub open spec fn scan_commands(
    stream: Seq<Tree>,
    i: int,
    after_function: bool,
    text: Seq<char>,
    h: Harvest,
) -> Harvest
    decreases stream.len() - i,
{
    if 0 <= i < stream.len() {
        let found = match stream[i] {
            Tree::Cmdlet { span, ident } => {
                let name = cut(text, ident);
                if after_function {
                    h.define(name, ItemKind::Function, span)
                } else if counts_as_usage(name) {
                    h.mention(name, ItemKind::Function, span)
                } else {
                    h
                }
            },
            _ => h,
        };
        scan_commands(stream, i + 1, stream[i] is FunctionKeyword, text, found)
    } else {
        h
    }
}

/// The commands of a stream, then those of the streams nested in it, in
/// the order in which they stand.
pub open spec fn walk_commands(stream: Seq<Tree>, text: Seq<char>, h: Harvest) -> Harvest
    decreases stream, 1int, 0int,
{
    nested_commands(stream, 0, text, scan_commands(stream, 0, false, text, h))
}

/// The commands of the streams nested in `stream` from `i` on.
pub open spec fn nested_commands(stream: Seq<Tree>, i: int, text: Seq<char>, h: Harvest) -> Harvest
    decreases stream, 0int, stream.len() - i,
{
    if 0 <= i < stream.len() {
        let found = match stream[i] {
            Tree::Group { interior, .. } => walk_commands(interior, text, h),
            Tree::String { subtrees, .. } => walk_commands(subtrees, text, h),
            _ => h,
        };
        nested_commands(stream, i + 1, text, found)
    } else {
        h
    }
}

/// The classes defined in one stream from `i` on, nested streams left
/// aside: a field right behind the `class` keyword.
pub open spec fn scan_classes(stream: Seq<Tree>, i: int, text: Seq<char>, h: Harvest) -> Harvest
    decreases stream.len() - i,
{
    if 0 <= i && i + 1 < stream.len() {
        let found = match stream[i + 1] {
            Tree::Field { span, ident } => if stream[i] is ClassKeyword {
                h.define(cut(text, ident), ItemKind::Class, span)
            } else {
                h
            },
            _ => h,
        };
        scan_classes(stream, i + 1, text, found)
    } else {
        h
    }
}

/// The class that a stream uses by itself: a single field in brackets.
pub open spec fn bracketed_class(
    stream: Seq<Tree>,
    delimiter: Option<Delimiter>,
    text: Seq<char>,
    h: Harvest,
) -> Harvest {
    if stream.len() == 1 && delimiter == Some(Delimiter::Bracket) {
        match stream[0] {
            Tree::Field { span, ident } => h.mention(cut(text, ident), ItemKind::Class, span),
            _ => h,
        }
    } else {
        h
    }
}

/// The classes of a stream that stands in `delimiter`, then those of the
/// streams nested in it.
pub open spec fn walk_classes(
    stream: Seq<Tree>,
    delimiter: Option<Delimiter>,
    text: Seq<char>,
    h: Harvest,
) -> Harvest
    decreases stream, 1int, 0int,
{
    nested_classes(
        stream,
        0,
        text,
        scan_classes(stream, 0, text, bracketed_class(stream, delimiter, text, h)),
    )
}

/// The classes of the streams nested in `stream` from `i` on. A group is
/// read with its delimiter, the interpolations of a string with none.
pub open spec fn nested_classes(stream: Seq<Tree>, i: int, text: Seq<char>, h: Harvest) -> Harvest
    decreases stream, 0int, stream.len() - i,
{
    if 0 <= i < stream.len() {
        let found = match stream[i] {
            Tree::Group { interior, delimiter, .. } => walk_classes(
                interior,
                Some(delimiter),
                text,
                h,
            ),
            Tree::String { subtrees, .. } => walk_classes(subtrees, None, text, h),
            _ => h,
        };
        nested_classes(stream, i + 1, text, found)
    } else {
        h
    }
}

/// The definitions and usages of a whole file: functions first, then
/// classes.
pub open spec fn harvest(stream: Seq<Tree>, text: Seq<char>) -> Harvest {
    walk_classes(
        stream,
        None,
        text,
        walk_commands(stream, text, Harvest { definitions: Seq::empty(), usages: Seq::empty() }),
    )
}

/// What two lists hold, as a harvest.
pub open spec fn gathered(definitions: Seq<Definition>, usages: Seq<Usage>) -> Harvest {
    Harvest { definitions: definitions_of(definitions), usages: usages_of(usages) }
}

/// Adds the definition of `name` at `span`.
fn define(definitions: &mut Vec<Definition>, name: String, kind: ItemKind, span: Span)
    ensures
        definitions_of(final(definitions)@) == definitions_of(old(definitions)@).push(
            Occurrence { span, item: Named { name: name@, kind } },
        ),
{
    let definition = Definition { span, item: Item { name, kind } };
    assert(definitions_of(definitions@.push(definition)) =~= definitions_of(definitions@).push(
        definition@,
    ));
    definitions.push(definition);
}

/// Adds the usage of `name` at `span`.
fn mention(usages: &mut Vec<Usage>, name: String, kind: ItemKind, span: Span)
    ensures
        usages_of(final(usages)@) == usages_of(old(usages)@).push(
            Occurrence { span, item: Named { name: name@, kind } },
        ),
{
    let usage = Usage { span, item: Item { name, kind } };
    assert(usages_of(usages@.push(usage)) =~= usages_of(usages@).push(usage@));
    usages.push(usage);
}

/// Whether a command of this name counts as a usage.
pub fn is_usage_name(name: &str) -> (r: bool)
    ensures
        r == counts_as_usage(name@),
{
    if ident_is_keyword(name) {
        return false;
    }
    let chars = chars_of(name);
    let suffix = chars_of(".exe");
    !ends_with(&chars, &suffix)
}

/// Gathers the commands of one stream, nested streams left aside.
fn scan_commands_of(
    stream: &Vec<TokenTree>,
    source: &str,
    definitions: &mut Vec<Definition>,
    usages: &mut Vec<Usage>,
)
    ensures
        gathered(final(definitions)@, final(usages)@) == scan_commands(
            trees(stream@),
            0,
            false,
            source@,
            gathered(old(definitions)@, old(usages)@),
        ),
{
    let ghost all = trees(stream@);
    let ghost goal = scan_commands(all, 0, false, source@, gathered(definitions@, usages@));
    let mut is_function_definition = false;
    let mut i: usize = 0;
    while i < stream.len()
        invariant
            all == trees(stream@),
            i <= stream@.len(),
            scan_commands(
                all,
                i as int,
                is_function_definition,
                source@,
                gathered(definitions@, usages@),
            ) == goal,
        decreases stream@.len() - i,
    {
        assert(all[i as int] == stream@[i as int]@);
        match &stream[i] {
            TokenTree::Cmdlet { span, ident } => {
                let name = ident.cut_or_nothing(source).to_owned();
                if is_function_definition {
                    define(definitions, name, ItemKind::Function, *span);
                } else if is_usage_name(name.as_str()) {
                    mention(usages, name, ItemKind::Function, *span);
                }
            },
            _ => {},
        }
        is_function_definition = match &stream[i] {
            TokenTree::FunctionKeyword { .. } => true,
            _ => false,
        };
        i = i + 1;
    }
}

/// Gathers the commands of a stream, then those of the streams nested in
/// it.
fn walk_commands_of(
    stream: &Vec<TokenTree>,
    source: &str,
    definitions: &mut Vec<Definition>,
    usages: &mut Vec<Usage>,
)
    ensures
        gathered(final(definitions)@, final(usages)@) == walk_commands(
            trees(stream@),
            source@,
            gathered(old(definitions)@, old(usages)@),
        ),
    decreases trees(stream@), 1int, 0int,
{
    let ghost all = trees(stream@);
    let ghost goal = walk_commands(all, source@, gathered(definitions@, usages@));
    scan_commands_of(stream, source, definitions, usages);
    let mut i: usize = 0;
    while i < stream.len()
        invariant
            all == trees(stream@),
            i <= stream@.len(),
            nested_commands(all, i as int, source@, gathered(definitions@, usages@)) == goal,
        decreases stream@.len() - i,
    {
        assert(all[i as int] == stream@[i as int]@);
        match &stream[i] {
            TokenTree::Group { interior, .. } => {
                assert(all[i as int]->Group_interior =~= trees(interior@));
                walk_commands_of(interior, source, definitions, usages);
            },
            TokenTree::String { subtrees, .. } => {
                assert(all[i as int]->String_subtrees =~= trees(subtrees@));
                walk_commands_of(subtrees, source, definitions, usages);
            },
            _ => {},
        }
        i = i + 1;
    }
}

/// Gathers the classes defined in one stream, nested streams left aside.
fn scan_classes_of(stream: &Vec<TokenTree>, source: &str, definitions: &mut Vec<Definition>)
    ensures
        forall|usages: Seq<Usage>|
            #![trigger gathered(old(definitions)@, usages)]
            gathered(final(definitions)@, usages) == scan_classes(
                trees(stream@),
                0,
                source@,
                gathered(old(definitions)@, usages),
            ),
{
    let ghost all = trees(stream@);
    let ghost before = definitions@;
    let mut i: usize = 0;
    if stream.len() < 2 {
        return ;
    }
    while i < stream.len() - 1
        invariant
            all == trees(stream@),
            i + 1 <= stream@.len(),
            stream@.len() >= 2,
            forall|usages: Seq<Usage>|
                #![trigger gathered(before, usages)]
                scan_classes(all, i as int, source@, gathered(definitions@, usages))
                    == scan_classes(all, 0, source@, gathered(before, usages)),
        decreases stream@.len() - i,
    {
        assert(all[i as int] == stream@[i as int]@);
        assert(all[i + 1] == stream@[i + 1]@);
        let after_class = match &stream[i] {
            TokenTree::ClassKeyword { .. } => true,
            _ => false,
        };
        match &stream[i + 1] {
            TokenTree::Field { span, ident } => {
                if after_class {
                    let name = ident.cut_or_nothing(source).to_owned();
                    define(definitions, name, ItemKind::Class, *span);
                }
            },
            _ => {},
        }
        i = i + 1;
    }
}

/// Gathers the classes of a stream that stands in `delimiter`, then those
/// of the streams nested in it.
fn walk_classes_of(
    stream: &Vec<TokenTree>,
    delimiter: Option<Delimiter>,
    source: &str,
    definitions: &mut Vec<Definition>,
    usages: &mut Vec<Usage>,
)
    ensures
        gathered(final(definitions)@, final(usages)@) == walk_classes(
            trees(stream@),
            delimiter,
            source@,
            gathered(old(definitions)@, old(usages)@),
        ),
    decreases trees(stream@), 1int, 0int,
{
    let ghost all = trees(stream@);
    let ghost goal = walk_classes(all, delimiter, source@, gathered(definitions@, usages@));
    if stream.len() == 1 {
        assert(all[0] == stream@[0]@);
        let bracketed = match delimiter {
            Some(Delimiter::Bracket) => true,
            _ => false,
        };
        match &stream[0] {
            TokenTree::Field { span, ident } => {
                if bracketed {
                    let name = ident.cut_or_nothing(source).to_owned();
                    mention(usages, name, ItemKind::Class, *span);
                }
            },
            _ => {},
        }
    }
    scan_classes_of(stream, source, definitions);
    let mut i: usize = 0;
    while i < stream.len()
        invariant
            all == trees(stream@),
            i <= stream@.len(),
            nested_classes(all, i as int, source@, gathered(definitions@, usages@)) == goal,
        decreases stream@.len() - i,
    {
        assert(all[i as int] == stream@[i as int]@);
        match &stream[i] {
            TokenTree::Group { interior, delimiter, .. } => {
                assert(all[i as int]->Group_interior =~= trees(interior@));
                walk_classes_of(interior, Some(*delimiter), source, definitions, usages);
            },
            TokenTree::String { subtrees, .. } => {
                assert(all[i as int]->String_subtrees =~= trees(subtrees@));
                walk_classes_of(subtrees, None, source, definitions, usages);
            },
            _ => {},
        }
        i = i + 1;
    }
}

/// A line that imports: a dot, white space, what is imported, and maybe a
/// comment.
pub const IMPORT: &'static str = r"(?ix) ^ \s* \. \s+ (.*?) \s* (\#.*)? $";

/// What is imported lies under the directory of the importing file.
pub const IMPORT_RELATIVE: &'static str = r"(?ix) ^ \$ PSScriptRoot (.*?) $";

/// What is imported is the file that a test file tests.
pub const IMPORT_HERESUT: &'static str = r#"(?ix) ^ ["]? \$ here [/\\] \$ sut ["]? $"#;

/// A line that opens a test case: `It`, white space, and a name in quotes.
pub const TESTCASE: &'static str = r#"(?ix) ^ \s* It \s+ " ([^"]*) " "#;

/// An importee as a plain value.
pub enum Target {
    Relative(Seq<char>),
    HereSut,
    Unrecognized(Seq<char>),
}

/// An import as a plain value.
pub struct ImportView {
    pub span: Span,
    pub importee: Target,
}

/// A test case as a plain value.
pub struct TestcaseView {
    pub span: Span,
    pub name: Seq<char>,
}

/// A parsed file as a plain value.
pub struct FileView {
    pub imports: Seq<ImportView>,
    pub definitions: Seq<Occurrence>,
    pub usages: Seq<Occurrence>,
    pub testcases: Seq<TestcaseView>,
}

impl Importee {
    pub open spec fn view(&self) -> Target {
        match self {
            Importee::Relative(path) => Target::Relative(path@),
            Importee::HereSut => Target::HereSut,
            Importee::Unrecognized(raw) => Target::Unrecognized(raw@),
        }
    }
}

impl Import {
    pub open spec fn view(&self) -> ImportView {
        ImportView { span: self.span, importee: self.importee@ }
    }
}

impl Testcase {
    pub open spec fn view(&self) -> TestcaseView {
        TestcaseView { span: self.span, name: self.name@ }
    }
}

impl File {
    pub open spec fn view(&self) -> FileView {
        FileView {
            imports: self.imports@.map_values(|i: Import| i@),
            definitions: definitions_of(self.definitions@),
            usages: usages_of(self.usages@),
            testcases: self.testcases@.map_values(|t: Testcase| t@),
        }
    }
}

/// The span of the bytes from `from` up to `to` of the line `line`, which
/// has the number `line_no`: columns count bytes from 1 on and stay at the
/// largest value of their type where they do not fit it.
pub open spec fn fragment_span(line_no: u32, line: LineRange, from: usize, to: usize) -> Span {
    Span {
        start: Location {
            byte: (line.start + from) as u32,
            line: line_no,
            col: clip_u16((from + 1) as nat),
        },
        end: Location {
            byte: (line.start + to) as u32,
            line: line_no,
            col: clip_u16((to + 1) as nat),
        },
    }
}

impl Span {
    /// Creates the span of a fragment of a line.
    ///
    /// Line number is 1-indexed.
    pub fn from_fragment(line_no: u32, line: LineRange, from: usize, to: usize) -> (s: Span)
        requires
            from <= to,
            line.start + to <= u32::MAX,
        ensures
            s == fragment_span(line_no, line, from, to),
    {
        Span {
            start: Location { byte: (line.start + from) as u32, line: line_no, col: column(from) },
            end: Location { byte: (line.start + to) as u32, line: line_no, col: column(to) },
        }
    }
}

/// The column of the byte that `before` bytes of its line precede.
fn column(before: usize) -> (col: u16)
    ensures
        col == clip_u16((before + 1) as nat),
{
    if before >= 0xfffe {
        0xffff
    } else {
        (before + 1) as u16
    }
}

/// The position of the first character of `s` from `i` on that is no `/`.
pub open spec fn lead(s: Seq<char>, i: int) -> int
    decreases s.len() - i,
{
    if 0 <= i < s.len() && s[i] == '/' {
        lead(s, i + 1)
    } else {
        i
    }
}

/// The position behind the last character of `s` before `j` that is no `/`.
pub open spec fn trail(s: Seq<char>, j: int) -> int
    decreases j,
{
    if 0 < j <= s.len() && s[j - 1] == '/' {
        trail(s, j - 1)
    } else {
        j
    }
}

/// `c`, or `/` in place of a backslash.
pub open spec fn forward(c: char) -> char {
    if c == '\\' {
        '/'
    } else {
        c
    }
}

/// The path that an import names behind `$PSScriptRoot`: each backslash
/// becomes a `/`, and the `/` at both ends are taken away.
pub open spec fn relative_path(raw: Seq<char>) -> Seq<char> {
    let s = raw.map_values(|c: char| forward(c));
    let from = lead(s, 0);
    let to = trail(s, s.len() as int);
    if from <= to {
        s.subrange(from, to)
    } else {
        Seq::empty()
    }
}

/// The path that an import names behind `$PSScriptRoot`.
pub fn relative(raw: &str) -> (path: String)
    ensures
        path@ == relative_path(raw@),
{
    let chars = chars_of(raw);
    let n = chars.len();
    let mut s: Vec<char> = Vec::new();
    let mut i: usize = 0;
    while i < n
        invariant
            n == chars@.len(),
            i <= n,
            s@ == chars@.take(i as int).map_values(|c: char| forward(c)),
        decreases n - i,
    {
        let c = chars[i];
        let f = if c == '\\' {
            '/'
        } else {
            c
        };
        assert(chars@.take(i + 1).map_values(|c: char| forward(c)) =~= chars@.take(
            i as int,
        ).map_values(|c: char| forward(c)).push(forward(c)));
        s.push(f);
        i = i + 1;
    }
    assert(chars@.take(n as int) =~= chars@);
    let mut from: usize = 0;
    while from < n && s[from] == '/'
        invariant
            n == s@.len(),
            from <= n,
            lead(s@, from as int) == lead(s@, 0),
        decreases n - from,
    {
        from = from + 1;
    }
    let mut to: usize = n;
    while to > 0 && s[to - 1] == '/'
        invariant
            n == s@.len(),
            to <= n,
            trail(s@, to as int) == trail(s@, n as int),
        decreases to,
    {
        to = to - 1;
    }
    if from <= to {
        string_of(&s, from, to)
    } else {
        String::new()
    }
}

/// What the text `raw` of an import names, given the place in it of the
/// path behind `$PSScriptRoot` where it has that form, and else whether it
/// has the form of an import of the file under test.
pub open spec fn importee_given(raw: Seq<char>, relative: Option<(usize, usize)>, here_sut: bool)
    -> Target {
    match relative {
        Some((from, to)) => Target::Relative(
            relative_path(text_between(raw, from as int, to as int)),
        ),
        None => if here_sut {
            Target::HereSut
        } else {
            Target::Unrecognized(raw)
        },
    }
}

/// What the text `raw` of an import names.
pub open spec fn importee_of(raw: Seq<char>) -> Target {
    importee_given(
        raw,
        match regex_group(IMPORT_RELATIVE@, raw, 1) {
            Some(Some(place)) => Some(place),
            _ => None,
        },
        regex_group(IMPORT_HERESUT@, raw, 0) is Some,
    )
}

/// Says what the text `raw` of an import names, given the place in it of
/// the path behind `$PSScriptRoot` where it has that form, and else
/// whether it has the form of an import of the file under test.
pub fn importee_found(raw: &str, relative: Option<(usize, usize)>, here_sut: bool) -> (r: Importee)
    requires
        relative matches Some((from, to)) ==> from <= to <= byte_len(raw@) && on_boundary(
            raw@,
            from as int,
        ) && on_boundary(raw@, to as int),
    ensures
        r@ == importee_given(raw@, relative, here_sut),
{
    match relative {
        Some((from, to)) => Importee::Relative(self::relative(substring(raw, from, to))),
        None => if here_sut {
            Importee::HereSut
        } else {
            Importee::Unrecognized(raw.to_owned())
        },
    }
}

/// The patterns by which the lines of a file are read, ready for use.
pub struct Patterns {
    import: Pattern,
    relative: Pattern,
    here_sut: Pattern,
    testcase: Pattern,
}

impl Patterns {
    /// True when each pattern is the one that it is named after.
    pub closed spec fn wf(&self) -> bool {
        &&& self.import@ == IMPORT@
        &&& self.relative@ == IMPORT_RELATIVE@
        &&& self.here_sut@ == IMPORT_HERESUT@
        &&& self.testcase@ == TESTCASE@
    }

    pub fn new() -> (p: Patterns)
        ensures
            p.wf(),
    {
        Patterns {
            import: Pattern::new(IMPORT),
            relative: Pattern::new(IMPORT_RELATIVE),
            here_sut: Pattern::new(IMPORT_HERESUT),
            testcase: Pattern::new(TESTCASE),
        }
    }

    /// Says what the text `raw` of an import names.
    pub fn importee(&self, raw: &str) -> (r: Importee)
        requires
            self.wf(),
        ensures
            r@ == importee_of(raw@),
    {
        match self.relative.capture(raw, 1) {
            Some(Some(place)) => importee_found(raw, Some(place), false),
            _ => importee_found(raw, None, self.here_sut.capture(raw, 0).is_some()),
        }
    }
}

/// Says what the text `raw` of an import names.
pub fn importee(raw: &str) -> (r: Importee)
    ensures
        r@ == importee_of(raw@),
{
    Patterns::new().importee(raw)
}

/// The text of line number `k` of `text`, counted from 0.
pub open spec fn line_of(text: Seq<char>, k: int) -> Seq<char> {
    let range = line_ranges_of(text)[k];
    text_between(text, range.start as int, range.end as int)
}

/// The import that line number `k` of `text` makes, if it makes one.
pub open spec fn import_on(text: Seq<char>, k: int) -> Option<ImportView> {
    match regex_group(IMPORT@, line_of(text, k), 1) {
        Some(Some((from, to))) => Some(
            ImportView {
                span: fragment_span((k + 1) as u32, line_ranges_of(text)[k], from, to),
                importee: importee_of(text_between(line_of(text, k), from as int, to as int)),
            },
        ),
        _ => None,
    }
}

/// The test case that line number `k` of `text` opens, if it opens one.
pub open spec fn testcase_on(text: Seq<char>, k: int) -> Option<TestcaseView> {
    match regex_group(TESTCASE@, line_of(text, k), 1) {
        Some(Some((from, to))) => Some(
            TestcaseView {
                span: fragment_span((k + 1) as u32, line_ranges_of(text)[k], from, to),
                name: text_between(line_of(text, k), from as int, to as int),
            },
        ),
        _ => None,
    }
}

/// The imports of the first `n` lines of `text`.
pub open spec fn imports_upto(text: Seq<char>, n: int) -> Seq<ImportView>
    decreases n,
{
    if n <= 0 {
        Seq::empty()
    } else {
        match import_on(text, n - 1) {
            Some(import) => imports_upto(text, n - 1).push(import),
            None => imports_upto(text, n - 1),
        }
    }
}

/// The test cases of the first `n` lines of `text`.
pub open spec fn testcases_upto(text: Seq<char>, n: int) -> Seq<TestcaseView>
    decreases n,
{
    if n <= 0 {
        Seq::empty()
    } else {
        match testcase_on(text, n - 1) {
            Some(testcase) => testcases_upto(text, n - 1).push(testcase),
            None => testcases_upto(text, n - 1),
        }
    }
}

/// What a file holds: the definitions and usages of its token trees, and
/// the imports and test cases of its lines. A text that cannot be parsed
/// into token trees gives nothing but the failure.
pub open spec fn extracted(text: Seq<char>) -> Result<FileView, Failure> {
    match parsed(text) {
        Err(e) => Err(e),
        Ok(stream) => Ok(
            FileView {
                imports: imports_upto(text, line_ranges_of(text).len() as int),
                definitions: harvest(stream, text).definitions,
                usages: harvest(stream, text).usages,
                testcases: testcases_upto(text, line_ranges_of(text).len() as int),
            },
        ),
    }
}

/// Parses a source file.
///
/// Note: Assumes BOM (byte order mark) is stripped.
pub fn parse(source: &str) -> (r: Result<File, Error>)
    requires
        byte_len(source@) <= u32::MAX,
    ensures
        match extracted(source@) {
            Ok(file) => r matches Ok(got) && got@ == file,
            Err(e) => r matches Err(got) && got@ == e,
        },
{
    let token_tree_stream = match v2::parse(source) {
        Ok(stream) => stream,
        Err(e) => {
            return Err(e);
        },
    };
    let mut definitions: Vec<Definition> = Vec::new();
    let mut usages: Vec<Usage> = Vec::new();
    proof {
        assert(definitions_of(definitions@) =~= Seq::<Occurrence>::empty());
        assert(usages_of(usages@) =~= Seq::<Occurrence>::empty());
    }
    walk_commands_of(&token_tree_stream, source, &mut definitions, &mut usages);
    walk_classes_of(&token_tree_stream, None, source, &mut definitions, &mut usages);
    let (imports, testcases) = scan_lines(source);
    Ok(File { definitions, usages, imports, testcases })
}

/// Gathers the imports and the test cases of the lines of a text.
pub fn scan_lines(source: &str) -> (r: (Vec<Import>, Vec<Testcase>))
    requires
        byte_len(source@) <= u32::MAX,
    ensures
        r.0@.map_values(|i: Import| i@) == imports_upto(
            source@,
            line_ranges_of(source@).len() as int,
        ),
        r.1@.map_values(|t: Testcase| t@) == testcases_upto(
            source@,
            line_ranges_of(source@).len() as int,
        ),
{
    let patterns = Patterns::new();
    let chars = chars_of(source);
    let lines = line_ranges(&chars);
    let mut imports: Vec<Import> = Vec::new();
    let mut testcases: Vec<Testcase> = Vec::new();
    let mut k: usize = 0;
    proof {
        assert(imports@.map_values(|i: Import| i@) =~= Seq::<ImportView>::empty());
        assert(testcases@.map_values(|t: Testcase| t@) =~= Seq::<TestcaseView>::empty());
        crate::text::lemma_lines_count(chars@, 0);
        lemma_offset_monotone(chars@, 0, chars@.len() as int);
    }
    while k < lines.len()
        invariant
            patterns.wf(),
            chars@ == source@,
            byte_len(source@) <= u32::MAX,
            lines@ == line_ranges_of(source@),
            lines@.len() == lines_from(source@, 0).len(),
            lines@.len() <= chars@.len() <= byte_len(source@),
            k <= lines@.len(),
            imports@.map_values(|i: Import| i@) == imports_upto(source@, k as int),
            testcases@.map_values(|t: Testcase| t@) == testcases_upto(source@, k as int),
        decreases lines@.len() - k,
    {
        let range = lines[k];
        let ghost line = lines_from(source@, 0)[k as int];
        proof {
            assert(lines@[k as int] == crate::text::range_of_line(source@, line));
            lemma_lines_inside(source@, 0, k as int);
            lemma_offset_boundary(source@, line.0);
            lemma_offset_boundary(source@, line.1);
            lemma_offset_monotone(source@, line.0, line.1);
            lemma_cut_len(source@, range.start as int, range.end as int);
        }
        let text = substring(source, range.start, range.end);
        let line_no = (k + 1) as u32;
        match patterns.import.capture(text, 1) {
            Some(Some((from, to))) => {
                let import = Import {
                    span: Span::from_fragment(line_no, range, from, to),
                    importee: patterns.importee(substring(text, from, to)),
                };
                assert(imports@.push(import).map_values(|i: Import| i@) =~= imports@.map_values(
                    |i: Import| i@,
                ).push(import@));
                imports.push(import);
            },
            _ => {},
        }
        match patterns.testcase.capture(text, 1) {
            Some(Some((from, to))) => {
                let testcase = Testcase {
                    span: Span::from_fragment(line_no, range, from, to),
                    name: substring(text, from, to).to_owned(),
                };
                assert(testcases@.push(testcase).map_values(|t: Testcase| t@)
                    =~= testcases@.map_values(|t: Testcase| t@).push(testcase@));
                testcases.push(testcase);
            },
            _ => {},
        }
        k = k + 1;
    }
    (imports, testcases)
}

} // verus!
