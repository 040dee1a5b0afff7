//! Static analysis of dot-sourced shell scripts: lexing, extraction of
//! definitions and usages, and resolution of names through the import graph.
//!
//! A run over a project goes like this. Each file is parsed with
//! [`preprocess::parse_and_preprocess`], which reports a file that cannot be
//! parsed. The caller looks the imports of the file up on disk and hands
//! what it found to [`preprocess::preprocess`], which reports the imports
//! that lead nowhere. [`strictness::preprocess`] then notes whether the file
//! enables strict mode. Once all files are there, [`run`] computes what is in
//! scope in each file and reports what is wrong with its usages and imports.
//! The messages gather in a [`lint::Emitter`], which decides about each of
//! them by the levels of the lints and by the comments in the code that
//! allow a lint.
//!
//! The library reads no file and prints nothing: it works on texts and paths
//! that it is given. What it relies on without proof, the functions of other
//! crates, stands in [`foreign`].

pub mod config;
pub mod foreign;
pub mod lint;
pub mod preprocess;
pub mod scope;
pub mod strictness;
pub mod syntax;
pub mod testnames;
pub mod text;

use vstd::prelude::*;
use vstd::string::*;
use crate::lint::{Emitting, Level, Lint};
use crate::preprocess::Parsed;
use crate::scope::{
    files_checked, known_of, project_of, scopes_upto, ScopeError, Trouble, Unit,
};
use crate::strictness::strictness_checked;
use crate::syntax::Span;
use crate::testnames::testnames_checked;
use crate::text::find_line;

pub use crate::config::ConfigFile;

verus! {

/// How a run is to be made.
#[derive(Default)]
pub struct RunOpt {
    /// Show what the parser made of each file.
    pub debug_parser: bool,
    /// The levels that were asked for on the command line; a later entry
    /// wins over an earlier one for the same lint.
    pub lint_overrides: Vec<(Lint, Level)>,
}

/// Kind of error message
#[derive(Debug, Clone, Copy, Eq, PartialEq, Structural)]
pub enum MessageKind {
    Warning,
    Error,
}

impl Default for MessageKind {
    fn default() -> (kind: MessageKind)
        ensures
            kind == MessageKind::Error,
    {
        MessageKind::Error
    }
}

/// A source file's line with its location
#[derive(Default, Debug, Clone)]
pub struct Line {
    pub line: String,
    pub no: u32,
}

/// A line as a plain value.
pub struct LineView {
    pub line: Seq<char>,
    pub no: u32,
}

impl View for Line {
    type V = LineView;

    open spec fn view(&self) -> LineView {
        LineView { line: self.line@, no: self.no }
    }
}

/// Location of a message
#[derive(Debug, Clone)]
pub struct Location {
    pub file: String,
    /// What the message is about; `None` where it is about the whole file.
    pub span: Option<Span>,
    /// The line on which the span starts.
    pub line: Option<Line>,
}

/// A location as a plain value.
pub struct Place {
    pub file: Seq<char>,
    pub span: Option<Span>,
    pub line: Option<LineView>,
}

impl View for Location {
    type V = Place;

    open spec fn view(&self) -> Place {
        Place {
            file: self.file@,
            span: self.span,
            line: match self.line {
                Some(line) => Some(line@),
                None => None,
            },
        }
    }
}

/// The place of `span` in the file `file` that holds `source`.
pub open spec fn place_of(span: Span, file: Seq<char>, source: Seq<char>) -> Place {
    Place {
        file,
        span: Some(span),
        line: Some(
            LineView {
                line: crate::text::line_text(source, span.start.byte as int),
                no: span.start.line,
            },
        ),
    }
}

impl Location {
    pub fn whole_file(file: &str) -> (l: Location)
        ensures
            l@ == (Place { file: file@, span: None, line: None }),
    {
        Location { file: file.to_owned(), span: None, line: None }
    }
}

impl Span {
    /// The location of this span in the file `file`, whose text is `source`.
    pub fn in_file_source(&self, file: &str, source: &str) -> (l: Location)
        ensures
            l@ == place_of(*self, file@, source@),
    {
        let line = find_line(self.start.byte as usize, source).to_owned();
        Location {
            file: file.to_owned(),
            span: Some(*self),
            line: Some(Line { line, no: self.start.line }),
        }
    }
}

/// What takes the messages of a run.
pub trait Emitter {
    /// The messages that were handed over, in their order. An emitter in
    /// verified code states here what it has taken. The body given here is
    /// for emitters outside verified code, which cannot state it: of those,
    /// what `emit` ensures is taken on trust.
    open spec fn taken(&self) -> Seq<Emitted> {
        Seq::empty()
    }

    /// Takes one more message.
    fn emit(&mut self, item: EmittedItem)
        ensures
            final(self).taken() == old(self).taken().push(item@),
    ;
}

/// A message as it leaves the library.
#[derive(Debug)]
pub struct EmittedItem {
    pub lint: Lint,
    pub kind: MessageKind,
    pub message: String,
    pub location: Location,
    pub notes: Option<String>,
}

/// A message as a plain value.
pub struct Emitted {
    pub lint: Lint,
    pub kind: MessageKind,
    pub message: Seq<char>,
    pub location: Place,
    pub notes: Option<Seq<char>>,
}

impl View for EmittedItem {
    type V = Emitted;

    open spec fn view(&self) -> Emitted {
        Emitted {
            lint: self.lint,
            kind: self.kind,
            message: self.message@,
            location: self.location@,
            notes: match self.notes {
                Some(notes) => Some(notes@),
                None => None,
            },
        }
    }
}

/// The messages of a list as plain values.
pub open spec fn emitted_of(items: Seq<EmittedItem>) -> Seq<Emitted> {
    items.map_values(|item: EmittedItem| item@)
}

/// An emitter that keeps what it is given.
pub struct VecEmitter {
    pub emitted_items: Vec<EmittedItem>,
}

impl VecEmitter {
    pub fn new() -> (e: VecEmitter)
        ensures
            e.emitted_items@.len() == 0,
    {
        VecEmitter { emitted_items: Vec::new() }
    }
}

impl Emitter for VecEmitter {
    open spec fn taken(&self) -> Seq<Emitted> {
        emitted_of(self.emitted_items@)
    }

    fn emit(&mut self, to_emit: EmittedItem)
        ensures
            final(self).emitted_items@ == old(self).emitted_items@.push(to_emit),
    {
        assert(emitted_of(self.emitted_items@.push(to_emit)) =~= emitted_of(
            self.emitted_items@,
        ).push(to_emit@));
        self.emitted_items.push(to_emit)
    }
}

/// What a run over the files of a project reports: what is wrong with the
/// usages and imports of each file, then the files that run without strict
/// mode, then the test cases with names that cannot be file names.
pub open spec fn reported(
    files: Seq<Unit>,
    builtins: Seq<String>,
    config: ConfigFile,
    e: Emitting,
) -> Result<Emitting, Trouble> {
    match scopes_upto(files, files.len() as int) {
        Err(trouble) => Err(trouble),
        Ok(scopes) => Ok(
            testnames_checked(
                files,
                files.len() as int,
                strictness_checked(
                    files,
                    scopes,
                    files.len() as int,
                    files_checked(files, scopes, known_of(builtins, config), files.len() as int, e),
                ),
            ),
        ),
    }
}

/// Analyzes the files of a project, each known under its canonical path.
/// The names of `builtins` are those of the commands that need no
/// definition.
///
/// A file that imports itself, or an import of a file that the project
/// does not hold, ends the run before anything is reported.
pub fn run(
    files: &Vec<(String, Parsed)>,
    builtins: &Vec<String>,
    config: &ConfigFile,
    emitter: &mut lint::Emitter,
) -> (r: Result<(), ScopeError>)
    ensures
        match reported(project_of(files@), builtins@, *config, old(emitter)@) {
            Ok(e) => r is Ok && final(emitter)@ == e,
            Err(trouble) => r matches Err(got) && got@ == trouble && final(emitter)@ == old(
                emitter,
            )@,
        },
{
    let scopes = match scope::analyze(files, builtins, config, emitter) {
        Ok(scopes) => scopes,
        Err(e) => {
            return Err(e);
        },
    };
    proof {
        scope::lemma_scopes_count(project_of(files@), files@.len() as int);
        assert(scope::views_of(scopes@).len() == scopes@.len());
    }
    strictness::analyze(files, &scopes, emitter);
    testnames::analyze(files, emitter);
    Ok(())
}

} // verus!
