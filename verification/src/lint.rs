//! Lints, their levels, and the emitter that decides what becomes of a
//! message: whether it is allowed, and what is added to it.

use vstd::prelude::*;
use vstd::string::*;
use crate::config::ConfigFile;
use crate::foreign::{regex_group, Pattern};
use crate::text::{str_equal, substring, text_between};
use crate::{Emitted, EmittedItem, Location, MessageKind, Place};

verus! {

#[derive(Debug, Eq, PartialEq, Ord, PartialOrd, Copy, Clone, Structural)]
pub enum Level {
    Allow,
    Warn,
    Deny,
}

#[derive(Debug)]
pub struct UnknownLevel;

/// The level that `name` names, if it names one.
pub open spec fn level_named(name: Seq<char>) -> Option<Level> {
    if name == "Allow"@ || name == "allow"@ {
        Some(Level::Allow)
    } else if name == "Warn"@ || name == "warn"@ {
        Some(Level::Warn)
    } else if name == "Deny"@ || name == "deny"@ {
        Some(Level::Deny)
    } else {
        None
    }
}

impl Level {
    /// How severe the level is.
    pub open spec fn rank(self) -> int {
        match self {
            Level::Allow => 0,
            Level::Warn => 1,
            Level::Deny => 2,
        }
    }

    /// The less severe of the two levels.
    pub open spec fn capped(self, cap: Level) -> Level {
        if self.rank() <= cap.rank() {
            self
        } else {
            cap
        }
    }

    /// The less severe of the two levels.
    pub fn cap_at(self, cap: Level) -> (r: Level)
        ensures
            r == self.capped(cap),
    {
        match (self, cap) {
            (Level::Allow, _) => Level::Allow,
            (_, Level::Allow) => Level::Allow,
            (Level::Warn, _) => Level::Warn,
            (_, Level::Warn) => Level::Warn,
            (Level::Deny, Level::Deny) => Level::Deny,
        }
    }

    /// The level that `s` names.
    pub fn parse(s: &str) -> (r: Result<Level, UnknownLevel>)
        ensures
            match level_named(s@) {
                Some(level) => r == Ok::<Level, UnknownLevel>(level),
                None => r is Err,
            },
    {
        if str_equal(s, "Allow") || str_equal(s, "allow") {
            Ok(Level::Allow)
        } else if str_equal(s, "Warn") || str_equal(s, "warn") {
            Ok(Level::Warn)
        } else if str_equal(s, "Deny") || str_equal(s, "deny") {
            Ok(Level::Deny)
        } else {
            Err(UnknownLevel)
        }
    }
}

impl std::str::FromStr for Level {
    type Err = UnknownLevel;

    fn from_str(s: &str) -> (r: Result<Level, UnknownLevel>)
        ensures
            match level_named(s@) {
                Some(level) => r == Ok::<Level, UnknownLevel>(level),
                None => r is Err,
            },
    {
        Level::parse(s)
    }
}

/// Lint is a type of error or warning that a linter can emit
#[derive(Debug, Eq, PartialEq, Ord, PartialOrd, Copy, Clone, Structural)]
pub enum Lint {
    /// Imported file not found
    NonexistingImports,
    /// Import in an unrecognized form
    UnrecognizedImports,
    /// Function not in scope
    UnknownFunctions,
    /// Usage of indirectly imported item (through multiple levels of
    /// dot-imports)
    IndirectImports,
    /// Invalid characters in testname
    InvalidTestnameCharacters,
    /// Strict mode not enabled
    NoStrictMode,
    /// Function name differs between usage and definition
    InvalidLetterCasing,
    /// Unknown lint allowed in a comment
    UnknownLints,
    /// The parser could not read this syntax
    SyntaxErrors,
    /// File was imported but no direct definitions from it are being used
    UnusedImports,
}

#[derive(Debug, Clone, Eq, PartialEq)]
pub struct UnknownLint(pub String);

/// The name by which a lint is written in files and on the command line.
pub open spec fn slug_of(lint: Lint) -> Seq<char> {
    match lint {
        Lint::NonexistingImports => "nonexisting-imports"@,
        Lint::UnrecognizedImports => "unrecognized-imports"@,
        Lint::UnknownFunctions => "unknown-functions"@,
        Lint::IndirectImports => "indirect-imports"@,
        Lint::InvalidTestnameCharacters => "invalid-testname-characters"@,
        Lint::NoStrictMode => "no-strict-mode"@,
        Lint::InvalidLetterCasing => "invalid-letter-casing"@,
        Lint::UnknownLints => "unknown-lints"@,
        Lint::SyntaxErrors => "syntax-errors"@,
        Lint::UnusedImports => "unused-imports"@,
    }
}

/// The lint that `name` names, if it names one.
pub open spec fn lint_named(name: Seq<char>) -> Option<Lint> {
    if name == "nonexisting-imports"@ {
        Some(Lint::NonexistingImports)
    } else if name == "unrecognized-imports"@ {
        Some(Lint::UnrecognizedImports)
    } else if name == "unknown-functions"@ {
        Some(Lint::UnknownFunctions)
    } else if name == "indirect-imports"@ {
        Some(Lint::IndirectImports)
    } else if name == "invalid-testname-characters"@ {
        Some(Lint::InvalidTestnameCharacters)
    } else if name == "no-strict-mode"@ {
        Some(Lint::NoStrictMode)
    } else if name == "invalid-letter-casing"@ {
        Some(Lint::InvalidLetterCasing)
    } else if name == "unknown-lints"@ {
        Some(Lint::UnknownLints)
    } else if name == "syntax-errors"@ {
        Some(Lint::SyntaxErrors)
    } else if name == "unused-imports"@ {
        Some(Lint::UnusedImports)
    } else {
        None
    }
}

/// The level of a lint that no configuration speaks of.
pub open spec fn default_level_of(lint: Lint) -> Level {
    match lint {
        Lint::NonexistingImports => Level::Deny,
        Lint::UnrecognizedImports => Level::Warn,
        Lint::UnknownFunctions => Level::Deny,
        Lint::IndirectImports => Level::Warn,
        Lint::InvalidTestnameCharacters => Level::Warn,
        Lint::NoStrictMode => Level::Warn,
        Lint::InvalidLetterCasing => Level::Warn,
        Lint::UnknownLints => Level::Warn,
        Lint::SyntaxErrors => Level::Warn,
        Lint::UnusedImports => Level::Deny,
    }
}

/// A lint's name names that lint, whichever lint it is.
pub proof fn law_slug_roundtrip(lint: Lint)
    ensures
        lint_named(slug_of(lint)) == Some(lint),
{
    reveal_strlit("nonexisting-imports");
    reveal_strlit("unrecognized-imports");
    reveal_strlit("unknown-functions");
    reveal_strlit("indirect-imports");
    reveal_strlit("invalid-testname-characters");
    reveal_strlit("no-strict-mode");
    reveal_strlit("invalid-letter-casing");
    reveal_strlit("unknown-lints");
    reveal_strlit("syntax-errors");
    reveal_strlit("unused-imports");
    let name = slug_of(lint);
    assert("nonexisting-imports"@[1] == 'o');
    assert("unrecognized-imports"@[2] == 'r');
    assert("unknown-functions"@[8] == 'f');
    assert("indirect-imports"@[1] == 'n');
    assert("invalid-testname-characters"@[8] == 't');
    assert("no-strict-mode"@[1] == 'o');
    assert("invalid-letter-casing"@[8] == 'l');
    assert("unknown-lints"@[8] == 'l');
    assert("syntax-errors"@[0] == 's');
    assert("unused-imports"@[2] == 'u');
    assert("nonexisting-imports"@[2] == 'n');
    assert("no-strict-mode"@[2] == '-');
    assert("indirect-imports"@[2] == 'd');
    assert("invalid-testname-characters"@[2] == 'v');
    assert("invalid-letter-casing"@[2] == 'v');
    assert("unknown-functions"@[2] == 'k');
    assert("unknown-lints"@[2] == 'k');
}

impl Lint {
    pub fn default_level(&self) -> (level: Level)
        ensures
            level == default_level_of(*self),
    {
        match self {
            Lint::NonexistingImports => Level::Deny,
            Lint::UnrecognizedImports => Level::Warn,
            Lint::UnknownFunctions => Level::Deny,
            Lint::IndirectImports => Level::Warn,
            Lint::InvalidTestnameCharacters => Level::Warn,
            Lint::NoStrictMode => Level::Warn,
            Lint::InvalidLetterCasing => Level::Warn,
            Lint::UnknownLints => Level::Warn,
            Lint::SyntaxErrors => Level::Warn,
            Lint::UnusedImports => Level::Deny,
        }
    }

    pub fn slug(&self) -> (slug: &'static str)
        ensures
            slug@ == slug_of(*self),
    {
        match self {
            Lint::NonexistingImports => "nonexisting-imports",
            Lint::UnrecognizedImports => "unrecognized-imports",
            Lint::UnknownFunctions => "unknown-functions",
            Lint::IndirectImports => "indirect-imports",
            Lint::InvalidTestnameCharacters => "invalid-testname-characters",
            Lint::NoStrictMode => "no-strict-mode",
            Lint::InvalidLetterCasing => "invalid-letter-casing",
            Lint::UnknownLints => "unknown-lints",
            Lint::SyntaxErrors => "syntax-errors",
            Lint::UnusedImports => "unused-imports",
        }
    }

    /// All the lints there are.
    pub fn lints() -> (all: Vec<Lint>)
        ensures
            all@ == seq![
                Lint::NonexistingImports,
                Lint::UnrecognizedImports,
                Lint::UnknownFunctions,
                Lint::IndirectImports,
                Lint::InvalidTestnameCharacters,
                Lint::NoStrictMode,
                Lint::InvalidLetterCasing,
                Lint::UnknownLints,
                Lint::SyntaxErrors,
                Lint::UnusedImports,
            ],
    {
        let mut all: Vec<Lint> = Vec::new();
        all.push(Lint::NonexistingImports);
        all.push(Lint::UnrecognizedImports);
        all.push(Lint::UnknownFunctions);
        all.push(Lint::IndirectImports);
        all.push(Lint::InvalidTestnameCharacters);
        all.push(Lint::NoStrictMode);
        all.push(Lint::InvalidLetterCasing);
        all.push(Lint::UnknownLints);
        all.push(Lint::SyntaxErrors);
        all.push(Lint::UnusedImports);
        assert(all@ =~= seq![
            Lint::NonexistingImports,
            Lint::UnrecognizedImports,
            Lint::UnknownFunctions,
            Lint::IndirectImports,
            Lint::InvalidTestnameCharacters,
            Lint::NoStrictMode,
            Lint::InvalidLetterCasing,
            Lint::UnknownLints,
            Lint::SyntaxErrors,
            Lint::UnusedImports,
        ]);
        all
    }

    /// The lint that `s` names.
    pub fn parse(s: &str) -> (r: Result<Lint, UnknownLint>)
        ensures
            match lint_named(s@) {
                Some(lint) => r == Ok::<Lint, UnknownLint>(lint),
                None => r matches Err(unknown) && unknown.0@ == s@,
            },
    {
        if str_equal(s, "nonexisting-imports") {
            Ok(Lint::NonexistingImports)
        } else if str_equal(s, "unrecognized-imports") {
            Ok(Lint::UnrecognizedImports)
        } else if str_equal(s, "unknown-functions") {
            Ok(Lint::UnknownFunctions)
        } else if str_equal(s, "indirect-imports") {
            Ok(Lint::IndirectImports)
        } else if str_equal(s, "invalid-testname-characters") {
            Ok(Lint::InvalidTestnameCharacters)
        } else if str_equal(s, "no-strict-mode") {
            Ok(Lint::NoStrictMode)
        } else if str_equal(s, "invalid-letter-casing") {
            Ok(Lint::InvalidLetterCasing)
        } else if str_equal(s, "unknown-lints") {
            Ok(Lint::UnknownLints)
        } else if str_equal(s, "syntax-errors") {
            Ok(Lint::SyntaxErrors)
        } else if str_equal(s, "unused-imports") {
            Ok(Lint::UnusedImports)
        } else {
            Err(UnknownLint(s.to_owned()))
        }
    }

    /// The level at which this lint is to be reported: what the
    /// configuration says of it, or else its default, and never more than
    /// the configuration's cap.
    pub fn level(&self, config: &Config) -> (level: Level)
        ensures
            level == level_of(*self, config@),
    {
        let uncapped_level = match config.overridden(*self) {
            Some(level) => level,
            None => self.default_level(),
        };
        uncapped_level.cap_at(config.cap)
    }
}

impl std::str::FromStr for Lint {
    type Err = UnknownLint;

    fn from_str(s: &str) -> (r: Result<Lint, UnknownLint>)
        ensures
            match lint_named(s@) {
                Some(lint) => r == Ok::<Lint, UnknownLint>(lint),
                None => r matches Err(unknown) && unknown.0@ == s@,
            },
    {
        Lint::parse(s)
    }
}

impl UnknownLint {
    /// What to tell the user.
    pub fn message(&self) -> (text: String)
        ensures
            text@ == "Unknown lint: `"@ + self.0@ + "`"@,
    {
        String::from_str("Unknown lint: `").concat(self.0.as_str()).concat("`")
    }
}

/// The levels of the lints for one run.
pub struct Config {
    /// Overrides default levels for lints; a later entry wins over an
    /// earlier one for the same lint
    pub overrides: Vec<(Lint, Level)>,
    /// Maximal severity level
    pub cap: Level,
}

/// A configuration as a plain value.
pub struct Levels {
    pub overrides: Seq<(Lint, Level)>,
    pub cap: Level,
}

/// What the first `n` overrides say of `lint`: the last of them that speaks
/// of it.
pub open spec fn override_of(overrides: Seq<(Lint, Level)>, lint: Lint, n: int) -> Option<Level>
    decreases n,
{
    if n <= 0 || n > overrides.len() {
        None
    } else if overrides[n - 1].0 == lint {
        Some(overrides[n - 1].1)
    } else {
        override_of(overrides, lint, n - 1)
    }
}

/// The level at which `lint` is to be reported under `levels`.
pub open spec fn level_of(lint: Lint, levels: Levels) -> Level {
    (match override_of(levels.overrides, lint, levels.overrides.len() as int) {
        Some(level) => level,
        None => default_level_of(lint),
    }).capped(levels.cap)
}

/// Why a configuration file does not give a configuration.
#[derive(Debug)]
pub enum ConfigError {
    /// A name under `levels` names no lint.
    UnknownLint(String),
    /// A lint is given a level that is none.
    UnknownLevel { level: String, lint: String },
    /// A lint is given a level twice.
    Duplicated(String),
}

/// A configuration error as a plain value.
pub enum Misconfigured {
    UnknownLint(Seq<char>),
    UnknownLevel { level: Seq<char>, lint: Seq<char> },
    Duplicated(Seq<char>),
}

impl View for ConfigError {
    type V = Misconfigured;

    open spec fn view(&self) -> Misconfigured {
        match self {
            ConfigError::UnknownLint(name) => Misconfigured::UnknownLint(name@),
            ConfigError::UnknownLevel { level, lint } => Misconfigured::UnknownLevel {
                level: level@,
                lint: lint@,
            },
            ConfigError::Duplicated(name) => Misconfigured::Duplicated(name@),
        }
    }
}

/// What a configuration error tells the user.
pub open spec fn misconfigured_text(e: Misconfigured) -> Seq<char> {
    match e {
        Misconfigured::UnknownLint(name) => "Unknown lint name: '"@ + name + "'"@,
        Misconfigured::UnknownLevel { level, lint } => "Unknown level '"@ + level + "' for '"@
            + lint + "'"@,
        Misconfigured::Duplicated(name) => "Duplicated entry for '"@ + name + "' lint"@,
    }
}

impl ConfigError {
    /// What to tell the user.
    pub fn message(&self) -> (text: String)
        ensures
            text@ == misconfigured_text(self@),
    {
        match self {
            ConfigError::UnknownLint(name) => String::from_str("Unknown lint name: '").concat(
                name.as_str(),
            ).concat("'"),
            ConfigError::UnknownLevel { level, lint } => String::from_str(
                "Unknown level '",
            ).concat(level.as_str()).concat("' for '").concat(lint.as_str()).concat("'"),
            ConfigError::Duplicated(name) => String::from_str("Duplicated entry for '").concat(
                name.as_str(),
            ).concat("' lint"),
        }
    }
}

/// The names of the entries of a configuration file as plain values.
pub open spec fn names_of(levels: Seq<(String, String)>) -> Seq<(Seq<char>, Seq<char>)> {
    levels.map_values(|entry: (String, String)| (entry.0@, entry.1@))
}

/// The overrides that the entries of a configuration file from `i` on add
/// to `done`, or the first entry that is wrong: one that names no lint,
/// gives no level, or speaks of a lint that was spoken of before.
pub open spec fn read_levels(
    entries: Seq<(Seq<char>, Seq<char>)>,
    i: int,
    done: Seq<(Lint, Level)>,
) -> Result<Seq<(Lint, Level)>, Misconfigured>
    decreases entries.len() - i,
{
    if 0 <= i < entries.len() {
        let (name, level) = entries[i];
        match lint_named(name) {
            None => Err(Misconfigured::UnknownLint(name)),
            Some(lint) => match level_named(level) {
                None => Err(Misconfigured::UnknownLevel { level, lint: name }),
                Some(found) => if override_of(done, lint, done.len() as int) is Some {
                    Err(Misconfigured::Duplicated(name))
                } else {
                    read_levels(entries, i + 1, done.push((lint, found)))
                },
            },
        }
    } else {
        Ok(done)
    }
}

impl Default for Config {
    fn default() -> (config: Config)
        ensures
            config@ == (Levels { overrides: Seq::empty(), cap: Level::Deny }),
    {
        Config { overrides: Vec::new(), cap: Level::Deny }
    }
}

impl View for Config {
    type V = Levels;

    open spec fn view(&self) -> Levels {
        Levels { overrides: self.overrides@, cap: self.cap }
    }
}

impl Config {
    /// What the configuration says of `lint`, if it speaks of it.
    pub fn overridden(&self, lint: Lint) -> (r: Option<Level>)
        ensures
            r == override_of(self.overrides@, lint, self.overrides@.len() as int),
    {
        let mut n = self.overrides.len();
        while n > 0
            invariant
                n <= self.overrides@.len(),
                override_of(self.overrides@, lint, n as int) == override_of(
                    self.overrides@,
                    lint,
                    self.overrides@.len() as int,
                ),
            decreases n,
        {
            let entry = self.overrides[n - 1];
            if entry.0 == lint {
                return Some(entry.1);
            }
            n = n - 1;
        }
        None
    }

    /// The configuration that a configuration file asks for.
    #[verifier::loop_isolation(false)]
    pub fn from_config_file(config_file: &ConfigFile) -> (r: Result<Config, ConfigError>)
        ensures
            match config_file.levels {
                None => r matches Ok(config) && config@ == (Levels {
                    overrides: Seq::empty(),
                    cap: Level::Deny,
                }),
                Some(levels) => match read_levels(names_of(levels@), 0, Seq::empty()) {
                    Ok(overrides) => r matches Ok(config) && config@ == (Levels {
                        overrides,
                        cap: Level::Deny,
                    }),
                    Err(e) => r matches Err(got) && got@ == e,
                },
            },
    {
        let mut config = Config::default();
        match &config_file.levels {
            None => {},
            Some(levels) => {
                let ghost entries = names_of(levels@);
                let ghost goal = read_levels(entries, 0, Seq::empty());
                let mut i: usize = 0;
                while i < levels.len()
                    invariant
                        entries == names_of(levels@),
                        i <= levels@.len(),
                        config.cap == Level::Deny,
                        read_levels(entries, i as int, config.overrides@) == goal,
                    decreases levels@.len() - i,
                {
                    assert(entries[i as int] == (levels@[i as int].0@, levels@[i as int].1@));
                    let lint_name = &levels[i].0;
                    let level = &levels[i].1;
                    let lint = match Lint::parse(lint_name.as_str()) {
                        Ok(lint) => lint,
                        Err(_) => {
                            return Err(ConfigError::UnknownLint(lint_name.clone()));
                        },
                    };
                    let level = match Level::parse(level.as_str()) {
                        Ok(level) => level,
                        Err(_) => {
                            return Err(
                                ConfigError::UnknownLevel {
                                    level: level.clone(),
                                    lint: lint_name.clone(),
                                },
                            );
                        },
                    };
                    if config.overridden(lint).is_some() {
                        // Duplicates may occur once lints have more than
                        // one name.
                        return Err(ConfigError::Duplicated(lint_name.clone()));
                    }
                    config.overrides.push((lint, level));
                    i = i + 1;
                }
            },
        }
        Ok(config)
    }

    /// This configuration with `overrides` on top of it.
    pub fn with_overrides(self, overrides: &Vec<(Lint, Level)>) -> (config: Config)
        ensures
            config@ == (Levels { overrides: self@.overrides + overrides@, cap: self.cap }),
    {
        let mut config = self;
        let ghost before = config.overrides@;
        let mut i: usize = 0;
        while i < overrides.len()
            invariant
                i <= overrides@.len(),
                config.cap == self.cap,
                config.overrides@ == before + overrides@.take(i as int),
            decreases overrides@.len() - i,
        {
            config.overrides.push(overrides[i]);
            assert(before + overrides@.take(i + 1) =~= (before + overrides@.take(i as int)).push(
                overrides@[i as int],
            ));
            i = i + 1;
        }
        assert(overrides@.take(i as int) =~= overrides@);
        config
    }
}

/// A comment that allows a lint on its line: `allow`, the lint's name, and
/// maybe in brackets the one thing that it is allowed for.
pub const ALLOW: &'static str =
    r"(?ix) ^ [^\#]* \# \s* (?: shelly:|analyzer:)? \s* allow \s* ( [[:word:]-]+ ) (?: \( (.*) \) )? $";

/// What a comment allows whose lint is named at `name` in `line`, with
/// what its brackets hold at `what` if it has any: the lint with what the
/// brackets hold, or the name itself where it names no lint.
pub open spec fn allowed_given(line: Seq<char>, name: (usize, usize), what: Option<(usize, usize)>)
    -> Result<Option<(Lint, Option<Seq<char>>)>, Seq<char>> {
    let written = text_between(line, name.0 as int, name.1 as int);
    match lint_named(written) {
        None => Err(written),
        Some(lint) => Ok(
            Some(
                (
                    lint,
                    match what {
                        Some((a, b)) => Some(text_between(line, a as int, b as int)),
                        None => None,
                    },
                ),
            ),
        ),
    }
}

/// What a line allows: nothing where it holds no comment that allows a
/// lint; else the lint that the comment names, with what the brackets hold
/// if there are any; or the name itself where it names no lint.
pub open spec fn allowed_on(line: Seq<char>) -> Result<Option<(Lint, Option<Seq<char>>)>, Seq<char>> {
    match regex_group(ALLOW@, line, 1) {
        Some(Some(name)) => allowed_given(
            line,
            name,
            match regex_group(ALLOW@, line, 2) {
                Some(Some(what)) => Some(what),
                _ => None,
            },
        ),
        _ => Ok(None),
    }
}

/// What `parse_allow_annotation` gave, as a plain value.
pub open spec fn allowance(r: Result<Option<(Lint, Option<&str>)>, UnknownLint>) -> Result<
    Option<(Lint, Option<Seq<char>>)>,
    Seq<char>,
> {
    match r {
        Ok(Some((lint, Some(what)))) => Ok(Some((lint, Some(what@)))),
        Ok(Some((lint, None))) => Ok(Some((lint, None))),
        Ok(None) => Ok(None),
        Err(unknown) => Err(unknown.0@),
    }
}

/// True when the bytes from `place.0` up to `place.1` can be cut from
/// `line`.
pub open spec fn inside(line: Seq<char>, place: (usize, usize)) -> bool {
    &&& place.0 <= place.1 <= crate::text::byte_len(line)
    &&& crate::text::on_boundary(line, place.0 as int)
    &&& crate::text::on_boundary(line, place.1 as int)
}

/// Reads a comment that allows a lint, the lint being named at `name` in
/// `line`, with what the brackets of the comment hold at `what`.
pub fn allow_annotation_found<'a>(line: &'a str, name: (usize, usize), what: Option<(usize, usize)>)
    -> (r: Result<Option<(Lint, Option<&'a str>)>, UnknownLint>)
    requires
        inside(line@, name),
        what matches Some(place) ==> inside(line@, place),
    ensures
        allowance(r) == allowed_given(line@, name, what),
{
    let lint = match Lint::parse(substring(line, name.0, name.1)) {
        Ok(lint) => lint,
        Err(unknown) => {
            return Err(unknown);
        },
    };
    let what = match what {
        Some((a, b)) => Some(substring(line, a, b)),
        None => None,
    };
    Ok(Some((lint, what)))
}

/// Reads the comment on `line` that allows a lint, if there is one.
pub fn parse_allow_annotation<'a>(line: &'a str) -> (r: Result<
    Option<(Lint, Option<&'a str>)>,
    UnknownLint,
>)
    ensures
        allowance(r) == allowed_on(line@),
{
    let allow = Pattern::new(ALLOW);
    match allow.capture(line, 1) {
        Some(Some(name)) => {
            let what = match allow.capture(line, 2) {
                Some(Some(what)) => Some(what),
                _ => None,
            };
            allow_annotation_found(line, name, what)
        },
        _ => Ok(None),
    }
}

/// A message on its way to the emitter.
#[must_use]
pub struct MessageBuilder {
    pub lint: Lint,
    pub message: String,
    pub location: Location,
    pub notes: Option<String>,
    /// Specific syntax element that the lint refers to, used for allow
    /// comment logic. Eg. the function name for the UnknownFunctions lint.
    pub what: Option<String>,
}

/// A message as a plain value.
pub struct Message {
    pub lint: Lint,
    pub message: Seq<char>,
    pub location: Place,
    pub notes: Option<Seq<char>>,
    pub what: Option<Seq<char>>,
}

impl Message {
    /// The message with `note` added below its notes.
    pub open spec fn noted(self, note: Seq<char>) -> Message {
        Message {
            notes: match self.notes {
                Some(notes) => Some(notes + seq!['\n'] + note),
                None => Some(note),
            },
            ..self
        }
    }

    /// The message as one about `what`.
    pub open spec fn about(self, what: Seq<char>) -> Message {
        Message { what: Some(what), ..self }
    }
}

/// The message that says `text` of `place` under `lint`.
pub open spec fn message_at(place: Place, lint: Lint, text: Seq<char>) -> Message {
    Message { lint, message: text, location: place, notes: None, what: None }
}

impl View for MessageBuilder {
    type V = Message;

    open spec fn view(&self) -> Message {
        Message {
            lint: self.lint,
            message: self.message@,
            location: self.location@,
            notes: match self.notes {
                Some(notes) => Some(notes@),
                None => None,
            },
            what: match self.what {
                Some(what) => Some(what@),
                None => None,
            },
        }
    }
}

impl Location {
    pub fn lint(self, lint: Lint, message: &str) -> (m: MessageBuilder)
        ensures
            m@ == message_at(self@, lint, message@),
    {
        MessageBuilder { location: self, lint, message: message.to_owned(), notes: None, what: None }
    }
}

impl MessageBuilder {
    /// Adds a note at the end of the message.
    ///
    /// Could be called multiple times.
    pub fn note(self, note: &str) -> (m: MessageBuilder)
        ensures
            m@ == self@.noted(note@),
    {
        let MessageBuilder { lint, message, location, notes, what } = self;
        let notes = match notes {
            Some(current_note) => {
                let mut current_note = current_note;
                let ghost before = current_note@;
                current_note.push('\n');
                current_note.append(note);
                assert(current_note@ =~= before + seq!['\n'] + note@);
                current_note
            },
            None => note.to_owned(),
        };
        MessageBuilder { lint, message, location, notes: Some(notes), what }
    }

    /// Specifies the exact syntax element that the lint refers to (eg. a
    /// function name)
    pub fn what(self, what: &str) -> (m: MessageBuilder)
        ensures
            m@ == self@.about(what@),
    {
        let MessageBuilder { lint, message, location, notes, what: _ } = self;
        MessageBuilder { lint, message, location, notes, what: Some(what.to_owned()) }
    }

    /// Checks the allow-logic and emits the message according to overrides
    /// used in config.
    pub fn emit(self, emitter: &mut Emitter)
        ensures
            final(emitter)@ == emitted(old(emitter)@, self@),
    {
        emitter.emit(self)
    }
}

/// Lint Emitter
///
/// This is a different emitter than the main one, as it handles also
/// allow-logic and configuration overrides.
///
/// Use `MessageBuilder::emit` to emit the message.
pub struct Emitter {
    config: Config,
    /// The lints of which a message went out.
    encountered_lints: Vec<Lint>,
    /// The messages that went out and were not handed on yet.
    items: Vec<EmittedItem>,
}

/// An emitter as a plain value.
pub struct Emitting {
    pub config: Levels,
    pub encountered: Seq<Lint>,
    pub items: Seq<Emitted>,
}

/// The kind of message that a level makes.
pub open spec fn kind_of(level: Level) -> MessageKind {
    if level == Level::Warn {
        MessageKind::Warning
    } else {
        MessageKind::Error
    }
}

/// The note that tells how to allow the message `m`.
pub open spec fn allow_hint(m: Message) -> Seq<char> {
    "To allow, add a comment `allow "@ + slug_of(m.lint) + (match m.what {
        Some(what) => "("@ + what + ")"@,
        None => Seq::empty(),
    }) + "` in this line"@
}

/// The message sent out: the first one of its lint that has a line gets a
/// note that tells how to allow it.
pub open spec fn sent(e: Emitting, m: Message, level: Level) -> Emitting {
    let first = !e.encountered.contains(m.lint);
    let hinted = if first && m.location.line is Some && m.lint != Lint::UnknownLints {
        m.noted(allow_hint(m))
    } else {
        m
    };
    Emitting {
        config: e.config,
        encountered: if first {
            e.encountered.push(m.lint)
        } else {
            e.encountered
        },
        items: e.items.push(
            Emitted {
                lint: m.lint,
                kind: kind_of(level),
                message: m.message,
                location: m.location,
                notes: hinted.notes,
            },
        ),
    }
}

/// True when the comment on the line allows the message `m`: it names the
/// lint of `m` and either names nothing more or names what `m` is about.
pub open spec fn allows(allowed: (Lint, Option<Seq<char>>), m: Message) -> bool {
    allowed.0 == m.lint && match allowed.1 {
        None => true,
        Some(element) => m.what == Some(element),
    }
}

/// The message about a comment on the line of `place` that allows
/// something that is no lint.
pub open spec fn unknown_lint_message(place: Place, name: Seq<char>) -> Message {
    message_at(place, Lint::UnknownLints, "Unknown lint: "@ + name).noted(
        "Use `shelly show-lints` to list available lints"@,
    )
}

/// What becomes of a message that has no comment to look at: it goes out
/// unless its level is `Allow`.
pub open spec fn emitted_plainly(e: Emitting, m: Message) -> Emitting {
    let level = level_of(m.lint, e.config);
    if level == Level::Allow {
        e
    } else {
        sent(e, m, level)
    }
}

/// What becomes of a message of a level above `Allow` whose line was
/// looked at, `allowed` being what the line allows: nothing where the line
/// allows the message; where the line allows what is no lint, that gets a
/// message of its own first.
pub open spec fn decided(
    e: Emitting,
    m: Message,
    level: Level,
    allowed: Result<Option<(Lint, Option<Seq<char>>)>, Seq<char>>,
) -> Emitting {
    match allowed {
        Err(name) => sent(emitted_plainly(e, unknown_lint_message(m.location, name)), m, level),
        Ok(Some(allowed)) => if allows(allowed, m) {
            e
        } else {
            sent(e, m, level)
        },
        Ok(None) => sent(e, m, level),
    }
}

/// What becomes of a message: nothing where its level is `Allow` or a
/// comment on its line allows it; a comment there that allows what is no
/// lint gets a message of its own first.
pub open spec fn emitted(e: Emitting, m: Message) -> Emitting {
    let level = level_of(m.lint, e.config);
    if level == Level::Allow {
        e
    } else if m.lint == Lint::UnknownLints || m.location.line is None {
        sent(e, m, level)
    } else {
        decided(e, m, level, allowed_on(m.location.line->Some_0.line))
    }
}

impl View for Emitter {
    type V = Emitting;

    closed spec fn view(&self) -> Emitting {
        Emitting {
            config: self.config@,
            encountered: self.encountered_lints@,
            items: crate::emitted_of(self.items@),
        }
    }
}

impl Emitter {
    /// Creates a new emitter.
    pub fn new(config: Config) -> (e: Emitter)
        ensures
            e@ == (Emitting { config: config@, encountered: Seq::empty(), items: Seq::empty() }),
    {
        let e = Emitter { config, encountered_lints: Vec::new(), items: Vec::new() };
        assert(crate::emitted_of(e.items@) =~= Seq::<Emitted>::empty());
        e
    }

    /// The messages that went out and were not handed on yet.
    pub fn emitted_items(&self) -> (items: &Vec<EmittedItem>)
        ensures
            crate::emitted_of(items@) == self@.items,
    {
        &self.items
    }

    /// Takes away the messages that went out, in their order.
    pub fn take_items(&mut self) -> (items: Vec<EmittedItem>)
        ensures
            final(self)@ == (Emitting { items: Seq::empty(), ..old(self)@ }),
            crate::emitted_of(items@) == old(self)@.items,
    {
        let mut taken: Vec<EmittedItem> = Vec::new();
        std::mem::swap(&mut taken, &mut self.items);
        assert(crate::emitted_of(self.items@) =~= Seq::<Emitted>::empty());
        taken
    }

    /// Hands the messages that went out to `raw`, in their order.
    pub fn flush<E: crate::Emitter>(&mut self, raw: &mut E)
        ensures
            final(self)@ == (Emitting { items: Seq::empty(), ..old(self)@ }),
            final(raw).taken() == old(raw).taken() + old(self)@.items,
    {
        let mut rest = crate::syntax::v2::stream::Stream::new(self.take_items());
        assert(old(raw).taken() + Seq::<Emitted>::empty() =~= old(raw).taken());
        loop
            invariant
                self@ == (Emitting { items: Seq::empty(), ..old(self)@ }),
                rest@.len() <= old(self)@.items.len(),
                raw.taken() + crate::emitted_of(rest@) == old(raw).taken() + old(self)@.items,
            ensures
                raw.taken() == old(raw).taken() + old(self)@.items,
            decreases rest@.len(),
        {
            let ghost before = rest@;
            let ghost had = raw.taken();
            match rest.pop_front() {
                Some(item) => {
                    raw.emit(item);
                    assert(had.push(item@) + crate::emitted_of(rest@) =~= had + crate::emitted_of(
                        before,
                    ));
                },
                None => {
                    break ;
                },
            }
        }
    }

    /// Whether a message of this lint went out before.
    fn encountered(&self, lint: Lint) -> (r: bool)
        ensures
            r == self@.encountered.contains(lint),
    {
        let mut i: usize = 0;
        while i < self.encountered_lints.len()
            invariant
                i <= self.encountered_lints@.len(),
                forall|k: int| 0 <= k < i ==> self.encountered_lints@[k] != lint,
            decreases self.encountered_lints@.len() - i,
        {
            if self.encountered_lints[i] == lint {
                return true;
            }
            i = i + 1;
        }
        false
    }

    /// Sends the message out.
    fn send(&mut self, message: MessageBuilder, level: Level)
        requires
            level != Level::Allow,
        ensures
            final(self)@ == sent(old(self)@, message@, level),
    {
        let kind = match level {
            Level::Warn => MessageKind::Warning,
            _ => MessageKind::Error,
        };
        let first = !self.encountered(message.lint);
        if first {
            self.encountered_lints.push(message.lint);
        }
        let MessageBuilder { lint, message: text, location, notes, what } = message;
        let hinted = first && location.line.is_some() && lint != Lint::UnknownLints;
        let notes = if hinted {
            let mut hint = String::from_str("To allow, add a comment `allow ").concat(lint.slug());
            let ghost head = hint@;
            match &what {
                Some(what) => {
                    hint = hint.concat("(").concat(what.as_str()).concat(")");
                    assert(hint@ =~= head + ("("@ + what@ + ")"@));
                },
                None => {
                    assert(hint@ + Seq::<char>::empty() =~= hint@);
                },
            }
            hint = hint.concat("` in this line");
            assert(hint@ == allow_hint(message@));
            match notes {
                Some(current) => {
                    let mut current = current;
                    let ghost before = current@;
                    current.push('\n');
                    current.append(hint.as_str());
                    assert(current@ =~= before + seq!['\n'] + hint@);
                    Some(current)
                },
                None => Some(hint),
            }
        } else {
            notes
        };
        let item = EmittedItem { kind, lint, message: text, location, notes };
        assert(crate::emitted_of(self.items@.push(item)) =~= crate::emitted_of(self.items@).push(
            item@,
        ));
        self.items.push(item);
    }

    /// Sends the message out unless its level is `Allow`.
    fn emit_plainly(&mut self, message: MessageBuilder)
        ensures
            final(self)@ == emitted_plainly(old(self)@, message@),
    {
        let level = message.lint.level(&self.config);
        match level {
            Level::Allow => {},
            _ => {
                self.send(message, level);
            },
        }
    }

    /// Decides what becomes of a message of a level above `Allow`, given
    /// what the line of the message allows.
    pub fn decide(
        &mut self,
        message: MessageBuilder,
        level: Level,
        allowed: Result<Option<(Lint, Option<String>)>, UnknownLint>,
    )
        requires
            level != Level::Allow,
        ensures
            final(self)@ == decided(old(self)@, message@, level, allowance_of(allowed)),
    {
        match allowed {
            Err(unknown_lint) => {
                let text = String::from_str("Unknown lint: ").concat(unknown_lint.0.as_str());
                let about = message.location.clone_place().lint(
                    Lint::UnknownLints,
                    text.as_str(),
                ).note("Use `shelly show-lints` to list available lints");
                self.emit_plainly(about);
            },
            Ok(Some((allowed_lint, allowed_elem))) => {
                let allowed = allowed_lint == message.lint && match &allowed_elem {
                    None => true,
                    Some(element) => match &message.what {
                        Some(linted) => str_equal(element.as_str(), linted.as_str()),
                        None => false,
                    },
                };
                if allowed {
                    return ;
                }
            },
            Ok(None) => {},
        }
        self.send(message, level);
    }

    /// Decides what becomes of a message.
    pub fn emit(&mut self, message: MessageBuilder)
        ensures
            final(self)@ == emitted(old(self)@, message@),
    {
        let level = message.lint.level(&self.config);
        match level {
            Level::Allow => {
                return ;
            },
            _ => {},
        }
        if message.lint == Lint::UnknownLints {
            self.send(message, level);
            return ;
        }
        let allowed = match &message.location.line {
            Some(line) => match parse_allow_annotation(line.line.as_str()) {
                Err(unknown_lint) => Some(Err(unknown_lint)),
                Ok(Some((lint, Some(what)))) => Some(Ok(Some((lint, Some(what.to_owned()))))),
                Ok(Some((lint, None))) => Some(Ok(Some((lint, None)))),
                Ok(None) => Some(Ok(None)),
            },
            None => None,
        };
        match allowed {
            Some(allowed) => {
                self.decide(message, level, allowed);
            },
            None => {
                self.send(message, level);
            },
        }
    }
}

/// What a line allows, as a plain value.
pub open spec fn allowance_of(allowed: Result<Option<(Lint, Option<String>)>, UnknownLint>)
    -> Result<Option<(Lint, Option<Seq<char>>)>, Seq<char>> {
    match allowed {
        Ok(Some((lint, Some(what)))) => Ok(Some((lint, Some(what@)))),
        Ok(Some((lint, None))) => Ok(Some((lint, None))),
        Ok(None) => Ok(None),
        Err(unknown) => Err(unknown.0@),
    }
}

impl Location {
    /// A copy of this location.
    pub fn clone_place(&self) -> (l: Location)
        ensures
            l@ == self@,
    {
        Location {
            file: self.file.clone(),
            span: self.span,
            line: match &self.line {
                Some(line) => Some(crate::Line { line: line.line.clone(), no: line.no }),
                None => None,
            },
        }
    }
}

} // verus!
