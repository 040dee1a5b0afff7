//! The convention that each file runs in strict mode: a file that sets the
//! mode, and each file that imports it, counts as having it.

use vstd::prelude::*;
use vstd::string::*;
use crate::lint::{emitted, message_at, Emitter, Emitting, Lint, Message};
use crate::preprocess::{Parsed, ParsedView};
use crate::scope::{project_of, searched, views_of, Scope, ScopeView, Unit};
use crate::syntax::{definitions_of, Definition, Item, ItemKind, Named, Occurrence};
use crate::text::str_equal;
use crate::{Location, Place};

verus! {

/// The name of the item that stands for "this file enables strict mode".
pub open spec fn strict_mode_name() -> Seq<char> {
    "!EnablesStrictMode"@
}

/// The item that stands for "this file enables strict mode".
pub fn strict_mode_pseudoitem() -> (item: Item<&'static str>)
    ensures
        item.name@ == strict_mode_name(),
        item.kind == ItemKind::Pseudoitem,
{
    Item::pseudo("!EnablesStrictMode")
}

/// True of a usage that sets strict mode.
pub open spec fn sets_strict_mode(u: Occurrence) -> bool {
    u.item.kind == ItemKind::Function && u.item.name == "Set-StrictMode"@
}

/// The place of the first usage from `i` on that sets strict mode.
pub open spec fn first_setting(usages: Seq<Occurrence>, i: int) -> Option<int>
    decreases usages.len() - i,
{
    if 0 <= i < usages.len() {
        if sets_strict_mode(usages[i]) {
            Some(i)
        } else {
            first_setting(usages, i + 1)
        }
    } else {
        None
    }
}

/// The definitions of a file after preprocessing: where the file sets
/// strict mode, the first place where it does so defines the pseudo-item.
pub open spec fn with_strict_mode(file: ParsedView) -> Seq<Occurrence> {
    match first_setting(file.usages, 0) {
        Some(i) => file.definitions.push(
            Occurrence {
                span: file.usages[i].span,
                item: Named { name: strict_mode_name(), kind: ItemKind::Pseudoitem },
            },
        ),
        None => file.definitions,
    }
}

/// Treats setting strict mode as defining a pseudo-item, which then
/// spreads to the files that import this one like any definition.
pub fn preprocess(file: &mut Parsed)
    ensures
        final(file)@ == (ParsedView { definitions: with_strict_mode(old(file)@), ..old(file)@ }),
{
    let ghost usages = file@.usages;
    let mut i: usize = 0;
    while i < file.usages.len()
        invariant
            *file == *old(file),
            usages == file@.usages,
            i <= file.usages@.len(),
            first_setting(usages, i as int) == first_setting(usages, 0),
        decreases file.usages@.len() - i,
    {
        let usage = &file.usages[i];
        assert(usages[i as int] == usage@);
        if usage.item.is_function() && str_equal(usage.item.name.as_str(), "Set-StrictMode") {
            let definition = Definition {
                item: Item { name: "!EnablesStrictMode".to_owned(), kind: ItemKind::Pseudoitem },
                span: usage.span,
            };
            assert(definitions_of(file.definitions@.push(definition)) =~= definitions_of(
                file.definitions@,
            ).push(definition@));
            file.definitions.push(definition);
            return ;
        }
        i = i + 1;
    }
}

/// Whether an import from `j` on brings in the file known under `path`.
pub open spec fn imports_path(file: ParsedView, path: Seq<char>, j: int) -> bool
    decreases file.imports.len() - j,
{
    if 0 <= j < file.imports.len() {
        file.imports[j].0 == path || imports_path(file, path, j + 1)
    } else {
        false
    }
}

/// Whether one of the first `n` files imports the file known under `path`.
pub open spec fn imported_by(files: Seq<Unit>, path: Seq<char>, n: int) -> bool
    decreases n,
{
    if n <= 0 {
        false
    } else {
        imports_path(files[n - 1].file, path, 0) || imported_by(files, path, n - 1)
    }
}

/// The message that a file runs without strict mode.
pub open spec fn no_strict_mode_message(files: Seq<Unit>, g: int) -> Message {
    message_at(
        Place { file: files[g].file.original_path, span: None, line: None },
        Lint::NoStrictMode,
        "strict mode not enabled for this file"@,
    )
}

/// True of a file that no file imports and in whose scope strict mode is
/// not enabled.
pub open spec fn lacks_strict_mode(files: Seq<Unit>, scopes: Seq<ScopeView>, g: int) -> bool {
    !imported_by(files, files[g].path, files.len() as int) && searched(
        scopes[g],
        strict_mode_name(),
        ItemKind::Pseudoitem,
    ) is None
}

/// What the first `n` files add to the messages.
pub open spec fn strictness_checked(
    files: Seq<Unit>,
    scopes: Seq<ScopeView>,
    n: int,
    e: Emitting,
) -> Emitting
    decreases n,
{
    if n <= 0 {
        e
    } else {
        let before = strictness_checked(files, scopes, n - 1, e);
        if lacks_strict_mode(files, scopes, n - 1) {
            emitted(before, no_strict_mode_message(files, n - 1))
        } else {
            before
        }
    }
}

/// Whether a file imports the file known under `path`.
fn imports(file: &Parsed, path: &str) -> (r: bool)
    ensures
        r == imports_path(file@, path@, 0),
{
    let mut j: usize = 0;
    while j < file.imports.len()
        invariant
            j <= file.imports@.len(),
            imports_path(file@, path@, j as int) == imports_path(file@, path@, 0),
        decreases file.imports@.len() - j,
    {
        assert(file@.imports[j as int] == (file.imports@[j as int].0@, file.imports@[j as int].1@));
        if str_equal(file.imports[j].0.as_str(), path) {
            return true;
        }
        j = j + 1;
    }
    false
}

/// Whether any file imports the file known under `path`.
fn is_imported(files: &Vec<(String, Parsed)>, path: &str) -> (r: bool)
    ensures
        r == imported_by(project_of(files@), path@, files@.len() as int),
{
    let ghost project = project_of(files@);
    let mut n: usize = files.len();
    while n > 0
        invariant
            project == project_of(files@),
            n <= files@.len(),
            imported_by(project, path@, files@.len() as int) == imported_by(project, path@, n as int),
        decreases n,
    {
        assert(project[n - 1].file == files@[n - 1].1@);
        if imports(&files[n - 1].1, path) {
            return true;
        }
        n = n - 1;
    }
    false
}

/// Reports the files that no file imports and that run without strict
/// mode.
pub fn analyze(files: &Vec<(String, Parsed)>, scopes: &Vec<Scope>, emitter: &mut Emitter)
    requires
        scopes@.len() == files@.len(),
    ensures
        final(emitter)@ == strictness_checked(
            project_of(files@),
            views_of(scopes@),
            files@.len() as int,
            old(emitter)@,
        ),
{
    let ghost project = project_of(files@);
    let ghost views = views_of(scopes@);
    let mut g: usize = 0;
    while g < files.len()
        invariant
            project == project_of(files@),
            views == views_of(scopes@),
            scopes@.len() == files@.len(),
            g <= files@.len(),
            emitter@ == strictness_checked(project, views, g as int, old(emitter)@),
        decreases files@.len() - g,
    {
        assert(project[g as int].path == files@[g as int].0@);
        assert(project[g as int].file == files@[g as int].1@);
        assert(views[g as int] == scopes@[g as int]@);
        if !is_imported(files, files[g].0.as_str()) {
            if scopes[g].search(&strict_mode_pseudoitem()).is_none() {
                Location::whole_file(files[g].1.original_path.as_str()).lint(
                    Lint::NoStrictMode,
                    "strict mode not enabled for this file",
                ).emit(emitter);
            }
        }
        g = g + 1;
    }
}

} // verus!
