//! The names of test cases: where they become file names, some characters
//! cannot stand in them.

use vstd::prelude::*;
use vstd::string::*;
use crate::lint::{emitted, message_at, Emitter, Emitting, Lint, Message};
use crate::place_of;
use crate::preprocess::{Parsed, ParsedView};
use crate::scope::{project_of, Unit};
use crate::syntax::{ItemKind, Occurrence};
use crate::text::{chars_of, str_equal};

verus! {

/// True of the characters that cannot stand in a file name.
pub open spec fn invalid_in_file_name(c: char) -> bool {
    c == '"' || c == '>' || c == '<' || c == '|' || c == ':' || c == '*' || c == '?' || c == '\\'
        || c == '/'
}

/// True of a name that holds a character that cannot stand in a file name.
pub open spec fn has_invalid(name: Seq<char>) -> bool {
    exists|i: int| 0 <= i < name.len() && invalid_in_file_name(#[trigger] name[i])
}

/// True of a usage that sets up logging into files named after test cases.
pub open spec fn uses_logger(u: Occurrence) -> bool {
    u.item.kind == ItemKind::Function && u.item.name == "Initialize-PesterLogger"@
}

/// True of a file that sets up logging into files named after test cases.
pub open spec fn logs_to_files(file: ParsedView) -> bool {
    exists|i: int| 0 <= i < file.usages.len() && uses_logger(#[trigger] file.usages[i])
}

/// The message that a test case has a name that cannot be a file name.
pub open spec fn testname_message(file: ParsedView, k: int) -> Message {
    message_at(
        place_of(file.testcases[k].span, file.original_path, file.source),
        Lint::InvalidTestnameCharacters,
        "testname contains invalid characters"@,
    ).noted(
        "These characters are invalid in a file name: ['\"', '>', '<', '|', ':', '*', '?', '\\\\', '/']"@,
    )
}

/// What the first `n` test cases of a file add to the messages.
pub open spec fn testcases_checked(file: ParsedView, n: int, e: Emitting) -> Emitting
    decreases n,
{
    if n <= 0 {
        e
    } else {
        let before = testcases_checked(file, n - 1, e);
        if has_invalid(file.testcases[n - 1].name) {
            emitted(before, testname_message(file, n - 1))
        } else {
            before
        }
    }
}

/// What the first `n` files add to the messages: the test cases of the
/// files that log into files, those with a name that cannot be a file
/// name.
pub open spec fn testnames_checked(files: Seq<Unit>, n: int, e: Emitting) -> Emitting
    decreases n,
{
    if n <= 0 {
        e
    } else {
        let before = testnames_checked(files, n - 1, e);
        if logs_to_files(files[n - 1].file) {
            testcases_checked(files[n - 1].file, files[n - 1].file.testcases.len() as int, before)
        } else {
            before
        }
    }
}

/// Whether the name holds a character that cannot stand in a file name.
pub fn is_invalid_testname(name: &str) -> (r: bool)
    ensures
        r == has_invalid(name@),
{
    let chars = chars_of(name);
    let mut i: usize = 0;
    while i < chars.len()
        invariant
            chars@ == name@,
            i <= chars@.len(),
            forall|k: int| 0 <= k < i ==> !invalid_in_file_name(#[trigger] name@[k]),
        decreases chars@.len() - i,
    {
        let c = chars[i];
        if c == '"' || c == '>' || c == '<' || c == '|' || c == ':' || c == '*' || c == '?' || c
            == '\\' || c == '/' {
            return true;
        }
        i = i + 1;
    }
    false
}

/// Whether the file sets up logging into files named after test cases.
fn uses_pester_logger(file: &Parsed) -> (r: bool)
    ensures
        r == logs_to_files(file@),
{
    let mut i: usize = 0;
    while i < file.usages.len()
        invariant
            i <= file.usages@.len(),
            forall|k: int| 0 <= k < i ==> !uses_logger(#[trigger] file@.usages[k]),
        decreases file.usages@.len() - i,
    {
        let usage = &file.usages[i];
        assert(file@.usages[i as int] == usage@);
        if usage.item.is_function() && str_equal(usage.item.name.as_str(), "Initialize-PesterLogger") {
            return true;
        }
        i = i + 1;
    }
    false
}

/// Reports the test cases whose names cannot be file names, in the files
/// that log into files named after test cases.
pub fn analyze(files: &Vec<(String, Parsed)>, emitter: &mut Emitter)
    ensures
        final(emitter)@ == testnames_checked(
            project_of(files@),
            files@.len() as int,
            old(emitter)@,
        ),
{
    let ghost project = project_of(files@);
    let mut g: usize = 0;
    while g < files.len()
        invariant
            project == project_of(files@),
            g <= files@.len(),
            emitter@ == testnames_checked(project, g as int, old(emitter)@),
        decreases files@.len() - g,
    {
        let file = &files[g].1;
        assert(project[g as int].file == file@);
        if uses_pester_logger(file) {
            let ghost from = emitter@;
            let mut k: usize = 0;
            while k < file.testcases.len()
                invariant
                    k <= file.testcases@.len(),
                    emitter@ == testcases_checked(file@, k as int, from),
                decreases file.testcases@.len() - k,
            {
                let testcase = &file.testcases[k];
                assert(file@.testcases[k as int] == testcase@);
                if is_invalid_testname(testcase.name.as_str()) {
                    testcase.span.in_file(file).lint(
                        Lint::InvalidTestnameCharacters,
                        "testname contains invalid characters",
                    ).note(
                        "These characters are invalid in a file name: ['\"', '>', '<', '|', ':', '*', '?', '\\\\', '/']",
                    ).emit(emitter);
                }
                k = k + 1;
            }
        }
        g = g + 1;
    }
}

} // verus!
