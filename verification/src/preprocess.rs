//! A parsed file together with what its imports turned out to be.

use vstd::prelude::*;
use vstd::string::*;
use crate::lint::{emitted, message_at, Emitter, Emitting, Lint, Message};
use crate::syntax::v2::Failure;
use crate::syntax::{
    definitions_of, extracted, usages_of, Definition, File, FileView, Import, ImportView, Importee, ItemKind,
    Occurrence, Testcase, TestcaseView, Usage,
};
use crate::syntax::v2::muncher::Span;
use crate::text::{
    byte_len, chars_of, lemma_offset_boundary, lemma_offset_monotone, lemma_offset_step, offset_of,
    substring, width_of,
};
use crate::{place_of, Location};

verus! {

/// Parsed and preprocessed source file
#[derive(Debug, Default)]
pub struct Parsed {
    /// The imports, each under the canonical path of the file that it
    /// brings in; no path comes twice.
    pub imports: Vec<(String, Import)>,
    pub definitions: Vec<Definition>,
    pub usages: Vec<Usage>,
    pub testcases: Vec<Testcase>,
    pub source: String,
    /// Original, non-resolved path, relative to PWD. Used for error
    /// reporting.
    pub original_path: String,
}

#[derive(Debug)]
pub enum PreprocessOutput {
    /// Parsed and preprocessed file
    Valid(Parsed),
    /// A file can't be preprocessed since it contains invalid imports
    InvalidImports,
    /// A file can't be preprocessed since it contains syntax errors
    SyntaxErrors,
}

/// A preprocessed file as a plain value.
pub struct ParsedView {
    pub imports: Seq<(Seq<char>, ImportView)>,
    pub definitions: Seq<Occurrence>,
    pub usages: Seq<Occurrence>,
    pub testcases: Seq<TestcaseView>,
    pub source: Seq<char>,
    pub original_path: Seq<char>,
}

/// The imports of a list as plain values.
pub open spec fn imports_of(list: Seq<(String, Import)>) -> Seq<(Seq<char>, ImportView)> {
    list.map_values(|entry: (String, Import)| (entry.0@, entry.1@))
}

/// True of the definitions that a file is imported for: functions and
/// classes, not what the analysis adds.
pub open spec fn is_real(definition: Occurrence) -> bool {
    definition.item.kind == ItemKind::Function || definition.item.kind == ItemKind::Class
}

/// The functions and classes among the first `n` of `definitions`.
pub open spec fn real_definitions(definitions: Seq<Occurrence>, n: int) -> Seq<Occurrence>
    decreases n,
{
    if n <= 0 {
        Seq::empty()
    } else if is_real(definitions[n - 1]) {
        real_definitions(definitions, n - 1).push(definitions[n - 1])
    } else {
        real_definitions(definitions, n - 1)
    }
}

impl View for Parsed {
    type V = ParsedView;

    open spec fn view(&self) -> ParsedView {
        ParsedView {
            imports: imports_of(self.imports@),
            definitions: definitions_of(self.definitions@),
            usages: usages_of(self.usages@),
            testcases: self.testcases@.map_values(|t: Testcase| t@),
            source: self.source@,
            original_path: self.original_path@,
        }
    }
}

impl ParsedView {
    /// True of a file that defines no function and no class.
    pub open spec fn defines_nothing(self) -> bool {
        forall|i: int| 0 <= i < self.definitions.len() ==> !is_real(#[trigger] self.definitions[i])
    }

    /// True of a file that exists only to hand on what it imports: one that
    /// defines no function and no class.
    pub open spec fn is_import_bag(self) -> bool {
        self.defines_nothing()
    }
}

/// Among the first `n` definitions there is no function and no class just
/// when none is found among them.
proof fn lemma_none_real(definitions: Seq<Occurrence>, n: int)
    requires
        0 <= n <= definitions.len(),
    ensures
        real_definitions(definitions, n).len() == 0 <==> (forall|i: int|
            0 <= i < n ==> !is_real(#[trigger] definitions[i])),
    decreases n,
{
    if n > 0 {
        lemma_none_real(definitions, n - 1);
        if is_real(definitions[n - 1]) {
            assert(real_definitions(definitions, n).len() > 0);
        }
    }
}

/// A file is an import bag just when it holds no function and no class
/// among its definitions, whatever else it holds.
pub proof fn law_import_bag_defines_nothing(file: ParsedView)
    ensures
        file.is_import_bag() <==> real_definitions(
            file.definitions,
            file.definitions.len() as int,
        ).len() == 0,
{
    lemma_none_real(file.definitions, file.definitions.len() as int);
}

impl Parsed {
    /// The functions and classes that the file defines.
    pub fn functions_and_classes(&self) -> (found: Vec<&Definition>)
        ensures
            found@.map_values(|d: &Definition| d@) == real_definitions(
                self@.definitions,
                self@.definitions.len() as int,
            ),
            found@.len() == 0 <==> self@.is_import_bag(),
    {
        proof {
            law_import_bag_defines_nothing(self@);
        }
        let mut found: Vec<&Definition> = Vec::new();
        let ghost all = self@.definitions;
        let mut i: usize = 0;
        proof {
            assert(found@.map_values(|d: &Definition| d@) =~= Seq::<Occurrence>::empty());
        }
        while i < self.definitions.len()
            invariant
                all == self@.definitions,
                all.len() == self.definitions@.len(),
                i <= self.definitions@.len(),
                found@.map_values(|d: &Definition| d@) == real_definitions(all, i as int),
            decreases self.definitions@.len() - i,
        {
            let definition = &self.definitions[i];
            proof {
                assert(all[i as int] == definition@);
            }
            if definition.item.is_function() || definition.item.is_class() {
                assert(found@.push(definition).map_values(|d: &Definition| d@)
                    =~= found@.map_values(|d: &Definition| d@).push(definition@));
                found.push(definition);
            }
            i = i + 1;
        }
        found
    }

    /// Whether the file exists only to hand on what it imports.
    pub fn is_import_bag(&self) -> (r: bool)
        ensures
            r == self@.is_import_bag(),
    {
        self.defines_nothing()
    }

    /// Whether the file defines no function and no class.
    pub fn defines_nothing(&self) -> (r: bool)
        ensures
            r == self@.defines_nothing(),
    {
        let mut i: usize = 0;
        while i < self.definitions.len()
            invariant
                i <= self.definitions@.len(),
                forall|k: int| 0 <= k < i ==> !is_real(#[trigger] self@.definitions[k]),
            decreases self.definitions@.len() - i,
        {
            let definition = &self.definitions[i];
            assert(self@.definitions[i as int] == definition@);
            if definition.item.is_function() || definition.item.is_class() {
                return false;
            }
            i = i + 1;
        }
        true
    }
}

impl Span {
    /// The location of this span in the file `parsed`.
    pub fn in_file(&self, parsed: &Parsed) -> (l: Location)
        ensures
            l@ == place_of(*self, parsed@.original_path, parsed@.source),
    {
        self.in_file_source(parsed.original_path.as_str(), parsed.source.as_str())
    }
}

/// The text without the byte order marks that it starts with.
pub open spec fn without_bom(text: Seq<char>) -> Seq<char>
    decreases text.len(),
{
    if text.len() > 0 && text[0] == '\u{feff}' {
        without_bom(text.drop_first())
    } else {
        text
    }
}

/// Takes the byte order marks from the start of a text.
pub fn strip_bom<'a>(source: &'a str) -> (r: &'a str)
    ensures
        r@ == without_bom(source@),
{
    let chars = chars_of(source);
    let total = source.as_bytes().len();
    let mut k: usize = 0;
    let mut off: usize = 0;
    proof {
        lemma_offset_monotone(chars@, 0, 0);
        assert(chars@.skip(0) =~= chars@);
        assert(chars@.take(0) =~= Seq::<char>::empty());
    }
    while k < chars.len() && chars[k] == '\u{feff}'
        invariant
            chars@ == source@,
            total == byte_len(source@),
            k <= chars@.len(),
            off == offset_of(chars@, k as int),
            without_bom(chars@.skip(k as int)) == without_bom(chars@),
        decreases chars@.len() - k,
    {
        proof {
            lemma_offset_step(chars@, k as int);
            lemma_offset_monotone(chars@, k + 1, chars@.len() as int);
            assert(width_of('\u{feff}') == 3) by {
                assert(vstd::utf8::encode_scalar('\u{feff}' as u32).len() == 3);
            }
            assert(chars@.skip(k as int).drop_first() =~= chars@.skip(k + 1));
        }
        off = off + 3;
        k = k + 1;
    }
    proof {
        lemma_offset_boundary(chars@, k as int);
        lemma_offset_boundary(chars@, chars@.len() as int);
        lemma_offset_monotone(chars@, k as int, chars@.len() as int);
        crate::text::lemma_text_between(chars@, k as int, chars@.len() as int);
        assert(chars@.subrange(k as int, chars@.len() as int) =~= chars@.skip(k as int));
    }
    substring(source, off, total)
}

/// The digit for a number below ten.
pub open spec fn digit_of(d: nat) -> char {
    if d == 0 {
        '0'
    } else if d == 1 {
        '1'
    } else if d == 2 {
        '2'
    } else if d == 3 {
        '3'
    } else if d == 4 {
        '4'
    } else if d == 5 {
        '5'
    } else if d == 6 {
        '6'
    } else if d == 7 {
        '7'
    } else if d == 8 {
        '8'
    } else {
        '9'
    }
}

/// The number in decimal digits.
pub open spec fn decimal(n: nat) -> Seq<char>
    decreases n,
{
    if n < 10 {
        seq![digit_of(n)]
    } else {
        decimal(n / 10).push(digit_of(n % 10))
    }
}

/// Writes the number behind what `s` holds, in decimal digits.
pub fn push_decimal(s: &mut String, n: u32)
    ensures
        final(s)@ == old(s)@ + decimal(n as nat),
    decreases n,
{
    if n >= 10 {
        push_decimal(s, n / 10);
    }
    let d = n % 10;
    let c = if d == 0 {
        '0'
    } else if d == 1 {
        '1'
    } else if d == 2 {
        '2'
    } else if d == 3 {
        '3'
    } else if d == 4 {
        '4'
    } else if d == 5 {
        '5'
    } else if d == 6 {
        '6'
    } else if d == 7 {
        '7'
    } else if d == 8 {
        '8'
    } else {
        '9'
    };
    s.push(c);
    proof {
        if n >= 10 {
            assert(s@ =~= old(s)@ + decimal(n as nat));
        } else {
            assert(s@ =~= old(s)@ + decimal(n as nat));
        }
    }
}

/// The message that a file could not be parsed.
pub open spec fn syntax_message(path: Seq<char>, source: Seq<char>, e: Failure) -> Message {
    message_at(
        place_of(Span { start: e.where_, end: e.where_ }, path, source),
        Lint::SyntaxErrors,
        "syntax error: "@ + e.what,
    ).noted("Column "@ + decimal(e.where_.col as nat)).noted(
        "If this is valid PowerShell syntax, please file an issue"@,
    )
}

/// Parses a file for further analysis. A file that cannot be parsed gives
/// a message and nothing else. The imports of a file that can are still to
/// be looked up: see `resolve_imports`.
pub fn parse_and_preprocess(path: &str, source: &str, emitter: &mut Emitter) -> (r: Option<File>)
    requires
        byte_len(source@) <= u32::MAX,
    ensures
        match extracted(source@) {
            Ok(file) => r matches Some(got) && got@ == file && final(emitter)@ == old(emitter)@,
            Err(e) => r is None && final(emitter)@ == emitted(
                old(emitter)@,
                syntax_message(path@, source@, e),
            ),
        },
{
    match crate::syntax::parse(source) {
        Ok(file) => Some(file),
        Err(e) => {
            let text = String::from_str("syntax error: ").concat(e.what.as_str());
            let mut column = String::from_str("Column ");
            push_decimal(&mut column, e.where_.col as u32);
            e.where_.to_span().in_file_source(path, source).lint(
                Lint::SyntaxErrors,
                text.as_str(),
            ).note(column.as_str()).note(
                "If this is valid PowerShell syntax, please file an issue",
            ).emit(emitter);
            None
        },
    }
}

/// True when the mark of a test file, `.Tests`, stands at position `i` of
/// `name`.
pub open spec fn test_mark_at(name: Seq<char>, i: int) -> bool {
    &&& 0 <= i
    &&& i + 6 <= name.len()
    &&& name[i] == '.'
    &&& name[i + 1] == 'T'
    &&& name[i + 2] == 'e'
    &&& name[i + 3] == 's'
    &&& name[i + 4] == 't'
    &&& name[i + 5] == 's'
}

/// What is left of `name` from position `i` on when each `.Tests` is taken
/// out, read from the left.
pub open spec fn without_test_marks(name: Seq<char>, i: int) -> Seq<char>
    decreases name.len() - i,
{
    if i < 0 || i >= name.len() {
        Seq::empty()
    } else if test_mark_at(name, i) {
        without_test_marks(name, i + 6)
    } else {
        seq![name[i]] + without_test_marks(name, i + 1)
    }
}

/// The name of the file that a test file tests: the name of the test file
/// without its `.Tests`.
pub fn sut_name(name: &str) -> (r: String)
    ensures
        r@ == without_test_marks(name@, 0),
{
    let chars = chars_of(name);
    let n = chars.len();
    let mut out = String::new();
    let mut i: usize = 0;
    while i < n
        invariant
            n == chars@.len(),
            chars@ == name@,
            i <= n,
            out@ + without_test_marks(chars@, i as int) == without_test_marks(chars@, 0),
        decreases n - i,
    {
        if n - i >= 6 && chars[i] == '.' && chars[i + 1] == 'T' && chars[i + 2] == 'e' && chars[i
            + 3] == 's' && chars[i + 4] == 't' && chars[i + 5] == 's' {
            i = i + 6;
        } else {
            assert(out@.push(chars@[i as int]) + without_test_marks(chars@, i + 1) =~= out@ + (
                seq![chars@[i as int]] + without_test_marks(chars@, i + 1)));
            out.push(chars[i]);
            i = i + 1;
        }
    }
    assert(out@ + Seq::<char>::empty() =~= out@);
    out
}

/// What looking up an import gave: the canonical path of the file that it
/// names, or, where there is no such file, the path that was tried.
pub type Resolution = Result<String, String>;

/// What a lookup gave, as a plain value.
pub open spec fn lookup_of(r: Resolution) -> Result<Seq<char>, Seq<char>> {
    match r {
        Ok(path) => Ok(path@),
        Err(path) => Err(path@),
    }
}

/// The imports with their lookups as plain values.
pub open spec fn lookups_of(list: Seq<(Import, Resolution)>) -> Seq<
    (ImportView, Result<Seq<char>, Seq<char>>),
> {
    list.map_values(|entry: (Import, Resolution)| (entry.0@, lookup_of(entry.1)))
}

/// The place of the first import from `i` on that stands under `path`.
pub open spec fn import_under(imports: Seq<(Seq<char>, ImportView)>, path: Seq<char>, i: int)
    -> Option<int>
    decreases imports.len() - i,
{
    if 0 <= i < imports.len() {
        if imports[i].0 == path {
            Some(i)
        } else {
            import_under(imports, path, i + 1)
        }
    } else {
        None
    }
}

/// The imports with `import` under `path`: in the place of the import
/// that stood under that path, or at the end.
pub open spec fn with_import(
    imports: Seq<(Seq<char>, ImportView)>,
    path: Seq<char>,
    import: ImportView,
) -> Seq<(Seq<char>, ImportView)> {
    match import_under(imports, path, 0) {
        Some(i) => imports.update(i, (path, import)),
        None => imports.push((path, import)),
    }
}

/// The message that an import has a form that is not understood.
pub open spec fn unrecognized_message(path: Seq<char>, source: Seq<char>, import: ImportView)
    -> Message {
    message_at(
        place_of(import.span, path, source),
        Lint::UnrecognizedImports,
        "unrecognized import statement"@,
    ).noted("Note: Recognized imports are `$PSScriptRoot\\..` or `$here\\$sut`"@)
}

/// The message that an import names a file that is not there.
pub open spec fn nonexisting_message(
    path: Seq<char>,
    source: Seq<char>,
    import: ImportView,
    tried: Seq<char>,
) -> Message {
    message_at(place_of(import.span, path, source), Lint::NonexistingImports, "invalid import"@).noted(
        "File not found: "@ + tried,
    )
}

/// How far the imports of a file are resolved.
pub struct Resolving {
    /// The imports whose files were found, each under the path of its file
    pub imports: Seq<(Seq<char>, ImportView)>,
    /// True when the file of an import was not found
    pub failed: bool,
    pub emitter: Emitting,
}

/// What the imports from `i` on add: an import of a form that is not
/// understood gives a message and is left out; one whose file was found
/// goes under the path of that file; one whose file was not found gives a
/// message and makes the whole fail.
pub open spec fn resolved_from(
    path: Seq<char>,
    source: Seq<char>,
    entries: Seq<(ImportView, Result<Seq<char>, Seq<char>>)>,
    i: int,
    r: Resolving,
) -> Resolving
    decreases entries.len() - i,
{
    if 0 <= i < entries.len() {
        let (import, found) = entries[i];
        let next = if import.importee is Unrecognized {
            Resolving { emitter: emitted(r.emitter, unrecognized_message(path, source, import)), ..r }
        } else {
            match found {
                Ok(canonical) => Resolving {
                    imports: with_import(r.imports, canonical, import),
                    ..r
                },
                Err(tried) => Resolving {
                    failed: true,
                    emitter: emitted(
                        r.emitter,
                        nonexisting_message(path, source, import, tried),
                    ),
                    ..r
                },
            }
        };
        resolved_from(path, source, entries, i + 1, next)
    } else {
        r
    }
}

/// Puts an import under the path of its file.
fn put_import(imports: &mut Vec<(String, Import)>, path: String, import: Import)
    ensures
        imports_of(final(imports)@) == with_import(imports_of(old(imports)@), path@, import@),
{
    let ghost before = imports_of(imports@);
    let mut i: usize = 0;
    while i < imports.len()
        invariant
            before == imports_of(imports@),
            imports@ == old(imports)@,
            i <= imports@.len(),
            import_under(before, path@, i as int) == import_under(before, path@, 0),
        decreases imports@.len() - i,
    {
        assert(before[i as int] == (imports@[i as int].0@, imports@[i as int].1@));
        if imports[i].0 == path {
            imports.set(i, (path, import));
            assert(imports_of(imports@) =~= before.update(i as int, (path@, import@)));
            return ;
        }
        i = i + 1;
    }
    imports.push((path, import));
    assert(imports_of(imports@) =~= before.push((path@, import@)));
}

/// Verifies imports and files them under the canonical paths of their
/// files, as the lookups in `imports` give them.
///
/// Returns None if the file of any import was not found.
pub fn resolve_imports(
    source: &str,
    source_path: &str,
    imports: Vec<(Import, Resolution)>,
    emitter: &mut Emitter,
) -> (r: Option<Vec<(String, Import)>>)
    ensures
        ({
            let done = resolved_from(
                source_path@,
                source@,
                lookups_of(imports@),
                0,
                Resolving { imports: Seq::empty(), failed: false, emitter: old(emitter)@ },
            );
            &&& final(emitter)@ == done.emitter
            &&& match r {
                Some(resolved) => !done.failed && imports_of(resolved@) == done.imports,
                None => done.failed,
            }
        }),
{
    let ghost entries = lookups_of(imports@);
    let ghost goal = resolved_from(
        source_path@,
        source@,
        entries,
        0,
        Resolving { imports: Seq::empty(), failed: false, emitter: emitter@ },
    );
    let mut import_error = false;
    let mut resolved_imports: Vec<(String, Import)> = Vec::new();
    assert(imports_of(resolved_imports@) =~= Seq::<(Seq<char>, ImportView)>::empty());
    let mut rest = crate::syntax::v2::stream::Stream::new(imports);
    let ghost all = rest@;
    let ghost mut i: int = 0;
    assert(all.skip(0) =~= all);
    loop
        invariant_except_break
            entries == lookups_of(all),
            0 <= i <= all.len(),
            rest@ == all.skip(i),
            resolved_from(
                source_path@,
                source@,
                entries,
                i,
                Resolving {
                    imports: imports_of(resolved_imports@),
                    failed: import_error,
                    emitter: emitter@,
                },
            ) == goal,
        ensures
            goal == (Resolving {
                imports: imports_of(resolved_imports@),
                failed: import_error,
                emitter: emitter@,
            }),
        decreases all.len() - i,
    {
        let (import, found) = match rest.pop_front() {
            Some(entry) => entry,
            None => {
                break ;
            },
        };
        proof {
            assert(entries[i] == (all[i].0@, lookup_of(all[i].1)));
            assert(rest@ =~= all.skip(i + 1));
            i = i + 1;
        }
        match &import.importee {
            Importee::Unrecognized(_) => {
                // An unrecognized import is no error: stopping here would
                // hide what else is wrong with the file.
                import.span.in_file_source(source_path, source).lint(
                    Lint::UnrecognizedImports,
                    "unrecognized import statement",
                ).note("Note: Recognized imports are `$PSScriptRoot\\..` or `$here\\$sut`").emit(
                    emitter,
                );
            },
            _ => match found {
                Ok(canonical) => {
                    put_import(&mut resolved_imports, canonical, import);
                },
                Err(tried) => {
                    import_error = true;
                    let note = String::from_str("File not found: ").concat(tried.as_str());
                    import.span.in_file_source(source_path, source).lint(
                        Lint::NonexistingImports,
                        "invalid import",
                    ).note(note.as_str()).emit(emitter);
                },
            },
        }
    }
    if import_error {
        None
    } else {
        Some(resolved_imports)
    }
}

/// True when no two of the imports stand under the same path.
pub open spec fn no_path_twice(imports: Seq<(Seq<char>, ImportView)>) -> bool {
    forall|i: int, j: int|
        0 <= i < j < imports.len() ==> (#[trigger] imports[i]).0 != (#[trigger] imports[j]).0
}

proof fn lemma_import_under(imports: Seq<(Seq<char>, ImportView)>, path: Seq<char>, i: int)
    requires
        0 <= i <= imports.len(),
    ensures
        match import_under(imports, path, i) {
            Some(k) => i <= k < imports.len() && imports[k].0 == path,
            None => forall|j: int| i <= j < imports.len() ==> (#[trigger] imports[j]).0 != path,
        },
    decreases imports.len() - i,
{
    if i < imports.len() && imports[i].0 != path {
        lemma_import_under(imports, path, i + 1);
    }
}

proof fn lemma_with_import_unique(
    imports: Seq<(Seq<char>, ImportView)>,
    path: Seq<char>,
    import: ImportView,
)
    requires
        no_path_twice(imports),
    ensures
        no_path_twice(with_import(imports, path, import)),
{
    lemma_import_under(imports, path, 0);
    let next = with_import(imports, path, import);
    assert forall|i: int, j: int| 0 <= i < j < next.len() implies (#[trigger] next[i]).0 != (
    #[trigger] next[j]).0 by {
        match import_under(imports, path, 0) {
            Some(k) => {
                assert(next[i].0 == imports[i].0);
                assert(next[j].0 == imports[j].0);
            },
            None => {
                if j < imports.len() {
                    assert(next[i] == imports[i]);
                    assert(next[j] == imports[j]);
                } else {
                    assert(next[i] == imports[i]);
                }
            },
        }
    }
}

/// No path comes twice among the imports that were resolved: of two
/// imports of one file the later one stands for both.
pub proof fn law_resolved_paths_are_unique(
    path: Seq<char>,
    source: Seq<char>,
    entries: Seq<(ImportView, Result<Seq<char>, Seq<char>>)>,
    i: int,
    r: Resolving,
)
    requires
        0 <= i,
        no_path_twice(r.imports),
    ensures
        no_path_twice(resolved_from(path, source, entries, i, r).imports),
    decreases entries.len() - i,
{
    if i < entries.len() {
        let (import, found) = entries[i];
        let next = if import.importee is Unrecognized {
            Resolving { emitter: emitted(r.emitter, unrecognized_message(path, source, import)), ..r }
        } else {
            match found {
                Ok(canonical) => {
                    lemma_with_import_unique(r.imports, canonical, import);
                    Resolving { imports: with_import(r.imports, canonical, import), ..r }
                },
                Err(tried) => Resolving {
                    failed: true,
                    emitter: emitted(
                        r.emitter,
                        nonexisting_message(path, source, import, tried),
                    ),
                    ..r
                },
            }
        };
        law_resolved_paths_are_unique(path, source, entries, i + 1, next);
    }
}

/// What a parsed file becomes once its imports were looked up: a file
/// that can be analyzed, with what the file holds and its imports under
/// the paths of their files, unless the file of an import was not found.
pub open spec fn preprocessed(
    path: Seq<char>,
    source: Seq<char>,
    file: FileView,
    lookups: Seq<(ImportView, Result<Seq<char>, Seq<char>>)>,
    e: Emitting,
) -> (Option<ParsedView>, Emitting) {
    let done = resolved_from(
        path,
        source,
        lookups,
        0,
        Resolving { imports: Seq::empty(), failed: false, emitter: e },
    );
    (
        if done.failed {
            None
        } else {
            Some(
                ParsedView {
                    imports: done.imports,
                    definitions: file.definitions,
                    usages: file.usages,
                    testcases: file.testcases,
                    source,
                    original_path: path,
                },
            )
        },
        done.emitter,
    )
}

/// Puts together a parsed file and what looking up its imports gave. The
/// imports are taken from `lookups`, each with its lookup.
pub fn preprocess(
    path: &str,
    source: &str,
    file: File,
    lookups: Vec<(Import, Resolution)>,
    emitter: &mut Emitter,
) -> (r: PreprocessOutput)
    ensures
        ({
            let (parsed, e) = preprocessed(
                path@,
                source@,
                file@,
                lookups_of(lookups@),
                old(emitter)@,
            );
            &&& final(emitter)@ == e
            &&& match parsed {
                Some(view) => r matches PreprocessOutput::Valid(got) && got@ == view,
                None => r is InvalidImports,
            }
        }),
{
    match resolve_imports(source, path, lookups, emitter) {
        Some(imports) => PreprocessOutput::Valid(
            Parsed {
                imports,
                definitions: file.definitions,
                usages: file.usages,
                testcases: file.testcases,
                source: source.to_owned(),
                original_path: path.to_owned(),
            },
        ),
        None => PreprocessOutput::InvalidImports,
    }
}

} // verus!
