//! What is in scope in each file: its own definitions and those of the
//! files that it imports, directly or through other files.

pub mod laws;

use vstd::prelude::*;
use vstd::string::*;
use crate::config::ConfigFile;
use crate::foreign::{fold_case, folded};
use crate::lint::{emitted, message_at, Emitter, Emitting, Lint, Message};
use crate::place_of;
use crate::preprocess::{Parsed, ParsedView};
use crate::syntax::{Item, ItemKind, Occurrence, Usage};

verus! {

/// A function, class etc. defined in some file
#[derive(Debug, Copy, Clone, PartialEq, Eq, Structural)]
pub struct DefinedItem {
    /// The number of the file that holds the definition, among the files
    /// of the project
    pub origin: usize,
    /// The number of the definition among the definitions of that file
    pub definition: usize,
}

/// Type of function found in scope
#[derive(Debug, Copy, Clone, PartialEq, Eq, Structural)]
pub enum Found {
    /// Found in current file or directly imported files
    Direct,
    /// Indirectly imported (through multiple layers of `.`)
    Indirect,
}

/// One name in a scope: the name with its case folded, the kind of item
/// that it names, and the definition that stands for it.
#[derive(Debug, Clone)]
pub struct Entry {
    pub name: String,
    pub kind: ItemKind,
    pub item: DefinedItem,
}

/// An entry as a plain value.
pub struct Slot {
    pub name: Seq<char>,
    pub kind: ItemKind,
    pub item: DefinedItem,
}

impl View for Entry {
    type V = Slot;

    open spec fn view(&self) -> Slot {
        Slot { name: self.name@, kind: self.kind, item: self.item }
    }
}

/// The entries of a list as plain values.
pub open spec fn slots_of(entries: Seq<Entry>) -> Seq<Slot> {
    entries.map_values(|e: Entry| e@)
}

/// Functions in scope
#[derive(Debug, Clone)]
pub struct Scope {
    /// All the items in scope, no name twice for one kind
    pub items: Vec<Entry>,
    /// Files directly imported by `.`
    pub direct_imports: Vec<usize>,
    /// Current file
    pub current_file: usize,
}

/// A scope as a plain value.
pub struct ScopeView {
    pub items: Seq<Slot>,
    pub direct: Seq<usize>,
    pub file: usize,
}

impl View for Scope {
    type V = ScopeView;

    open spec fn view(&self) -> ScopeView {
        ScopeView {
            items: slots_of(self.items@),
            direct: self.direct_imports@,
            file: self.current_file,
        }
    }
}

/// The place of the first slot from `i` on that holds `name` for `kind`.
pub open spec fn find(items: Seq<Slot>, name: Seq<char>, kind: ItemKind, i: int) -> Option<int>
    decreases items.len() - i,
{
    if 0 <= i < items.len() {
        if items[i].name == name && items[i].kind == kind {
            Some(i)
        } else {
            find(items, name, kind, i + 1)
        }
    } else {
        None
    }
}

/// The definition that `name`, a folded name, stands for as a `kind`.
pub open spec fn lookup(items: Seq<Slot>, name: Seq<char>, kind: ItemKind) -> Option<DefinedItem> {
    match find(items, name, kind, 0) {
        Some(i) => Some(items[i].item),
        None => None,
    }
}

/// The items with `slot` in them: in the place of the slot of its name and
/// kind, or at the end where there was none.
pub open spec fn with_slot(items: Seq<Slot>, slot: Slot) -> Seq<Slot> {
    match find(items, slot.name, slot.kind, 0) {
        Some(i) => items.update(i, slot),
        None => items.push(slot),
    }
}

/// The items with `slot`, which an imported file brings, taken in: it gives
/// way only to a slot of its name whose definition stands in a directly
/// imported file while its own does not.
pub open spec fn absorbed(items: Seq<Slot>, slot: Slot, direct: Seq<usize>) -> Seq<Slot> {
    match find(items, slot.name, slot.kind, 0) {
        Some(i) => if direct.contains(items[i].item.origin) && !direct.contains(
            slot.item.origin,
        ) {
            items
        } else {
            items.update(i, slot)
        },
        None => items.push(slot),
    }
}

/// The items with all of `nested` from `j` on taken in.
pub open spec fn absorbed_all(items: Seq<Slot>, nested: Seq<Slot>, j: int, direct: Seq<usize>)
    -> Seq<Slot>
    decreases nested.len() - j,
{
    if 0 <= j < nested.len() {
        absorbed_all(absorbed(items, nested[j], direct), nested, j + 1, direct)
    } else {
        items
    }
}

/// The slot that the definition number `j` of the file number `file` fills.
pub open spec fn own_slot(definition: Occurrence, file: usize, j: usize) -> Slot {
    Slot {
        name: folded(definition.item.name),
        kind: definition.item.kind,
        item: DefinedItem { origin: file, definition: j },
    }
}

/// The items with the definitions of the file itself from `j` on put in;
/// these win over whatever was there.
pub open spec fn with_own(items: Seq<Slot>, definitions: Seq<Occurrence>, file: usize, j: int)
    -> Seq<Slot>
    decreases definitions.len() - j,
{
    if 0 <= j < definitions.len() {
        with_own(
            with_slot(items, own_slot(definitions[j], file, j as usize)),
            definitions,
            file,
            j + 1,
        )
    } else {
        items
    }
}

impl Scope {
    /// The place of the entry for `name`, a folded name, as a `kind`.
    pub fn position(&self, name: &str, kind: ItemKind) -> (r: Option<usize>)
        ensures
            match r {
                Some(i) => find(self@.items, name@, kind, 0) == Some(i as int) && i
                    < self.items@.len(),
                None => find(self@.items, name@, kind, 0) is None,
            },
    {
        position_in(&self.items, name, kind)
    }

    /// Looks an item up, whatever the case of the letters of its name.
    pub fn search(&self, item: &Item<&str>) -> (r: Option<(Found, DefinedItem)>)
        ensures
            r == searched(self@, item.name@, item.kind),
    {
        let key = fold_case(item.name);
        self.search_folded(key.as_str(), item.kind)
    }

    /// Looks up the item of which `key` is the folded name.
    pub fn search_folded(&self, key: &str, kind: ItemKind) -> (r: Option<(Found, DefinedItem)>)
        ensures
            r == found_under(self@, key@, kind),
    {
        match self.position(key, kind) {
            Some(i) => {
                let found = self.items[i].item;
                assert(self@.items[i as int] == self.items@[i as int]@);
                if found.origin == self.current_file || contains(
                    &self.direct_imports,
                    found.origin,
                ) {
                    Some((Found::Direct, found))
                } else {
                    Some((Found::Indirect, found))
                }
            },
            None => None,
        }
    }
}

/// What stands in a scope under `key`, a folded name, as a `kind`, and
/// whether it stands in the file itself or in a file that it imports
/// directly.
pub open spec fn found_under(scope: ScopeView, key: Seq<char>, kind: ItemKind) -> Option<
    (Found, DefinedItem),
> {
    match lookup(scope.items, key, kind) {
        Some(item) => if item.origin == scope.file || scope.direct.contains(item.origin) {
            Some((Found::Direct, item))
        } else {
            Some((Found::Indirect, item))
        },
        None => None,
    }
}

/// What a search for `name` as a `kind` finds in a scope, whatever the
/// case of the letters of `name`.
pub open spec fn searched(scope: ScopeView, name: Seq<char>, kind: ItemKind) -> Option<
    (Found, DefinedItem),
> {
    found_under(scope, folded(name), kind)
}

/// Whether `list` holds `x`.
pub fn contains(list: &Vec<usize>, x: usize) -> (r: bool)
    ensures
        r == list@.contains(x),
{
    let mut i: usize = 0;
    while i < list.len()
        invariant
            i <= list@.len(),
            forall|k: int| 0 <= k < i ==> list@[k] != x,
        decreases list@.len() - i,
    {
        if list[i] == x {
            return true;
        }
        i = i + 1;
    }
    false
}

/// The place of the entry for `name`, a folded name, as a `kind`.
pub fn position_in(items: &Vec<Entry>, name: &str, kind: ItemKind) -> (r: Option<usize>)
    ensures
        match r {
            Some(i) => find(slots_of(items@), name@, kind, 0) == Some(i as int) && i < items@.len(),
            None => find(slots_of(items@), name@, kind, 0) is None,
        },
{
    let ghost slots = slots_of(items@);
    let mut i: usize = 0;
    while i < items.len()
        invariant
            slots == slots_of(items@),
            i <= items@.len(),
            find(slots, name@, kind, i as int) == find(slots, name@, kind, 0),
        decreases items@.len() - i,
    {
        assert(slots[i as int] == items@[i as int]@);
        if items[i].kind == kind && crate::text::str_equal(items[i].name.as_str(), name) {
            return Some(i);
        }
        i = i + 1;
    }
    None
}

/// Puts an entry in: in the place of the one of its name and kind, or at
/// the end.
pub fn put(items: &mut Vec<Entry>, entry: Entry)
    ensures
        slots_of(final(items)@) == with_slot(slots_of(old(items)@), entry@),
{
    let ghost before = slots_of(items@);
    match position_in(items, entry.name.as_str(), entry.kind) {
        Some(i) => {
            items.set(i, entry);
            assert(slots_of(items@) =~= before.update(i as int, entry@));
        },
        None => {
            items.push(entry);
            assert(slots_of(items@) =~= before.push(entry@));
        },
    }
}

/// Takes in an entry that an imported file brings.
pub fn absorb(items: &mut Vec<Entry>, entry: &Entry, direct: &Vec<usize>)
    ensures
        slots_of(final(items)@) == absorbed(slots_of(old(items)@), entry@, direct@),
{
    let ghost before = slots_of(items@);
    match position_in(items, entry.name.as_str(), entry.kind) {
        Some(i) => {
            assert(before[i as int] == items@[i as int]@);
            let held = items[i].item.origin;
            if !(contains(direct, held) && !contains(direct, entry.item.origin)) {
                items.set(i, entry.clone_entry());
                assert(slots_of(items@) =~= before.update(i as int, entry@));
            }
        },
        None => {
            items.push(entry.clone_entry());
            assert(slots_of(items@) =~= before.push(entry@));
        },
    }
}

/// Takes in all the entries that an imported file brings.
pub fn absorb_all(items: &mut Vec<Entry>, nested: &Vec<Entry>, direct: &Vec<usize>)
    ensures
        slots_of(final(items)@) == absorbed_all(
            slots_of(old(items)@),
            slots_of(nested@),
            0,
            direct@,
        ),
{
    let ghost goal = absorbed_all(slots_of(items@), slots_of(nested@), 0, direct@);
    let mut j: usize = 0;
    while j < nested.len()
        invariant
            j <= nested@.len(),
            absorbed_all(slots_of(items@), slots_of(nested@), j as int, direct@) == goal,
        decreases nested@.len() - j,
    {
        assert(slots_of(nested@)[j as int] == nested@[j as int]@);
        absorb(items, &nested[j], direct);
        j = j + 1;
    }
}

impl Entry {
    /// A copy of this entry.
    pub fn clone_entry(&self) -> (e: Entry)
        ensures
            e@ == self@,
    {
        Entry { name: self.name.clone(), kind: self.kind, item: self.item }
    }
}

/// A file of the project as a plain value: the canonical path under which
/// it is known, and what it holds.
pub struct Unit {
    pub path: Seq<char>,
    pub file: ParsedView,
}

/// The files of a project as plain values.
pub open spec fn project_of(files: Seq<(String, Parsed)>) -> Seq<Unit> {
    files.map_values(|f: (String, Parsed)| Unit { path: f.0@, file: f.1@ })
}

/// The number of the first file from `i` on that is known under `path`.
pub open spec fn index_of(files: Seq<Unit>, path: Seq<char>, i: int) -> Option<int>
    decreases files.len() - i,
{
    if 0 <= i < files.len() {
        if files[i].path == path {
            Some(i)
        } else {
            index_of(files, path, i + 1)
        }
    } else {
        None
    }
}

/// A file that is found under a path is one of the files.
pub proof fn lemma_find_file_bounds(files: Seq<Unit>, path: Seq<char>, i: int)
    requires
        0 <= i,
    ensures
        index_of(files, path, i) matches Some(g) ==> i <= g < files.len() && files[g].path == path,
    decreases files.len() - i,
{
    if i < files.len() && files[i].path != path {
        lemma_find_file_bounds(files, path, i + 1);
    }
}

/// The files that the first `n` imports of file `f` bring in, those that
/// are in the project.
pub open spec fn direct_upto(files: Seq<Unit>, f: int, n: int) -> Seq<usize>
    decreases n,
{
    if n <= 0 {
        Seq::empty()
    } else {
        match index_of(files, files[f].file.imports[n - 1].0, 0) {
            Some(g) => direct_upto(files, f, n - 1).push(g as usize),
            None => direct_upto(files, f, n - 1),
        }
    }
}

/// The files that file `f` imports directly.
pub open spec fn direct_of(files: Seq<Unit>, f: int) -> Seq<usize> {
    direct_upto(files, f, files[f].file.imports.len() as int)
}

/// Why the scopes of a project cannot be computed.
#[derive(Debug)]
pub enum ScopeError {
    /// The file imports itself, directly or through other files.
    RecursiveImport(String),
    /// The file is imported, but is not among the files of the project.
    Unavailable(String),
}

/// A scope error as a plain value.
pub enum Trouble {
    Recursive(Seq<char>),
    Unavailable(Seq<char>),
}

impl View for ScopeError {
    type V = Trouble;

    open spec fn view(&self) -> Trouble {
        match self {
            ScopeError::RecursiveImport(path) => Trouble::Recursive(path@),
            ScopeError::Unavailable(path) => Trouble::Unavailable(path@),
        }
    }
}

/// What a scope error tells the user.
pub open spec fn trouble_text(e: Trouble) -> Seq<char> {
    match e {
        Trouble::Recursive(path) => "Recursive import of "@ + path,
        Trouble::Unavailable(path) => "List of elements in scope of file "@ + path
            + " was requested, but not available due to previous import error"@,
    }
}

impl ScopeError {
    /// What to tell the user.
    pub fn message(&self) -> (text: String)
        ensures
            text@ == trouble_text(self@),
    {
        match self {
            ScopeError::RecursiveImport(path) => String::from_str("Recursive import of ").concat(
                path.as_str(),
            ),
            ScopeError::Unavailable(path) => String::from_str(
                "List of elements in scope of file ",
            ).concat(path.as_str()).concat(
                " was requested, but not available due to previous import error",
            ),
        }
    }
}

/// The number of entries of `v` that are not set.
pub open spec fn count_false(v: Seq<bool>) -> nat
    decreases v.len(),
{
    if v.len() == 0 {
        0
    } else if v.last() {
        count_false(v.drop_last())
    } else {
        count_false(v.drop_last()) + 1
    }
}

pub proof fn lemma_count_update(v: Seq<bool>, f: int)
    requires
        0 <= f < v.len(),
        !v[f],
    ensures
        count_false(v.update(f, true)) + 1 == count_false(v),
    decreases v.len(),
{
    let w = v.update(f, true);
    if f == v.len() - 1 {
        assert(w.drop_last() =~= v.drop_last());
    } else {
        lemma_count_update(v.drop_last(), f);
        assert(w.drop_last() =~= v.drop_last().update(f, true));
    }
}

/// The scope of file `f`, computed while the files marked in `visiting`
/// are having theirs computed: a file that is reached again while it is
/// marked imports itself, which is an error, as is an import of a file
/// that the project does not hold.
pub open spec fn scope_of(files: Seq<Unit>, f: int, visiting: Seq<bool>) -> Result<
    ScopeView,
    Trouble,
>
    decreases count_false(visiting), 0int, 0int,
{
    if 0 <= f < files.len() && visiting.len() == files.len() {
        if visiting[f] {
            Err(Trouble::Recursive(files[f].path))
        } else {
            proof {
                lemma_count_update(visiting, f);
            }
            match imported(files, f, visiting.update(f, true), 0, Seq::empty()) {
                Err(e) => Err(e),
                Ok(items) => Ok(
                    ScopeView {
                        items: with_own(items, files[f].file.definitions, f as usize, 0),
                        direct: direct_of(files, f),
                        file: f as usize,
                    },
                ),
            }
        }
    } else {
        Err(Trouble::Unavailable(Seq::empty()))
    }
}

/// What the imports of file `f` from number `i` on bring into `items`.
pub open spec fn imported(files: Seq<Unit>, f: int, inner: Seq<bool>, i: int, items: Seq<Slot>)
    -> Result<Seq<Slot>, Trouble>
    decreases count_false(inner), 1int, files[f].file.imports.len() - i,
{
    let imports = files[f].file.imports;
    if 0 <= i < imports.len() {
        match index_of(files, imports[i].0, 0) {
            None => Err(Trouble::Unavailable(imports[i].0)),
            Some(g) => match scope_of(files, g, inner) {
                Err(e) => Err(e),
                Ok(nested) => imported(
                    files,
                    f,
                    inner,
                    i + 1,
                    absorbed_all(items, nested.items, 0, direct_of(files, f)),
                ),
            },
        }
    } else {
        Ok(items)
    }
}

/// No file is marked.
pub open spec fn unmarked(n: nat) -> Seq<bool> {
    Seq::new(n, |i: int| false)
}

/// The scopes of the first `n` files of a project, or the first trouble
/// met on the way.
pub open spec fn scopes_upto(files: Seq<Unit>, n: int) -> Result<Seq<ScopeView>, Trouble>
    decreases n,
{
    if n <= 0 {
        Ok(Seq::empty())
    } else {
        match scopes_upto(files, n - 1) {
            Err(e) => Err(e),
            Ok(scopes) => match scope_of(files, n - 1, unmarked(files.len())) {
                Err(e) => Err(e),
                Ok(scope) => Ok(scopes.push(scope)),
            },
        }
    }
}

/// State of scope computation
#[derive(Debug, Clone)]
pub enum ScopeWip {
    /// Not looked at yet
    Unvisited,
    /// The scope is being currently computed (used to detect import loop)
    Current,
    /// Done
    Resolved(Scope),
}

/// The files whose scope is being computed.
pub open spec fn marks(wip: Seq<ScopeWip>) -> Seq<bool> {
    Seq::new(wip.len(), |i: int| wip[i] is Current)
}

/// True when `v` marks no file whose scope is done.
pub open spec fn clear_of(v: Seq<bool>, wip: Seq<ScopeWip>) -> bool {
    &&& v.len() == wip.len()
    &&& forall|h: int| 0 <= h < wip.len() && wip[h] is Resolved ==> !#[trigger] v[h]
}

/// True when each scope that is done is the scope of its file, whichever
/// of the other files are marked.
pub open spec fn sound(files: Seq<Unit>, wip: Seq<ScopeWip>) -> bool {
    &&& wip.len() == files.len()
    &&& forall|g: int, v: Seq<bool>|
        0 <= g < wip.len() && wip[g] is Resolved && clear_of(v, wip) ==> #[trigger] scope_of(
            files,
            g,
            v,
        ) == Ok::<ScopeView, Trouble>(wip[g]->Resolved_0@)
}

/// The number of files that were not looked at yet.
pub open spec fn unvisited(wip: Seq<ScopeWip>) -> nat
    decreases wip.len(),
{
    if wip.len() == 0 {
        0
    } else if wip.last() is Unvisited {
        unvisited(wip.drop_last()) + 1
    } else {
        unvisited(wip.drop_last())
    }
}

pub proof fn lemma_unvisited_update(wip: Seq<ScopeWip>, f: int, state: ScopeWip)
    requires
        0 <= f < wip.len(),
        !(state is Unvisited),
    ensures
        unvisited(wip.update(f, state)) + (if wip[f] is Unvisited {
            1nat
        } else {
            0nat
        }) == unvisited(wip),
    decreases wip.len(),
{
    let w = wip.update(f, state);
    if f == wip.len() - 1 {
        assert(w.drop_last() =~= wip.drop_last());
    } else {
        lemma_unvisited_update(wip.drop_last(), f, state);
        assert(w.drop_last() =~= wip.drop_last().update(f, state));
    }
}

/// What the imports bring does not depend on which files are marked, as
/// long as the scopes of the imported files do not.
pub proof fn lemma_imported_agree(
    files: Seq<Unit>,
    f: int,
    v1: Seq<bool>,
    v2: Seq<bool>,
    i: int,
    items: Seq<Slot>,
)
    requires
        0 <= f < files.len(),
        0 <= i,
        forall|j: int|
            i <= j < files[f].file.imports.len() ==> (#[trigger] index_of(
                files,
                files[f].file.imports[j].0,
                0,
            ) matches Some(g) && scope_of(files, g, v1) == scope_of(files, g, v2)),
    ensures
        imported(files, f, v1, i, items) == imported(files, f, v2, i, items),
    decreases files[f].file.imports.len() - i,
{
    let imports = files[f].file.imports;
    if i < imports.len() {
        let g = index_of(files, imports[i].0, 0)->Some_0;
        match scope_of(files, g, v1) {
            Err(e) => {},
            Ok(nested) => {
                lemma_imported_agree(
                    files,
                    f,
                    v1,
                    v2,
                    i + 1,
                    absorbed_all(items, nested.items, 0, direct_of(files, f)),
                );
            },
        }
    }
}

/// The number of the file that is known under `path`.
pub fn find_file(files: &Vec<(String, Parsed)>, path: &str) -> (r: Option<usize>)
    ensures
        match r {
            Some(g) => index_of(project_of(files@), path@, 0) == Some(g as int) && g < files@.len(),
            None => index_of(project_of(files@), path@, 0) is None,
        },
{
    let ghost project = project_of(files@);
    let mut i: usize = 0;
    while i < files.len()
        invariant
            project == project_of(files@),
            i <= files@.len(),
            index_of(project, path@, i as int) == index_of(project, path@, 0),
        decreases files@.len() - i,
    {
        assert(project[i as int].path == files@[i as int].0@);
        if crate::text::str_equal(files[i].0.as_str(), path) {
            return Some(i);
        }
        i = i + 1;
    }
    None
}

/// The files that a file imports directly, and for each import the file
/// that it brings in, if the project holds it.
pub fn targets(file: usize, files: &Vec<(String, Parsed)>) -> (r: (Vec<Option<usize>>, Vec<usize>))
    requires
        file < files@.len(),
    ensures
        r.0@.len() == files@[file as int].1.imports@.len(),
        forall|j: int|
            0 <= j < r.0@.len() ==> match #[trigger] r.0@[j] {
                Some(g) => index_of(
                    project_of(files@),
                    project_of(files@)[file as int].file.imports[j].0,
                    0,
                ) == Some(g as int) && g < files@.len(),
                None => index_of(
                    project_of(files@),
                    project_of(files@)[file as int].file.imports[j].0,
                    0,
                ) is None,
            },
        r.1@ == direct_of(project_of(files@), file as int),
{
    let ghost project = project_of(files@);
    let imports = &files[file].1.imports;
    assert(project[file as int].file.imports == crate::preprocess::imports_of(imports@));
    let mut found: Vec<Option<usize>> = Vec::new();
    let mut direct: Vec<usize> = Vec::new();
    let mut j: usize = 0;
    while j < imports.len()
        invariant
            project == project_of(files@),
            file < files@.len(),
            project[file as int].file.imports == crate::preprocess::imports_of(imports@),
            j <= imports@.len(),
            found@.len() == j,
            forall|k: int|
                0 <= k < j ==> match #[trigger] found@[k] {
                    Some(g) => index_of(project, project[file as int].file.imports[k].0, 0)
                        == Some(g as int) && g < files@.len(),
                    None => index_of(project, project[file as int].file.imports[k].0, 0) is None,
                },
            direct@ == direct_upto(project, file as int, j as int),
        decreases imports@.len() - j,
    {
        assert(project[file as int].file.imports[j as int].0 == imports@[j as int].0@);
        let target = find_file(files, imports[j].0.as_str());
        match target {
            Some(g) => {
                direct.push(g);
            },
            None => {},
        }
        found.push(target);
        j = j + 1;
    }
    (found, direct)
}

/// Marking a file that was not looked at before keeps the scopes that are
/// done sound.
proof fn lemma_sound_marked(files: Seq<Unit>, wip: Seq<ScopeWip>, f: int)
    requires
        sound(files, wip),
        0 <= f < wip.len(),
        wip[f] is Unvisited,
    ensures
        sound(files, wip.update(f, ScopeWip::Current)),
        marks(wip.update(f, ScopeWip::Current)) == marks(wip).update(f, true),
{
    let next = wip.update(f, ScopeWip::Current);
    assert(marks(next) =~= marks(wip).update(f, true));
    assert forall|g: int, v: Seq<bool>|
        0 <= g < next.len() && next[g] is Resolved && clear_of(v, next) implies #[trigger] scope_of(
        files,
        g,
        v,
    ) == Ok::<ScopeView, Trouble>(next[g]->Resolved_0@) by {
        assert(wip[g] is Resolved);
        assert(clear_of(v, wip)) by {
            assert forall|h: int| 0 <= h < wip.len() && wip[h] is Resolved implies !#[trigger] v[h] by {
                assert(next[h] is Resolved);
            }
        }
    }
}

/// The marks of the files never mark a file whose scope is done.
proof fn lemma_marks_clear(wip: Seq<ScopeWip>)
    ensures
        clear_of(marks(wip), wip),
{
}

/// Once the imports of a file are done, the scope computed for the file is
/// its scope whichever of the other files are marked.
proof fn lemma_sound_resolved(
    files: Seq<Unit>,
    wip: Seq<ScopeWip>,
    f: int,
    scope: Scope,
    items: Seq<Slot>,
)
    requires
        sound(files, wip),
        0 <= f < wip.len(),
        wip[f] is Current,
        forall|j: int|
            0 <= j < files[f].file.imports.len() ==> (#[trigger] index_of(
                files,
                files[f].file.imports[j].0,
                0,
            ) matches Some(g) && 0 <= g < wip.len() && wip[g] is Resolved),
        imported(files, f, marks(wip), 0, Seq::empty()) == Ok::<Seq<Slot>, Trouble>(items),
        scope@ == (ScopeView {
            items: with_own(items, files[f].file.definitions, f as usize, 0),
            direct: direct_of(files, f),
            file: f as usize,
        }),
    ensures
        sound(files, wip.update(f, ScopeWip::Resolved(scope))),
{
    let next = wip.update(f, ScopeWip::Resolved(scope));
    lemma_marks_clear(wip);
    assert forall|g: int, v: Seq<bool>|
        0 <= g < next.len() && next[g] is Resolved && clear_of(v, next) implies #[trigger] scope_of(
        files,
        g,
        v,
    ) == Ok::<ScopeView, Trouble>(next[g]->Resolved_0@) by {
        assert(clear_of(v, wip)) by {
            assert forall|h: int| 0 <= h < wip.len() && wip[h] is Resolved implies !#[trigger] v[h] by {
                assert(next[h] is Resolved);
            }
        }
        if g != f {
            assert(wip[g] is Resolved);
        } else {
            assert(next[f] is Resolved);
            assert(!v[f]);
            let inner = v.update(f, true);
            assert(clear_of(inner, wip)) by {
                assert forall|h: int| 0 <= h < wip.len() && wip[h] is Resolved implies !#[trigger] inner[h] by {
                    assert(next[h] is Resolved);
                    assert(!v[h]);
                }
            }
            assert forall|j: int| 0 <= j < files[f].file.imports.len() implies (#[trigger] index_of(
                files,
                files[f].file.imports[j].0,
                0,
            ) matches Some(t) && scope_of(files, t, inner) == scope_of(files, t, marks(wip))) by {
                let t = index_of(files, files[f].file.imports[j].0, 0)->Some_0;
                assert(scope_of(files, t, inner) == Ok::<ScopeView, Trouble>(
                    wip[t]->Resolved_0@,
                ));
                assert(scope_of(files, t, marks(wip)) == Ok::<ScopeView, Trouble>(
                    wip[t]->Resolved_0@,
                ));
            }
            lemma_imported_agree(files, f, inner, marks(wip), 0, Seq::empty());
        }
    }
}

/// Computes or retrieves a scope for a file; errors on recursive imports
/// and on imports of files that the project does not hold. Keeps the
/// computed scope in `scopes`.
fn get_scope(file: usize, files: &Vec<(String, Parsed)>, scopes: &mut Vec<ScopeWip>) -> (r: Result<
    (),
    ScopeError,
>)
    requires
        file < files@.len(),
        sound(project_of(files@), old(scopes)@),
    ensures
        match r {
            Ok(()) => {
                &&& sound(project_of(files@), final(scopes)@)
                &&& final(scopes)@[file as int] is Resolved
                &&& scope_of(project_of(files@), file as int, marks(old(scopes)@)) == Ok::<
                    ScopeView,
                    Trouble,
                >(final(scopes)@[file as int]->Resolved_0@)
                &&& marks(final(scopes)@) == marks(old(scopes)@)
                &&& forall|h: int|
                    0 <= h < old(scopes)@.len() && old(scopes)@[h] is Resolved ==> final(scopes)@[h]
                        == #[trigger] old(scopes)@[h]
                &&& unvisited(final(scopes)@) <= unvisited(old(scopes)@)
            },
            Err(e) => scope_of(project_of(files@), file as int, marks(old(scopes)@)) == Err::<
                ScopeView,
                Trouble,
            >(e@),
        },
    decreases unvisited(old(scopes)@),
{
    let ghost project = project_of(files@);
    let ghost v0 = marks(scopes@);
    assert(project[file as int].path == files@[file as int].0@);
    assert(project[file as int].file == files@[file as int].1@);
    proof {
        lemma_marks_clear(scopes@);
    }
    match &scopes[file] {
        ScopeWip::Current => {
            return Err(ScopeError::RecursiveImport(files[file].0.clone()));
        },
        ScopeWip::Resolved(_) => {
            return Ok(());
        },
        ScopeWip::Unvisited => {},
    }
    proof {
        lemma_sound_marked(project, scopes@, file as int);
        lemma_unvisited_update(scopes@, file as int, ScopeWip::Current);
    }
    scopes.set(file, ScopeWip::Current);
    let ghost inner = v0.update(file as int, true);
    let ghost goal = imported(project, file as int, inner, 0, Seq::empty());
    let parsed = &files[file].1;
    let (found, direct) = targets(file, files);
    let mut items: Vec<Entry> = Vec::new();
    assert(slots_of(items@) =~= Seq::<Slot>::empty());
    let mut i: usize = 0;
    while i < found.len()
        invariant
            project == project_of(files@),
            file < files@.len(),
            parsed == &files@[file as int].1,
            project[file as int].file == files@[file as int].1@,
            found@.len() == parsed.imports@.len(),
            found@.len() == project[file as int].file.imports.len(),
            forall|j: int|
                0 <= j < found@.len() ==> match #[trigger] found@[j] {
                    Some(g) => index_of(project, project[file as int].file.imports[j].0, 0)
                        == Some(g as int) && g < files@.len(),
                    None => index_of(project, project[file as int].file.imports[j].0, 0) is None,
                },
            direct@ == direct_of(project, file as int),
            i <= found@.len(),
            sound(project, scopes@),
            scopes@[file as int] is Current,
            marks(scopes@) == inner,
            inner == marks(old(scopes)@).update(file as int, true),
            v0 == marks(old(scopes)@),
            !v0[file as int],
            old(scopes)@.len() == files@.len(),
            forall|h: int|
                0 <= h < old(scopes)@.len() && old(scopes)@[h] is Resolved ==> scopes@[h]
                    == #[trigger] old(scopes)@[h],
            unvisited(scopes@) < unvisited(old(scopes)@),
            forall|j: int|
                0 <= j < i ==> (#[trigger] index_of(
                    project,
                    project[file as int].file.imports[j].0,
                    0,
                ) matches Some(g) && 0 <= g < scopes@.len() && scopes@[g] is Resolved),
            imported(project, file as int, inner, i as int, slots_of(items@)) == goal,
            goal == imported(project, file as int, inner, 0, Seq::empty()),
        decreases found@.len() - i,
    {
        assert(project[file as int].file.imports[i as int].0 == parsed.imports@[i as int].0@) by {
            assert(project[file as int].file.imports == crate::preprocess::imports_of(
                parsed.imports@,
            ));
        }
        let g = match found[i] {
            Some(g) => g,
            None => {
                return Err(ScopeError::Unavailable(parsed.imports[i].0.clone()));
            },
        };
        let ghost before = scopes@;
        match get_scope(g, files, scopes) {
            Ok(()) => {},
            Err(e) => {
                return Err(e);
            },
        }
        match &scopes[g] {
            ScopeWip::Resolved(nested) => {
                absorb_all(&mut items, &nested.items, &direct);
            },
            _ => {
                assert(false);
            },
        }
        proof {
            assert(scopes@[file as int] is Current) by {
                assert(marks(scopes@)[file as int]);
            }
            assert forall|j: int| 0 <= j < i + 1 implies (#[trigger] index_of(
                project,
                project[file as int].file.imports[j].0,
                0,
            ) matches Some(t) && 0 <= t < scopes@.len() && scopes@[t] is Resolved) by {
                if j < i {
                    let t = index_of(project, project[file as int].file.imports[j].0, 0)->Some_0;
                    assert(before[t] is Resolved);
                    assert(scopes@[t] == before[t]);
                }
            }
        }
        i = i + 1;
    }
    let mut j: usize = 0;
    let ghost brought = slots_of(items@);
    let ghost definitions = project[file as int].file.definitions;
    while j < parsed.definitions.len()
        invariant
            parsed == &files@[file as int].1,
            definitions == files@[file as int].1@.definitions,
            j <= parsed.definitions@.len(),
            with_own(slots_of(items@), definitions, file, j as int) == with_own(
                brought,
                definitions,
                file,
                0,
            ),
        decreases parsed.definitions@.len() - j,
    {
        let definition = &parsed.definitions[j];
        assert(definitions[j as int] == definition@);
        let entry = Entry {
            name: fold_case(definition.item.name.as_str()),
            kind: definition.item.kind,
            item: DefinedItem { origin: file, definition: j },
        };
        put(&mut items, entry);
        j = j + 1;
    }
    let scope = Scope { items, direct_imports: direct, current_file: file };
    proof {
        lemma_sound_resolved(project, scopes@, file as int, scope, brought);
        lemma_unvisited_update(scopes@, file as int, ScopeWip::Resolved(scope));
        let next = scopes@.update(file as int, ScopeWip::Resolved(scope));
        assert(marks(scopes@).len() == scopes@.len());
        assert(v0.len() == scopes@.len());
        assert forall|h: int| 0 <= h < next.len() implies marks(next)[h] == v0[h] by {
            if h != file {
                assert(marks(scopes@)[h] == inner[h]);
            }
        }
        assert(marks(next) =~= v0);
    }
    scopes.set(file, ScopeWip::Resolved(scope));
    Ok(())
}

/// Computes the scope of each file of a project.
pub fn compute_scopes(files: &Vec<(String, Parsed)>) -> (r: Result<Vec<Scope>, ScopeError>)
    ensures
        match scopes_upto(project_of(files@), files@.len() as int) {
            Ok(scopes) => r matches Ok(got) && got@.map_values(|s: Scope| s@) == scopes,
            Err(e) => r matches Err(got) && got@ == e,
        },
{
    let ghost project = project_of(files@);
    let n = files.len();
    let mut wip: Vec<ScopeWip> = Vec::new();
    let mut k: usize = 0;
    while k < n
        invariant
            n == files@.len(),
            k <= n,
            wip@.len() == k,
            forall|h: int| 0 <= h < k ==> #[trigger] wip@[h] is Unvisited,
        decreases n - k,
    {
        wip.push(ScopeWip::Unvisited);
        k = k + 1;
    }
    assert(marks(wip@) =~= unmarked(n as nat));
    let mut f: usize = 0;
    while f < n
        invariant
            project == project_of(files@),
            n == files@.len(),
            f <= n,
            sound(project, wip@),
            marks(wip@) == unmarked(n as nat),
            forall|h: int| 0 <= h < f ==> #[trigger] wip@[h] is Resolved,
            scopes_upto(project, f as int) is Ok,
            scopes_upto(project, f as int)->Ok_0.len() == f,
            forall|h: int|
                0 <= h < f ==> #[trigger] scopes_upto(project, f as int)->Ok_0[h]
                    == wip@[h]->Resolved_0@,
        decreases n - f,
    {
        let ghost before = wip@;
        match get_scope(f, files, &mut wip) {
            Ok(()) => {},
            Err(e) => {
                proof {
                    lemma_first_trouble(project, f as int, n as int);
                }
                return Err(e);
            },
        }
        proof {
            assert forall|h: int| 0 <= h < f + 1 implies #[trigger] wip@[h] is Resolved by {
                if h < f {
                    assert(before[h] is Resolved);
                    assert(wip@[h] == before[h]);
                }
            }
            assert forall|h: int| 0 <= h < f + 1 implies #[trigger] scopes_upto(
                project,
                f + 1,
            )->Ok_0[h] == wip@[h]->Resolved_0@ by {
                if h < f {
                    assert(before[h] is Resolved);
                    assert(wip@[h] == before[h]);
                    assert(scopes_upto(project, f as int)->Ok_0[h] == before[h]->Resolved_0@);
                }
            }
        }
        f = f + 1;
    }
    let ghost all = scopes_upto(project, n as int)->Ok_0;
    let mut rest = crate::syntax::v2::stream::Stream::new(wip);
    let ghost states = rest@;
    let mut scopes: Vec<Scope> = Vec::new();
    let mut h: usize = 0;
    while h < n
        invariant
            n == states.len(),
            all.len() == n,
            h <= n,
            rest@ == states.skip(h as int),
            forall|k: int| 0 <= k < n ==> #[trigger] states[k] is Resolved,
            forall|k: int| 0 <= k < n ==> #[trigger] all[k] == states[k]->Resolved_0@,
            scopes@.len() == h,
            forall|k: int| 0 <= k < h ==> #[trigger] scopes@[k]@ == all[k],
        decreases n - h,
    {
        assert(rest@[0] == states[h as int]);
        match rest.pop_front() {
            Some(ScopeWip::Resolved(scope)) => {
                scopes.push(scope);
            },
            _ => {
                assert(false);
            },
        }
        assert(rest@ =~= states.skip(h + 1));
        h = h + 1;
    }
    assert(scopes@.map_values(|s: Scope| s@) =~= all);
    Ok(scopes)
}

/// The first trouble stays the first, however many files follow.
proof fn lemma_first_trouble(files: Seq<Unit>, f: int, n: int)
    requires
        0 <= f < n,
        scopes_upto(files, f) is Ok,
        scope_of(files, f, unmarked(files.len())) is Err,
    ensures
        scopes_upto(files, n) == Err::<Seq<ScopeView>, Trouble>(
            scope_of(files, f, unmarked(files.len()))->Err_0,
        ),
    decreases n - f,
{
    if n > f + 1 {
        lemma_first_trouble(files, f, n - 1);
    }
}

/// The names of commands that need no definition, each with its case
/// folded: those that the language brings, and those that the project's
/// configuration adds.
pub struct Known {
    pub builtins: Seq<Seq<char>>,
    pub custom: Seq<Seq<char>>,
}

/// The names of a list with their case folded.
pub open spec fn folded_all(names: Seq<String>) -> Seq<Seq<char>> {
    names.map_values(|name: String| folded(name@))
}

/// The names that a configuration file adds.
pub open spec fn custom_of(config: ConfigFile) -> Seq<Seq<char>> {
    match config.extras {
        Some(extras) => match extras.cmdlets {
            Some(cmdlets) => folded_all(cmdlets@),
            None => Seq::empty(),
        },
        None => Seq::empty(),
    }
}

/// What was found out about a file while its usages were gone through.
pub struct Tally {
    /// The names that were looked at, folded, each with its kind
    pub analyzed: Seq<(Seq<char>, ItemKind)>,
    /// The files of which something was used
    pub used: Seq<usize>,
    pub emitter: Emitting,
}

/// The definition that `item` points at, if it points at one.
pub open spec fn definition_at(files: Seq<Unit>, item: DefinedItem) -> Option<Occurrence> {
    if item.origin < files.len() && item.definition < files[item.origin as int].file.definitions.len() {
        Some(files[item.origin as int].file.definitions[item.definition as int])
    } else {
        None
    }
}

/// Those of the first `n` files of `direct` in whose scope something
/// stands under `key` as a `kind`.
pub open spec fn through(
    scopes: Seq<ScopeView>,
    direct: Seq<usize>,
    key: Seq<char>,
    kind: ItemKind,
    n: int,
) -> Seq<usize>
    decreases n,
{
    if n <= 0 || n > direct.len() {
        Seq::empty()
    } else {
        let g = direct[n - 1];
        if g < scopes.len() && found_under(scopes[g as int], key, kind) is Some {
            through(scopes, direct, key, kind, n - 1).push(g)
        } else {
            through(scopes, direct, key, kind, n - 1)
        }
    }
}

/// The first of `list` from `i` on that is an import bag.
pub open spec fn first_bag(files: Seq<Unit>, list: Seq<usize>, i: int) -> Option<usize>
    decreases list.len() - i,
{
    if 0 <= i < list.len() {
        if list[i] < files.len() && files[list[i] as int].file.is_import_bag() {
            Some(list[i])
        } else {
            first_bag(files, list, i + 1)
        }
    } else {
        None
    }
}

/// The message that a function is used that is nowhere in scope.
pub open spec fn unknown_message(files: Seq<Unit>, f: int, u: Occurrence) -> Message {
    message_at(
        place_of(u.span, files[f].file.original_path, files[f].file.source),
        Lint::UnknownFunctions,
        "function not in scope"@,
    ).about(u.item.name)
}

/// The message that what is used comes through the import of `via`, with
/// the advice to import the file `advised` directly where there is one to
/// advise.
pub open spec fn indirect_message(
    files: Seq<Unit>,
    f: int,
    u: Occurrence,
    via: Option<usize>,
    advised: Option<usize>,
) -> Message {
    let base = message_at(
        place_of(u.span, files[f].file.original_path, files[f].file.source),
        Lint::IndirectImports,
        "indirectly imported"@,
    ).about(u.item.name);
    let routed = match via {
        Some(g) => base.noted("Indirectly imported through "@ + path_of(files, g)),
        None => base,
    };
    match advised {
        Some(origin) => routed.noted("Consider directly importing "@ + path_of(files, origin)),
        None => routed,
    }
}

/// The path by which the user knows file number `g`.
pub open spec fn path_of(files: Seq<Unit>, g: usize) -> Seq<char> {
    if g < files.len() {
        files[g as int].file.original_path
    } else {
        Seq::empty()
    }
}

/// The message that a usage is not written as the definition is.
pub open spec fn casing_message(files: Seq<Unit>, f: int, u: Occurrence) -> Message {
    message_at(
        place_of(u.span, files[f].file.original_path, files[f].file.source),
        Lint::InvalidLetterCasing,
        "function name differs between usage and definition"@,
    ).noted("Check whether the letter casing is the same"@)
}

/// The message that nothing of what an import brings is used.
pub open spec fn unused_message(files: Seq<Unit>, f: int, j: int) -> Message {
    message_at(
        place_of(
            files[f].file.imports[j].1.span,
            files[f].file.original_path,
            files[f].file.source,
        ),
        Lint::UnusedImports,
        "unused import"@,
    )
}

/// True when nothing is to be said of the usage of `key`, a folded name,
/// as a `kind`: it is one of the names that need no definition, or was
/// looked at before in this file.
pub open spec fn passed_over(known: Known, t: Tally, key: Seq<char>, kind: ItemKind) -> bool {
    ||| (kind == ItemKind::Function && known.builtins.contains(key))
    ||| (kind == ItemKind::Function && known.custom.contains(key))
    ||| t.analyzed.contains((key, kind))
}

/// What one usage of file `f` adds to the tally, `key` being its name with
/// the case folded.
///
/// A function that is not in scope is unknown. What is in scope but defined
/// neither in the file nor in a file that it imports directly is imported
/// indirectly, which is reported: the use then counts for the first import
/// bag among the direct imports through which it comes, or else for the
/// first direct import through which it comes, and then the message
/// advises to import the defining file directly. What is found counts as a
/// use of the file that defines it, and gets a message if it is not
/// written as its definition is.
pub open spec fn usage_step_keyed(
    files: Seq<Unit>,
    scopes: Seq<ScopeView>,
    known: Known,
    f: int,
    u: Occurrence,
    key: Seq<char>,
    t: Tally,
) -> Tally {
    if passed_over(known, t, key, u.item.kind) {
        t
    } else {
        let analyzed = t.analyzed.push((key, u.item.kind));
        match found_under(scopes[f], key, u.item.kind) {
            None => Tally {
                analyzed,
                used: t.used,
                emitter: if u.item.kind == ItemKind::Function {
                    emitted(t.emitter, unknown_message(files, f, u))
                } else {
                    t.emitter
                },
            },
            Some((how, item)) => {
                let routes = through(
                    scopes,
                    scopes[f].direct,
                    key,
                    u.item.kind,
                    scopes[f].direct.len() as int,
                );
                let bag = first_bag(files, routes, 0);
                let via = if routes.len() > 0 {
                    Some(routes[0])
                } else {
                    None
                };
                let (used1, emitter1) = if how == Found::Direct {
                    (t.used, t.emitter)
                } else {
                    match bag {
                        Some(b) => (
                            t.used.push(b),
                            emitted(t.emitter, indirect_message(files, f, u, Some(b), None)),
                        ),
                        None => (
                            match via {
                                Some(g) => t.used.push(g),
                                None => t.used,
                            },
                            emitted(
                                t.emitter,
                                indirect_message(files, f, u, via, Some(item.origin)),
                            ),
                        ),
                    }
                };
                Tally {
                    analyzed,
                    used: used1.push(item.origin),
                    emitter: match definition_at(files, item) {
                        Some(definition) => if definition.item != u.item {
                            emitted(emitter1, casing_message(files, f, u))
                        } else {
                            emitter1
                        },
                        None => emitter1,
                    },
                }
            },
        }
    }
}

/// What one usage of file `f` adds to the tally.
pub open spec fn usage_step(
    files: Seq<Unit>,
    scopes: Seq<ScopeView>,
    known: Known,
    f: int,
    u: Occurrence,
    t: Tally,
) -> Tally {
    usage_step_keyed(files, scopes, known, f, u, folded(u.item.name), t)
}

/// What the usages of file `f` from number `i` on add to the tally.
pub open spec fn usages_checked(
    files: Seq<Unit>,
    scopes: Seq<ScopeView>,
    known: Known,
    f: int,
    i: int,
    t: Tally,
) -> Tally
    decreases files[f].file.usages.len() - i,
{
    if 0 <= i < files[f].file.usages.len() {
        usages_checked(
            files,
            scopes,
            known,
            f,
            i + 1,
            usage_step(files, scopes, known, f, files[f].file.usages[i], t),
        )
    } else {
        t
    }
}

/// True when import number `j` of file `f` is reported as unused: nothing
/// was used of the file that it brings in.
pub open spec fn unused(files: Seq<Unit>, f: int, j: int, used: Seq<usize>) -> bool {
    match index_of(files, files[f].file.imports[j].0, 0) {
        Some(g) => !used.contains(g as usize),
        None => false,
    }
}

/// What the imports of file `f` from number `j` on, those that are unused,
/// add to the messages.
pub open spec fn imports_checked(
    files: Seq<Unit>,
    f: int,
    j: int,
    used: Seq<usize>,
    e: Emitting,
) -> Emitting
    decreases files[f].file.imports.len() - j,
{
    if 0 <= j < files[f].file.imports.len() {
        imports_checked(
            files,
            f,
            j + 1,
            used,
            if unused(files, f, j, used) {
                emitted(e, unused_message(files, f, j))
            } else {
                e
            },
        )
    } else {
        e
    }
}

/// The tally with which a file starts.
pub open spec fn fresh(e: Emitting) -> Tally {
    Tally { analyzed: Seq::empty(), used: Seq::empty(), emitter: e }
}

/// What file `f` adds to the messages: what its usages give, and, unless
/// the file is an import bag, its unused imports.
pub open spec fn file_checked(
    files: Seq<Unit>,
    scopes: Seq<ScopeView>,
    known: Known,
    f: int,
    e: Emitting,
) -> Emitting {
    let t = usages_checked(files, scopes, known, f, 0, fresh(e));
    if files[f].file.is_import_bag() {
        t.emitter
    } else {
        imports_checked(files, f, 0, t.used, t.emitter)
    }
}

/// What the first `n` files add to the messages.
pub open spec fn files_checked(
    files: Seq<Unit>,
    scopes: Seq<ScopeView>,
    known: Known,
    n: int,
    e: Emitting,
) -> Emitting
    decreases n,
{
    if n <= 0 {
        e
    } else {
        file_checked(files, scopes, known, n - 1, files_checked(files, scopes, known, n - 1, e))
    }
}

/// The scopes of exec values as plain values.
pub open spec fn views_of(scopes: Seq<Scope>) -> Seq<ScopeView> {
    scopes.map_values(|s: Scope| s@)
}

/// The names of a list with their case folded.
pub fn fold_all(names: &Vec<String>) -> (r: Vec<String>)
    ensures
        r@.map_values(|s: String| s@) == folded_all(names@),
{
    let mut r: Vec<String> = Vec::new();
    let mut i: usize = 0;
    assert(r@.map_values(|s: String| s@) =~= folded_all(names@.take(0)));
    while i < names.len()
        invariant
            i <= names@.len(),
            r@.map_values(|s: String| s@) == folded_all(names@.take(i as int)),
        decreases names@.len() - i,
    {
        let name = fold_case(names[i].as_str());
        assert(folded_all(names@.take(i + 1)) =~= folded_all(names@.take(i as int)).push(
            folded(names@[i as int]@),
        ));
        assert(r@.push(name).map_values(|s: String| s@) =~= r@.map_values(|s: String| s@).push(
            name@,
        ));
        r.push(name);
        i = i + 1;
    }
    assert(names@.take(i as int) =~= names@);
    r
}

/// Whether `names` holds `name`.
pub fn holds(names: &Vec<String>, name: &str) -> (r: bool)
    ensures
        r == names@.map_values(|s: String| s@).contains(name@),
{
    let ghost views = names@.map_values(|s: String| s@);
    let mut i: usize = 0;
    while i < names.len()
        invariant
            views == names@.map_values(|s: String| s@),
            i <= names@.len(),
            forall|k: int| 0 <= k < i ==> views[k] != name@,
        decreases names@.len() - i,
    {
        assert(views[i as int] == names@[i as int]@);
        if crate::text::str_equal(names[i].as_str(), name) {
            return true;
        }
        i = i + 1;
    }
    false
}

/// What the usages of a file are checked against.
pub struct Checker<'a> {
    pub files: &'a Vec<(String, Parsed)>,
    pub scopes: &'a Vec<Scope>,
    /// The names of the commands that the language brings, folded
    pub builtins: &'a Vec<String>,
    /// The names of the commands that the configuration adds, folded
    pub custom: &'a Vec<String>,
}

/// The names looked at, as plain values.
pub open spec fn analyzed_of(list: Seq<(String, ItemKind)>) -> Seq<(Seq<char>, ItemKind)> {
    list.map_values(|entry: (String, ItemKind)| (entry.0@, entry.1))
}

impl<'a> Checker<'a> {
    pub open spec fn project(&self) -> Seq<Unit> {
        project_of(self.files@)
    }

    pub open spec fn scope_views(&self) -> Seq<ScopeView> {
        views_of(self.scopes@)
    }

    pub open spec fn known(&self) -> Known {
        Known {
            builtins: self.builtins@.map_values(|s: String| s@),
            custom: self.custom@.map_values(|s: String| s@),
        }
    }

    pub open spec fn wf(&self) -> bool {
        self.scopes@.len() == self.files@.len()
    }

    /// The direct imports of a file in whose scope something stands under
    /// `key` as a `kind`.
    pub fn routes(&self, direct: &Vec<usize>, key: &str, kind: ItemKind) -> (r: Vec<usize>)
        ensures
            r@ == through(self.scope_views(), direct@, key@, kind, direct@.len() as int),
    {
        let ghost views = self.scope_views();
        let mut r: Vec<usize> = Vec::new();
        let mut n: usize = 0;
        while n < direct.len()
            invariant
                views == self.scope_views(),
                n <= direct@.len(),
                r@ == through(views, direct@, key@, kind, n as int),
            decreases direct@.len() - n,
        {
            let g = direct[n];
            let mut found = false;
            assert(views.len() == self.scopes@.len());
            if g < self.scopes.len() {
                assert(views[g as int] == self.scopes@[g as int]@);
                found = self.scopes[g].search_folded(key, kind).is_some();
            }
            if found {
                r.push(g);
            }
            n = n + 1;
        }
        r
    }

    /// The first import bag among `list`.
    fn first_bag_of(&self, list: &Vec<usize>) -> (r: Option<usize>)
        ensures
            r == first_bag(self.project(), list@, 0),
    {
        let ghost project = self.project();
        let mut i: usize = 0;
        while i < list.len()
            invariant
                project == self.project(),
                i <= list@.len(),
                first_bag(project, list@, i as int) == first_bag(project, list@, 0),
            decreases list@.len() - i,
        {
            let g = list[i];
            if g < self.files.len() {
                assert(project[g as int].file == self.files@[g as int].1@);
                if self.files[g].1.is_import_bag() {
                    return Some(g);
                }
            }
            i = i + 1;
        }
        None
    }

    /// The path by which the user knows file number `g`.
    fn path(&self, g: usize) -> (r: &str)
        ensures
            r@ == path_of(self.project(), g),
    {
        if g < self.files.len() {
            assert(self.project()[g as int].file == self.files@[g as int].1@);
            self.files[g].1.original_path.as_str()
        } else {
            proof {
                reveal_strlit("");
                assert(""@ =~= Seq::<char>::empty());
            }
            ""
        }
    }

    /// Whether the usage is written otherwise than the definition that
    /// `item` points at.
    fn differs(&self, item: DefinedItem, usage: &Usage) -> (r: bool)
        ensures
            r == (definition_at(self.project(), item) matches Some(definition) && definition.item
                != usage@.item),
    {
        if item.origin < self.files.len() {
            let parsed = &self.files[item.origin].1;
            assert(self.project()[item.origin as int].file == parsed@);
            if item.definition < parsed.definitions.len() {
                let definition = &parsed.definitions[item.definition];
                assert(parsed@.definitions[item.definition as int] == definition@);
                return !definition.item.same(&usage.item);
            }
        }
        false
    }

    /// Goes through one usage of file number `f`.
    pub fn check_usage(
        &self,
        f: usize,
        usage: &Usage,
        analyzed: &mut Vec<(String, ItemKind)>,
        used: &mut Vec<usize>,
        emitter: &mut Emitter,
    )
        requires
            self.wf(),
            f < self.files@.len(),
        ensures
            (Tally {
                analyzed: analyzed_of(final(analyzed)@),
                used: final(used)@,
                emitter: final(emitter)@,
            }) == usage_step(
                self.project(),
                self.scope_views(),
                self.known(),
                f as int,
                usage@,
                Tally {
                    analyzed: analyzed_of(old(analyzed)@),
                    used: old(used)@,
                    emitter: old(emitter)@,
                },
            ),
    {
        let key = fold_case(usage.item.name.as_str());
        self.check_usage_keyed(f, usage, key, analyzed, used, emitter);
    }

    /// Goes through one usage of file number `f`, `key` being the name of
    /// what is used with its case folded.
    pub fn check_usage_keyed(
        &self,
        f: usize,
        usage: &Usage,
        key: String,
        analyzed: &mut Vec<(String, ItemKind)>,
        used: &mut Vec<usize>,
        emitter: &mut Emitter,
    )
        requires
            self.wf(),
            f < self.files@.len(),
        ensures
            (Tally {
                analyzed: analyzed_of(final(analyzed)@),
                used: final(used)@,
                emitter: final(emitter)@,
            }) == usage_step_keyed(
                self.project(),
                self.scope_views(),
                self.known(),
                f as int,
                usage@,
                key@,
                Tally {
                    analyzed: analyzed_of(old(analyzed)@),
                    used: old(used)@,
                    emitter: old(emitter)@,
                },
            ),
    {
        let ghost project = self.project();
        let ghost views = self.scope_views();
        let parsed = &self.files[f].1;
        let scope = &self.scopes[f];
        assert(project[f as int].file == parsed@);
        assert(views[f as int] == scope@);
        let kind = usage.item.kind;
        let is_function = usage.item.is_function();
        if (is_function && holds(self.builtins, key.as_str())) || (is_function && holds(
            self.custom,
            key.as_str(),
        )) || seen(analyzed, key.as_str(), kind) {
            return ;
        }
        let search_result = scope.search_folded(key.as_str(), kind);
        let ghost before = analyzed@;
        assert(analyzed_of(before.push((key, kind))) =~= analyzed_of(before).push((key@, kind)));
        match search_result {
            None => {
                // Unknown classes give no error: their usage is found by
                // a heuristic.
                if is_function {
                    usage.span.in_file(parsed).lint(
                        Lint::UnknownFunctions,
                        "function not in scope",
                    ).what(usage.name()).emit(emitter);
                }
            },
            Some((how, item)) => {
                let imported_through = self.routes(&scope.direct_imports, key.as_str(), kind);
                match how {
                    Found::Direct => {},
                    Found::Indirect => {
                        let message = usage.span.in_file(parsed).lint(
                            Lint::IndirectImports,
                            "indirectly imported",
                        ).what(usage.name());
                        match self.first_bag_of(&imported_through) {
                            Some(bag) => {
                                used.push(bag);
                                let note = String::from_str(
                                    "Indirectly imported through ",
                                ).concat(self.path(bag));
                                message.note(note.as_str()).emit(emitter);
                            },
                            None => {
                                let message = if imported_through.len() > 0 {
                                    used.push(imported_through[0]);
                                    let note = String::from_str(
                                        "Indirectly imported through ",
                                    ).concat(self.path(imported_through[0]));
                                    message.note(note.as_str())
                                } else {
                                    message
                                };
                                let note = String::from_str("Consider directly importing ").concat(
                                    self.path(item.origin),
                                );
                                message.note(note.as_str()).emit(emitter);
                            },
                        }
                    },
                }
                used.push(item.origin);
                if self.differs(item, usage) {
                    usage.span.in_file(parsed).lint(
                        Lint::InvalidLetterCasing,
                        "function name differs between usage and definition",
                    ).note("Check whether the letter casing is the same").emit(emitter);
                }
            },
        }
        analyzed.push((key, kind));
    }

    /// Goes through the usages of file number `f`, then through its
    /// imports, unless the file is an import bag.
    pub fn check_file(&self, f: usize, emitter: &mut Emitter)
        requires
            self.wf(),
            f < self.files@.len(),
        ensures
            final(emitter)@ == file_checked(
                self.project(),
                self.scope_views(),
                self.known(),
                f as int,
                old(emitter)@,
            ),
    {
        let ghost project = self.project();
        let ghost views = self.scope_views();
        let ghost known = self.known();
        let parsed = &self.files[f].1;
        assert(project[f as int].file == parsed@);
        let mut already_analyzed: Vec<(String, ItemKind)> = Vec::new();
        let mut used_dependencies: Vec<usize> = Vec::new();
        assert(analyzed_of(already_analyzed@) =~= Seq::<(Seq<char>, ItemKind)>::empty());
        let ghost goal = usages_checked(project, views, known, f as int, 0, fresh(emitter@));
        let mut i: usize = 0;
        while i < parsed.usages.len()
            invariant
                self.wf(),
                f < self.files@.len(),
                project == self.project(),
                views == self.scope_views(),
                known == self.known(),
                parsed == &self.files@[f as int].1,
                project[f as int].file == parsed@,
                i <= parsed.usages@.len(),
                usages_checked(
                    project,
                    views,
                    known,
                    f as int,
                    i as int,
                    Tally {
                        analyzed: analyzed_of(already_analyzed@),
                        used: used_dependencies@,
                        emitter: emitter@,
                    },
                ) == goal,
            decreases parsed.usages@.len() - i,
        {
            assert(parsed@.usages[i as int] == parsed.usages@[i as int]@);
            self.check_usage(
                f,
                &parsed.usages[i],
                &mut already_analyzed,
                &mut used_dependencies,
                emitter,
            );
            i = i + 1;
        }
        if !parsed.is_import_bag() {
            let ghost after = imports_checked(project, f as int, 0, used_dependencies@, emitter@);
            let mut j: usize = 0;
            while j < parsed.imports.len()
                invariant
                    f < self.files@.len(),
                    project == self.project(),
                    parsed == &self.files@[f as int].1,
                    project[f as int].file == parsed@,
                    j <= parsed.imports@.len(),
                    imports_checked(project, f as int, j as int, used_dependencies@, emitter@)
                        == after,
                decreases parsed.imports@.len() - j,
            {
                assert(parsed@.imports[j as int] == (
                    parsed.imports@[j as int].0@,
                    parsed.imports@[j as int].1@,
                ));
                let mut report = false;
                match find_file(self.files, parsed.imports[j].0.as_str()) {
                    Some(g) => {
                        assert(project[g as int].file == self.files@[g as int].1@);
                        if !contains(&used_dependencies, g) {
                            report = true;
                        }
                    },
                    None => {},
                }
                if report {
                    parsed.imports[j].1.span.in_file(parsed).lint(
                        Lint::UnusedImports,
                        "unused import",
                    ).emit(emitter);
                }
                j = j + 1;
            }
        }
    }
}

/// Whether the name `key` was looked at as a `kind`.
fn seen(analyzed: &Vec<(String, ItemKind)>, key: &str, kind: ItemKind) -> (r: bool)
    ensures
        r == analyzed_of(analyzed@).contains((key@, kind)),
{
    let ghost views = analyzed_of(analyzed@);
    let mut i: usize = 0;
    while i < analyzed.len()
        invariant
            views == analyzed_of(analyzed@),
            i <= analyzed@.len(),
            forall|k: int| 0 <= k < i ==> views[k] != (key@, kind),
        decreases analyzed@.len() - i,
    {
        assert(views[i as int] == (analyzed@[i as int].0@, analyzed@[i as int].1));
        if analyzed[i].1 == kind && crate::text::str_equal(analyzed[i].0.as_str(), key) {
            return true;
        }
        i = i + 1;
    }
    false
}

/// What `builtins` and a configuration file make known.
pub open spec fn known_of(builtins: Seq<String>, config: ConfigFile) -> Known {
    Known { builtins: folded_all(builtins), custom: custom_of(config) }
}

/// The names that a configuration file adds, folded.
pub fn custom_names(config: &ConfigFile) -> (r: Vec<String>)
    ensures
        r@.map_values(|s: String| s@) == custom_of(*config),
{
    match &config.extras {
        Some(extras) => match &extras.cmdlets {
            Some(cmdlets) => fold_all(cmdlets),
            None => {
                let r: Vec<String> = Vec::new();
                assert(r@.map_values(|s: String| s@) =~= Seq::<Seq<char>>::empty());
                r
            },
        },
        None => {
            let r: Vec<String> = Vec::new();
            assert(r@.map_values(|s: String| s@) =~= Seq::<Seq<char>>::empty());
            r
        },
    }
}

impl<'a> Checker<'a> {
    /// Goes through all the files.
    pub fn check_files(&self, emitter: &mut Emitter)
        requires
            self.wf(),
        ensures
            final(emitter)@ == files_checked(
                self.project(),
                self.scope_views(),
                self.known(),
                self.files@.len() as int,
                old(emitter)@,
            ),
    {
        let mut f: usize = 0;
        while f < self.files.len()
            invariant
                self.wf(),
                f <= self.files@.len(),
                emitter@ == files_checked(
                    self.project(),
                    self.scope_views(),
                    self.known(),
                    f as int,
                    old(emitter)@,
                ),
            decreases self.files@.len() - f,
        {
            let ghost before = emitter@;
            self.check_file(f, emitter);
            assert(files_checked(
                self.project(),
                self.scope_views(),
                self.known(),
                f + 1,
                old(emitter)@,
            ) == file_checked(self.project(), self.scope_views(), self.known(), f as int, before));
            f = f + 1;
        }
    }
}

/// Computes the scope of each file of a project and reports what is wrong
/// with the usages and the imports of each file. The names of `builtins`
/// are those of the commands that need no definition.
///
/// A file that imports itself, or an import of a file that the project
/// does not hold, ends the analysis before anything is reported.
pub fn analyze(
    files: &Vec<(String, Parsed)>,
    builtins: &Vec<String>,
    config: &ConfigFile,
    emitter: &mut Emitter,
) -> (r: Result<Vec<Scope>, ScopeError>)
    ensures
        match scopes_upto(project_of(files@), files@.len() as int) {
            Ok(scopes) => r matches Ok(got) && views_of(got@) == scopes && final(emitter)@
                == files_checked(
                project_of(files@),
                scopes,
                known_of(builtins@, *config),
                files@.len() as int,
                old(emitter)@,
            ),
            Err(e) => r matches Err(got) && got@ == e && final(emitter)@ == old(emitter)@,
        },
{
    let scopes = match compute_scopes(files) {
        Ok(scopes) => scopes,
        Err(e) => {
            return Err(e);
        },
    };
    let folded_builtins = fold_all(builtins);
    let custom = custom_names(config);
    let checker = Checker { files, scopes: &scopes, builtins: &folded_builtins, custom: &custom };
    assert(views_of(scopes@).len() == scopes@.len());
    assert(scopes_upto(project_of(files@), files@.len() as int)->Ok_0.len() == files@.len()) by {
        lemma_scopes_count(project_of(files@), files@.len() as int);
    }
    checker.check_files(emitter);
    Ok(scopes)
}

/// There is a scope for each file.
pub proof fn lemma_scopes_count(files: Seq<Unit>, n: int)
    requires
        0 <= n,
        scopes_upto(files, n) is Ok,
    ensures
        scopes_upto(files, n)->Ok_0.len() == n,
    decreases n,
{
    if n > 0 {
        lemma_scopes_count(files, n - 1);
    }
}

} // verus!
