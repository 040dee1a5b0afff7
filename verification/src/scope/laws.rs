//! What holds of every scope and of every usage that is checked against
//! one.

use vstd::prelude::*;
use crate::foreign::folded;
use crate::lint::{
    allowed_on, emitted, emitted_plainly, level_of, sent, unknown_lint_message, Emitting, Level,
    Lint, Message,
};
use crate::Emitted;

use crate::scope::{
    absorbed, absorbed_all, casing_message, definition_at, file_checked, find, found_under, fresh,
    imported,
    imports_checked, index_of, indirect_message, lemma_count_update, lookup, own_slot, passed_over,
    scope_of, scopes_upto, searched, first_bag, through, unknown_message, unmarked, unused,
    unused_message, usage_step, usages_checked, with_own, with_slot, DefinedItem, Found, Known,
    ScopeView, Slot, Tally, Trouble, Unit, count_false,
};
use crate::syntax::{ItemKind, Occurrence};

verus! {

/// True when each of the items stands for a definition that some file of
/// the project holds, under the folded name and the kind of that
/// definition.
pub open spec fn faithful(files: Seq<Unit>, items: Seq<Slot>) -> bool {
    forall|i: int|
        0 <= i < items.len() ==> (#[trigger] definition_at(files, items[i].item) matches Some(d)
            && folded(d.item.name) == items[i].name && d.item.kind == items[i].kind)
}

/// True when the slot stands under `name` for `kind`.
pub open spec fn keyed(slot: Slot, name: Seq<char>, kind: ItemKind) -> bool {
    slot.name == name && slot.kind == kind
}

/// What a search finds, said by the slots themselves.
pub proof fn lemma_found(items: Seq<Slot>, name: Seq<char>, kind: ItemKind)
    ensures
        match find(items, name, kind, 0) {
            Some(k) => 0 <= k < items.len() && keyed(items[k], name, kind) && forall|j: int|
                0 <= j < k ==> !keyed(#[trigger] items[j], name, kind),
            None => forall|j: int| 0 <= j < items.len() ==> !keyed(#[trigger] items[j], name, kind),
        },
{
    lemma_found_from(items, name, kind, 0);
}

proof fn lemma_found_from(items: Seq<Slot>, name: Seq<char>, kind: ItemKind, i: int)
    requires
        0 <= i <= items.len(),
    ensures
        match find(items, name, kind, i) {
            Some(k) => i <= k < items.len() && keyed(items[k], name, kind) && forall|j: int|
                i <= j < k ==> !keyed(#[trigger] items[j], name, kind),
            None => forall|j: int| i <= j < items.len() ==> !keyed(#[trigger] items[j], name, kind),
        },
    decreases items.len() - i,
{
    if i < items.len() && !keyed(items[i], name, kind) {
        lemma_found_from(items, name, kind, i + 1);
    }
}

/// The first slot that stands under a name is the one that a search finds.
pub proof fn lemma_first(items: Seq<Slot>, name: Seq<char>, kind: ItemKind, k: int)
    requires
        0 <= k < items.len(),
        keyed(items[k], name, kind),
        forall|j: int| 0 <= j < k ==> !keyed(#[trigger] items[j], name, kind),
    ensures
        find(items, name, kind, 0) == Some(k),
{
    lemma_found(items, name, kind);
}

/// Where no slot stands under a name, a search finds none.
pub proof fn lemma_none(items: Seq<Slot>, name: Seq<char>, kind: ItemKind)
    requires
        forall|j: int| 0 <= j < items.len() ==> !keyed(#[trigger] items[j], name, kind),
    ensures
        find(items, name, kind, 0) is None,
{
    lemma_found(items, name, kind);
}

/// A slot that is put in is found under its name; what stood under other
/// names stays.
pub proof fn lemma_with_slot(items: Seq<Slot>, slot: Slot, name: Seq<char>, kind: ItemKind)
    ensures
        lookup(with_slot(items, slot), slot.name, slot.kind) == Some(slot.item),
        !keyed(slot, name, kind) ==> lookup(with_slot(items, slot), name, kind) == lookup(
            items,
            name,
            kind,
        ),
{
    let next = with_slot(items, slot);
    lemma_found(items, slot.name, slot.kind);
    lemma_found(items, name, kind);
    let at = match find(items, slot.name, slot.kind, 0) {
        Some(i) => i,
        None => items.len() as int,
    };
    assert(next[at] == slot);
    assert forall|j: int| 0 <= j < next.len() && j != at implies #[trigger] next[j] == items[j] by {}
    assert forall|j: int| 0 <= j < at implies !keyed(#[trigger] next[j], slot.name, slot.kind) by {
        assert(next[j] == items[j]);
    }
    lemma_first(next, slot.name, slot.kind, at);
    if !keyed(slot, name, kind) {
        match find(items, name, kind, 0) {
            Some(k) => {
                assert(k != at);
                assert forall|j: int| 0 <= j < k implies !keyed(#[trigger] next[j], name, kind) by {
                    if j != at {
                        assert(next[j] == items[j]);
                    }
                }
                lemma_first(next, name, kind, k);
            },
            None => {
                assert forall|j: int| 0 <= j < next.len() implies !keyed(
                    #[trigger] next[j],
                    name,
                    kind,
                ) by {
                    if j != at {
                        assert(next[j] == items[j]);
                    }
                }
                lemma_none(next, name, kind);
            },
        }
    }
}

/// A slot that is taken in leaves its name in the items, and takes none
/// away; what is found under a name afterwards is what was found there
/// before or what the slot brings.
pub proof fn lemma_absorbed(
    items: Seq<Slot>,
    slot: Slot,
    direct: Seq<usize>,
    name: Seq<char>,
    kind: ItemKind,
)
    ensures
        lookup(absorbed(items, slot, direct), slot.name, slot.kind) is Some,
        lookup(items, name, kind) is Some ==> lookup(absorbed(items, slot, direct), name, kind)
            is Some,
        lookup(absorbed(items, slot, direct), name, kind) == lookup(items, name, kind) || (keyed(
            slot,
            name,
            kind,
        ) && lookup(absorbed(items, slot, direct), name, kind) == Some(slot.item)),
{
    let next = absorbed(items, slot, direct);
    lemma_found(items, slot.name, slot.kind);
    if next == items {
    } else {
        assert(next == with_slot(items, slot));
        lemma_with_slot(items, slot, name, kind);
    }
}

/// Taking slots in leaves the names that were there and adds those of the
/// slots.
pub proof fn lemma_absorbed_all(
    items: Seq<Slot>,
    nested: Seq<Slot>,
    j: int,
    direct: Seq<usize>,
    name: Seq<char>,
    kind: ItemKind,
)
    requires
        0 <= j <= nested.len(),
    ensures
        lookup(items, name, kind) is Some ==> lookup(
            absorbed_all(items, nested, j, direct),
            name,
            kind,
        ) is Some,
        (exists|k: int| j <= k < nested.len() && keyed(#[trigger] nested[k], name, kind))
            ==> lookup(absorbed_all(items, nested, j, direct), name, kind) is Some,
    decreases nested.len() - j,
{
    if j < nested.len() {
        lemma_absorbed(items, nested[j], direct, name, kind);
        lemma_absorbed_all(absorbed(items, nested[j], direct), nested, j + 1, direct, name, kind);
    }
}

/// True when the definition is one of `name`, a folded name, as a `kind`.
pub open spec fn names(definition: Occurrence, name: Seq<char>, kind: ItemKind) -> bool {
    folded(definition.item.name) == name && definition.item.kind == kind
}

/// The definitions of the file itself are found under their names, and
/// they stand in the file itself.
pub proof fn lemma_with_own(
    items: Seq<Slot>,
    definitions: Seq<Occurrence>,
    file: usize,
    j: int,
    name: Seq<char>,
    kind: ItemKind,
)
    requires
        0 <= j <= definitions.len(),
    ensures
        (exists|k: int|
            j <= k < definitions.len() && names(#[trigger] definitions[k], name, kind)) ==> (lookup(
            with_own(items, definitions, file, j),
            name,
            kind,
        ) matches Some(item) && item.origin == file),
        lookup(items, name, kind) is Some ==> lookup(
            with_own(items, definitions, file, j),
            name,
            kind,
        ) is Some,
    decreases definitions.len() - j,
{
    if j < definitions.len() {
        let slot = own_slot(definitions[j], file, j as usize);
        lemma_with_slot(items, slot, name, kind);
        let next = with_slot(items, slot);
        lemma_with_own(next, definitions, file, j + 1, name, kind);
        if names(definitions[j], name, kind) {
            lemma_own_kept(next, definitions, file, j + 1, name, kind);
        }
    }
}

/// What stands in the file itself under a name stays there while more of
/// the file's definitions are put in.
proof fn lemma_own_kept(
    items: Seq<Slot>,
    definitions: Seq<Occurrence>,
    file: usize,
    j: int,
    name: Seq<char>,
    kind: ItemKind,
)
    requires
        0 <= j <= definitions.len(),
        lookup(items, name, kind) matches Some(item) && item.origin == file,
    ensures
        lookup(with_own(items, definitions, file, j), name, kind) matches Some(item) && item.origin
            == file,
    decreases definitions.len() - j,
{
    if j < definitions.len() {
        let slot = own_slot(definitions[j], file, j as usize);
        lemma_with_slot(items, slot, name, kind);
        lemma_own_kept(with_slot(items, slot), definitions, file, j + 1, name, kind);
    }
}

/// Whoever writes the name of a definition of the file, in whatever case,
/// finds a definition, and finds it in the file itself.
pub proof fn law_own_definitions_resolve(
    files: Seq<Unit>,
    f: int,
    visiting: Seq<bool>,
    j: int,
    written: Seq<char>,
)
    requires
        scope_of(files, f, visiting) is Ok,
        0 <= j < files[f].file.definitions.len(),
        folded(written) == folded(files[f].file.definitions[j].item.name),
    ensures
        searched(
            scope_of(files, f, visiting)->Ok_0,
            written,
            files[f].file.definitions[j].item.kind,
        ) matches Some((how, item)) && how == Found::Direct && item.origin == f as usize,
{
    let definitions = files[f].file.definitions;
    let items = imported(files, f, visiting.update(f, true), 0, Seq::empty())->Ok_0;
    assert(names(definitions[j], folded(written), definitions[j].item.kind));
    lemma_with_own(items, definitions, f as usize, 0, folded(written), definitions[j].item.kind);
    let scope = scope_of(files, f, visiting)->Ok_0;
    assert(0 <= f < files.len() && !visiting[f]);
    assert(scope.items == with_own(items, definitions, f as usize, 0));
    assert(scope.file == f as usize);

}

/// What an import brings into scope is in scope in the importing file:
/// a name that is found in the scope of an imported file is found in the
/// scope of the file that imports it.
pub proof fn law_imports_are_in_scope(
    files: Seq<Unit>,
    f: int,
    visiting: Seq<bool>,
    i: int,
    name: Seq<char>,
    kind: ItemKind,
)
    requires
        scope_of(files, f, visiting) is Ok,
        0 <= i < files[f].file.imports.len(),
    ensures
        index_of(files, files[f].file.imports[i].0, 0) matches Some(g) && scope_of(
            files,
            g,
            visiting.update(f, true),
        ) matches Ok(nested) && (lookup(nested.items, name, kind) is Some ==> lookup(
            scope_of(files, f, visiting)->Ok_0.items,
            name,
            kind,
        ) is Some),
{
    let inner = visiting.update(f, true);
    lemma_imported_holds(files, f, inner, 0, Seq::empty(), i, name, kind);
    let items = imported(files, f, inner, 0, Seq::empty())->Ok_0;
    lemma_with_own(items, files[f].file.definitions, f as usize, 0, name, kind);
}

/// The imports leave in the items what was there, and what the scope of
/// each of them holds.
proof fn lemma_imported_holds(
    files: Seq<Unit>,
    f: int,
    inner: Seq<bool>,
    from: int,
    items: Seq<Slot>,
    i: int,
    name: Seq<char>,
    kind: ItemKind,
)
    requires
        0 <= from <= i < files[f].file.imports.len(),
        imported(files, f, inner, from, items) is Ok,
    ensures
        index_of(files, files[f].file.imports[i].0, 0) matches Some(g) && scope_of(files, g, inner)
            matches Ok(nested) && (lookup(nested.items, name, kind) is Some ==> lookup(
            imported(files, f, inner, from, items)->Ok_0,
            name,
            kind,
        ) is Some),
    decreases files[f].file.imports.len() - from,
{
    let imports = files[f].file.imports;
    let g = index_of(files, imports[from].0, 0)->Some_0;
    let nested = scope_of(files, g, inner)->Ok_0;
    let direct = crate::scope::direct_of(files, f);
    let next = absorbed_all(items, nested.items, 0, direct);
    if from == i {
        if lookup(nested.items, name, kind) is Some {
            lemma_found(nested.items, name, kind);
            let k = find(nested.items, name, kind, 0)->Some_0;
            assert(keyed(nested.items[k], name, kind));
            lemma_absorbed_all(items, nested.items, 0, direct, name, kind);
            lemma_imported_keeps(files, f, inner, from + 1, next, name, kind);
        }
    } else {
        lemma_imported_holds(files, f, inner, from + 1, next, i, name, kind);
    }
}

/// The imports take no name away from the items.
proof fn lemma_imported_keeps(
    files: Seq<Unit>,
    f: int,
    inner: Seq<bool>,
    from: int,
    items: Seq<Slot>,
    name: Seq<char>,
    kind: ItemKind,
)
    requires
        0 <= from <= files[f].file.imports.len(),
        imported(files, f, inner, from, items) is Ok,
        lookup(items, name, kind) is Some,
    ensures
        lookup(imported(files, f, inner, from, items)->Ok_0, name, kind) is Some,
    decreases files[f].file.imports.len() - from,
{
    let imports = files[f].file.imports;
    if from < imports.len() {
        let g = index_of(files, imports[from].0, 0)->Some_0;
        let nested = scope_of(files, g, inner)->Ok_0;
        let direct = crate::scope::direct_of(files, f);
        lemma_absorbed_all(items, nested.items, 0, direct, name, kind);
        lemma_imported_keeps(
            files,
            f,
            inner,
            from + 1,
            absorbed_all(items, nested.items, 0, direct),
            name,
            kind,
        );
    }
}

/// True of a project that can be held in memory: its files and the
/// definitions of each file can be counted in a `usize`.
pub open spec fn storable(files: Seq<Unit>) -> bool {
    &&& files.len() <= usize::MAX
    &&& forall|f: int|
        0 <= f < files.len() ==> (#[trigger] files[f]).file.definitions.len() <= usize::MAX
}

proof fn lemma_faithful_with_slot(files: Seq<Unit>, items: Seq<Slot>, slot: Slot)
    requires
        faithful(files, items),
        definition_at(files, slot.item) matches Some(d) && folded(d.item.name) == slot.name
            && d.item.kind == slot.kind,
    ensures
        faithful(files, with_slot(items, slot)),
{
    let next = with_slot(items, slot);
    lemma_found(items, slot.name, slot.kind);
    assert forall|i: int| 0 <= i < next.len() implies (#[trigger] definition_at(
        files,
        next[i].item,
    ) matches Some(d) && folded(d.item.name) == next[i].name && d.item.kind == next[i].kind) by {
        if next[i] != slot {
            assert(next[i] == items[i]);
            assert(definition_at(files, items[i].item) is Some);
        }
    }
}

proof fn lemma_faithful_absorbed_all(
    files: Seq<Unit>,
    items: Seq<Slot>,
    nested: Seq<Slot>,
    j: int,
    direct: Seq<usize>,
)
    requires
        0 <= j <= nested.len(),
        faithful(files, items),
        faithful(files, nested),
    ensures
        faithful(files, absorbed_all(items, nested, j, direct)),
    decreases nested.len() - j,
{
    if j < nested.len() {
        let slot = nested[j];
        assert(definition_at(files, nested[j].item) is Some);
        let next = absorbed(items, slot, direct);
        if next != items {
            lemma_found(items, slot.name, slot.kind);
            lemma_faithful_with_slot(files, items, slot);
        }
        lemma_faithful_absorbed_all(files, next, nested, j + 1, direct);
    }
}

proof fn lemma_faithful_with_own(files: Seq<Unit>, items: Seq<Slot>, f: int, j: int)
    requires
        storable(files),
        0 <= f < files.len(),
        0 <= j <= files[f].file.definitions.len(),
        faithful(files, items),
    ensures
        faithful(files, with_own(items, files[f].file.definitions, f as usize, j)),
    decreases files[f].file.definitions.len() - j,
{
    let definitions = files[f].file.definitions;
    if j < definitions.len() {
        let slot = own_slot(definitions[j], f as usize, j as usize);
        assert(definition_at(files, slot.item) == Some(definitions[j]));
        lemma_faithful_with_slot(files, items, slot);
        lemma_faithful_with_own(files, with_slot(items, slot), f, j + 1);
    }
}

/// Each name in a scope stands for a definition that a file of the
/// project holds: a definition of that kind whose name, folded, is the
/// name in the scope.
pub proof fn law_scope_is_faithful(files: Seq<Unit>, f: int, visiting: Seq<bool>)
    requires
        storable(files),
        scope_of(files, f, visiting) is Ok,
    ensures
        faithful(files, scope_of(files, f, visiting)->Ok_0.items),
    decreases count_false(visiting), 0int, 0int,
{
    assert(0 <= f < files.len() && !visiting[f]);
    lemma_count_update(visiting, f);
    let inner = visiting.update(f, true);
    lemma_faithful_imported(files, f, inner, 0, Seq::empty());
    let items = imported(files, f, inner, 0, Seq::empty())->Ok_0;
    lemma_faithful_with_own(files, items, f, 0);
}

proof fn lemma_faithful_imported(
    files: Seq<Unit>,
    f: int,
    inner: Seq<bool>,
    i: int,
    items: Seq<Slot>,
)
    requires
        storable(files),
        0 <= f < files.len(),
        0 <= i,
        faithful(files, items),
        imported(files, f, inner, i, items) is Ok,
    ensures
        faithful(files, imported(files, f, inner, i, items)->Ok_0),
    decreases count_false(inner), 1int, files[f].file.imports.len() - i,
{
    let imports = files[f].file.imports;
    if i < imports.len() {
        let g = index_of(files, imports[i].0, 0)->Some_0;
        law_scope_is_faithful(files, g, inner);
        let nested = scope_of(files, g, inner)->Ok_0;
        let direct = crate::scope::direct_of(files, f);
        lemma_faithful_absorbed_all(files, items, nested.items, 0, direct);
        lemma_faithful_imported(
            files,
            f,
            inner,
            i + 1,
            absorbed_all(items, nested.items, 0, direct),
        );
    }
}

/// What is found under a name is a definition of that name, whatever the
/// case of its letters: the name as it is written and the name as it is
/// defined are the same once their case is folded.
pub proof fn law_found_means_defined(
    files: Seq<Unit>,
    f: int,
    visiting: Seq<bool>,
    written: Seq<char>,
    kind: ItemKind,
)
    requires
        storable(files),
        scope_of(files, f, visiting) is Ok,
        searched(scope_of(files, f, visiting)->Ok_0, written, kind) is Some,
    ensures
        definition_at(
            files,
            searched(scope_of(files, f, visiting)->Ok_0, written, kind)->Some_0.1,
        ) matches Some(d) && folded(d.item.name) == folded(written) && d.item.kind == kind,
{
    law_scope_is_faithful(files, f, visiting);
    let items = scope_of(files, f, visiting)->Ok_0.items;
    lemma_found(items, folded(written), kind);
    let k = find(items, folded(written), kind, 0)->Some_0;
    assert(definition_at(files, items[k].item) is Some);
}

/// The directness part of what a usage that is found adds to the tally:
/// nothing where it is found directly; else a use of the first import bag
/// through which it comes, or of the first import through which it comes,
/// and the message that it is imported indirectly.
pub open spec fn routed(
    files: Seq<Unit>,
    scopes: Seq<ScopeView>,
    f: int,
    u: Occurrence,
    how: Found,
    item: DefinedItem,
    t: Tally,
) -> (Seq<usize>, Emitting) {
    let routes = through(
        scopes,
        scopes[f].direct,
        folded(u.item.name),
        u.item.kind,
        scopes[f].direct.len() as int,
    );
    if how == Found::Direct {
        (t.used, t.emitter)
    } else {
        match first_bag(files, routes, 0) {
            Some(bag) => (
                t.used.push(bag),
                emitted(t.emitter, indirect_message(files, f, u, Some(bag), None)),
            ),
            None => if routes.len() > 0 {
                (
                    t.used.push(routes[0]),
                    emitted(
                        t.emitter,
                        indirect_message(files, f, u, Some(routes[0]), Some(item.origin)),
                    ),
                )
            } else {
                (t.used, emitted(t.emitter, indirect_message(files, f, u, None, Some(item.origin))))
            },
        }
    }
}

/// A usage that is found, of a name that was not looked at before and that
/// needs a definition, is reported as written in the wrong case exactly if
/// it is not written as the definition that was found.
pub proof fn law_letter_casing(
    files: Seq<Unit>,
    scopes: Seq<ScopeView>,
    known: Known,
    f: int,
    u: Occurrence,
    t: Tally,
    visiting: Seq<bool>,
)
    requires
        storable(files),
        scope_of(files, f, visiting) == Ok::<ScopeView, Trouble>(scopes[f]),
        !passed_over(known, t, folded(u.item.name), u.item.kind),
        searched(scopes[f], u.item.name, u.item.kind) is Some,
    ensures
        ({
            let (how, item) = searched(scopes[f], u.item.name, u.item.kind)->Some_0;
            let found = definition_at(files, item);
            let before = routed(files, scopes, f, u, how, item, t).1;
            let after = usage_step(files, scopes, known, f, u, t).emitter;
            &&& found is Some
            &&& found->Some_0.item.kind == u.item.kind
            &&& folded(found->Some_0.item.name) == folded(u.item.name)
            &&& found->Some_0.item.name == u.item.name ==> after == before
            &&& found->Some_0.item.name != u.item.name ==> after == emitted(
                before,
                casing_message(files, f, u),
            )
        }),
{
    law_found_means_defined(files, f, visiting, u.item.name, u.item.kind);
}

/// A usage of a name that was not looked at before, that needs a
/// definition and has none in scope, is reported as an unknown function if
/// it is the usage of a function; the usage of a class never is.
pub proof fn law_unknown_function(
    files: Seq<Unit>,
    scopes: Seq<ScopeView>,
    known: Known,
    f: int,
    u: Occurrence,
    t: Tally,
)
    requires
        !passed_over(known, t, folded(u.item.name), u.item.kind),
        searched(scopes[f], u.item.name, u.item.kind) is None,
    ensures
        u.item.kind == ItemKind::Function ==> usage_step(files, scopes, known, f, u, t).emitter
            == emitted(t.emitter, unknown_message(files, f, u)),
        u.item.kind != ItemKind::Function ==> usage_step(files, scopes, known, f, u, t).emitter
            == t.emitter,
        usage_step(files, scopes, known, f, u, t).used == t.used,
{
}

/// A usage of what is in scope is never reported as an unknown function,
/// and what it uses counts as used.
pub proof fn law_usage_resolves(
    files: Seq<Unit>,
    scopes: Seq<ScopeView>,
    known: Known,
    f: int,
    u: Occurrence,
    t: Tally,
)
    requires
        !passed_over(known, t, folded(u.item.name), u.item.kind),
        searched(scopes[f], u.item.name, u.item.kind) is Some,
    ensures
        ({
            let (how, item) = searched(scopes[f], u.item.name, u.item.kind)->Some_0;
            let (used, emitter) = routed(files, scopes, f, u, how, item, t);
            let after = usage_step(files, scopes, known, f, u, t);
            &&& after.used == used.push(item.origin)
            &&& after.emitter == emitter || after.emitter == emitted(
                emitter,
                casing_message(files, f, u),
            )
        }),
{
}

/// A file that imports itself through another file has no scope: where
/// file `f` imports file `g` and file `g` imports file `f`, computing the
/// scope of `f` fails.
pub proof fn law_mutual_import_fails(files: Seq<Unit>, f: int, g: int, i: int, j: int)
    requires
        0 <= f < files.len(),
        0 <= i < files[f].file.imports.len(),
        index_of(files, files[f].file.imports[i].0, 0) == Some(g),
        0 <= j < files[g].file.imports.len(),
        index_of(files, files[g].file.imports[j].0, 0) == Some(f),
    ensures
        scope_of(files, f, unmarked(files.len())) is Err,
        scopes_upto(files, files.len() as int) is Err,
{
    let none = unmarked(files.len());
    let inner = none.update(f, true);
    crate::scope::lemma_find_file_bounds(files, files[f].file.imports[i].0, 0);
    if g == f {
        assert(scope_of(files, g, inner) is Err);
    } else {
        let deeper = inner.update(g, true);
        assert(scope_of(files, f, deeper) is Err);
        lemma_imported_fails(files, g, deeper, 0, Seq::empty(), j);
        assert(scope_of(files, g, inner) is Err);
    }
    lemma_imported_fails(files, f, inner, 0, Seq::empty(), i);
    lemma_some_trouble(files, f, files.len() as int);
}

/// Where the scope of an imported file cannot be computed, the imports
/// fail.
proof fn lemma_imported_fails(
    files: Seq<Unit>,
    f: int,
    inner: Seq<bool>,
    from: int,
    items: Seq<Slot>,
    i: int,
)
    requires
        0 <= from <= i < files[f].file.imports.len(),
        index_of(files, files[f].file.imports[i].0, 0) matches Some(g) ==> scope_of(files, g, inner)
            is Err,
    ensures
        imported(files, f, inner, from, items) is Err,
    decreases i - from,
{
    let imports = files[f].file.imports;
    if from < i {
        match index_of(files, imports[from].0, 0) {
            None => {},
            Some(g) => match scope_of(files, g, inner) {
                Err(e) => {},
                Ok(nested) => {
                    lemma_imported_fails(
                        files,
                        f,
                        inner,
                        from + 1,
                        absorbed_all(items, nested.items, 0, crate::scope::direct_of(files, f)),
                        i,
                    );
                },
            },
        }
    }
}

/// Where the scope of one file cannot be computed, those of the project
/// cannot.
proof fn lemma_some_trouble(files: Seq<Unit>, f: int, n: int)
    requires
        0 <= f < n,
        scope_of(files, f, unmarked(files.len())) is Err,
    ensures
        scopes_upto(files, n) is Err,
    decreases n,
{
    if n > f + 1 {
        lemma_some_trouble(files, f, n - 1);
    }
}

/// Each import is looked at once: the import of a file of which nothing
/// was used gets the message that it is unused, and no other import does.
pub proof fn law_unused_import(files: Seq<Unit>, f: int, j: int, used: Seq<usize>, e: Emitting)
    requires
        0 <= j < files[f].file.imports.len(),
    ensures
        unused(files, f, j, used) ==> imports_checked(files, f, j, used, e) == imports_checked(
            files,
            f,
            j + 1,
            used,
            emitted(e, unused_message(files, f, j)),
        ),
        !unused(files, f, j, used) ==> imports_checked(files, f, j, used, e) == imports_checked(
            files,
            f,
            j + 1,
            used,
            e,
        ),
{
}

/// The imports of an import bag are not looked at: what such a file adds
/// to the messages is what its usages give, and nothing for an import,
/// used or not.
pub proof fn law_import_bag_is_exempt(
    files: Seq<Unit>,
    scopes: Seq<ScopeView>,
    known: Known,
    f: int,
    e: Emitting,
)
    requires
        files[f].file.is_import_bag(),
    ensures
        file_checked(files, scopes, known, f, e) == usages_checked(
            files,
            scopes,
            known,
            f,
            0,
            fresh(e),
        ).emitter,
{
}

/// The number of messages among `items` that say that an import is unused.
pub open spec fn unused_findings(items: Seq<Emitted>) -> nat
    decreases items.len(),
{
    if items.len() == 0 {
        0
    } else {
        unused_findings(items.drop_last()) + if items.last().lint == Lint::UnusedImports {
            1nat
        } else {
            0nat
        }
    }
}

/// A message that is sent adds one to the messages, its own.
proof fn lemma_sent(e: Emitting, m: Message, level: Level)
    ensures
        unused_findings(sent(e, m, level).items) == unused_findings(e.items) + if m.lint
            == Lint::UnusedImports {
            1nat
        } else {
            0nat
        },
{
    let after = sent(e, m, level).items;
    assert(after.drop_last() =~= e.items);
}

/// Whatever becomes of a message, the messages that say that an import is
/// unused get one more at most, and none where the message says something
/// else.
pub proof fn lemma_emitted(e: Emitting, m: Message)
    ensures
        unused_findings(e.items) <= unused_findings(emitted(e, m).items) <= unused_findings(
            e.items,
        ) + 1,
        m.lint != Lint::UnusedImports ==> unused_findings(emitted(e, m).items) == unused_findings(
            e.items,
        ),
{
    let level = level_of(m.lint, e.config);
    lemma_sent(e, m, level);
    if m.location.line is Some {
        match allowed_on(m.location.line->Some_0.line) {
            Err(name) => {
                let about = unknown_lint_message(m.location, name);
                lemma_sent(e, about, level_of(about.lint, e.config));
                lemma_sent(emitted_plainly(e, about), m, level);
            },
            _ => {},
        }
    }
}

/// Looking at a usage adds no message that says that an import is unused.
proof fn lemma_usage_adds_none(
    files: Seq<Unit>,
    scopes: Seq<ScopeView>,
    known: Known,
    f: int,
    u: Occurrence,
    t: Tally,
)
    ensures
        unused_findings(usage_step(files, scopes, known, f, u, t).emitter.items) == unused_findings(
            t.emitter.items,
        ),
{
    let key = folded(u.item.name);
    if !passed_over(known, t, key, u.item.kind) {
        match found_under(scopes[f], key, u.item.kind) {
            None => {
                lemma_emitted(t.emitter, unknown_message(files, f, u));
            },
            Some((how, item)) => {
                let routes = through(
                    scopes,
                    scopes[f].direct,
                    key,
                    u.item.kind,
                    scopes[f].direct.len() as int,
                );
                let via = if routes.len() > 0 {
                    Some(routes[0])
                } else {
                    None
                };
                let first = match first_bag(files, routes, 0) {
                    Some(b) => indirect_message(files, f, u, Some(b), None),
                    None => indirect_message(files, f, u, via, Some(item.origin)),
                };
                lemma_emitted(t.emitter, first);
                lemma_emitted(t.emitter, casing_message(files, f, u));
                lemma_emitted(emitted(t.emitter, first), casing_message(files, f, u));
            },
        }
    }
}

/// Looking at the usages of a file adds no message that says that an
/// import is unused.
proof fn lemma_usages_add_none(
    files: Seq<Unit>,
    scopes: Seq<ScopeView>,
    known: Known,
    f: int,
    i: int,
    t: Tally,
)
    ensures
        unused_findings(usages_checked(files, scopes, known, f, i, t).emitter.items)
            == unused_findings(t.emitter.items),
    decreases files[f].file.usages.len() - i,
{
    if 0 <= i < files[f].file.usages.len() {
        let next = usage_step(files, scopes, known, f, files[f].file.usages[i], t);
        lemma_usage_adds_none(files, scopes, known, f, files[f].file.usages[i], t);
        lemma_usages_add_none(files, scopes, known, f, i + 1, next);
    }
}

/// A file that defines no function and no class is never told that an
/// import of it is unused, whatever it uses and imports.
pub proof fn law_import_bag_gets_no_unused_finding(
    files: Seq<Unit>,
    scopes: Seq<ScopeView>,
    known: Known,
    f: int,
    e: Emitting,
)
    requires
        files[f].file.defines_nothing(),
    ensures
        unused_findings(file_checked(files, scopes, known, f, e).items) == unused_findings(
            e.items,
        ),
{
    lemma_usages_add_none(files, scopes, known, f, 0, fresh(e));
}

/// Each import adds one message at most that says that it is unused, and
/// none where something of the file that it brings in was used.
pub proof fn law_unused_import_is_reported_once(
    files: Seq<Unit>,
    f: int,
    j: int,
    used: Seq<usize>,
    e: Emitting,
)
    requires
        0 <= j < files[f].file.imports.len(),
    ensures
        imports_checked(files, f, j, used, e) == imports_checked(
            files,
            f,
            j + 1,
            used,
            if unused(files, f, j, used) {
                emitted(e, unused_message(files, f, j))
            } else {
                e
            },
        ),
        unused_findings(e.items) <= unused_findings(
            emitted(e, unused_message(files, f, j)).items,
        ) <= unused_findings(e.items) + 1,
{
    lemma_emitted(e, unused_message(files, f, j));
}

/// The import of a file of which something is used is not reported as
/// unused.
pub proof fn law_used_import_is_kept(
    files: Seq<Unit>,
    f: int,
    j: int,
    used: Seq<usize>,
    g: int,
)
    requires
        0 <= j < files[f].file.imports.len(),
        index_of(files, files[f].file.imports[j].0, 0) == Some(g),
        used.contains(g as usize),
    ensures
        !unused(files, f, j, used),
{
}

/// True when `name` stands in the items for a definition that a directly
/// imported file holds.
pub open spec fn held_directly(
    items: Seq<Slot>,
    direct: Seq<usize>,
    name: Seq<char>,
    kind: ItemKind,
) -> bool {
    lookup(items, name, kind) matches Some(item) && direct.contains(item.origin)
}

proof fn lemma_direct_absorbed(
    items: Seq<Slot>,
    slot: Slot,
    direct: Seq<usize>,
    name: Seq<char>,
    kind: ItemKind,
)
    ensures
        held_directly(items, direct, name, kind) ==> held_directly(
            absorbed(items, slot, direct),
            direct,
            name,
            kind,
        ),
        keyed(slot, name, kind) && direct.contains(slot.item.origin) ==> held_directly(
            absorbed(items, slot, direct),
            direct,
            name,
            kind,
        ),
{
    lemma_found(items, slot.name, slot.kind);
    lemma_found(items, name, kind);
    let next = absorbed(items, slot, direct);
    if next != items {
        lemma_with_slot(items, slot, name, kind);
    }
}

proof fn lemma_direct_absorbed_all(
    items: Seq<Slot>,
    nested: Seq<Slot>,
    j: int,
    direct: Seq<usize>,
    name: Seq<char>,
    kind: ItemKind,
)
    requires
        0 <= j <= nested.len(),
    ensures
        held_directly(items, direct, name, kind) ==> held_directly(
            absorbed_all(items, nested, j, direct),
            direct,
            name,
            kind,
        ),
        (exists|k: int|
            j <= k < nested.len() && keyed(#[trigger] nested[k], name, kind) && direct.contains(
                nested[k].item.origin,
            )) ==> held_directly(absorbed_all(items, nested, j, direct), direct, name, kind),
    decreases nested.len() - j,
{
    if j < nested.len() {
        lemma_direct_absorbed(items, nested[j], direct, name, kind);
        lemma_direct_absorbed_all(
            absorbed(items, nested[j], direct),
            nested,
            j + 1,
            direct,
            name,
            kind,
        );
    }
}

proof fn lemma_direct_imported(
    files: Seq<Unit>,
    f: int,
    inner: Seq<bool>,
    from: int,
    items: Seq<Slot>,
    name: Seq<char>,
    kind: ItemKind,
)
    requires
        0 <= from <= files[f].file.imports.len(),
        imported(files, f, inner, from, items) is Ok,
        held_directly(items, crate::scope::direct_of(files, f), name, kind),
    ensures
        held_directly(
            imported(files, f, inner, from, items)->Ok_0,
            crate::scope::direct_of(files, f),
            name,
            kind,
        ),
    decreases files[f].file.imports.len() - from,
{
    let imports = files[f].file.imports;
    if from < imports.len() {
        let g = index_of(files, imports[from].0, 0)->Some_0;
        let nested = scope_of(files, g, inner)->Ok_0;
        let direct = crate::scope::direct_of(files, f);
        lemma_direct_absorbed_all(items, nested.items, 0, direct, name, kind);
        lemma_direct_imported(
            files,
            f,
            inner,
            from + 1,
            absorbed_all(items, nested.items, 0, direct),
            name,
            kind,
        );
    }
}

proof fn lemma_direct_from_import(
    files: Seq<Unit>,
    f: int,
    inner: Seq<bool>,
    from: int,
    items: Seq<Slot>,
    i: int,
    name: Seq<char>,
    kind: ItemKind,
)
    requires
        0 <= from <= i < files[f].file.imports.len(),
        imported(files, f, inner, from, items) is Ok,
        index_of(files, files[f].file.imports[i].0, 0) matches Some(g) && scope_of(files, g, inner)
            matches Ok(nested) && held_directly(
            nested.items,
            crate::scope::direct_of(files, f),
            name,
            kind,
        ),
    ensures
        held_directly(
            imported(files, f, inner, from, items)->Ok_0,
            crate::scope::direct_of(files, f),
            name,
            kind,
        ),
    decreases files[f].file.imports.len() - from,
{
    let imports = files[f].file.imports;
    let g = index_of(files, imports[from].0, 0)->Some_0;
    let nested = scope_of(files, g, inner)->Ok_0;
    let direct = crate::scope::direct_of(files, f);
    let next = absorbed_all(items, nested.items, 0, direct);
    if from == i {
        lemma_found(nested.items, name, kind);
        let k = find(nested.items, name, kind, 0)->Some_0;
        assert(keyed(nested.items[k], name, kind) && direct.contains(nested.items[k].item.origin));
        lemma_direct_absorbed_all(items, nested.items, 0, direct, name, kind);
        lemma_direct_imported(files, f, inner, from + 1, next, name, kind);
    } else {
        lemma_direct_from_import(files, f, inner, from + 1, next, i, name, kind);
    }
}

proof fn lemma_others_kept(
    items: Seq<Slot>,
    definitions: Seq<Occurrence>,
    file: usize,
    j: int,
    name: Seq<char>,
    kind: ItemKind,
)
    requires
        0 <= j <= definitions.len(),
        forall|k: int| j <= k < definitions.len() ==> !names(#[trigger] definitions[k], name, kind),
    ensures
        lookup(with_own(items, definitions, file, j), name, kind) == lookup(items, name, kind),
    decreases definitions.len() - j,
{
    if j < definitions.len() {
        let slot = own_slot(definitions[j], file, j as usize);
        assert(!names(definitions[j], name, kind));
        lemma_with_slot(items, slot, name, kind);
        lemma_others_kept(with_slot(items, slot), definitions, file, j + 1, name, kind);
    }
}

/// What a directly imported file defines is not pushed aside by what comes
/// from further away: where the scope of an imported file holds under a
/// name a definition of a directly imported file, and the importing file
/// defines nothing of that name itself, the importing file finds under
/// that name a definition of a directly imported file, and finds it
/// directly.
pub proof fn law_direct_definitions_win(
    files: Seq<Unit>,
    f: int,
    visiting: Seq<bool>,
    i: int,
    name: Seq<char>,
    kind: ItemKind,
)
    requires
        scope_of(files, f, visiting) is Ok,
        0 <= i < files[f].file.imports.len(),
        index_of(files, files[f].file.imports[i].0, 0) matches Some(g) && scope_of(
            files,
            g,
            visiting.update(f, true),
        ) matches Ok(nested) && held_directly(
            nested.items,
            crate::scope::direct_of(files, f),
            folded(name),
            kind,
        ),
        forall|k: int|
            0 <= k < files[f].file.definitions.len() ==> !names(
                #[trigger] files[f].file.definitions[k],
                folded(name),
                kind,
            ),
    ensures
        searched(scope_of(files, f, visiting)->Ok_0, name, kind) matches Some((how, item)) && how
            == Found::Direct,
{
    let inner = visiting.update(f, true);
    let scope = scope_of(files, f, visiting)->Ok_0;
    assert(0 <= f < files.len() && !visiting[f]);
    let items = imported(files, f, inner, 0, Seq::empty())->Ok_0;
    lemma_direct_from_import(files, f, inner, 0, Seq::empty(), i, folded(name), kind);
    lemma_others_kept(items, files[f].file.definitions, f as usize, 0, folded(name), kind);
    assert(scope.items == with_own(items, files[f].file.definitions, f as usize, 0));
    assert(scope.direct == crate::scope::direct_of(files, f));
}

/// True when each file of `chain` imports the next one, by the import
/// whose number `via` gives.
pub open spec fn import_chain(files: Seq<Unit>, chain: Seq<int>, via: Seq<int>) -> bool {
    &&& chain.len() == via.len() + 1
    &&& forall|k: int|
        0 <= k < via.len() ==> 0 <= #[trigger] chain[k] < files.len() && 0 <= via[k]
            < files[chain[k]].file.imports.len() && index_of(
            files,
            files[chain[k]].file.imports[via[k]].0,
            0,
        ) == Some(chain[k + 1])
}

proof fn lemma_chain_to_marked(
    files: Seq<Unit>,
    chain: Seq<int>,
    via: Seq<int>,
    k: int,
    visiting: Seq<bool>,
)
    requires
        import_chain(files, chain, via),
        0 <= k < chain.len(),
        visiting.len() == files.len(),
        0 <= chain.last() < files.len(),
        visiting[chain.last()],
    ensures
        scope_of(files, chain[k], visiting) is Err,
    decreases chain.len() - k,
{
    if k < chain.len() - 1 {
        let f = chain[k];
        assert(0 <= f < files.len());
        if !visiting[f] {
            let inner = visiting.update(f, true);
            lemma_chain_to_marked(files, chain, via, k + 1, inner);
            lemma_imported_fails(files, f, inner, 0, Seq::empty(), via[k]);
        }
    }
}

/// A file that imports itself, through however many files, has no scope,
/// and then the project has none: where a chain of imports leads from a
/// file back to it, computing the scopes fails.
pub proof fn law_import_cycle_fails(files: Seq<Unit>, chain: Seq<int>, via: Seq<int>)
    requires
        import_chain(files, chain, via),
        chain.len() >= 2,
        chain[0] == chain.last(),
    ensures
        scope_of(files, chain[0], unmarked(files.len())) is Err,
        scopes_upto(files, files.len() as int) is Err,
{
    let f = chain[0];
    assert(0 <= f < files.len());
    let inner = unmarked(files.len()).update(f, true);
    lemma_chain_to_marked(files, chain, via, 1, inner);
    lemma_imported_fails(files, f, inner, 0, Seq::empty(), via[0]);
    lemma_some_trouble(files, f, files.len() as int);
}

/// True when no two of the items stand under the same name for the same
/// kind.
pub open spec fn no_name_twice(items: Seq<Slot>) -> bool {
    forall|i: int, j: int|
        0 <= i < j < items.len() ==> !keyed(#[trigger] items[i], (#[trigger] items[j]).name, items[j].kind)
}

proof fn lemma_unique_with_slot(items: Seq<Slot>, slot: Slot)
    requires
        no_name_twice(items),
    ensures
        no_name_twice(with_slot(items, slot)),
{
    lemma_found(items, slot.name, slot.kind);
    let next = with_slot(items, slot);
    assert forall|i: int, j: int| 0 <= i < j < next.len() implies !keyed(
        #[trigger] next[i],
        (#[trigger] next[j]).name,
        next[j].kind,
    ) by {
        match find(items, slot.name, slot.kind, 0) {
            Some(k) => {
                assert(keyed(items[k], slot.name, slot.kind));
                if i == k {
                    assert(next[j] == items[j]);
                    assert(!keyed(items[k], items[j].name, items[j].kind));
                } else if j == k {
                    assert(next[i] == items[i]);
                    assert(!keyed(items[i], items[k].name, items[k].kind));
                } else {
                    assert(next[i] == items[i]);
                    assert(next[j] == items[j]);
                }
            },
            None => {
                if j < items.len() {
                    assert(next[i] == items[i]);
                    assert(next[j] == items[j]);
                } else {
                    assert(next[i] == items[i]);
                    assert(!keyed(items[i], slot.name, slot.kind));
                }
            },
        }
    }
}

proof fn lemma_unique_absorbed_all(items: Seq<Slot>, nested: Seq<Slot>, j: int, direct: Seq<usize>)
    requires
        0 <= j <= nested.len(),
        no_name_twice(items),
    ensures
        no_name_twice(absorbed_all(items, nested, j, direct)),
    decreases nested.len() - j,
{
    if j < nested.len() {
        let next = absorbed(items, nested[j], direct);
        if next != items {
            lemma_found(items, nested[j].name, nested[j].kind);
            lemma_unique_with_slot(items, nested[j]);
        }
        lemma_unique_absorbed_all(next, nested, j + 1, direct);
    }
}

proof fn lemma_unique_with_own(items: Seq<Slot>, definitions: Seq<Occurrence>, file: usize, j: int)
    requires
        0 <= j <= definitions.len(),
        no_name_twice(items),
    ensures
        no_name_twice(with_own(items, definitions, file, j)),
    decreases definitions.len() - j,
{
    if j < definitions.len() {
        let slot = own_slot(definitions[j], file, j as usize);
        lemma_unique_with_slot(items, slot);
        lemma_unique_with_own(with_slot(items, slot), definitions, file, j + 1);
    }
}

proof fn lemma_unique_imported(
    files: Seq<Unit>,
    f: int,
    inner: Seq<bool>,
    i: int,
    items: Seq<Slot>,
)
    requires
        0 <= i,
        no_name_twice(items),
        imported(files, f, inner, i, items) is Ok,
    ensures
        no_name_twice(imported(files, f, inner, i, items)->Ok_0),
    decreases files[f].file.imports.len() - i,
{
    let imports = files[f].file.imports;
    if i < imports.len() {
        let g = index_of(files, imports[i].0, 0)->Some_0;
        let nested = scope_of(files, g, inner)->Ok_0;
        let direct = crate::scope::direct_of(files, f);
        lemma_unique_absorbed_all(items, nested.items, 0, direct);
        lemma_unique_imported(
            files,
            f,
            inner,
            i + 1,
            absorbed_all(items, nested.items, 0, direct),
        );
    }
}

/// A scope is a map: no name stands in it twice for the same kind.
pub proof fn law_scope_names_are_unique(files: Seq<Unit>, f: int, visiting: Seq<bool>)
    requires
        scope_of(files, f, visiting) is Ok,
    ensures
        no_name_twice(scope_of(files, f, visiting)->Ok_0.items),
{
    let inner = visiting.update(f, true);
    lemma_unique_imported(files, f, inner, 0, Seq::empty());
    let items = imported(files, f, inner, 0, Seq::empty())->Ok_0;
    lemma_unique_with_own(items, files[f].file.definitions, f as usize, 0);
}

} // verus!
