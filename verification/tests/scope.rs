use shelly::config::{ConfigFile, ConfigFileExtras};
use shelly::lint::{Config, Emitter, Lint};
use shelly::preprocess::Parsed;
use shelly::scope::{analyze, compute_scopes, Checker, Found, ScopeError};
use shelly::syntax::{Definition, Import, Importee, Item, ItemKind, Span, Usage};
use shelly::{EmittedItem, MessageKind, VecEmitter};

fn usage(fun: &str) -> Usage {
    Usage { span: Span::dummy(), item: Item::function(fun.to_owned()) }
}

fn class_usage(class: &str) -> Usage {
    Usage { span: Span::dummy(), item: Item::class(class.to_owned()) }
}

fn definition(fun: &str) -> Definition {
    Definition { span: Span::dummy(), item: Item::function(fun.to_owned()) }
}

fn class_definition(class: &str) -> Definition {
    Definition { span: Span::dummy(), item: Item::class(class.to_owned()) }
}

fn import(relpath: &str) -> (String, Import) {
    (
        relpath.to_owned(),
        Import { span: Span::dummy(), importee: Importee::Relative(relpath.into()) },
    )
}

fn builtins() -> Vec<String> {
    vec!["New-Item".to_owned(), "Write-Host".to_owned()]
}

fn lints_of(files: &Vec<(String, Parsed)>) -> Vec<EmittedItem> {
    lints_with(files, &ConfigFile::default())
}

fn lints_with(files: &Vec<(String, Parsed)>, config: &ConfigFile) -> Vec<EmittedItem> {
    let mut emitter = Emitter::new(Config::default());
    analyze(files, &builtins(), config, &mut emitter).unwrap();
    let mut raw = VecEmitter::new();
    emitter.flush(&mut raw);
    raw.emitted_items
}

#[test]
fn test_happy() {
    let files = vec![
        (
            "A".into(),
            Parsed {
                imports: vec![import("B")],
                usages: vec![usage("funA1"), usage("funB1")],
                definitions: vec![definition("funA1")],
                ..Parsed::default()
            },
        ),
        ("B".into(), Parsed { definitions: vec![definition("funB1")], ..Parsed::default() }),
    ];

    assert!(lints_of(&files).is_empty());
}

#[test]
fn test_loop() {
    let files = vec![
        ("A".into(), Parsed { imports: vec![import("B")], ..Parsed::default() }),
        ("B".into(), Parsed { imports: vec![import("A")], ..Parsed::default() }),
    ];

    let mut emitter = Emitter::new(Config::default());
    let res = analyze(&files, &builtins(), &ConfigFile::default(), &mut emitter);

    assert!(res.is_err());
}

#[test]
fn test_errors_when_function_is_used_but_not_defined_anywhere() {
    let files = vec![("A".into(), Parsed { usages: vec![usage("fun")], ..Parsed::default() })];

    let emitted_items = lints_of(&files);

    assert_eq!(emitted_items.len(), 1);
    assert_eq!(emitted_items[0].kind, MessageKind::Error);
    assert_eq!(emitted_items[0].lint, Lint::UnknownFunctions);
}

#[test]
fn test_warns_when_function_is_defined_not_directly_in_imported_file_but_deeper() {
    let files = vec![
        (
            "A".into(),
            Parsed { usages: vec![usage("funC1")], imports: vec![import("B")], ..Parsed::default() },
        ),
        (
            "B".into(),
            Parsed {
                imports: vec![import("C")],
                // we must use something from C, otherwise unused-imports will complain
                usages: vec![usage("funC2")],
                ..Parsed::default()
            },
        ),
        (
            "C".into(),
            Parsed {
                definitions: vec![definition("funC1"), definition("funC2")],
                ..Parsed::default()
            },
        ),
    ];

    let emitted_items = lints_of(&files);

    assert_eq!(emitted_items.len(), 1);
    assert_eq!(emitted_items[0].kind, MessageKind::Warning);
    assert_eq!(emitted_items[0].lint, Lint::IndirectImports);
}

#[test]
fn test_complains_about_unused_import_if_imported_file_doesnt_use_anything_from_its_own_import_even_though_we_use_it(
) {
    let files = vec![
        (
            "A".into(),
            Parsed {
                usages: vec![usage("funB1"), usage("funC1")],
                imports: vec![import("B")],
                ..Parsed::default()
            },
        ),
        (
            "B".into(),
            Parsed {
                imports: vec![import("C")],
                definitions: vec![definition("funB1")],
                ..Parsed::default()
            },
        ),
        ("C".into(), Parsed { definitions: vec![definition("funC1")], ..Parsed::default() }),
    ];

    let unused_import_lints: Vec<_> =
        lints_of(&files).into_iter().filter(|item| item.lint == Lint::UnusedImports).collect();
    assert_eq!(unused_import_lints.len(), 1);
}

#[test]
fn test_unused_imports_complex() {
    /*
        Arrows signify imports

        file_A: uses bar() --> file_B: defines bar{} --> file_C: defines foo{}
                               ^  ^
        file_D: uses foo() ---/  /
                                /
        file_E: uses nothing --/
                (except of builtin functions)

        We expect that:
        * file_B complains about unused import file_C and
        * file_E, which defines nothing, is not asked about its import.
    */
    let files = vec![
        (
            "file_A".into(),
            Parsed { imports: vec![import("file_B")], usages: vec![usage("bar")], ..Parsed::default() },
        ),
        (
            "file_B".into(),
            Parsed {
                imports: vec![import("file_C")],
                definitions: vec![definition("bar")],
                ..Parsed::default()
            },
        ),
        ("file_C".into(), Parsed { definitions: vec![definition("foo")], ..Parsed::default() }),
        (
            "file_D".into(),
            Parsed { imports: vec![import("file_B")], usages: vec![usage("foo")], ..Parsed::default() },
        ),
        (
            "file_E".into(),
            Parsed {
                imports: vec![import("file_B")],
                usages: vec![usage("New-Item")],
                ..Parsed::default()
            },
        ),
    ];

    let unused_import_lints: Vec<_> =
        lints_of(&files).into_iter().filter(|item| item.lint == Lint::UnusedImports).collect();
    assert_eq!(unused_import_lints.len(), 1);
}

#[test]
fn test_can_detect_invalid_letter_casing() {
    let files = vec![(
        "A".into(),
        Parsed {
            usages: vec![usage("myfuna"), usage("MyFunB")],
            definitions: vec![definition("MyFunA"), definition("myfunb")],
            ..Parsed::default()
        },
    )];

    let emitted_items = lints_of(&files);
    assert_eq!(emitted_items.len(), 2);
    assert_eq!(emitted_items[0].lint, Lint::InvalidLetterCasing);
    assert_eq!(emitted_items[1].lint, Lint::InvalidLetterCasing);
}

#[test]
fn test_detecting_invalid_letter_casing_works_for_multiple_files() {
    let files = vec![
        ("file_A".into(), Parsed { definitions: vec![definition("myfunb")], ..Parsed::default() }),
        (
            "file_B".into(),
            Parsed {
                usages: vec![usage("MyFunB")],
                definitions: vec![definition("MyFunA")],
                imports: vec![import("file_A")],
                ..Parsed::default()
            },
        ),
        (
            "file_C".into(),
            Parsed {
                usages: vec![usage("MyFunB"), usage("myFunA")],
                imports: vec![import("file_B")],
                ..Parsed::default()
            },
        ),
    ];

    let invalid_casing_lints: Vec<_> = lints_of(&files)
        .into_iter()
        .filter(|item| item.lint == Lint::InvalidLetterCasing)
        .collect();
    assert_eq!(invalid_casing_lints.len(), 3);
}

#[test]
fn test_detects_unused_imports() {
    let files = vec![
        ("file_A".into(), Parsed { definitions: vec![definition("foo")], ..Parsed::default() }),
        (
            "file_B".into(),
            Parsed {
                imports: vec![import("file_A")],
                usages: vec![usage("New-Item")],
                ..Parsed::default()
            },
        ),
    ];

    // file_B defines nothing: it only hands on what it imports.
    assert!(files[1].1.is_import_bag());
    assert_eq!(lints_of(&files).len(), 0);

    let files = vec![
        ("file_A".into(), Parsed { definitions: vec![definition("foo")], ..Parsed::default() }),
        (
            "file_B".into(),
            Parsed {
                imports: vec![import("file_A")],
                usages: vec![usage("New-Item")],
                definitions: vec![definition("bar")],
                ..Parsed::default()
            },
        ),
    ];
    let emitted_items = lints_of(&files);
    assert_eq!(emitted_items.len(), 1);
    assert_eq!(emitted_items[0].lint, Lint::UnusedImports);
}

#[test]
fn test_using_classes_marks_import_as_used() {
    let files = vec![
        (
            "file_A".into(),
            Parsed {
                definitions: vec![definition("foo"), class_definition("Car")],
                ..Parsed::default()
            },
        ),
        (
            "file_B".into(),
            Parsed {
                imports: vec![import("file_A")],
                usages: vec![class_usage("Car")],
                ..Parsed::default()
            },
        ),
    ];

    assert_eq!(lints_of(&files).len(), 0);
}

#[test]
fn names_are_found_whatever_their_case() {
    let files = vec![(
        "A".into(),
        Parsed { definitions: vec![definition("Get-Straße")], ..Parsed::default() },
    )];
    let scopes = compute_scopes(&files).unwrap();
    let (how, item) = scopes[0].search(&Item::function("GET-STRASSE")).unwrap();
    assert_eq!(how, Found::Direct);
    assert_eq!(item.origin, 0);
    assert_eq!(item.definition, 0);
    assert!(scopes[0].search(&Item::class("Get-Straße")).is_none());
    assert!(scopes[0].search(&Item::function("Get-Strase")).is_none());
}

#[test]
fn unknown_classes_are_not_reported() {
    let files = vec![(
        "A".into(),
        Parsed { usages: vec![class_usage("Boat"), usage("Sail-Boat")], ..Parsed::default() },
    )];
    let emitted_items = lints_of(&files);
    assert_eq!(emitted_items.len(), 1);
    assert_eq!(emitted_items[0].lint, Lint::UnknownFunctions);
    assert_eq!(emitted_items[0].message, "function not in scope");
}

#[test]
fn configured_commands_need_no_definition() {
    let files =
        vec![("A".into(), Parsed { usages: vec![usage("invoke-magic")], ..Parsed::default() })];
    let config = ConfigFile {
        levels: None,
        extras: Some(ConfigFileExtras { cmdlets: Some(vec!["Invoke-Magic".to_owned()]) }),
    };
    assert!(lints_with(&files, &config).is_empty());
    assert_eq!(lints_of(&files).len(), 1);
}

#[test]
fn a_name_is_looked_at_once_in_a_file() {
    let files = vec![(
        "A".into(),
        Parsed { usages: vec![usage("Foo"), usage("foo"), usage("FOO")], ..Parsed::default() },
    )];
    assert_eq!(lints_of(&files).len(), 1);
}

#[test]
fn indirect_use_names_both_files() {
    let files = vec![
        (
            "A".into(),
            Parsed {
                usages: vec![usage("foo")],
                imports: vec![import("B")],
                original_path: "src/A.ps1".into(),
                ..Parsed::default()
            },
        ),
        (
            "B".into(),
            Parsed {
                imports: vec![import("C")],
                definitions: vec![definition("other")],
                usages: vec![usage("foo")],
                original_path: "src/B.ps1".into(),
                ..Parsed::default()
            },
        ),
        (
            "C".into(),
            Parsed {
                definitions: vec![definition("foo")],
                original_path: "src/C.ps1".into(),
                ..Parsed::default()
            },
        ),
    ];
    let emitted_items = lints_of(&files);
    assert_eq!(emitted_items.len(), 1);
    assert_eq!(emitted_items[0].lint, Lint::IndirectImports);
    assert_eq!(emitted_items[0].location.file, "src/A.ps1");
    assert_eq!(
        emitted_items[0].notes.as_deref(),
        Some(
            "Indirectly imported through src/B.ps1\nConsider directly importing src/C.ps1\nTo allow, add a comment `allow indirect-imports(foo)` in this line"
        )
    );
}

#[test]
fn use_through_an_import_bag_counts_for_the_bag() {
    let files = vec![
        (
            "A".into(),
            Parsed {
                usages: vec![usage("foo")],
                imports: vec![import("B")],
                original_path: "A.ps1".into(),
                ..Parsed::default()
            },
        ),
        (
            "B".into(),
            Parsed {
                imports: vec![import("C")],
                original_path: "B.ps1".into(),
                ..Parsed::default()
            },
        ),
        (
            "C".into(),
            Parsed {
                definitions: vec![definition("foo")],
                original_path: "C.ps1".into(),
                ..Parsed::default()
            },
        ),
    ];
    let emitted_items = lints_of(&files);
    assert_eq!(emitted_items.len(), 1);
    assert_eq!(emitted_items[0].lint, Lint::IndirectImports);
    assert_eq!(
        emitted_items[0].notes.as_deref(),
        Some(
            "Indirectly imported through B.ps1\nTo allow, add a comment `allow indirect-imports(foo)` in this line"
        )
    );
}

#[test]
fn a_directly_imported_definition_is_kept() {
    let files = vec![
        (
            "A".into(),
            Parsed {
                usages: vec![usage("foo")],
                imports: vec![import("C"), import("B")],
                ..Parsed::default()
            },
        ),
        (
            "B".into(),
            Parsed {
                imports: vec![import("D")],
                definitions: vec![definition("bar")],
                usages: vec![usage("foo")],
                ..Parsed::default()
            },
        ),
        ("C".into(), Parsed { definitions: vec![definition("foo")], ..Parsed::default() }),
        ("D".into(), Parsed { definitions: vec![definition("foo")], ..Parsed::default() }),
    ];
    let scopes = compute_scopes(&files).unwrap();
    let (how, item) = scopes[0].search(&Item::function("foo")).unwrap();
    assert_eq!(how, Found::Direct);
    assert_eq!(item.origin, 2);
}

#[test]
fn own_definitions_win() {
    let files = vec![
        (
            "A".into(),
            Parsed {
                imports: vec![import("B")],
                definitions: vec![definition("foo")],
                usages: vec![usage("foo"), usage("bar")],
                ..Parsed::default()
            },
        ),
        (
            "B".into(),
            Parsed { definitions: vec![definition("FOO"), definition("bar")], ..Parsed::default() },
        ),
    ];
    let scopes = compute_scopes(&files).unwrap();
    let (_, item) = scopes[0].search(&Item::function("Foo")).unwrap();
    assert_eq!(item.origin, 0);
    assert!(lints_of(&files).is_empty());
}

#[test]
fn errors_name_the_file() {
    let files = vec![
        ("A".into(), Parsed { imports: vec![import("B")], ..Parsed::default() }),
        ("B".into(), Parsed { imports: vec![import("C")], ..Parsed::default() }),
        ("C".into(), Parsed { imports: vec![import("B")], ..Parsed::default() }),
    ];
    match compute_scopes(&files) {
        Err(e @ ScopeError::RecursiveImport(_)) => {
            assert_eq!(e.message(), "Recursive import of B")
        }
        _ => panic!("an import loop was taken"),
    }
    let files = vec![("A".into(), Parsed { imports: vec![import("gone")], ..Parsed::default() })];
    match compute_scopes(&files) {
        Err(ScopeError::Unavailable(path)) => assert_eq!(path, "gone"),
        _ => panic!("a missing file was taken"),
    }
    let mut emitter = Emitter::new(Config::default());
    let files = vec![
        ("A".into(), Parsed { usages: vec![usage("nowhere")], ..Parsed::default() }),
        ("B".into(), Parsed { imports: vec![import("B")], ..Parsed::default() }),
    ];
    assert!(analyze(&files, &builtins(), &ConfigFile::default(), &mut emitter).is_err());
    assert!(emitter.emitted_items().is_empty());
}

#[test]
fn the_import_of_a_bag_is_reported_where_nothing_comes_through_it() {
    let files = vec![
        (
            "A".into(),
            Parsed {
                usages: vec![usage("New-Item")],
                imports: vec![import("B")],
                definitions: vec![definition("own")],
                ..Parsed::default()
            },
        ),
        (
            "B".into(),
            Parsed {
                imports: vec![import("C")],
                usages: vec![usage("New-Item")],
                ..Parsed::default()
            },
        ),
        ("C".into(), Parsed { definitions: vec![definition("foo")], ..Parsed::default() }),
    ];
    assert!(files[1].1.is_import_bag());
    assert!(files[1].1.functions_and_classes().is_empty());
    assert!(!files[0].1.is_import_bag());
    let emitted_items = lints_of(&files);
    assert_eq!(emitted_items.len(), 1);
    assert_eq!(emitted_items[0].lint, Lint::UnusedImports);
}

#[test]
fn a_file_without_definitions_is_not_asked_about_its_imports() {
    let files = vec![
        (
            "A".into(),
            Parsed {
                usages: vec![usage("New-Item"), usage("foo")],
                imports: vec![import("B"), import("C")],
                ..Parsed::default()
            },
        ),
        ("B".into(), Parsed { definitions: vec![definition("bar")], ..Parsed::default() }),
        ("C".into(), Parsed { definitions: vec![definition("foo")], ..Parsed::default() }),
    ];
    assert!(files[0].1.is_import_bag());
    assert_eq!(lints_of(&files).len(), 0);
}

#[test]
fn a_bag_with_usages_counts_as_one_on_the_way() {
    let files = vec![
        (
            "A".into(),
            Parsed {
                usages: vec![usage("foo")],
                imports: vec![import("B")],
                definitions: vec![definition("own")],
                original_path: "A.ps1".into(),
                ..Parsed::default()
            },
        ),
        (
            "B".into(),
            Parsed {
                imports: vec![import("C")],
                usages: vec![usage("New-Item")],
                original_path: "B.ps1".into(),
                ..Parsed::default()
            },
        ),
        (
            "C".into(),
            Parsed {
                definitions: vec![definition("foo")],
                original_path: "C.ps1".into(),
                ..Parsed::default()
            },
        ),
    ];
    let emitted_items = lints_of(&files);
    assert_eq!(emitted_items.len(), 1);
    assert_eq!(emitted_items[0].lint, Lint::IndirectImports);
    assert_eq!(
        emitted_items[0].notes.as_deref(),
        Some(
            "Indirectly imported through B.ps1\nTo allow, add a comment `allow indirect-imports(foo)` in this line"
        )
    );
}

#[test]
fn folded_names_are_looked_up_as_they_are() {
    let files = vec![(
        "A".into(),
        Parsed { definitions: vec![definition("Get-It")], ..Parsed::default() },
    )];
    let scopes = compute_scopes(&files).unwrap();
    assert!(scopes[0].search_folded("get-it", ItemKind::Function).is_some());
    assert!(scopes[0].search_folded("Get-It", ItemKind::Function).is_none());
    assert_eq!(scopes[0].position("get-it", ItemKind::Function), Some(0));
}

#[test]
fn usages_are_checked_under_their_folded_names() {
    let files = vec![(
        "A".into(),
        Parsed { definitions: vec![definition("Get-It")], ..Parsed::default() },
    )];
    let scopes = compute_scopes(&files).unwrap();
    let builtins = vec!["new-item".to_owned()];
    let custom = Vec::new();
    let checker = Checker { files: &files, scopes: &scopes, builtins: &builtins, custom: &custom };
    let mut analyzed = Vec::new();
    let mut used = Vec::new();
    let mut emitter = Emitter::new(Config::default());
    let mut check = |name: &str, key: &str| {
        checker.check_usage_keyed(
            0,
            &usage(name),
            key.to_owned(),
            &mut analyzed,
            &mut used,
            &mut emitter,
        )
    };
    check("New-Item", "new-item");
    check("GET-IT", "get-it");
    check("get-it", "get-it");
    check("Lost", "lost");
    assert_eq!(used, [0]);
    assert_eq!(analyzed.len(), 2);
    let lints: Vec<Lint> = emitter.take_items().iter().map(|item| item.lint).collect();
    assert_eq!(lints, [Lint::InvalidLetterCasing, Lint::UnknownFunctions]);
}
