use shelly::config::ConfigFile;
use shelly::lint::{Config, Emitter, Lint};
use shelly::preprocess::{
    parse_and_preprocess, preprocess, resolve_imports, strip_bom, sut_name, Parsed,
    PreprocessOutput,
};
use shelly::{run, strictness, EmittedItem, VecEmitter};

fn builtins() -> Vec<String> {
    ["Set-StrictMode", "Describe", "It", "BeforeEach", "Write-Host", "Initialize-PesterLogger"]
        .iter()
        .map(|name| name.to_string())
        .collect()
}

fn flush(emitter: &mut Emitter) -> Vec<EmittedItem> {
    let mut raw = VecEmitter::new();
    emitter.flush(&mut raw);
    raw.emitted_items
}

fn test_file(data: &str) -> Vec<EmittedItem> {
    let mut emitter = Emitter::new(Config::default());
    let source = strip_bom(data);
    let mut files = Vec::new();
    if let Some(file) = parse_and_preprocess("File.ps1", source, &mut emitter) {
        assert!(file.imports.is_empty());
        match preprocess("File.ps1", source, file, Vec::new(), &mut emitter) {
            PreprocessOutput::Valid(mut parsed) => {
                strictness::preprocess(&mut parsed);
                files.push(("/tmp/File.ps1".to_owned(), parsed));
            }
            other => panic!("unexpected outcome: {:?}", other),
        }
    }
    run(&files, &builtins(), &ConfigFile::default(), &mut emitter).expect("run failed");
    flush(&mut emitter)
}

#[test]
fn it_can_be_tested_on_string() {
    let errors = test_file(
        r#"
        Write-Poem -About "shelly"
    "#,
    );
    let lints: Vec<_> = errors.into_iter().map(|error| error.lint).collect();
    assert!(lints.contains(&Lint::UnknownFunctions));
    assert!(lints.contains(&Lint::NoStrictMode));
}

#[test]
fn test_invalid_characters() {
    let errors = test_file(
        r#"
        Describe "A thing" {
            BeforeEach {
                Initialize-PesterLogger -Dir $Dir
            }

            It "Should w<>ork//////" {
                Write-Host "bar"
            }
        }
    "#,
    );

    let lints: Vec<_> = errors.into_iter().map(|error| error.lint).collect();
    assert!(lints.contains(&Lint::InvalidTestnameCharacters));
}

#[test]
fn test_perfection() {
    let errors = test_file(
        r#"
        Set-StrictMode -Version Latest
    "#,
    );

    assert!(errors.is_empty());
}

#[test]
fn test_allow_comments() {
    let errors = test_file(
        r#"
        Set-StrictMode -Version Latest

        # This should produce an error
        Write-Foo

        # These should not
        Write-Bar  # allow unknown-functions
        Write-Baz  # Allow unknown-functions
        Write-Quux # shelly: Allow unknown-functions
        Write-Foo  # allow unknown-functions(Write-Foo)
    "#,
    );

    assert_eq!(errors.len(), 1);
}

#[test]
fn syntax_errors_become_messages() {
    let mut emitter = Emitter::new(Config::default());
    assert!(parse_and_preprocess("Bad.ps1", "a\n  foo )", &mut emitter).is_none());
    let items = flush(&mut emitter);
    assert_eq!(items.len(), 1);
    assert_eq!(items[0].lint, Lint::SyntaxErrors);
    assert_eq!(items[0].message, "syntax error: Unexpected closing `)`");
    assert_eq!(items[0].location.file, "Bad.ps1");
    assert_eq!(items[0].location.line.as_ref().unwrap().line, "  foo )");
    assert_eq!(items[0].location.line.as_ref().unwrap().no, 2);
    assert_eq!(
        items[0].notes.as_deref(),
        Some(
            "Column 7\nIf this is valid PowerShell syntax, please file an issue\nTo allow, add a comment `allow syntax-errors` in this line"
        )
    );
}

#[test]
fn byte_order_marks_are_taken_away() {
    assert_eq!(strip_bom("\u{feff}\u{feff}a\u{feff}"), "a\u{feff}");
    assert_eq!(strip_bom("plain"), "plain");
    assert_eq!(strip_bom(""), "");
}

#[test]
fn imports_are_filed_under_the_paths_of_their_files() {
    let source = ". $PSScriptRoot/a.ps1\n. $PSScriptRoot/b.ps1\n. something else\n. $here/$sut\n";
    let mut emitter = Emitter::new(Config::default());
    let file = parse_and_preprocess("T.Tests.ps1", source, &mut emitter).unwrap();
    assert_eq!(file.imports.len(), 4);
    let lookups: Vec<_> = file
        .imports
        .iter()
        .cloned()
        .zip(vec![
            Ok("/p/a.ps1".to_owned()),
            Ok("/p/a.ps1".to_owned()),
            Err("unused".to_owned()),
            Ok("/p/T.ps1".to_owned()),
        ])
        .collect();
    let resolved = resolve_imports(source, "T.Tests.ps1", lookups, &mut emitter).unwrap();
    let paths: Vec<&str> = resolved.iter().map(|(path, _)| path.as_str()).collect();
    assert_eq!(paths, ["/p/a.ps1", "/p/T.ps1"]);
    assert_eq!(resolved[0].1.span.start.line, 2);
    let items = flush(&mut emitter);
    assert_eq!(items.len(), 1);
    assert_eq!(items[0].lint, Lint::UnrecognizedImports);

    let lookups: Vec<_> =
        file.imports.into_iter().take(1).map(|i| (i, Err("/p/a.ps1".to_owned()))).collect();
    assert!(resolve_imports(source, "T.Tests.ps1", lookups, &mut emitter).is_none());
    let items = flush(&mut emitter);
    assert_eq!(items.len(), 1);
    assert_eq!(items[0].lint, Lint::NonexistingImports);
    assert!(items[0].notes.as_deref().unwrap().starts_with("File not found: /p/a.ps1"));
}

#[test]
fn strict_mode_spreads_to_importing_files() {
    let mut emitter = Emitter::new(Config::default());
    let mut library = Parsed {
        usages: parse_and_preprocess("Lib.ps1", "Set-StrictMode -Version Latest", &mut emitter)
            .unwrap()
            .usages,
        original_path: "Lib.ps1".to_owned(),
        ..Parsed::default()
    };
    strictness::preprocess(&mut library);
    assert_eq!(library.definitions.len(), 1);
    assert_eq!(library.definitions[0].item.name, "!EnablesStrictMode");
    let import = parse_and_preprocess("Main.ps1", ". $PSScriptRoot/Lib.ps1", &mut emitter)
        .unwrap()
        .imports
        .remove(0);
    let main = Parsed {
        imports: vec![("/p/Lib.ps1".to_owned(), import)],
        original_path: "Main.ps1".to_owned(),
        ..Parsed::default()
    };
    let lonely = Parsed { original_path: "Lonely.ps1".to_owned(), ..Parsed::default() };
    let files = vec![
        ("/p/Lib.ps1".to_owned(), library),
        ("/p/Main.ps1".to_owned(), main),
        ("/p/Lonely.ps1".to_owned(), lonely),
    ];
    run(&files, &builtins(), &ConfigFile::default(), &mut emitter).unwrap();
    let items = flush(&mut emitter);
    assert_eq!(items.len(), 1);
    assert_eq!(items[0].lint, Lint::NoStrictMode);
    assert_eq!(items[0].location.file, "Lonely.ps1");
    assert!(items[0].location.span.is_none());
}

#[test]
fn a_file_with_a_missing_import_is_left_out() {
    let source = ". $PSScriptRoot/a.ps1\nfunction Foo {}\n";
    let mut emitter = Emitter::new(Config::default());
    let mut file = parse_and_preprocess("T.ps1", source, &mut emitter).unwrap();
    let imports: Vec<_> = file.imports.drain(..).collect();
    let found: Vec<_> = imports.iter().cloned().map(|i| (i, Ok("/p/a.ps1".to_owned()))).collect();
    match preprocess("T.ps1", source, file, found, &mut emitter) {
        PreprocessOutput::Valid(parsed) => {
            assert_eq!(parsed.imports.len(), 1);
            assert_eq!(parsed.definitions.len(), 1);
            assert_eq!(parsed.original_path, "T.ps1");
            assert_eq!(parsed.source, source);
            assert!(!parsed.is_import_bag());
            assert_eq!(parsed.functions_and_classes().len(), 1);
        }
        other => panic!("unexpected outcome: {:?}", other),
    }
    let file = parse_and_preprocess("T.ps1", source, &mut emitter).unwrap();
    let missing: Vec<_> = imports.into_iter().map(|i| (i, Err("/p/a.ps1".to_owned()))).collect();
    assert!(matches!(
        preprocess("T.ps1", source, file, missing, &mut emitter),
        PreprocessOutput::InvalidImports
    ));
    assert_eq!(flush(&mut emitter).len(), 1);
}

#[test]
fn the_tested_file_is_named_without_the_test_mark() {
    assert_eq!(sut_name("Get-Thing.Tests.ps1"), "Get-Thing.ps1");
    assert_eq!(sut_name("Get-Thing.ps1"), "Get-Thing.ps1");
    assert_eq!(sut_name("A.Tests.Tests.ps1"), "A.ps1");
    assert_eq!(sut_name("A.Test.TestsB.tests"), "A.TestB.tests");
    assert_eq!(sut_name(".Tests"), "");
    assert_eq!(sut_name(".Test"), ".Test");
    assert_eq!(sut_name("é.Tests.é"), "é.é");
    assert_eq!(sut_name(""), "");
}

#[test]
fn messages_are_handed_on_in_their_order() {
    let mut emitter = Emitter::new(Config::default());
    assert!(parse_and_preprocess("One.ps1", "foo )", &mut emitter).is_none());
    assert!(parse_and_preprocess("Two.ps1", "bar ]", &mut emitter).is_none());
    assert_eq!(emitter.emitted_items().len(), 2);
    let mut raw = VecEmitter::new();
    emitter.flush(&mut raw);
    assert!(emitter.emitted_items().is_empty());
    assert!(parse_and_preprocess("Three.ps1", "baz }", &mut emitter).is_none());
    emitter.flush(&mut raw);
    let files: Vec<&str> = raw.emitted_items.iter().map(|item| item.location.file.as_str()).collect();
    assert_eq!(files, ["One.ps1", "Two.ps1", "Three.ps1"]);
    emitter.flush(&mut raw);
    assert_eq!(raw.emitted_items.len(), 3);
}
