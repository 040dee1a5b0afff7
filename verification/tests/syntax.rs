use shelly::syntax::v2::stage1::Delimiter;
use shelly::syntax::v2::stage2::{FileStr, TokenTree};
use shelly::syntax::v2::stream::Stream;
use shelly::syntax::v2::{ident_is_keyword, parse as parse_trees};
use shelly::syntax::{importee, importee_found, parse, relative, Importee, Item};
use shelly::text::{find_line, locatable};

#[test]
fn mod_test_basics() {
    let source = r#"
        . $here/$sut
        . "$here/$sut"
        . $PSScriptRoot/foo/bar
        . $PSScriptRoot/foo/quux # Because
        . blablabla

        function Foo {
        }

        function Bar() {}

        Fooize-Bar -Baz "quux"
        $A = Write-Host
        $X.Field = Write-Log

        Describe "something" {
            It "works" {}
        }

        class Car {}
        [Boat] $Foo = 5
    "#;

    let parsed = parse(source).unwrap();

    assert_eq!(parsed.imports[0].importee, Importee::HereSut);
    assert_eq!(parsed.imports[1].importee, Importee::HereSut);
    assert_eq!(parsed.imports[2].importee, Importee::Relative("foo/bar".into()));
    assert_eq!(parsed.imports[3].importee, Importee::Relative("foo/quux".into()));
    assert_eq!(parsed.imports[4].importee, Importee::Unrecognized("blablabla".into()));

    assert_eq!(parsed.definitions[0].item.name, "Foo");
    assert_eq!(parsed.definitions[1].item.name, "Bar");
    assert_eq!(parsed.definitions[2].item.as_ref(), Item::class("Car"));

    assert_eq!(parsed.usages[0].item.name, "Fooize-Bar");
    assert_eq!(parsed.usages[1].item.name, "Write-Host");
    assert_eq!(parsed.usages[2].item.name, "Write-Log");
    assert_eq!(parsed.usages[3].item.as_ref(), Item::function("Describe"));
    assert_eq!(parsed.usages[4].item.as_ref(), Item::function("It"));
    assert_eq!(parsed.usages[5].item.as_ref(), Item::class("Boat"));

    assert_eq!(parsed.testcases[0].name, "works");
}

// This test should stop to pass
// when the parser will be implemented correctly.
#[test]
fn mod_test_nested() {
    let source = r#"
        function Foo {
            function Nested {
            }
        }
    "#;

    let parsed = parse(source).unwrap();

    let mut funs: Vec<_> = parsed.definitions.iter().map(|def| &def.item.name).collect();

    funs.sort();

    assert_eq!(funs, ["Foo", "Nested"]);
}

#[test]
fn imports_and_testcases_have_spans_in_their_lines() {
    let source = "Write-Host\n. $PSScriptRoot\\a\\b.ps1\r\n  It \"does things\" {}\n";
    let parsed = parse(source).unwrap();
    assert_eq!(parsed.imports.len(), 1);
    let import = &parsed.imports[0];
    assert_eq!(import.importee, Importee::Relative("a/b.ps1".into()));
    assert_eq!(import.span.start.byte, 13);
    assert_eq!(import.span.start.line, 2);
    assert_eq!(import.span.start.col, 3);
    assert_eq!(import.span.end.byte, 34);
    assert_eq!(import.span.end.col, 24);
    assert_eq!(parsed.testcases.len(), 1);
    let testcase = &parsed.testcases[0];
    assert_eq!(testcase.name, "does things");
    assert_eq!(testcase.span.start.line, 3);
    assert_eq!(testcase.span.start.col, 7);
    assert_eq!(&source[testcase.span.start.byte as usize..testcase.span.end.byte as usize], "does things");
}

#[test]
fn importee_forms() {
    assert_eq!(importee("$PSScriptRoot\\..\\Lib\\"), Importee::Relative("../Lib".into()));
    assert_eq!(importee("$psscriptroot"), Importee::Relative("".into()));
    assert_eq!(importee("$HERE\\$SUT"), Importee::HereSut);
    assert_eq!(importee("\"$here/$sut\""), Importee::HereSut);
    assert_eq!(importee("./other.ps1"), Importee::Unrecognized("./other.ps1".into()));
    assert_eq!(relative("//a\\b//"), "a/b");
    assert_eq!(relative("///"), "");
}

#[test]
fn keywords_and_executables_are_no_usages() {
    let source = "if ($x) { foreach ($a in $b) { Start-It } }\nnotepad.exe foo\nRETURN 5\nThrow 1\n";
    let parsed = parse(source).unwrap();
    let names: Vec<&str> = parsed.usages.iter().map(|u| u.name()).collect();
    assert_eq!(names, ["Start-It"]);
    assert!(ident_is_keyword("ForEach"));
    assert!(ident_is_keyword("param"));
    assert!(!ident_is_keyword("parameter"));
}

#[test]
fn syntax_error_gives_no_file() {
    let err = parse("function Foo {").unwrap_err();
    assert_eq!(err.what, "Expected `}`, but found end of file");
    let err = parse("foo`bar").unwrap_err();
    assert_eq!(err.what, "Unknown escape");
    assert_eq!(err.where_.byte, 3);
}

fn kinds(stream: &[TokenTree]) -> Vec<&'static str> {
    stream
        .iter()
        .map(|tt| match tt {
            TokenTree::Variable { .. } => "variable",
            TokenTree::Flag { .. } => "flag",
            TokenTree::Cmdlet { .. } => "cmdlet",
            TokenTree::Field { .. } => "field",
            TokenTree::FunctionKeyword { .. } => "function",
            TokenTree::ClassKeyword { .. } => "class",
            TokenTree::ReturnKeyword { .. } => "return",
            TokenTree::InKeyword { .. } => "in",
            TokenTree::Word { .. } => "word",
            TokenTree::Number { .. } => "number",
            TokenTree::String { .. } => "string",
            TokenTree::Group { .. } => "group",
            TokenTree::Square { .. } => "square",
            TokenTree::Symbol { symbol, .. } => match symbol {
                ';' => ";",
                '|' => "|",
                '=' => "=",
                '.' => ".",
                '-' => "-",
                '$' => "$",
                _ => "symbol",
            },
        })
        .collect()
}

#[test]
fn second_stage_says_what_words_are_for() {
    let source = "New-Item -Path foo-bar 5 | Out-Null\n$Using:x = [Io.Path]::Combine $a.Length";
    let stream = parse_trees(source).unwrap();
    assert_eq!(
        kinds(&stream),
        [
            "cmdlet", "flag", "word", "number", "|", "cmdlet", ";", "variable", "symbol",
            "variable", "=", "group", "square", "field", "variable", ".", "field"
        ]
    );
    match &stream[0] {
        TokenTree::Cmdlet { ident, .. } => assert_eq!(ident.cut_from(source), "New-Item"),
        other => panic!("unexpected token: {:?}", other),
    }
    match &stream[1] {
        TokenTree::Flag { ident, span } => {
            assert_eq!(ident.cut_from(source), "Path");
            assert_eq!(&source[span.start.byte as usize..span.end.byte as usize], "-Path");
        }
        other => panic!("unexpected token: {:?}", other),
    }
    match &stream[11] {
        TokenTree::Group { interior, delimiter, prefix, .. } => {
            assert_eq!(*delimiter, Delimiter::Bracket);
            assert_eq!(*prefix, None);
            assert_eq!(kinds(interior), ["field", ".", "field"]);
        }
        other => panic!("unexpected token: {:?}", other),
    }
}

#[test]
fn line_continuations_and_pipes() {
    let stream = parse_trees("Get-It `\n  -Now |\n  Use-It\n").unwrap();
    assert_eq!(kinds(&stream), ["cmdlet", "flag", "|", "cmdlet", ";"]);
    let stream = parse_trees("return Get-It").unwrap();
    assert_eq!(kinds(&stream), ["return", "cmdlet"]);
    let stream = parse_trees("foreach ($a in Get-All) {}").unwrap();
    match &stream[1] {
        TokenTree::Group { interior, .. } => {
            assert_eq!(kinds(interior), ["variable", "in", "cmdlet"])
        }
        other => panic!("unexpected token: {:?}", other),
    }
}

#[test]
fn hash_literal_takes_its_at_sign() {
    let source = "$x = @{ Name = 1 }";
    let stream = parse_trees(source).unwrap();
    assert_eq!(kinds(&stream), ["variable", "=", "group"]);
    match &stream[2] {
        TokenTree::Group { interior, prefix, span, .. } => {
            assert_eq!(*prefix, Some('@'));
            assert_eq!(span.start.byte, 5);
            assert_eq!(kinds(interior), ["field", "=", "number"]);
        }
        other => panic!("unexpected token: {:?}", other),
    }
}

#[test]
fn class_bodies_hold_fields() {
    let stream = parse_trees("class Car { [int] $Wheels }").unwrap();
    assert_eq!(kinds(&stream), ["class", "field", "group"]);
}

#[test]
fn a_range_is_cut_where_it_fits() {
    let range = FileStr { start: 2, end: 40 };
    assert!(!range.fits("short"));
    assert!(!range.reads("short", "ort"));
    let inside = FileStr { start: 1, end: 3 };
    assert!(inside.fits("short"));
    assert_eq!(inside.cut_from("short"), "ho");
    assert!(inside.reads("short", "ho"));
    let split = FileStr { start: 1, end: 2 };
    assert!(!split.fits("éa"));
    let whole = FileStr { start: 0, end: 3 };
    assert!(whole.fits("éa"));
    assert_eq!(whole.cut_from("éa"), "éa");
    let backwards = FileStr { start: 3, end: 1 };
    assert!(!backwards.fits("short"));
}

#[test]
fn stream_gives_its_items_from_the_front() {
    let mut stream = Stream::new(vec![1, 2, 3]);
    assert_eq!(stream.len(), 3);
    assert!(!stream.has_room());
    assert_eq!(stream.peek(), Some(&1));
    assert_eq!(stream.pop_front(), Some(1));
    assert!(stream.has_room());
    stream.push_front(7);
    assert!(!stream.has_room());
    assert_eq!(stream.pop_front(), Some(7));
    assert_eq!(stream.pop_front(), Some(2));
    assert_eq!(stream.pop_front(), Some(3));
    assert_eq!(stream.pop_front(), None);
}

#[test]
fn lines_are_found_by_byte_offset() {
    let source = "first\r\nsecond\nthird";
    assert_eq!(find_line(0, source), "first");
    assert_eq!(find_line(5, source), "first");
    assert_eq!(find_line(6, source), "second");
    assert_eq!(find_line(7, source), "second");
    assert_eq!(find_line(12, source), "second");
    assert_eq!(find_line(13, source), "third");
    assert_eq!(find_line(14, source), "third");
    assert_eq!(find_line(400, source), "third");
    assert_eq!(find_line(0, ""), "");
    assert_eq!(find_line(0, "a\n"), "a");
    assert_eq!(find_line(1, "a\n"), "");
    assert_eq!(find_line(2, "a\n"), "");
    assert_eq!(find_line(2, "\nabc"), "");
    assert_eq!(find_line(3, "é\nü\r"), "ü\r");
}

#[test]
fn interpolations_in_strings() {
    let stream = parse_trees("Write-Host \"$a ${b} $(Get-C -d)\"").unwrap();
    assert_eq!(kinds(&stream), ["cmdlet", "string"]);
    match &stream[1] {
        TokenTree::String { subtrees, .. } => {
            assert_eq!(kinds(subtrees), ["variable", "group", "group"]);
            match &subtrees[1] {
                TokenTree::Group { interior, prefix, .. } => {
                    assert_eq!(*prefix, None);
                    assert_eq!(kinds(interior), ["field"]);
                }
                other => panic!("unexpected token: {:?}", other),
            }
            match &subtrees[2] {
                TokenTree::Group { interior, prefix, .. } => {
                    assert_eq!(*prefix, Some('$'));
                    assert_eq!(kinds(interior), ["cmdlet", "flag"]);
                }
                other => panic!("unexpected token: {:?}", other),
            }
        }
        other => panic!("unexpected token: {:?}", other),
    }
    let source = "\"uses $(Do-It)\"";
    let usages = parse(source).unwrap().usages;
    assert_eq!(usages.len(), 1);
    assert_eq!(usages[0].name(), "Do-It");
}

#[test]
fn importee_from_what_was_found() {
    assert_eq!(
        importee_found("$PSScriptRoot\\Lib\\a.ps1", Some((13, 23)), false),
        Importee::Relative("Lib/a.ps1".into())
    );
    assert_eq!(importee_found("whatever", None, true), Importee::HereSut);
    assert_eq!(importee_found("whatever", None, false), Importee::Unrecognized("whatever".into()));
}

#[test]
fn syntax_test_basics() {
    let source = r#"
        . $here/$sut
        . "$here/$sut"
        . $PSScriptRoot/foo/bar
        . $PSScriptRoot/foo/quux # Because
        . blablabla

        function Foo {
        }

        function Bar() {}

        Fooize-Bar -Baz "quux"
        $A = Write-Host
        $X.Field = Write-Log

        Describe "something" {
            It "works" {}
        }
    "#;

    let parsed = parse(source).unwrap();

    assert_eq!(parsed.imports[0].importee, Importee::HereSut);
    assert_eq!(parsed.imports[1].importee, Importee::HereSut);
    assert_eq!(parsed.imports[2].importee, Importee::Relative("foo/bar".into()));
    assert_eq!(parsed.imports[3].importee, Importee::Relative("foo/quux".into()));
    assert_eq!(parsed.imports[4].importee, Importee::Unrecognized("blablabla".into()));

    assert_eq!(parsed.definitions[0].item.name, "Foo");
    assert_eq!(parsed.definitions[1].item.name, "Bar");

    assert_eq!(parsed.usages[0].name(), "Fooize-Bar");
    assert_eq!(parsed.usages[1].name(), "Write-Host");
    assert_eq!(parsed.usages[2].name(), "Write-Log");

    assert_eq!(parsed.testcases[0].name, "works");
}

// This test should stop to pass
// when the parser will be implemented correctly.
#[test]
fn syntax_test_nested() {
    let source = r#"
        function Foo {
            function Nested {
            }
        }
    "#;

    let parsed = parse(source).unwrap();

    let mut funs: Vec<_> = parsed.definitions.iter().map(|def| &def.item.name).collect();

    funs.sort();

    assert_eq!(funs, ["Foo", "Nested"]);
}

#[test]
fn texts_of_ordinary_size_can_be_located() {
    assert!(locatable(""));
    assert!(locatable("Write-Host"));
}

#[test]
fn a_whole_script() {
    let source = r#"
. $PSScriptRoot\Common\Init.ps1
. $PSScriptRoot\Utils\Invoke-NativeCommand.ps1 # helper

<#
    .SYNOPSIS
    Deploys things ##> and more
#>
function Invoke-Deployment {
    Param (
        [Parameter(Mandatory = $true)] [string] $Name,
        [Parameter(Mandatory = $false)] [Session[]] $Sessions = @()
    )

    $Settings = @{
        Path = "C:\Temp\$Name";
        Retries = 3
    }

    foreach ($Session in $Sessions) {
        $Result = Invoke-Command -Session $Session -ScriptBlock {
            Get-ChildItem -Path $Using:Settings.Path |
                Where-Object { $_.Length -gt 0 }
        }
        if (-not $Result) {
            throw "Nothing found in $($Settings.Path) after ${Name}"
        }
        Write-Log @"
Deployed $Name
"@
    }
    return [Deployment]::new($Name)
}

class Deployment {
    [string] $Name
}
"#;
    let parsed = parse(source).unwrap();
    let defined: Vec<&str> = parsed.definitions.iter().map(|d| d.item.name.as_str()).collect();
    assert_eq!(defined, ["Invoke-Deployment", "Deployment"]);
    let used: Vec<&str> = parsed.usages.iter().map(|u| u.name()).collect();
    assert!(used.contains(&"Invoke-Command"));
    assert!(used.contains(&"Get-ChildItem"));
    assert!(used.contains(&"Where-Object"));
    assert!(used.contains(&"Write-Log"));
    assert!(used.contains(&"Deployment"));
    assert!(used.contains(&"string"));
    assert!(!used.contains(&"foreach"));
    assert!(!used.contains(&"throw"));
    assert_eq!(parsed.imports.len(), 2);
    assert_eq!(parsed.imports[1].importee, Importee::Relative("Utils/Invoke-NativeCommand.ps1".into()));
}
