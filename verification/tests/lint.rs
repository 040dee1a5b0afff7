use shelly::config::ConfigFile;
use shelly::lint::{
    allow_annotation_found, parse_allow_annotation, Config, ConfigError, Emitter, Level, Lint,
    UnknownLint,
};
use shelly::{Line, Location, MessageKind, VecEmitter};

#[test]
fn test_parse_allow_annotation() {
    assert_eq!(parse_allow_annotation("New-Foo # Random comment"), Ok(None),);
    assert_eq!(
        parse_allow_annotation("New-Foo # allow unicorns"),
        Err(UnknownLint("unicorns".to_owned())),
    );
    assert_eq!(
        parse_allow_annotation("New-Foo # allow unknown-functions"),
        Ok(Some((Lint::UnknownFunctions, None))),
    );
    assert_eq!(
        parse_allow_annotation("New-Foo # allow unknown-functions(New-Foo)"),
        Ok(Some((Lint::UnknownFunctions, Some("New-Foo")))),
    );
    assert_eq!(
        parse_allow_annotation("New-Foo # shelly: allow unknown-functions"),
        Ok(Some((Lint::UnknownFunctions, None))),
    );
    assert_eq!(parse_allow_annotation("New-Foo # whatever: allow unknown-functions"), Ok(None),);
}

#[test]
fn config_from_string() {
    let config = ConfigFile {
        levels: Some(vec![("nonexisting-imports".to_owned(), "warn".to_owned())]),
        extras: None,
    };
    let config = Config::from_config_file(&config).unwrap();
    assert_eq!(config.overridden(Lint::NonexistingImports), Some(Level::Warn));
}

#[test]
fn misc() {
    let mut config = Config::default();
    assert_eq!(Lint::UnknownFunctions.level(&config), Level::Deny);

    config.overrides.push(("unknown-functions".parse().unwrap(), Level::Warn));
    assert_eq!(Lint::UnknownFunctions.level(&config), Level::Warn);

    config.cap = Level::Allow;
    assert_eq!(Lint::UnknownFunctions.level(&config), Level::Allow);
}

#[test]
fn overrides() {
    let mut config = Config::default();
    config.overrides.push(("unknown-functions".parse().unwrap(), Level::Warn));

    let overrides = vec![(Lint::UnknownFunctions, Level::Deny)];

    config = config.with_overrides(&overrides);

    assert_eq!(Lint::UnknownFunctions.level(&config), Level::Deny);
}

#[test]
fn slug_roundtrip() {
    assert!(Lint::lints().len() > 0);
    for lint in Lint::lints() {
        assert_eq!(lint, lint.slug().parse().unwrap());
    }
}

fn emitted(emitter: &mut Emitter) -> VecEmitter {
    let mut raw = VecEmitter::new();
    emitter.flush(&mut raw);
    raw
}

#[test]
fn test_ignoring_allowed_messages() {
    let get_location = || Location { file: "foo".into(), span: None, line: None };

    // Allowed in a config
    let mut emitter = Emitter::new(Config { cap: Level::Allow, ..Config::default() });
    get_location().lint(Lint::UnknownFunctions, "Boo").emit(&mut emitter);
    assert!(emitted(&mut emitter).emitted_items.is_empty());

    // Not allowed
    let mut emitter = Emitter::new(Config::default());
    get_location().lint(Lint::UnknownFunctions, "Boo").emit(&mut emitter);
    assert_eq!(emitted(&mut emitter).emitted_items.len(), 1);
}

fn on_line(text: &str) -> Location {
    Location { file: "foo".into(), span: None, line: Some(Line { line: text.to_owned(), no: 3 }) }
}

#[test]
fn comments_allow_messages() {
    let mut emitter = Emitter::new(Config::default());
    on_line("Write-Foo # allow unknown-functions")
        .lint(Lint::UnknownFunctions, "Boo")
        .what("Write-Foo")
        .emit(&mut emitter);
    on_line("Write-Foo # allow unknown-functions(Write-Foo)")
        .lint(Lint::UnknownFunctions, "Boo")
        .what("Write-Foo")
        .emit(&mut emitter);
    assert!(emitter.emitted_items().is_empty());
    on_line("Write-Foo # allow unknown-functions(Write-Bar)")
        .lint(Lint::UnknownFunctions, "Boo")
        .what("Write-Foo")
        .emit(&mut emitter);
    on_line("Write-Foo # allow indirect-imports")
        .lint(Lint::UnknownFunctions, "Boo")
        .emit(&mut emitter);
    let items = emitted(&mut emitter).emitted_items;
    assert_eq!(items.len(), 2);
    assert_eq!(items[0].kind, MessageKind::Error);
    assert_eq!(
        items[0].notes.as_deref(),
        Some("To allow, add a comment `allow unknown-functions(Write-Foo)` in this line")
    );
    assert_eq!(items[1].notes, None);
}

#[test]
fn comment_that_allows_no_lint_is_reported() {
    let mut emitter = Emitter::new(Config::default());
    on_line("Write-Foo # allow unicorns")
        .lint(Lint::IndirectImports, "Boo")
        .note("first")
        .emit(&mut emitter);
    let items = emitted(&mut emitter).emitted_items;
    assert_eq!(items.len(), 2);
    assert_eq!(items[0].lint, Lint::UnknownLints);
    assert_eq!(items[0].kind, MessageKind::Warning);
    assert_eq!(items[0].message, "Unknown lint: unicorns");
    assert_eq!(
        items[0].notes.as_deref(),
        Some("Use `shelly show-lints` to list available lints")
    );
    assert_eq!(items[1].lint, Lint::IndirectImports);
    assert_eq!(
        items[1].notes.as_deref(),
        Some("first\nTo allow, add a comment `allow indirect-imports` in this line")
    );
}

#[test]
fn levels_and_lints_have_names() {
    assert_eq!("Allow".parse::<Level>().unwrap(), Level::Allow);
    assert_eq!("deny".parse::<Level>().unwrap(), Level::Deny);
    assert!("DENY".parse::<Level>().is_err());
    assert_eq!(Lint::UnusedImports.default_level(), Level::Deny);
    assert_eq!(Lint::NoStrictMode.default_level(), Level::Warn);
    assert_eq!(Level::Deny.cap_at(Level::Warn), Level::Warn);
    assert_eq!(Level::Allow.cap_at(Level::Deny), Level::Allow);
    assert_eq!(UnknownLint("x".to_owned()).message(), "Unknown lint: `x`");
}

#[test]
fn wrong_configuration_files_are_refused() {
    let file = |levels: Vec<(&str, &str)>| ConfigFile {
        levels: Some(levels.into_iter().map(|(a, b)| (a.to_owned(), b.to_owned())).collect()),
        extras: None,
    };
    match Config::from_config_file(&file(vec![("unicorns", "warn")])) {
        Err(ConfigError::UnknownLint(name)) => assert_eq!(name, "unicorns"),
        _ => panic!("an unknown lint was taken"),
    }
    match Config::from_config_file(&file(vec![("unused-imports", "loud")])) {
        Err(e @ ConfigError::UnknownLevel { .. }) => {
            assert_eq!(e.message(), "Unknown level 'loud' for 'unused-imports'")
        }
        _ => panic!("an unknown level was taken"),
    }
    match Config::from_config_file(&file(vec![("unused-imports", "warn"), ("unused-imports", "deny")])) {
        Err(ConfigError::Duplicated(name)) => assert_eq!(name, "unused-imports"),
        _ => panic!("a lint was given two levels"),
    }
    assert!(Config::from_config_file(&ConfigFile::default()).unwrap().overrides.is_empty());
}

#[test]
fn annotation_from_what_was_found() {
    let line = "Do-It # allow unused-imports(x)";
    assert_eq!(
        allow_annotation_found(line, (14, 28), Some((29, 30))),
        Ok(Some((Lint::UnusedImports, Some("x"))))
    );
    assert_eq!(
        allow_annotation_found(line, (14, 28), None),
        Ok(Some((Lint::UnusedImports, None)))
    );
    assert_eq!(
        allow_annotation_found(line, (8, 13), None),
        Err(UnknownLint("allow".to_owned()))
    );
}

#[test]
fn decisions_follow_what_the_line_allows() {
    let mut emitter = Emitter::new(Config::default());
    let message = || on_line("x").lint(Lint::UnknownFunctions, "Boo").what("Foo");
    emitter.decide(message(), Level::Deny, Ok(Some((Lint::UnknownFunctions, None))));
    emitter.decide(
        message(),
        Level::Deny,
        Ok(Some((Lint::UnknownFunctions, Some("Foo".to_owned())))),
    );
    assert!(emitter.emitted_items().is_empty());
    emitter.decide(message(), Level::Warn, Ok(Some((Lint::UnusedImports, None))));
    emitter.decide(message(), Level::Deny, Ok(None));
    emitter.decide(message(), Level::Deny, Err(UnknownLint("nope".to_owned())));
    let items = emitter.take_items();
    let lints: Vec<Lint> = items.iter().map(|item| item.lint).collect();
    assert_eq!(
        lints,
        [Lint::UnknownFunctions, Lint::UnknownFunctions, Lint::UnknownLints, Lint::UnknownFunctions]
    );
    assert_eq!(items[0].kind, MessageKind::Warning);
    assert_eq!(items[1].kind, MessageKind::Error);
    assert!(emitter.emitted_items().is_empty());
}
