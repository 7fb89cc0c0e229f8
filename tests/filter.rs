use traxer::{
    build_filter, check_directives_readable, directive_name, level_for, select_filter, Config, Filter,
    FilterSource, InitError, Level, UNREADABLE_DIRECTIVES,
};

#[test]
fn verbosity_table_is_exact() {
    let cases = [
        (0u8, 0u8, Level::Info),
        (1, 0, Level::Debug),
        (2, 0, Level::Trace),
        (0, 1, Level::Warn),
        (1, 1, Level::Warn),
        (2, 1, Level::Warn),
        (0, 2, Level::Error),
        (1, 2, Level::Error),
        (2, 2, Level::Error),
    ];
    for (verbose, quiet, level) in cases {
        assert_eq!(level_for(verbose, quiet), level, "verbose={verbose} quiet={quiet}");
    }
    assert_eq!(level_for(7, 0), Level::Trace);
    assert_eq!(level_for(7, 9), Level::Error);
}

#[test]
fn directive_names_are_lower_case() {
    assert_eq!(directive_name(Level::Error), "error");
    assert_eq!(directive_name(Level::Warn), "warn");
    assert_eq!(directive_name(Level::Info), "info");
    assert_eq!(directive_name(Level::Debug), "debug");
    assert_eq!(directive_name(Level::Trace), "trace");
}

#[test]
fn filter_source_precedence() {
    let with_dirs = Config::new("x").with_filter_directives("a=debug").verbose(2);
    let external = match Filter::parse("trace") {
        Ok(f) => f,
        Err(e) => panic!("{e}"),
    };
    assert!(matches!(select_filter(Some(external), &with_dirs), FilterSource::External(_)));
    match select_filter(None, &with_dirs) {
        FilterSource::Directives(d) => assert_eq!(d, "a=debug"),
        _ => panic!("directives expected"),
    }
    let plain = Config::new("x").verbose(1);
    assert!(matches!(select_filter(None, &plain), FilterSource::Level(Level::Debug)));
}

#[test]
fn invalid_directives_are_reported() {
    let cfg = Config::new("x").with_filter_directives("[[[not a filter");
    match build_filter(None, &cfg) {
        Err(InitError::InvalidFilterDirectives(detail)) => {
            assert!(detail.starts_with("invalid filter directive"), "{detail}")
        }
        Err(other) => panic!("unexpected error {other:?}"),
        Ok(_) => panic!("directives should not parse"),
    }
    let cfg = Config::new("x").with_filter_directives("myapp=debug");
    assert!(build_filter(None, &cfg).is_ok());
}

#[test]
fn usable_external_filter_wins_over_bad_directives() {
    let cfg = Config::new("x").with_filter_directives("[[[not a filter");
    assert!(build_filter(Some("trace"), &cfg).is_ok());
    assert!(build_filter(Some("[[[also bad"), &cfg).is_ok());
    assert!(build_filter(Some(" \u{e9}=info"), &cfg).is_err());
    let cfg = Config::new("x").quiet(2);
    assert!(build_filter(Some("[[[bad"), &cfg).is_ok());
    assert!(build_filter(None, &cfg).is_ok());
}

#[test]
fn error_messages_name_the_failure() {
    assert_eq!(
        InitError::InvalidFilterDirectives("bad".to_string()).message(),
        "invalid filter directives: bad"
    );
    assert_eq!(
        InitError::InstallErrorReporter("x".to_string()).message(),
        "failed to install error reporter: x"
    );
    assert_eq!(
        InitError::SetGlobalDefault("y".to_string()).message(),
        "failed to set global tracing subscriber: y"
    );
}

#[test]
fn unreadable_directives_are_rejected_without_parsing() {
    assert!(!check_directives_readable(" \u{e9}=info"));
    assert!(!check_directives_readable("a=info,\u{3000}b=warn"));
    assert!(!check_directives_readable(" [\u{e9}]"));
    assert!(check_directives_readable(" \u{e9}"));
    assert!(check_directives_readable("  [\u{e9}]"));
    assert!(check_directives_readable("\u{e9}=info"));
    assert!(check_directives_readable(" a=info, b=warn"));
    assert!(check_directives_readable(""));
    let cfg = Config::new("x").with_filter_directives(" \u{e9}=info");
    match build_filter(None, &cfg) {
        Err(InitError::InvalidFilterDirectives(detail)) => assert_eq!(detail, UNREADABLE_DIRECTIVES),
        Err(other) => panic!("unexpected error {other:?}"),
        Ok(_) => panic!("directives should be refused"),
    }
    let cfg = Config::new("x").verbose(1);
    assert!(build_filter(Some(" \u{e9}=info"), &cfg).is_ok());
}

#[test]
fn readable_directives_reach_the_parser() {
    let cfg = Config::new("x").with_filter_directives(" \u{e9}");
    assert!(build_filter(None, &cfg).is_ok());
    let cfg = Config::new("x").with_filter_directives("  [\u{e9}]");
    assert!(build_filter(None, &cfg).is_ok());
    let cfg = Config::new("x").with_filter_directives("[[[bad").quiet(2);
    assert!(build_filter(Some(" \u{e9}"), &cfg).is_ok());
}
