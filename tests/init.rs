use traxer::{
    begin, finish, is_initialized, prepare, Color, Config, Environment, FieldValue, Formatter,
    InitError, InitGuard, InitStep, Stream, Terminals,
};

fn env() -> Environment {
    Environment {
        filter_override: None,
        no_color: false,
        terminals: Terminals { stdout: false, stderr: false },
        pid: 4321,
        exe_name: Some("prog".to_string()),
    }
}

#[test]
fn second_attempt_is_a_successful_no_op() {
    let mut guard = InitGuard::new();
    assert!(!is_initialized(&guard));
    let first = Config::new("first").json();
    let cfg = match begin(&guard, first, Terminals { stdout: false, stderr: false }) {
        InitStep::Install(cfg) => cfg,
        InitStep::AlreadyInitialized => panic!("fresh guard"),
    };
    assert_eq!(cfg.name, "first");
    assert!(finish(&mut guard, Ok(())).is_ok());
    assert!(is_initialized(&guard));
    let second = Config::new("second").color(Color::Always);
    assert!(matches!(
        begin(&guard, second, Terminals { stdout: true, stderr: true }),
        InitStep::AlreadyInitialized
    ));
    assert!(is_initialized(&guard));
}

#[test]
fn failed_install_leaves_guard_unset() {
    let mut guard = InitGuard::new();
    match finish(&mut guard, Err("taken".to_string())) {
        Err(InitError::SetGlobalDefault(d)) => assert_eq!(d, "taken"),
        other => panic!("unexpected {other:?}"),
    }
    assert!(!is_initialized(&guard));
}

#[test]
fn prepare_builds_plain_formatter() {
    let cfg = Config::new("svc")
        .color(Color::Always)
        .stream(Stream::Stdout)
        .with_pid()
        .with_base_field("pid", FieldValue::Str("mine".to_string()))
        .span(true);
    let setup = match prepare(cfg, env()) {
        Ok(s) => s,
        Err(e) => panic!("{e:?}"),
    };
    assert!(matches!(setup.stream, Stream::Stdout));
    match setup.formatter {
        Formatter::Plain(f) => {
            assert_eq!(f.name, "svc");
            assert!(f.color);
            assert!(f.span);
            assert_eq!(f.base_fields, vec![("pid".to_string(), FieldValue::Str("mine".to_string()))]);
        }
        Formatter::Json(_) => panic!("plain expected"),
    }
}

#[test]
fn prepare_builds_json_formatter() {
    let cfg = Config::new("svc").json().with_exe().with_pid();
    let setup = match prepare(cfg, env()) {
        Ok(s) => s,
        Err(e) => panic!("{e:?}"),
    };
    match setup.formatter {
        Formatter::Json(f) => {
            assert_eq!(f.name, "svc");
            assert_eq!(
                f.base_fields,
                vec![
                    ("exe".to_string(), FieldValue::Str("prog".to_string())),
                    ("pid".to_string(), FieldValue::U64(4321)),
                ]
            );
        }
        Formatter::Plain(_) => panic!("json expected"),
    }
}

#[test]
fn prepare_reports_bad_directives() {
    let cfg = Config::new("svc").with_filter_directives("[[[oops");
    assert!(matches!(prepare(cfg, env()), Err(InitError::InvalidFilterDirectives(_))));
    let cfg = Config::new("svc").with_filter_directives("[[[oops");
    let mut e = env();
    e.filter_override = Some("info".to_string());
    assert!(prepare(cfg, e).is_ok());
}

#[test]
fn auto_color_respects_suppression_signal() {
    let mut e = env();
    e.terminals = Terminals { stdout: true, stderr: true };
    e.no_color = true;
    match prepare(Config::new("svc"), e).map(|s| s.formatter) {
        Ok(Formatter::Plain(f)) => assert!(!f.color),
        _ => panic!("plain expected"),
    }
}
