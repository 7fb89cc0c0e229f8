use serde_json::Value as JsonValue;
use tracing_subscriber::filter::LevelFilter;
use traxer::{
    begin, finish, is_initialized, prepare, select_filter, Color, Config, Environment, Event,
    FieldValue, FilterSource, Formatter, InitGuard, InitStep, Level, Terminals,
};

fn environment(filter: Option<&str>) -> Environment {
    Environment {
        filter_override: filter.map(|f| f.to_string()),
        no_color: false,
        terminals: Terminals { stdout: false, stderr: false },
        pid: 1,
        exe_name: None,
    }
}

fn formatter_for(cfg: Config, filter: Option<&str>) -> Formatter {
    match prepare(cfg, environment(filter)) {
        Ok(setup) => setup.formatter,
        Err(e) => panic!("setup failed: {}", e.message()),
    }
}

fn line(f: &Formatter, level: Level, text: &str, fields: Vec<(String, FieldValue)>) -> String {
    f.format_event(&Event {
        level,
        timestamp_ms: 0,
        fields,
        fields_text: text.to_string(),
        span: None,
    })
}

fn strip_ansi(input: &str) -> String {
    let mut output = String::with_capacity(input.len());
    let mut chars = input.chars().peekable();
    while let Some(ch) = chars.next() {
        if ch == '\x1b' && chars.peek() == Some(&'[') {
            let _ = chars.next();
            for next in chars.by_ref() {
                if ('@'..='~').contains(&next) {
                    break;
                }
            }
        } else {
            output.push(ch);
        }
    }
    output
}

fn fields_example() -> Vec<(String, FieldValue)> {
    vec![
        ("message".to_string(), FieldValue::Str("user action processed".to_string())),
        ("user_id".to_string(), FieldValue::I64(42)),
        ("elapsed_ms".to_string(), FieldValue::I64(128)),
        ("action".to_string(), FieldValue::Str("login".to_string())),
    ]
}

const FIELDS_TEXT: &str = "user action processed user_id=42 elapsed_ms=128 action=\"login\"";

#[test]
fn minimal_example_emits_ansi_levels_with_trace_filter() {
    let cfg = Config::new("traxer-example").color(Color::Always);
    let f = formatter_for(cfg, Some("trace"));
    let mut output = String::new();
    for (level, text) in [
        (Level::Error, "error message"),
        (Level::Warn, "warn message"),
        (Level::Info, "info message"),
        (Level::Debug, "debug message"),
        (Level::Trace, "trace message"),
    ] {
        output.push_str(&line(&f, level, text, Vec::new()));
    }

    assert!(output.contains("[traxer-example] "), "output:\n{output}");

    assert!(output.contains("\x1b[31mERROR\x1b[0m"), "output:\n{output}");
    assert!(output.contains("\x1b[33mWARN\x1b[0m"), "output:\n{output}");
    assert!(output.contains("\x1b[32mINFO\x1b[0m"), "output:\n{output}");
    assert!(output.contains("\x1b[34mDEBUG\x1b[0m"), "output:\n{output}");
    assert!(output.contains("\x1b[90mTRACE\x1b[0m"), "output:\n{output}");

    assert!(output.contains("error message"), "output:\n{output}");
    assert!(output.contains("warn message"), "output:\n{output}");
    assert!(output.contains("info message"), "output:\n{output}");
    assert!(output.contains("debug message"), "output:\n{output}");
    assert!(output.contains("trace message"), "output:\n{output}");
}

#[test]
fn minimal_example_defaults_to_info_filter() {
    let cfg = Config::new("traxer-example").color(Color::Always);
    assert!(matches!(select_filter(None, &cfg), FilterSource::Level(Level::Info)));
    let setup = match prepare(cfg, environment(None)) {
        Ok(setup) => setup,
        Err(e) => panic!("setup failed: {}", e.message()),
    };
    let hint = setup.filter.into_env_filter().max_level_hint();
    assert_eq!(hint, Some(LevelFilter::INFO));
    let f = setup.formatter;
    let mut output = String::new();
    for (shown, level, text) in [
        (tracing::Level::ERROR, Level::Error, "error message"),
        (tracing::Level::WARN, Level::Warn, "warn message"),
        (tracing::Level::INFO, Level::Info, "info message"),
        (tracing::Level::DEBUG, Level::Debug, "debug message"),
        (tracing::Level::TRACE, Level::Trace, "trace message"),
    ] {
        if hint.map_or(false, |h| h >= shown) {
            output.push_str(&line(&f, level, text, Vec::new()));
        }
    }

    assert!(output.contains("error message"), "output:\n{output}");
    assert!(output.contains("warn message"), "output:\n{output}");
    assert!(output.contains("info message"), "output:\n{output}");

    assert!(!output.contains("debug message"), "output:\n{output}");
    assert!(!output.contains("trace message"), "output:\n{output}");
}

#[test]
fn fields_example_emits_structured_fields() {
    let cfg = Config::new("traxer-fields").color(Color::Always).verbose(1).plain();
    let f = formatter_for(cfg, Some("trace"));
    let output = line(&f, Level::Info, FIELDS_TEXT, fields_example());
    let plain = strip_ansi(&output);

    assert!(plain.contains("[traxer-fields] "), "output:\n{output}");
    assert!(plain.contains("user_id=42"), "output:\n{output}");
    assert!(plain.contains("elapsed_ms=128"), "output:\n{output}");
    assert!(plain.contains("action=\"login\""), "output:\n{output}");
    assert!(plain.contains("user action processed"), "output:\n{output}");
}

#[test]
fn fields_example_defaults_to_plain_output() {
    let cfg = Config::new("traxer-fields").color(Color::Always).verbose(1);
    let f = formatter_for(cfg, Some("trace"));
    assert!(matches!(f, Formatter::Plain(_)));
    let output = line(&f, Level::Info, FIELDS_TEXT, fields_example());
    let plain = strip_ansi(&output);

    assert!(plain.contains("[traxer-fields] "), "output:\n{output}");
}

#[test]
fn fields_example_json_emits_typed_values() {
    let cfg = Config::new("traxer-fields").color(Color::Always).verbose(1).json();
    let f = formatter_for(cfg, Some("trace"));
    let output = line(&f, Level::Info, FIELDS_TEXT, fields_example());
    let json_line = output
        .lines()
        .find(|l| l.trim_start().starts_with('{'))
        .expect("json log line not found");

    let parsed: JsonValue = serde_json::from_str(json_line).expect("failed to parse json log line");
    let obj = parsed.as_object().expect("json log is not an object");

    assert_eq!(obj.get("action"), Some(&JsonValue::String("login".to_string())));
    assert_eq!(obj.get("elapsed_ms"), Some(&JsonValue::Number(128.into())));
    assert_eq!(obj.get("user_id"), Some(&JsonValue::Number(42.into())));
    assert_eq!(
        obj.get("message"),
        Some(&JsonValue::String("user action processed".to_string()))
    );
}

#[test]
fn try_init_example_is_idempotent() {
    let mut guard = InitGuard::new();
    let cfg = Config::new("traxer-try-init")
        .error_report(false)
        .with_base_field("component", FieldValue::Str("example".to_string()));
    let t = Terminals { stdout: false, stderr: false };

    let f = match begin(&guard, cfg.clone(), t) {
        InitStep::Install(resolved) => formatter_for(resolved, None),
        InitStep::AlreadyInitialized => panic!("first try_init should install"),
    };
    assert!(finish(&mut guard, Ok(())).is_ok(), "first try_init should succeed");
    assert!(
        matches!(begin(&guard, cfg, t), InitStep::AlreadyInitialized),
        "second try_init should be a no-op"
    );
    assert!(is_initialized(&guard));

    let output = line(&f, Level::Info, "try_init ok", Vec::new());
    assert!(output.contains("try_init ok"), "output:\n{output}");
    assert!(output.contains("component=\"example\""), "output:\n{output}");
}
