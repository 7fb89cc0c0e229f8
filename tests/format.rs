use serde_json::Value as JsonValue;
use traxer::{
    check_json_number, render_level, render_object, render_string, render_u64, render_value, Event, FieldValue,
    Formatter, JsonFormatter, Level, PlainFormatter,
};

fn event(level: Level, fields: Vec<(String, FieldValue)>, text: &str, span: Option<&str>) -> Event {
    Event {
        level,
        timestamp_ms: 1_700_000_000_123,
        fields,
        fields_text: text.to_string(),
        span: span.map(|s| s.to_string()),
    }
}

fn parse(line: &str) -> serde_json::Map<String, JsonValue> {
    assert!(line.ends_with('\n'));
    assert_eq!(line.matches('\n').count(), 1);
    let parsed: JsonValue = serde_json::from_str(line.trim_end()).expect("valid json");
    parsed.as_object().expect("an object").clone()
}

#[test]
fn colored_levels_use_fixed_codes() {
    assert_eq!(render_level(Level::Error, true), "\x1b[31mERROR\x1b[0m");
    assert_eq!(render_level(Level::Warn, true), "\x1b[33mWARN\x1b[0m");
    assert_eq!(render_level(Level::Info, true), "\x1b[32mINFO\x1b[0m");
    assert_eq!(render_level(Level::Debug, true), "\x1b[34mDEBUG\x1b[0m");
    assert_eq!(render_level(Level::Trace, true), "\x1b[90mTRACE\x1b[0m");
    assert_eq!(render_level(Level::Warn, false), "WARN");
}

#[test]
fn uncolored_plain_lines_hold_no_escape() {
    let f = PlainFormatter {
        name: "svc".to_string(),
        color: false,
        base_fields: vec![("k".to_string(), FieldValue::Str("v\u{1b}x".to_string()))],
        span: true,
    };
    for level in [Level::Error, Level::Warn, Level::Info, Level::Debug, Level::Trace] {
        let line = f.format_event(&event(level, Vec::new(), "hello", Some("req")));
        assert!(!line.contains('\u{1b}'), "{line:?}");
    }
}

#[test]
fn plain_line_layout() {
    let f = PlainFormatter {
        name: "svc".to_string(),
        color: false,
        base_fields: vec![
            ("a".to_string(), FieldValue::Str("x y".to_string())),
            ("n".to_string(), FieldValue::I64(-3)),
        ],
        span: true,
    };
    let line = f.format_event(&event(Level::Info, Vec::new(), "started port=80", Some("boot")));
    assert_eq!(line, "[svc] INFO started port=80 a=\"x y\" n=-3 span=boot\n");
    let line = f.format_event(&event(Level::Info, Vec::new(), "m", None));
    assert_eq!(line, "[svc] INFO m a=\"x y\" n=-3\n");
    let quiet = PlainFormatter { span: false, ..f };
    let line = quiet.format_event(&event(Level::Debug, Vec::new(), "m", Some("boot")));
    assert_eq!(line, "[svc] DEBUG m a=\"x y\" n=-3\n");
}

#[test]
fn value_rendering_preserves_types() {
    assert_eq!(render_value(&FieldValue::Str("a\"b".to_string())), "\"a\\\"b\"");
    assert_eq!(render_value(&FieldValue::Bool(true)), "true");
    assert_eq!(render_value(&FieldValue::Bool(false)), "false");
    assert_eq!(render_value(&FieldValue::I64(-42)), "-42");
    assert_eq!(render_value(&FieldValue::U64(18446744073709551615)), "18446744073709551615");
    assert_eq!(render_value(&FieldValue::Float("1.5".to_string())), "1.5");
    assert_eq!(render_value(&FieldValue::Text("NaN".to_string())), "\"NaN\"");
    assert_eq!(render_string("line\nbreak"), "\"line\\nbreak\"");
    assert_eq!(render_u64(0), "0");
    assert_eq!(render_u64(1234), "1234");
}

#[test]
fn object_rendering_is_compact() {
    let entries = vec![
        ("a".to_string(), "1".to_string()),
        ("b".to_string(), "\"x\"".to_string()),
    ];
    assert_eq!(render_object(&entries), "{\"a\":1,\"b\":\"x\"}");
    assert_eq!(render_object(&Vec::new()), "{}");
}

#[test]
fn json_line_has_fixed_keys_and_default_message() {
    let f = JsonFormatter { name: "svc".to_string(), base_fields: Vec::new(), span: true };
    let line = f.format_event(&event(Level::Warn, Vec::new(), "", None));
    let obj = parse(&line);
    assert_eq!(obj.get("timestamp"), Some(&JsonValue::from(1_700_000_000_123u64)));
    assert_eq!(obj.get("level"), Some(&JsonValue::from("WARN")));
    assert_eq!(obj.get("name"), Some(&JsonValue::from("svc")));
    assert_eq!(obj.get("message"), Some(&JsonValue::from("")));
    assert!(obj.get("span").is_none());
    assert_eq!(obj.len(), 4);
}

#[test]
fn json_base_fields_override_event_fields() {
    let f = JsonFormatter {
        name: "svc".to_string(),
        base_fields: vec![("user_id".to_string(), FieldValue::Str("base".to_string()))],
        span: true,
    };
    let fields = vec![
        ("message".to_string(), FieldValue::Str("hi".to_string())),
        ("user_id".to_string(), FieldValue::I64(1)),
        ("ok".to_string(), FieldValue::Bool(true)),
        ("ratio".to_string(), FieldValue::Float("0.25".to_string())),
    ];
    let line = f.format_event(&event(Level::Error, fields, "", Some("job")));
    let obj = parse(&line);
    assert_eq!(obj.get("user_id"), Some(&JsonValue::from("base")));
    assert_eq!(obj.get("message"), Some(&JsonValue::from("hi")));
    assert_eq!(obj.get("ok"), Some(&JsonValue::Bool(true)));
    assert_eq!(obj.get("ratio"), Some(&JsonValue::from(0.25)));
    assert_eq!(obj.get("span"), Some(&JsonValue::from("job")));
    let keys: Vec<&String> = obj.keys().collect();
    let mut sorted = keys.clone();
    sorted.sort();
    assert_eq!(keys, sorted);
}

#[test]
fn json_scenario_with_user_fields() {
    let f = Formatter::Json(JsonFormatter {
        name: "svc".to_string(),
        base_fields: Vec::new(),
        span: false,
    });
    let fields = vec![
        ("message".to_string(), FieldValue::Str("user action processed".to_string())),
        ("user_id".to_string(), FieldValue::I64(42)),
        ("action".to_string(), FieldValue::Str("login".to_string())),
    ];
    let line = f.format_event(&event(Level::Info, fields, "", None));
    assert!(line.contains("\"name\":\"svc\""));
    assert!(line.contains("\"user_id\":42"));
    assert!(line.contains("\"action\":\"login\""));
    assert!(line.contains("\"message\":\"user action processed\""));
    let obj = parse(&line);
    assert_eq!(obj.get("user_id"), Some(&JsonValue::Number(42.into())));
}

#[test]
fn float_text_must_be_a_json_number() {
    assert_eq!(render_value(&FieldValue::Float("-0.5e+3".to_string())), "-0.5e+3");
    assert_eq!(render_value(&FieldValue::Float("0".to_string())), "0");
    assert_eq!(render_value(&FieldValue::Float("01".to_string())), "\"01\"");
    assert_eq!(render_value(&FieldValue::Float("1.".to_string())), "\"1.\"");
    assert_eq!(render_value(&FieldValue::Float("inf\n".to_string())), "\"inf\\n\"");
    assert!(check_json_number("12.25E-7"));
    assert!(!check_json_number(""));
    assert!(!check_json_number("-"));
}

#[test]
fn string_escapes_follow_serde_json() {
    assert_eq!(render_string("\u{1}"), "\"\\u0001\"");
    assert_eq!(render_string("\u{1f}"), "\"\\u001f\"");
    assert_eq!(render_string("a\tb\r\u{8}\u{c}\\/"), "\"a\\tb\\r\\b\\f\\\\/\"");
    assert_eq!(render_string("\u{7f}\u{e9}"), "\"\u{7f}\u{e9}\"");
}

#[test]
fn timestamps_saturate_and_default_to_zero() {
    assert_eq!(traxer::timestamp_millis(None), 0);
    assert_eq!(traxer::timestamp_millis(Some(1234)), 1234);
    assert_eq!(traxer::timestamp_millis(Some(u128::MAX)), u64::MAX);
    assert_eq!(traxer::timestamp_millis(Some(u64::MAX as u128 + 1)), u64::MAX);
}
