use glint::logging::{
    abbreviate_id, app_level, bold, choose_level, compact_fields, compact_line, default_level, dimmed,
    filter_directive, format_field, level_label, level_name, should_use_json, CompactFields,
    EventFields, FieldRule, JsonValue, LogLevel, RecordedValue,
};

#[test]
fn level_labels() {
    assert_eq!(level_label(LogLevel::Info, false), " INFO");
    assert_eq!(level_label(LogLevel::Trace, false), "TRACE");
    assert_eq!(level_label(LogLevel::Warn, true), "\x1b[33m WARN\x1b[0m");
    assert_eq!(level_label(LogLevel::Error, true), "\x1b[31mERROR\x1b[0m");
    assert_eq!(level_name(LogLevel::Debug), "debug");
    assert_eq!(dimmed("x", true), "\x1b[2mx\x1b[0m");
    assert_eq!(dimmed("x", false), "x");
    assert_eq!(bold("y", true), "\x1b[1my\x1b[0m");
    assert_eq!(bold("y", false), "y");
}

#[test]
fn compact_lines() {
    let spans = vec![
        ("request".to_string(), "req_id=01HX method=GET".to_string()),
        ("db".to_string(), String::new()),
    ];
    let line = compact_line("12:00:00.000", LogLevel::Info, false, &spans, "glint::api", "hello n=3");
    assert_eq!(
        line,
        "12:00:00.000  INFO request{req_id=01HX method=GET}:db glint::api: hello n=3\n"
    );
    let line = compact_line("t", LogLevel::Debug, false, &vec![], "glint", "m");
    assert_eq!(line, "t DEBUG glint: m\n");
    let line = compact_line("t", LogLevel::Error, true, &vec![("s".to_string(), String::new())], "g", "");
    assert_eq!(
        line,
        "\x1b[2mt\x1b[0m \x1b[31mERROR\x1b[0m \x1b[1ms\x1b[0m \x1b[2mg\x1b[0m\x1b[2m:\x1b[0m \n"
    );
}

#[test]
fn field_rules() {
    let rules = compact_fields();
    assert_eq!(rules.rule_for("req_id"), Some(FieldRule::AbbreviateId));
    assert_eq!(rules.rule_for("path"), None);
    let rules = CompactFields::new().hide_field("secret").transform("secret", FieldRule::AbbreviateId);
    assert_eq!(rules.rule_for("secret"), Some(FieldRule::Hide));
}

#[test]
fn field_display() {
    assert_eq!(abbreviate_id("01HX5ZQ8J9K2M3N4P5"), "01HX..M3N4P5");
    assert_eq!(abbreviate_id("short"), "short");
    assert_eq!(abbreviate_id("123456789012"), "123456789012");
    assert_eq!(format_field(Some(FieldRule::Hide), true, "x", "y"), None);
    assert_eq!(format_field(None, true, "message", "hi"), Some("hi".to_string()));
    assert_eq!(format_field(None, false, "n", "3"), Some(" n=3".to_string()));
    assert_eq!(
        format_field(Some(FieldRule::AbbreviateId), false, "req_id", "01HX5ZQ8J9K2M3N4P5"),
        Some(" req_id=01HX..M3N4P5".to_string())
    );
}

#[test]
fn verbosity_and_format() {
    assert_eq!(default_level(true), "debug");
    assert_eq!(default_level(false), "info");
    assert_eq!(app_level(2, Some("error"), false), "trace");
    assert_eq!(app_level(1, None, false), "debug");
    assert_eq!(app_level(0, Some("WARN"), true), "warn");
    assert_eq!(app_level(0, Some("loud"), false), "info");
    assert_eq!(app_level(0, None, true), "debug");
    assert_eq!(app_level(0, Some("DEBUG"), false), "debug");
    assert_eq!(app_level(0, Some("Trace"), false), "trace");
    assert_eq!(filter_directive("debug"), "warn,glint=debug");
    assert_eq!(choose_level(0, Some("error"), true), "error");
    assert_eq!(choose_level(0, Some("ERROR"), true), "debug");
    assert_eq!(choose_level(3, Some("error"), true), "trace");
    assert!(should_use_json(Some("true"), true));
    assert!(should_use_json(Some("1"), true));
    assert!(!should_use_json(Some("yes"), false));
    assert!(should_use_json(None, false));
    assert!(!should_use_json(None, true));
}

fn text_field<'a>(e: &'a EventFields, name: &str) -> Option<&'a str> {
    e.fields.iter().find(|(n, _)| n == name).and_then(|(_, v)| match v {
        JsonValue::Str(s) => Some(s.as_str()),
        _ => None,
    })
}

#[test]
fn json_event_fields() {
    let mut e = EventFields::new();
    e.record("message", RecordedValue::Text("started".to_string()));
    e.record("message", RecordedValue::I64(5));
    e.record("port", RecordedValue::U64(3000));
    e.record("ok", RecordedValue::Bool(true));
    e.record("path", RecordedValue::Text("/a".to_string()));
    e.record("path", RecordedValue::Text("/b".to_string()));
    assert_eq!(e.message.as_deref(), Some("started"));
    assert_eq!(e.fields.len(), 3);
    assert_eq!(text_field(&e, "path"), Some("/b"));
    assert!(matches!(e.fields.iter().find(|(n, _)| n == "port"), Some((_, JsonValue::U64(3000)))));
    assert!(matches!(e.fields.iter().find(|(n, _)| n == "ok"), Some((_, JsonValue::Bool(true)))));
}

#[test]
fn json_span_fields() {
    let mut e = EventFields::new();
    e.record("path", RecordedValue::Text("/x".to_string()));
    e.apply_span_fields("req_id=\"01HX\"  method=GET flag path='/y' =z");
    assert_eq!(text_field(&e, "req_id"), Some("01HX"));
    assert_eq!(text_field(&e, "method"), Some("GET"));
    assert_eq!(text_field(&e, "path"), Some("/y"));
    assert_eq!(text_field(&e, ""), Some("z"));
    assert_eq!(text_field(&e, "flag"), None);
    assert_eq!(e.message, None);
}
