use miru::loki::query::{
    escape_logql, resolve_limit, validate_level, LogQuery, QueryError,
};

fn base_query() -> LogQuery {
    LogQuery {
        service_label: "app".into(),
        service: "auth".into(),
        start: "2026-06-12T13:00:00Z".into(),
        end: "2026-06-12T14:00:00Z".into(),
        limit: 50,
        max_limit: 1000,
        level: None,
        level_label: None,
        search: None,
        search_is_regex: false,
    }
}

fn param<'a>(params: &'a [(String, String)], key: &str) -> Option<&'a str> {
    params.iter().find(|(k, _)| k == key).map(|(_, v)| v.as_str())
}

#[test]
fn logql_no_filter() {
    let q = base_query();
    assert_eq!(q.to_logql().unwrap(), r#"{app="auth"}"#);
}

#[test]
fn logql_level_uses_regex_without_level_label() {
    let mut q = base_query();
    q.level = Some("error".into());
    let logql = q.to_logql().unwrap();
    assert_eq!(logql, "{app=\"auth\"} |~ `(?i)level[=:\"]+\\s*error`");
}

#[test]
fn logql_level_uses_label_selector_with_level_label() {
    let mut q = base_query();
    q.level = Some("error".into());
    q.level_label = Some("level".into());
    let logql = q.to_logql().unwrap();
    assert_eq!(logql, r#"{app="auth", level="error"}"#);
}

#[test]
fn logql_search_exact() {
    let mut q = base_query();
    q.search = Some("connection refused".into());
    let logql = q.to_logql().unwrap();
    assert_eq!(logql, r#"{app="auth"} |= "connection refused""#);
}

#[test]
fn logql_search_regex() {
    let mut q = base_query();
    q.search = Some("timeout|refused".into());
    q.search_is_regex = true;
    let logql = q.to_logql().unwrap();
    assert_eq!(logql, r#"{app="auth"} |~ "timeout|refused""#);
}

#[test]
fn logql_level_and_search_combined() {
    let mut q = base_query();
    q.level = Some("error".into());
    q.level_label = Some("level".into());
    q.search = Some("timeout".into());
    let logql = q.to_logql().unwrap();
    assert_eq!(logql, r#"{app="auth", level="error"} |= "timeout""#);
}

#[test]
fn logql_level_regex_and_search_combined() {
    let mut q = base_query();
    q.level = Some("error".into());
    q.search = Some("timeout".into());
    let logql = q.to_logql().unwrap();
    assert!(logql.starts_with(r#"{app="auth"}"#), "got: {logql}");
    assert!(logql.contains("|~"), "expected level regex pipe, got: {logql}");
    assert!(logql.contains("(?i)level"), "expected level regex, got: {logql}");
    assert!(logql.contains("error"), "expected level value, got: {logql}");
    assert!(logql.contains(r#"|= "timeout""#), "expected search pipe, got: {logql}");
}

#[test]
fn params_contain_expected_keys() {
    let q = base_query();
    let params = q.to_params().unwrap();
    assert_eq!(param(&params, "query"), Some(r#"{app="auth"}"#));
    assert_eq!(param(&params, "start"), Some("2026-06-12T13:00:00Z"));
    assert_eq!(param(&params, "end"), Some("2026-06-12T14:00:00Z"));
    assert_eq!(param(&params, "limit"), Some("50"));
    assert_eq!(param(&params, "direction"), Some("backward"));
}

#[test]
fn limit_clamped_to_max() {
    let mut q = base_query();
    q.limit = 9999;
    q.max_limit = 1000;
    let params = q.to_params().unwrap();
    assert_eq!(param(&params, "limit"), Some("1000"));
}

#[test]
fn escaped_service_name_is_safe() {
    let mut q = base_query();
    q.service = r#"my"service"#.into();
    let logql = q.to_logql().unwrap();
    assert_eq!(logql, r#"{app="my\"service"}"#);
}

#[test]
fn to_logql_rejects_invalid_level() {
    let mut q = base_query();
    q.level = Some("error` |~ `oops".into());
    // The builder owns the rule: an invalid level is rejected at
    // construction, not silently stripped.
    let err = q.to_logql().unwrap_err().message();
    assert!(err.contains("invalid level"), "got: {err}");
}

#[test]
fn to_logql_accepts_valid_level() {
    let mut q = base_query();
    q.level = Some("error".into());
    assert_eq!(
        q.to_logql().unwrap(),
        "{app=\"auth\"} |~ `(?i)level[=:\"]+\\s*error`"
    );
}

#[test]
fn invalid_level_message_shows_the_level_in_quotes() {
    let QueryError::InvalidLevel { level } = validate_level("foo\n\"bar").unwrap_err();
    assert_eq!(level, "foo\n\"bar");
    assert_eq!(
        QueryError::InvalidLevel { level }.message(),
        "invalid level \"foo\\n\\\"bar\": use a single level name like error, warn, crit, or trace"
    );
}

#[test]
fn empty_level_is_rejected() {
    let mut q = base_query();
    q.level = Some(String::new());
    assert!(q.to_logql().is_err());
    assert!(q.to_params().is_err());
}

#[test]
fn level_names_take_word_characters_and_hyphens_only() {
    assert!(validate_level("WARN_2-x").is_ok());
    assert!(validate_level("warn ").is_err());
    assert!(validate_level("wärn").is_err());
    assert!(validate_level("`").is_err());
}

#[test]
fn escaping_doubles_backslashes_before_quotes() {
    assert_eq!(escape_logql(r#"a\b"c"#), r#"a\\b\"c"#);
    assert_eq!(escape_logql(r#"\""#), r#"\\\""#);
    assert_eq!(escape_logql("né"), "né");
    assert_eq!(escape_logql(""), "");
}

#[test]
fn every_quoted_part_is_escaped() {
    let mut q = base_query();
    q.service_label = r#"a"b"#.into();
    q.level_label = Some(r#"l\l"#.into());
    q.level = Some("warn".into());
    q.search = Some(r#"say "hi" \o/"#.into());
    assert_eq!(
        q.to_logql().unwrap(),
        r#"{a\"b="auth", l\\l="warn"} |= "say \"hi\" \\o/""#
    );
}

#[test]
fn limit_falls_back_to_the_default_and_obeys_the_cap() {
    assert_eq!(resolve_limit(None, 200, 1000), 200);
    assert_eq!(resolve_limit(Some(50), 200, 1000), 50);
    assert_eq!(resolve_limit(Some(5000), 200, 1000), 1000);
    assert_eq!(resolve_limit(None, 200, 100), 100);
}
