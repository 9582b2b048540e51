use miru::config::{
    config_path, default_limit, default_max_series, default_min_step_seconds,
    default_target_points, fields_text, max_limit, missing_file_message, Config, ConfigError,
    ConfigPath, GrafanaConfig, LokiSection, PrometheusSection,
};

fn text(table: &toml::Table, key: &str) -> Option<String> {
    table.get(key).and_then(|v| v.as_str()).map(String::from)
}

fn number(table: &toml::Table, key: &str) -> Option<u32> {
    table.get(key).and_then(|v| v.as_integer()).and_then(|n| u32::try_from(n).ok())
}

fn section<'a>(file: &'a toml::Table, key: &str) -> Option<&'a toml::Table> {
    file.get(key).and_then(|v| v.as_table())
}

fn parse(contents: &str) -> Result<Config, String> {
    let file: toml::Table = contents.parse().map_err(|e: toml::de::Error| e.to_string())?;
    let grafana = section(&file, "grafana").ok_or("missing field `grafana`")?;
    let loki = section(&file, "loki").ok_or("missing field `loki`")?;
    Ok(Config::from_sections(
        GrafanaConfig {
            url: text(grafana, "url").ok_or("missing field `url`")?,
            api_key: text(grafana, "api_key"),
            username: text(grafana, "username"),
            datasource: text(grafana, "datasource"),
        },
        LokiSection {
            service_label: text(loki, "service_label").ok_or("missing field `service_label`")?,
            level_label: text(loki, "level_label"),
            datasource: text(loki, "datasource"),
            default_limit: number(loki, "default_limit"),
            max_limit: number(loki, "max_limit"),
        },
        section(&file, "prometheus").map(|prometheus| PrometheusSection {
            datasource: text(prometheus, "datasource"),
            target_points: number(prometheus, "target_points"),
            max_series: number(prometheus, "max_series"),
            min_step_seconds: number(prometheus, "min_step_seconds"),
        }),
    ))
}

fn full_toml() -> &'static str {
    r#"
[grafana]
url = "http://localhost:3000"
api_key = "test-key"

[loki]
service_label = "app"
default_limit = 100
max_limit = 500
"#
}

fn minimal_toml() -> &'static str {
    r#"
[grafana]
url = "http://localhost:3000"
api_key = "test-key"

[loki]
service_label = "job"
"#
}

#[test]
fn parses_full_config() {
    let cfg = parse(full_toml()).unwrap();
    assert_eq!(cfg.grafana.url, "http://localhost:3000");
    assert_eq!(cfg.grafana.api_key, Some("test-key".to_string()));
    assert_eq!(cfg.loki.service_label, "app");
    assert_eq!(cfg.loki.default_limit, 100);
    assert_eq!(cfg.loki.max_limit, 500);
}

#[test]
fn applies_defaults_for_limits() {
    let cfg = parse(minimal_toml()).unwrap();
    assert_eq!(cfg.loki.default_limit, 200);
    assert_eq!(cfg.loki.max_limit, 1000);
}

#[test]
fn rejects_malformed_toml() {
    let result = parse("not valid toml {{{{");
    assert!(result.is_err());
}

#[test]
fn respects_miru_config_env_var() {
    let path = match config_path(Some("/tmp/custom_miru_test.toml".into())) {
        ConfigPath::Explicit(path) => std::path::PathBuf::from(path),
        other => panic!("got: {other:?}"),
    };
    assert_eq!(path, std::path::PathBuf::from("/tmp/custom_miru_test.toml"));
}

fn optional_fields_toml() -> &'static str {
    r#"
[grafana]
url = "http://localhost:3000"
api_key = "test-key"
username = "123456"
datasource = "LokiProd"

[loki]
service_label = "app"
"#
}

fn no_api_key_toml() -> &'static str {
    r#"
[grafana]
url = "http://localhost:3100"

[loki]
service_label = "job"
"#
}

#[test]
fn parses_optional_grafana_fields() {
    let cfg = parse(optional_fields_toml()).unwrap();
    assert_eq!(cfg.grafana.username, Some("123456".to_string()));
    assert_eq!(cfg.grafana.datasource, Some("LokiProd".to_string()));
}

#[test]
fn parses_config_without_api_key() {
    let cfg = parse(no_api_key_toml()).unwrap();
    assert_eq!(cfg.grafana.api_key, None);
    assert_eq!(cfg.grafana.username, None);
}

#[test]
fn env_var_overrides_and_sets_api_key() {
    let mut from_file = parse(full_toml()).unwrap();
    from_file.apply_env_overrides(Some("env-key".into()));
    assert_eq!(from_file.grafana.api_key, Some("env-key".to_string()));

    let mut without_key = parse(no_api_key_toml()).unwrap();
    without_key.apply_env_overrides(Some("env-key".into()));
    assert_eq!(without_key.grafana.api_key, Some("env-key".to_string()));
}

#[test]
fn no_prometheus_section_is_none() {
    let cfg = parse(minimal_toml()).unwrap();
    assert!(cfg.prometheus.is_none());
}

#[test]
fn parses_prometheus_section_with_defaults() {
    let cfg = parse(
        r#"
[grafana]
url = "http://localhost:3000"
[loki]
service_label = "app"
[prometheus]
datasource = "Prometheus"
"#,
    )
    .unwrap();
    let prom = cfg.prometheus.unwrap();
    assert_eq!(prom.datasource, Some("Prometheus".to_string()));
    assert_eq!(prom.target_points, 100);
    assert_eq!(prom.max_series, 20);
    assert_eq!(prom.min_step_seconds, 15);
}

#[test]
fn parses_prometheus_overrides() {
    let cfg = parse(
        r#"
[grafana]
url = "http://localhost:3000"
[loki]
service_label = "app"
[prometheus]
target_points = 250
max_series = 5
min_step_seconds = 30
"#,
    )
    .unwrap();
    let prom = cfg.prometheus.unwrap();
    assert_eq!(prom.datasource, None);
    assert_eq!(prom.target_points, 250);
    assert_eq!(prom.max_series, 5);
    assert_eq!(prom.min_step_seconds, 30);
}

#[test]
fn parses_loki_datasource() {
    let cfg = parse(
        r#"
[grafana]
url = "http://localhost:3000"
[loki]
service_label = "app"
datasource = "LokiProd"
"#,
    )
    .unwrap();
    assert_eq!(cfg.loki.datasource, Some("LokiProd".to_string()));
}

#[test]
fn parses_level_label() {
    let cfg = parse(
        r#"
[grafana]
url = "http://localhost:3000"
[loki]
service_label = "app"
level_label = "level"
"#,
    )
    .unwrap();
    assert_eq!(cfg.loki.level_label, Some("level".to_string()));
}

#[test]
fn validate_rejects_empty_url() {
    let cfg = parse(
        r#"
[grafana]
url = ""
[loki]
service_label = "app"
"#,
    )
    .unwrap();
    let err = cfg.validate().unwrap_err().message();
    assert!(err.contains("grafana.url is required"), "got: {err}");
}

#[test]
fn validate_rejects_non_http_url() {
    let cfg = parse(
        r#"
[grafana]
url = "grpc://localhost:3000"
[loki]
service_label = "app"
"#,
    )
    .unwrap();
    let err = cfg.validate().unwrap_err().message();
    assert!(
        err.contains("http://") || err.contains("https://"),
        "got: {err}"
    );
}

#[test]
fn validate_rejects_empty_service_label() {
    let cfg = parse(
        r#"
[grafana]
url = "http://localhost:3000"
[loki]
service_label = ""
"#,
    )
    .unwrap();
    let err = cfg.validate().unwrap_err().message();
    assert!(err.contains("service_label"), "got: {err}");
}

#[test]
fn validate_names_each_fault() {
    let mut cfg = parse(minimal_toml()).unwrap();
    assert!(cfg.validate().is_ok());
    cfg.grafana.url = "https://".into();
    assert!(cfg.validate().is_ok());
    cfg.grafana.url = "http:/x".into();
    let err = cfg.validate().unwrap_err();
    assert!(matches!(&err, ConfigError::UrlScheme { url } if url == "http:/x"));
    assert_eq!(
        err.message(),
        "grafana.url must start with http:// or https:// (got: http:/x)"
    );
    cfg.grafana.url = "http://x".into();
    cfg.loki.service_label = String::new();
    let err = cfg.validate().unwrap_err();
    assert!(matches!(err, ConfigError::MissingServiceLabel));
    assert_eq!(err.message(), "loki.service_label is required");
    cfg.grafana.url = String::new();
    let err = cfg.validate().unwrap_err();
    assert!(matches!(err, ConfigError::MissingUrl));
    assert_eq!(err.message(), "grafana.url is required");
}

#[test]
fn an_empty_or_missing_variable_leaves_the_key() {
    let mut cfg = parse(full_toml()).unwrap();
    cfg.apply_env_overrides(None);
    assert_eq!(cfg.grafana.api_key, Some("test-key".to_string()));
    cfg.apply_env_overrides(Some(String::new()));
    assert_eq!(cfg.grafana.api_key, Some("test-key".to_string()));
    assert_eq!(cfg.grafana.url, "http://localhost:3000");
    assert_eq!(cfg.loki.max_limit, 500);
}

#[test]
fn the_api_key_is_masked() {
    let mut cfg = parse(optional_fields_toml()).unwrap().grafana;
    cfg.username = None;
    let shown = cfg.to_debug_text();
    assert_eq!(
        shown,
        "GrafanaConfig { url: \"http://localhost:3000\", api_key: Some(\"***\"), \
         username: None, datasource: Some(\"LokiProd\") }"
    );
    cfg.api_key = Some("another".into());
    assert_eq!(cfg.to_debug_text(), shown);
    cfg.api_key = None;
    assert!(cfg.to_debug_text().contains("api_key: None,"));
}

#[test]
fn shown_fields_go_in_as_they_are() {
    assert_eq!(
        fields_text("U", Some("K".into()), None, Some("D".into())),
        "GrafanaConfig { url: U, api_key: Some(K), username: None, datasource: Some(D) }"
    );
}

#[test]
fn the_file_is_looked_for_below_the_configuration_directory() {
    match config_path(None) {
        ConfigPath::InConfigDir(parts) => assert_eq!(parts, vec!["miru", "config.toml"]),
        other => panic!("got: {other:?}"),
    }
    assert_eq!(
        missing_file_message("/c.toml"),
        "config file not found at /c.toml. Copy config.example.toml to that path and fill it in."
    );
}

#[test]
fn defaults_have_their_documented_values() {
    assert_eq!(default_limit(), 200);
    assert_eq!(max_limit(), 1000);
    assert_eq!(default_target_points(), 100);
    assert_eq!(default_max_series(), 20);
    assert_eq!(default_min_step_seconds(), 15);
}
