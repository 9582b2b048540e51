use miru::backend::{
    build_auth, is_success, map_http_error, missing_datasource_text, resolve, resolve_prometheus,
    select_datasource, truncate_body, Auth, BackendError, Credential, Datasource, DatasourceKind,
    DatasourcesReply, Endpoint, HealthProbe, NextProbe, ReplyStep, Request, ResolvedBackend,
};
use miru::config::{GrafanaConfig, PrometheusConfig};

const SERVER: &str = "http://127.0.0.1:4000";

fn bearer_config(url: &str) -> GrafanaConfig {
    GrafanaConfig {
        url: url.to_string(),
        api_key: Some("test-token".into()),
        username: None,
        datasource: None,
    }
}

fn grafana_health_body() -> &'static str {
    r#"{"database":"ok","version":"10.0.0","commit":"abc"}"#
}

fn health_reply(status: u16, body: &str) -> HealthProbe {
    let database = serde_json::from_str::<serde_json::Value>(body)
        .ok()
        .and_then(|v| v.get("database").and_then(|d| d.as_str()).map(String::from));
    HealthProbe::Reply { status, database }
}

fn datasources(body: &str) -> Vec<Datasource> {
    let listed: serde_json::Value = serde_json::from_str(body).unwrap();
    let text = |v: &serde_json::Value, key: &str| v[key].as_str().unwrap().to_string();
    listed
        .as_array()
        .unwrap()
        .iter()
        .map(|v| Datasource { uid: text(v, "uid"), name: text(v, "name"), kind: text(v, "type") })
        .collect()
}

/// Runs a search against a server that answers the health check with the
/// health body, and its datasources with the given body.
fn resolve_against_grafana(
    config: &GrafanaConfig,
    body: &str,
) -> (Request, Result<ResolvedBackend, BackendError>) {
    let search = resolve(config).unwrap();
    assert_eq!(search.health_request().url, format!("{SERVER}/api/health"));
    match search.after_health(&health_reply(200, grafana_health_body())) {
        NextProbe::Datasources(request) => {
            assert_eq!(request.url, format!("{SERVER}/api/datasources"));
            let found = search.after_datasources(DatasourcesReply::Listed(datasources(body)));
            (request, found)
        }
        other => panic!("got: {other:?}"),
    }
}

#[test]
fn build_auth_basic() {
    let config = GrafanaConfig {
        url: "http://x".into(),
        api_key: Some("pass".into()),
        username: Some("user".into()),
        datasource: None,
    };
    assert!(matches!(
        build_auth(&config).unwrap(),
        Auth::Basic { username, password } if username == "user" && password == "pass"
    ));
}

#[test]
fn build_auth_username_without_api_key_errors() {
    let config = GrafanaConfig {
        url: "http://x".into(),
        api_key: None,
        username: Some("user".into()),
        datasource: None,
    };
    assert!(build_auth(&config).is_err());
}

#[test]
fn endpoint_connect_error_names_the_backend() {
    let endpoint = Endpoint::new("http://127.0.0.1:1", Auth::Anonymous, "Prometheus");
    let request = endpoint.get_json("/api/v1/query", vec![("query".into(), "up".into())]);
    assert_eq!(request.url, "http://127.0.0.1:1/api/v1/query");
    let err = endpoint.on_send_error(true, "connection refused");
    assert!(err.contains("cannot connect to Prometheus"), "got: {err}");
}

#[test]
fn endpoint_maps_404_to_friendly_message() {
    let endpoint = Endpoint::new(SERVER, Auth::Anonymous, "Prometheus");
    let request = endpoint.get_json("/api/v1/query", vec![("query".into(), "up".into())]);
    assert_eq!(request.params, vec![("query".to_string(), "up".to_string())]);
    let err = match endpoint.on_status(404) {
        ReplyStep::Fail(message) => message,
        other => panic!("got: {other:?}"),
    };
    assert!(err.contains("endpoint not found"), "got: {err}");
}

#[test]
fn detects_grafana_resolves_first_loki_datasource() {
    let (request, backend) = resolve_against_grafana(
        &bearer_config(SERVER),
        r#"[{"uid":"uid1","name":"Loki","type":"loki"}]"#,
    );
    assert!(matches!(
        &request.credentials[..],
        [Credential::Bearer { token }] if token == "test-token"
    ));
    assert_eq!(
        backend.unwrap().base_url,
        format!("{SERVER}/api/datasources/proxy/uid/uid1")
    );
}

#[test]
fn selects_named_datasource() {
    let config = GrafanaConfig {
        url: SERVER.into(),
        api_key: Some("test-token".into()),
        username: None,
        datasource: Some("LokiProd".into()),
    };
    let (_, backend) = resolve_against_grafana(
        &config,
        r#"[{"uid":"uid1","name":"Loki","type":"loki"},{"uid":"uid2","name":"LokiProd","type":"loki"}]"#,
    );
    assert_eq!(
        backend.unwrap().base_url,
        format!("{SERVER}/api/datasources/proxy/uid/uid2")
    );
}

#[test]
fn errors_when_named_datasource_not_found() {
    let config = GrafanaConfig {
        url: SERVER.into(),
        api_key: Some("test-token".into()),
        username: None,
        datasource: Some("Missing".into()),
    };
    let (_, backend) =
        resolve_against_grafana(&config, r#"[{"uid":"uid1","name":"Loki","type":"loki"}]"#);
    let err = backend.unwrap_err();
    assert!(err.message().contains("Missing"));
    assert_eq!(err.message(), "no Loki datasource named \"Missing\" found in Grafana");
}

#[test]
fn falls_back_to_direct_loki_when_grafana_probe_fails() {
    let search = resolve(&bearer_config(SERVER)).unwrap();
    match search.after_health(&health_reply(501, "")) {
        NextProbe::Labels(request) => {
            assert_eq!(request.url, format!("{SERVER}/loki/api/v1/labels"));
        }
        other => panic!("got: {other:?}"),
    }
    let backend = search.after_labels(Some(200)).unwrap();
    assert_eq!(backend.base_url, SERVER.trim_end_matches('/').to_string());
}

#[test]
fn errors_when_both_probes_fail() {
    let search = resolve(&bearer_config(SERVER)).unwrap();
    assert!(matches!(search.after_health(&health_reply(501, "")), NextProbe::Labels(_)));
    assert!(search.after_labels(Some(501)).is_err());
}

#[test]
fn basic_auth_is_sent_in_probe_requests() {
    let config = GrafanaConfig {
        url: SERVER.into(),
        api_key: Some("token".into()),
        username: Some("123".into()),
        datasource: None,
    };
    let (request, backend) =
        resolve_against_grafana(&config, r#"[{"uid":"uid1","name":"Loki","type":"loki"}]"#);
    assert!(matches!(
        &request.credentials[..],
        [Credential::Basic { username, password }] if username == "123" && password == "token"
    ));
    assert!(matches!(backend.unwrap().auth, Auth::Basic { .. }));
}

#[test]
fn credentials_follow_the_configuration() {
    let mut config = bearer_config("http://x");
    assert!(matches!(build_auth(&config).unwrap(), Auth::Bearer(t) if t == "test-token"));
    config.api_key = None;
    assert!(matches!(build_auth(&config).unwrap(), Auth::Anonymous));
    config.username = Some("user".into());
    let err = build_auth(&config).unwrap_err();
    assert!(matches!(err, BackendError::MissingApiKey));
    assert_eq!(err.message(), "`username` requires `api_key` to be set");
    assert!(matches!(resolve(&config), Err(BackendError::MissingApiKey)));
}

#[test]
fn credentials_are_added_to_those_of_the_request() {
    let bare = || Request { url: "u".into(), credentials: vec![], params: vec![] };
    assert!(Auth::Anonymous.apply(bare()).credentials.is_empty());
    let once = Auth::Bearer("a".into()).apply(bare());
    let twice = Auth::Basic { username: "u".into(), password: "p".into() }.apply(once);
    assert_eq!(twice.url, "u");
    assert!(matches!(
        &twice.credentials[..],
        [Credential::Bearer { token }, Credential::Basic { username, password }]
            if token == "a" && username == "u" && password == "p"
    ));
}

#[test]
fn a_copy_of_credentials_is_the_same() {
    let auth = Auth::Basic { username: "u".into(), password: "p".into() };
    assert!(matches!(
        auth.clone(),
        Auth::Basic { username, password } if username == "u" && password == "p"
    ));
    assert!(matches!(Auth::Anonymous.clone(), Auth::Anonymous));
    assert!(matches!(Auth::Bearer("t".into()).clone(), Auth::Bearer(t) if t == "t"));
}

#[test]
fn statuses_in_words() {
    assert_eq!(map_http_error(401), "authentication failed");
    assert_eq!(map_http_error(403), "access denied");
    assert_eq!(map_http_error(404), "endpoint not found");
    assert_eq!(map_http_error(500), "server error (HTTP 500)");
    assert_eq!(map_http_error(503), "server error (HTTP 503)");
    assert_eq!(map_http_error(418), "HTTP 418");
    assert_eq!(map_http_error(0), "HTTP 0");
}

#[test]
fn success_is_the_two_hundreds() {
    assert!(!is_success(199));
    assert!(is_success(200));
    assert!(is_success(299));
    assert!(!is_success(300));
}

#[test]
fn replies_are_decoded_explained_or_given_up() {
    let endpoint = Endpoint::new("http://x///", Auth::Anonymous, "Loki");
    assert_eq!(endpoint.base_url, "http://x");
    assert_eq!(endpoint.url("/a"), "http://x/a");
    assert!(matches!(endpoint.on_status(204), ReplyStep::Decode));
    assert!(matches!(endpoint.on_status(400), ReplyStep::ReadBody));
    assert!(matches!(endpoint.on_status(302), ReplyStep::ReadBody));
    assert!(matches!(endpoint.on_status(502), ReplyStep::Fail(m) if m == "server error (HTTP 502)"));
    assert_eq!(endpoint.on_error_body(400, "bad"), "Loki returned HTTP 400: bad");
    assert_eq!(endpoint.on_send_error(true, "refused"), "cannot connect to Loki: refused");
    assert_eq!(endpoint.on_send_error(false, "builder error"), "builder error");
}

#[test]
fn long_bodies_are_cut_by_characters() {
    let fits: String = "é".repeat(500);
    assert_eq!(truncate_body(&fits), fits);
    let long: String = "é".repeat(501);
    let cut = truncate_body(&long);
    assert_eq!(cut, format!("{} (truncated)", "é".repeat(500)));
    assert_eq!(cut.chars().count(), 512);
    assert_eq!(truncate_body(""), "");
}

#[test]
fn a_sick_grafana_is_not_taken_for_one() {
    let search = resolve(&bearer_config("http://g//")).unwrap();
    assert_eq!(search.base, "http://g");
    let sick = health_reply(200, r#"{"database":"failing"}"#);
    assert!(matches!(search.after_health(&sick), NextProbe::Labels(_)));
    let unrelated = health_reply(200, "<html>");
    assert!(matches!(search.after_health(&unrelated), NextProbe::Labels(_)));
    let refused = health_reply(401, grafana_health_body());
    assert!(matches!(search.after_health(&refused), NextProbe::Labels(_)));
    assert!(matches!(search.after_health(&HealthProbe::NoReply), NextProbe::Labels(_)));
}

#[test]
fn neither_grafana_nor_loki_answers() {
    let search = resolve(&bearer_config("http://g/")).unwrap();
    let err = search.after_labels(None).unwrap_err();
    assert!(matches!(&err, BackendError::Unreachable { base } if base == "http://g"));
    assert_eq!(err.message(), "could not connect to Grafana or Loki at http://g");
}

#[test]
fn datasources_that_cannot_be_had() {
    let search = resolve(&bearer_config("http://g")).unwrap();
    let err = search
        .after_datasources(DatasourcesReply::Refused {
            status: "403 Forbidden".into(),
            body: "no".into(),
        })
        .unwrap_err();
    assert!(matches!(err, BackendError::DatasourcesRefused { .. }));
    assert_eq!(err.message(), "Grafana datasources API returned 403 Forbidden: no");

    let search = resolve(&bearer_config("http://g")).unwrap();
    let err = search
        .after_datasources(DatasourcesReply::Failed { detail: "timed out".into() })
        .unwrap_err();
    assert!(matches!(err, BackendError::Fetch { .. }));
    assert_eq!(err.message(), "timed out");

    let search = resolve(&bearer_config("http://g")).unwrap();
    let err = search.after_datasources(DatasourcesReply::Listed(vec![])).unwrap_err();
    assert!(matches!(err, BackendError::NoDatasource { kind: DatasourceKind::Loki }));
    assert_eq!(err.message(), "no Loki datasource found in Grafana");
}

#[test]
fn the_first_datasource_of_the_kind_is_taken() {
    let all = datasources(
        r#"[{"uid":"p1","name":"Main","type":"prometheus"},
            {"uid":"l1","name":"Main","type":"loki"},
            {"uid":"l2","name":"Main","type":"loki"},
            {"uid":"p2","name":"Other","type":"prometheus"}]"#,
    );
    let named = Some("Main".to_string());
    let other = Some("Other".to_string());
    let uid = |kind, name: &Option<String>| select_datasource(&all, kind, name).map(|d| d.uid.clone());
    assert_eq!(uid(DatasourceKind::Loki, &None).unwrap(), "l1");
    assert_eq!(uid(DatasourceKind::Loki, &named).unwrap(), "l1");
    assert_eq!(uid(DatasourceKind::Prometheus, &None).unwrap(), "p1");
    assert_eq!(uid(DatasourceKind::Prometheus, &other).unwrap(), "p2");
    let err = uid(DatasourceKind::Loki, &other).unwrap_err();
    assert_eq!(err.message(), "no Loki datasource named \"Other\" found in Grafana");
}

#[test]
fn prometheus_is_found_under_its_own_name() {
    let prometheus = PrometheusConfig {
        datasource: Some("Metrics".into()),
        target_points: 100,
        max_series: 20,
        min_step_seconds: 15,
    };
    let mut config = bearer_config("http://g/");
    config.datasource = Some("Logs".into());
    let search = resolve_prometheus(&config, &prometheus).unwrap();
    assert_eq!(search.kind, DatasourceKind::Prometheus);
    assert_eq!(search.datasource, Some("Metrics".to_string()));
    let listed = datasources(r#"[{"uid":"m","name":"Metrics","type":"prometheus"}]"#);
    let backend = search.after_datasources(DatasourcesReply::Listed(listed)).unwrap();
    assert_eq!(backend.base_url, "http://g/api/datasources/proxy/uid/m");
    assert!(matches!(backend.auth, Auth::Bearer(t) if t == "test-token"));
}

#[test]
fn only_a_grafana_leads_to_prometheus() {
    let section = || PrometheusConfig {
        datasource: None,
        target_points: 100,
        max_series: 20,
        min_step_seconds: 15,
    };
    let search = resolve_prometheus(&bearer_config("http://g"), &section()).unwrap();
    let healthy = health_reply(200, grafana_health_body());
    assert!(matches!(
        search.after_health(&healthy),
        NextProbe::Datasources(request) if request.url == "http://g/api/datasources"
    ));
    assert!(matches!(search.after_health(&health_reply(404, "")), NextProbe::Nothing));
    assert!(matches!(search.after_health(&HealthProbe::NoReply), NextProbe::Nothing));
    let err = search.after_labels(Some(200)).unwrap_err();
    assert!(matches!(err, BackendError::Unreachable { .. }));
}

#[test]
fn a_missing_name_is_shown_between_quotation_marks() {
    let err = BackendError::NamedDatasourceMissing {
        kind: DatasourceKind::Prometheus,
        name: "a\"b\n".into(),
    };
    assert_eq!(err.message(), "no Prometheus datasource named \"a\\\"b\\n\" found in Grafana");
    assert_eq!(
        missing_datasource_text(DatasourceKind::Loki, "\"x\""),
        "no Loki datasource named \"x\" found in Grafana"
    );
}
