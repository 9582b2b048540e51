use miru::backend::{Auth, ReplyStep};
use miru::loki::{LokiClient, StreamResult};
use miru::map::TextMap;
use miru::prometheus::{
    MetricMeta, PromSeries, PrometheusClient, Reading, Sample, UnixTime,
};
use miru::server::{
    logs_answer, metrics_answer, resolve_time_window, series_answer, services_text,
    time_window_at, ListMetricsParams, MiruServer, QueryLogsParams, QueryMetricsParams,
};
use miru::time::Timestamp;

#[test]
fn time_window_explicit_start_end() {
    let (s, e) = resolve_time_window(
        Some("2026-06-12T10:00:00Z".into()),
        Some("2026-06-12T11:00:00Z".into()),
        None,
    );
    assert_eq!(s, "2026-06-12T10:00:00Z");
    assert_eq!(e, "2026-06-12T11:00:00Z");
}

#[test]
fn time_window_lookback_minutes_width() {
    let (s, e) = resolve_time_window(None, None, Some(30));
    let start = chrono::DateTime::parse_from_rfc3339(&s).unwrap();
    let end = chrono::DateTime::parse_from_rfc3339(&e).unwrap();
    assert_eq!((end - start).num_minutes(), 30);
}

#[test]
fn time_window_defaults_to_30_days_when_unset() {
    let (s, e) = resolve_time_window(None, None, None);
    let start = chrono::DateTime::parse_from_rfc3339(&s).unwrap();
    let end = chrono::DateTime::parse_from_rfc3339(&e).unwrap();
    assert_eq!((end - start).num_days(), 30);
}

fn logs_params(level: Option<&str>) -> QueryLogsParams {
    QueryLogsParams {
        service: "auth".into(),
        lookback_minutes: Some(30),
        start: None,
        end: None,
        limit: None,
        level: level.map(String::from),
        search: None,
        regex: None,
    }
}

fn streams(reply: &serde_json::Value) -> Vec<StreamResult> {
    reply["data"]["result"]
        .as_array()
        .unwrap()
        .iter()
        .map(|stream| StreamResult {
            values: serde_json::from_value(stream["values"].clone()).unwrap(),
        })
        .collect()
}

fn loki_at(base_url: &str, auth: Auth) -> LokiClient {
    LokiClient::new(base_url, auth, "app", None, 200, 1000)
}

#[test]
fn query_logs_returns_empty_message_when_no_results() {
    let miru = MiruServer {
        loki: loki_at("http://127.0.0.1:4000", Auth::Bearer("test".into())),
        prometheus: None,
    };
    let request = miru.query_logs(logs_params(None)).unwrap();
    assert_eq!(request.url, "http://127.0.0.1:4000/loki/api/v1/query_range");
    assert!(matches!(miru.loki.endpoint.on_status(200), ReplyStep::Decode));
    let reply: serde_json::Value = serde_json::from_str(
        r#"{"status":"success","data":{"resultType":"streams","result":[]}}"#,
    )
    .unwrap();
    let result = logs_answer(&streams(&reply));
    assert_eq!(result, "No logs found in this time window.".to_string());
}

#[test]
fn invalid_level_returns_actionable_error_before_any_http() {
    let miru = MiruServer {
        loki: loki_at("http://127.0.0.1:1", Auth::Bearer("test".into())),
        prometheus: None,
    };
    let err = miru.query_logs(logs_params(Some("foo bar"))).unwrap_err();
    assert!(err.contains("invalid level"), "got: {err}");
    assert!(err.contains("error, warn"), "got: {err}");
}

fn unreachable_loki() -> LokiClient {
    loki_at("http://127.0.0.1:1", Auth::Anonymous)
}

fn metrics_params(promql: &str, minutes: u32, instant: bool) -> QueryMetricsParams {
    QueryMetricsParams {
        promql: promql.into(),
        lookback_minutes: Some(minutes),
        start: None,
        end: None,
        step: None,
        instant: Some(instant),
    }
}

#[test]
fn query_metrics_errors_when_prometheus_not_configured() {
    let miru = MiruServer {
        loki: unreachable_loki(),
        prometheus: None,
    };
    let err = miru.query_metrics(metrics_params("up", 30, true)).unwrap_err();
    assert!(err.contains("prometheus is not configured"), "got: {err}");
}

fn sample(secs: i64, value: &str) -> Sample {
    let number: f64 = value.parse().unwrap();
    Sample {
        at: UnixTime { secs, sub_ns: 0, text: secs.to_string() },
        value: value.to_string(),
        reading: Some(Reading { bits: number.to_bits(), text: number.to_string() }),
    }
}

#[test]
fn query_metrics_returns_shaped_series() {
    let prometheus =
        PrometheusClient::new("http://127.0.0.1:4000", Auth::Anonymous, 100, 20, 15);
    let miru = MiruServer {
        loki: unreachable_loki(),
        prometheus: Some(prometheus),
    };
    let request = miru.query_metrics(metrics_params("cpu", 60, false)).unwrap();
    assert_eq!(request.url, "http://127.0.0.1:4000/api/v1/query_range");
    assert_eq!(request.params[3], ("step".to_string(), "36".to_string()));
    let mut metric = TextMap::new();
    metric.insert("__name__".into(), "cpu".into());
    let series = PromSeries {
        metric,
        values: vec![sample(1686000000, "5"), sample(1686000060, "50")],
        mean: "27.5".into(),
        value: None,
    };
    let client = miru.prometheus.as_ref().unwrap();
    let out = series_answer(client, "matrix", &vec![series]);
    assert!(out.contains("max=50"), "got: {out}");
}

const NOW: Timestamp = Timestamp { secs: 1_686_000_000, nanos: 500_000_000 };

#[test]
fn a_window_needs_both_ends() {
    let text = |s: &str| Some(s.to_string());
    let last = "2023-06-05T21:20:00Z".to_string();
    assert_eq!(
        time_window_at(NOW, text("a"), text("b"), Some(5)),
        ("a".to_string(), "b".to_string())
    );
    assert_eq!(
        time_window_at(NOW, text("a"), None, Some(5)),
        ("2023-06-05T21:15:00Z".to_string(), last.clone())
    );
    assert_eq!(
        time_window_at(NOW, None, text("b"), None),
        ("2023-05-06T21:20:00Z".to_string(), last.clone())
    );
    assert_eq!(time_window_at(NOW, None, None, Some(0)), (last.clone(), last.clone()));
    assert_eq!(
        time_window_at(NOW, None, None, Some(4_294_967_295)).0,
        "-6143-04-20T17:05:00Z".to_string()
    );
}

#[test]
fn the_clock_stands_at_the_end_of_a_window() {
    let (_, e) = resolve_time_window(None, None, Some(1));
    let end = chrono::DateTime::parse_from_rfc3339(&e).unwrap().timestamp();
    assert!((chrono::Utc::now().timestamp() - end).abs() < 60);
}

#[test]
fn arguments_reach_loki() {
    let miru = MiruServer { loki: loki_at("http://l/", Auth::Anonymous), prometheus: None };
    let mut p = logs_params(Some("error"));
    p.search = Some("boom".into());
    p.regex = Some(true);
    p.limit = Some(7);
    let request = miru.query_logs_at(p, NOW).unwrap();
    let pairs: Vec<(&str, &str)> =
        request.params.iter().map(|(k, v)| (k.as_str(), v.as_str())).collect();
    assert_eq!(
        pairs,
        vec![
            ("query", "{app=\"auth\"} |~ `(?i)level[=:\"]+\\s*error` |~ \"boom\""),
            ("start", "2023-06-05T20:50:00Z"),
            ("end", "2023-06-05T21:20:00Z"),
            ("limit", "7"),
            ("direction", "backward"),
        ]
    );
    let err = miru.query_logs_at(logs_params(Some("a`b")), NOW).unwrap_err();
    assert_eq!(
        err,
        "invalid level \"a`b\": use a single level name like error, warn, crit, or trace"
    );
    assert_eq!(
        miru.list_services().url,
        "http://l/loki/api/v1/label/app/values"
    );
}

#[test]
fn arguments_reach_prometheus() {
    let miru = MiruServer {
        loki: unreachable_loki(),
        prometheus: Some(PrometheusClient::new("http://p/", Auth::Anonymous, 10, 20, 15)),
    };
    let mut p = metrics_params("up", 60, false);
    let ranged = miru.query_metrics_at(p, NOW).unwrap();
    let pairs: Vec<(&str, &str)> =
        ranged.params.iter().map(|(k, v)| (k.as_str(), v.as_str())).collect();
    assert_eq!(ranged.url, "http://p/api/v1/query_range");
    assert_eq!(
        pairs,
        vec![
            ("query", "up"),
            ("start", "2023-06-05T20:20:00Z"),
            ("end", "2023-06-05T21:20:00Z"),
            ("step", "360"),
        ]
    );
    p = metrics_params("up", 60, true);
    let instant = miru.query_metrics_at(p, NOW).unwrap();
    assert_eq!(instant.url, "http://p/api/v1/query");
    assert_eq!(instant.params[1], ("time".to_string(), "2023-06-05T21:20:00Z".to_string()));
    p = metrics_params("up", 60, true);
    p.instant = None;
    assert_eq!(miru.query_metrics_at(p, NOW).unwrap().url, "http://p/api/v1/query_range");
    assert_eq!(miru.list_metrics().unwrap().url, "http://p/api/v1/metadata");
}

#[test]
fn no_prometheus_no_metrics() {
    let miru = MiruServer { loki: unreachable_loki(), prometheus: None };
    assert_eq!(miru.list_metrics().unwrap_err(), "prometheus is not configured");
    assert_eq!(miru.prometheus_client().unwrap_err(), "prometheus is not configured");
    assert_eq!(
        miru.query_metrics_at(metrics_params("up", 1, false), NOW).unwrap_err(),
        "prometheus is not configured"
    );
}

fn prometheus() -> PrometheusClient {
    PrometheusClient::new("http://p", Auth::Anonymous, 100, 2, 15)
}

#[test]
fn no_lines_give_a_remark() {
    assert_eq!(logs_answer(&vec![]), "No logs found in this time window.");
    assert_eq!(
        logs_answer(&vec![StreamResult { values: vec![] }]),
        "No logs found in this time window."
    );
    let all = ListMetricsParams { filter: None };
    assert_eq!(metrics_answer(&prometheus(), &TextMap::new(), &all), "No metrics found.");
    assert_eq!(series_answer(&prometheus(), "vector", &vec![]), "No data for this query.");
    assert_eq!(series_answer(&prometheus(), "matrix", &vec![]), "No data for this query.");
}

#[test]
fn metrics_are_listed_by_name_under_the_filter() {
    let mut data = TextMap::new();
    for (name, kind) in [("b_total", "counter"), ("A_Total", "gauge"), ("c", "gauge")] {
        let meta = MetricMeta { kind: kind.into(), help: String::new() };
        data.insert(name.to_string(), vec![meta]);
    }
    let answer = |filter: Option<&str>| {
        let p = ListMetricsParams { filter: filter.map(String::from) };
        metrics_answer(&prometheus(), &data, &p)
    };
    assert_eq!(answer(None), "A_Total (gauge)\nb_total (counter)\nc (gauge)");
    assert_eq!(answer(Some("TOTAL")), "A_Total (gauge)\nb_total (counter)");
    assert_eq!(answer(Some("x")), "No metrics found.");
}

#[test]
fn series_are_shown_by_their_type_and_capped() {
    let series = |name: &str| {
        let mut metric = TextMap::new();
        metric.insert("__name__".into(), name.into());
        PromSeries {
            metric,
            values: vec![sample(60, "5")],
            mean: "5".into(),
            value: Some("7".into()),
        }
    };
    let three = || vec![series("a"), series("b"), series("c")];
    let note = "... 1 more series; aggregate in PromQL (e.g. sum by (label)) to narrow";
    assert_eq!(
        series_answer(&prometheus(), "vector", &three()),
        format!("a => 7\nb => 7\n{note}")
    );
    let block = "min=5 avg=5 max=5@1970-01-01T00:01:00Z last=5\n  1970-01-01T00:01:00Z 5";
    assert_eq!(
        series_answer(&prometheus(), "matrix", &three()),
        format!("a {block}\nb {block}\n{note}")
    );
}

#[test]
fn services_are_a_json_array() {
    let services = vec!["auth".to_string(), "a\"b\\\n".to_string()];
    assert_eq!(services_text(&services).unwrap(), r#"["auth","a\"b\\\n"]"#);
    assert_eq!(services_text(&vec![]).unwrap(), "[]");
    let odd = vec!["\u{0}\u{8}\t\u{b}\u{c}\r\u{1f} /\u{7f}é".to_string(), String::new()];
    assert_eq!(
        services_text(&odd).unwrap(),
        "[\"\\u0000\\b\\t\\u000b\\f\\r\\u001f /\u{7f}é\",\"\"]"
    );
}

#[test]
fn the_newest_line_of_all_streams_is_on_top() {
    let reply: serde_json::Value = serde_json::from_str(
        r#"{"status":"success","data":{"resultType":"streams","result":[
            {"stream":{"pod":"a"},"values":[
                ["1686000240000000000","a4"],["1686000120000000000","a2"]]},
            {"stream":{"pod":"b"},"values":[
                ["1686000300000000000","b5"],["1686000180000000000","b3"],
                ["1686000060000000000","b1"]]}
        ]}}"#,
    )
    .unwrap();
    assert_eq!(
        logs_answer(&streams(&reply)),
        "2023-06-05T21:25:00Z | b5\n\
         2023-06-05T21:24:00Z | a4\n\
         2023-06-05T21:23:00Z | b3\n\
         2023-06-05T21:22:00Z | a2\n\
         2023-06-05T21:21:00Z | b1"
    );
}
