use miru::backend::{Auth, ReplyStep};
use miru::map::TextMap;
use miru::prometheus::query::MetricRequest;
use miru::prometheus::{
    format_metric, format_selector, format_unix_ts, keeps_metric, over_cap_note, point_text,
    rank_of_bits, shape_matrix, shape_vector, summarize, summary_text, MetricMeta, PromSeries,
    PrometheusClient, Reading, Sample, UnixTime,
};

const SERVER: &str = "http://127.0.0.1:4000";

fn n(x: f64) -> String {
    let r = (x * 1000.0).round() / 1000.0;
    format!("{r}")
}

fn unix_time(ts: f64) -> UnixTime {
    UnixTime {
        secs: ts.trunc() as i64,
        sub_ns: (ts.fract().abs() * 1e9) as u32,
        text: ts.to_string(),
    }
}

fn sample(ts: f64, value: &str) -> Sample {
    Sample {
        at: unix_time(ts),
        value: value.to_string(),
        reading: value.parse::<f64>().ok().map(|x| Reading { bits: x.to_bits(), text: n(x) }),
    }
}

fn mean(points: &[(f64, &str)]) -> String {
    let numbers: Vec<f64> = points.iter().filter_map(|(_, v)| v.parse::<f64>().ok()).collect();
    n(numbers.iter().sum::<f64>() / numbers.len() as f64)
}

fn series(metric: TextMap<String>, points: &[(f64, &str)], value: Option<&str>) -> PromSeries {
    PromSeries {
        metric,
        values: points.iter().map(|(t, v)| sample(*t, v)).collect(),
        mean: mean(points),
        value: value.map(String::from),
    }
}

fn labels(pairs: &[(&str, &str)]) -> TextMap<String> {
    let mut metric = TextMap::new();
    for (k, v) in pairs {
        metric.insert(k.to_string(), v.to_string());
    }
    metric
}

fn matrix_series(name: &str, instance: &str, points: &[(f64, &str)]) -> PromSeries {
    series(labels(&[("__name__", name), ("instance", instance)]), points, None)
}

/// The type and the series of a reply of Prometheus.
fn decoded(body: &str) -> (String, Vec<PromSeries>) {
    let reply: serde_json::Value = serde_json::from_str(body).unwrap();
    let data = &reply["data"];
    let result = data["result"]
        .as_array()
        .unwrap()
        .iter()
        .map(|s| {
            let mut metric = TextMap::new();
            for (k, v) in s["metric"].as_object().unwrap() {
                metric.insert(k.clone(), v.as_str().unwrap().to_string());
            }
            let points: Vec<(f64, String)> = match s.get("values") {
                Some(values) => serde_json::from_value(values.clone()).unwrap(),
                None => vec![],
            };
            let points: Vec<(f64, &str)> = points.iter().map(|(t, v)| (*t, v.as_str())).collect();
            let value: Option<(f64, String)> =
                s.get("value").map(|v| serde_json::from_value(v.clone()).unwrap());
            series(metric, &points, value.as_ref().map(|(_, v)| v.as_str()))
        })
        .collect();
    (data["resultType"].as_str().unwrap().to_string(), result)
}

#[test]
fn selector_includes_name_and_labels() {
    let mut metric = TextMap::new();
    metric.insert("__name__".into(), "cpu".into());
    metric.insert("instance".into(), "web-1".into());
    assert_eq!(format_selector(&metric), r#"cpu{instance="web-1"}"#);
}

#[test]
fn selector_without_labels_is_just_the_name() {
    let mut metric = TextMap::new();
    metric.insert("__name__".into(), "cpu".into());
    assert_eq!(format_selector(&metric), "cpu");
}

#[test]
fn matrix_block_has_summary_and_points() {
    let series = matrix_series(
        "cpu",
        "web-1",
        &[
            (1686000000.0, "12"),
            (1686000060.0, "88"),
            (1686000120.0, "20"),
        ],
    );
    let out = shape_matrix(&vec![series], 20);
    assert_eq!(out.len(), 1);
    let block = &out[0];
    assert!(block.contains(r#"cpu{instance="web-1"}"#), "got: {block}");
    assert!(block.contains("min=12"), "got: {block}");
    assert!(
        block.contains("max=88@2023-06-05T21:21:00Z"),
        "got: {block}"
    );
    assert!(block.contains("avg=40"), "got: {block}");
    assert!(block.contains("last=20"), "got: {block}");
    assert!(
        block.contains("\n  2023-06-05T21:20:00Z 12"),
        "got: {block}"
    );
}

#[test]
fn matrix_caps_series_with_note() {
    let series: Vec<PromSeries> = (0..3)
        .map(|i| matrix_series("cpu", &format!("web-{i}"), &[(1686000000.0, "1")]))
        .collect();
    let out = shape_matrix(&series, 2);
    assert_eq!(out.len(), 3);
    assert!(out[2].contains("1 more series"), "got: {}", out[2]);
}

#[test]
fn vector_renders_label_to_value() {
    let mut metric = TextMap::new();
    metric.insert("__name__".into(), "up".into());
    metric.insert("instance".into(), "web-1".into());
    let series = PromSeries {
        metric,
        values: vec![],
        mean: String::new(),
        value: Some("1".into()),
    };
    let out = shape_vector(&vec![series], 20);
    assert_eq!(out, vec![r#"up{instance="web-1"} => 1"#.to_string()]);
}

#[test]
fn metric_with_help_is_enriched() {
    let meta = MetricMeta {
        kind: "counter".into(),
        help: "Total HTTP requests".into(),
    };
    assert_eq!(
        format_metric("http_requests_total", Some(&meta)),
        "http_requests_total (counter) Total HTTP requests"
    );
}

#[test]
fn metric_without_help_shows_type_only() {
    let meta = MetricMeta {
        kind: "gauge".into(),
        help: String::new(),
    };
    assert_eq!(format_metric("in_flight", Some(&meta)), "in_flight (gauge)");
}

fn make_client(base_url: &str) -> PrometheusClient {
    PrometheusClient::new(base_url, Auth::Bearer("test".into()), 100, 20, 15)
}

#[test]
fn query_metrics_range_returns_shaped_matrix() {
    let client = make_client(SERVER);
    let req = MetricRequest {
        promql: "cpu".into(),
        start: "2026-06-12T13:00:00Z".into(),
        end: "2026-06-12T14:00:00Z".into(),
        step: None,
        instant: false,
    };
    let request = client.query_metrics(&req);
    assert_eq!(request.url, format!("{SERVER}/api/v1/query_range"));
    assert!(matches!(client.endpoint.on_status(200), ReplyStep::Decode));
    let (result_type, result) = decoded(
        r#"{"status":"success","data":{"resultType":"matrix","result":[
            {"metric":{"__name__":"cpu","instance":"web-1"},
             "values":[[1686000000,"12"],[1686000060,"88"]]}
        ]}}"#,
    );
    let out = client.shaped(&result_type, &result);
    assert_eq!(out.len(), 1);
    assert!(out[0].contains("max=88"), "got: {}", out[0]);
}

fn metadata(body: &str) -> TextMap<Vec<MetricMeta>> {
    let reply: serde_json::Value = serde_json::from_str(body).unwrap();
    let mut data = TextMap::new();
    for (name, metas) in reply["data"].as_object().unwrap() {
        let metas = metas
            .as_array()
            .unwrap()
            .iter()
            .map(|m| MetricMeta {
                kind: m["type"].as_str().unwrap().to_string(),
                help: m["help"].as_str().unwrap_or("").to_string(),
            })
            .collect();
        data.insert(name.clone(), metas);
    }
    data
}

#[test]
fn list_metrics_filters_and_enriches() {
    let client = make_client(SERVER);
    let request = client.list_metrics();
    assert_eq!(request.url, format!("{SERVER}/api/v1/metadata"));
    assert!(request.params.is_empty());
    let data = metadata(
        r#"{"status":"success","data":{
            "http_requests_total":[{"type":"counter","help":"Total HTTP requests"}],
            "node_cpu_seconds":[{"type":"counter","help":"CPU seconds"}]
        }}"#,
    );
    let out = client.listed_metrics(&data, Some("http"));
    assert_eq!(
        out,
        vec!["http_requests_total (counter) Total HTTP requests".to_string()]
    );
}

#[test]
fn query_metrics_instant_returns_shaped_vector() {
    let client = make_client(SERVER);
    let req = MetricRequest {
        promql: "up".into(),
        start: "2026-06-12T13:00:00Z".into(),
        end: "2026-06-12T14:00:00Z".into(),
        step: None,
        instant: true,
    };
    let request = client.query_metrics(&req);
    assert_eq!(request.url, format!("{SERVER}/api/v1/query"));
    let (result_type, result) = decoded(
        r#"{"status":"success","data":{"resultType":"vector","result":[
            {"metric":{"__name__":"up","instance":"web-1"},"value":[1686000000,"1"]}
        ]}}"#,
    );
    let out = client.shaped(&result_type, &result);
    assert_eq!(out, vec![r#"up{instance="web-1"} => 1"#.to_string()]);
}

#[test]
fn a_block_is_exactly_its_parts() {
    let one = matrix_series("cpu", "web-1", &[(1686000000.0, "12"), (1686000060.25, "x"), (1686000120.0, "-0.5")]);
    assert_eq!(
        shape_matrix(&vec![one], 20),
        vec![
            "cpu{instance=\"web-1\"} min=-0.5 avg=5.75 max=12@2023-06-05T21:20:00Z last=-0.5\
             \n  2023-06-05T21:20:00Z 12\n  2023-06-05T21:21:00Z x\n  2023-06-05T21:22:00Z -0.5"
        ]
    );
}

#[test]
fn a_series_without_numbers_has_no_summary() {
    let points = [(1686000000.0, "x"), (1686000060.0, "")];
    let values: Vec<Sample> = points.iter().map(|(t, v)| sample(*t, v)).collect();
    assert_eq!(summarize(&values, "ignored"), None);
    assert_eq!(summarize(&vec![], "ignored"), None);
    let bare = series(labels(&[("__name__", "cpu")]), &points, None);
    assert_eq!(
        shape_matrix(&vec![bare], 1),
        vec!["cpu\n  2023-06-05T21:20:00Z x\n  2023-06-05T21:21:00Z "]
    );
}

#[test]
fn the_first_of_equal_extremes_is_shown() {
    let values: Vec<Sample> = [(0.0, "5"), (60.0, "9"), (120.0, "9"), (180.0, "5")]
        .iter()
        .map(|(t, v)| sample(*t, v))
        .collect();
    assert_eq!(
        summarize(&values, "7").unwrap(),
        "min=5 avg=7 max=9@1970-01-01T00:01:00Z last=5"
    );
    let zeros: Vec<Sample> = [(0.0, "-0"), (60.0, "0")].iter().map(|(t, v)| sample(*t, v)).collect();
    assert_eq!(
        summarize(&zeros, "0").unwrap(),
        "min=-0 avg=0 max=-0@1970-01-01T00:00:00Z last=0"
    );
}

#[test]
fn what_is_no_number_compares_with_nothing() {
    let first: Vec<Sample> =
        [(0.0, "NaN"), (60.0, "3")].iter().map(|(t, v)| sample(*t, v)).collect();
    assert_eq!(
        summarize(&first, "NaN").unwrap(),
        "min=NaN avg=NaN max=NaN@1970-01-01T00:00:00Z last=3"
    );
    let later: Vec<Sample> = [(0.0, "3"), (60.0, "NaN"), (120.0, "+Inf"), (180.0, "-Inf")]
        .iter()
        .map(|(t, v)| sample(*t, v))
        .collect();
    assert_eq!(
        summarize(&later, "NaN").unwrap(),
        "min=-inf avg=NaN max=inf@1970-01-01T00:02:00Z last=-inf"
    );
}

#[test]
fn ranks_order_as_the_numbers_do() {
    let numbers = [
        f64::NEG_INFINITY,
        f64::MIN,
        -1.5,
        -1.0,
        -f64::MIN_POSITIVE,
        -5e-324,
        -0.0,
        0.0,
        5e-324,
        f64::MIN_POSITIVE,
        0.1,
        1.0,
        1.5,
        f64::MAX,
        f64::INFINITY,
        f64::NAN,
        -f64::NAN,
    ];
    for a in numbers {
        for b in numbers {
            let below = match (rank_of_bits(a.to_bits()), rank_of_bits(b.to_bits())) {
                (Some(x), Some(y)) => x < y,
                _ => false,
            };
            assert_eq!(below, a < b, "{a} {b}");
        }
    }
    assert_eq!(rank_of_bits(f64::NAN.to_bits()), None);
    assert_eq!(rank_of_bits(0), Some(0));
    assert_eq!(rank_of_bits((-0.0f64).to_bits()), Some(0));
}

#[test]
fn times_of_points() {
    assert_eq!(format_unix_ts(&unix_time(1686000000.75)), "2023-06-05T21:20:00Z");
    assert_eq!(format_unix_ts(&unix_time(-1.5)), "1969-12-31T23:59:59Z");
    assert_eq!(format_unix_ts(&unix_time(1e15)), "1000000000000000");
    assert_eq!(format_unix_ts(&unix_time(f64::NAN)), "1970-01-01T00:00:00Z");
    let odd = UnixTime { secs: 0, sub_ns: 1_000_000_000, text: "odd".into() };
    assert_eq!(format_unix_ts(&odd), "odd");
}

#[test]
fn selectors_in_the_order_of_their_labels() {
    assert_eq!(
        format_selector(&labels(&[("zone", "z"), ("app", "a\"b"), ("__name__", "up"), ("Job", "j")])),
        "up{Job=\"j\", app=\"a\"b\", zone=\"z\"}"
    );
    assert_eq!(format_selector(&labels(&[("app", "a")])), "{app=\"a\"}");
    assert_eq!(format_selector(&labels(&[])), "");
}

#[test]
fn vectors_are_capped_too() {
    let one = |i: usize| series(labels(&[("__name__", "up")]), &[], if i == 0 { None } else { Some("1") });
    let all: Vec<PromSeries> = (0..4).map(one).collect();
    assert_eq!(
        shape_vector(&all, 2),
        vec![
            "up => ",
            "up => 1",
            "... 2 more series; aggregate in PromQL (e.g. sum by (label)) to narrow",
        ]
    );
    assert_eq!(shape_vector(&all, 4).len(), 4);
    assert_eq!(shape_vector(&all, 0).len(), 1);
    assert!(shape_vector(&vec![], 0).is_empty());
}

#[test]
fn texts_of_parts() {
    assert_eq!(
        over_cap_note(120, 20),
        "... 100 more series; aggregate in PromQL (e.g. sum by (label)) to narrow"
    );
    assert_eq!(summary_text("a", "b", "c", "d", "e"), "min=a avg=b max=c@d last=e");
    assert_eq!(point_text("t", "v"), "\n  t v");
    assert_eq!(format_metric("x", None), "x");
}

#[test]
fn filters_ignore_case() {
    let client = make_client("http://p/");
    let data = metadata(
        r#"{"data":{"Node_CPU":[{"type":"gauge"}],"http":[],"ÄRGER":[{"type":"a","help":"b"},{"type":"c"}]}}"#,
    );
    assert_eq!(client.listed_metrics(&data, Some("cpu")), vec!["Node_CPU (gauge)"]);
    assert_eq!(client.listed_metrics(&data, Some("CPU")), vec!["Node_CPU (gauge)"]);
    assert_eq!(client.listed_metrics(&data, Some("ärg")), vec!["ÄRGER (a) b"]);
    assert!(client.listed_metrics(&data, Some("nothing")).is_empty());
    assert_eq!(
        client.listed_metrics(&data, None),
        vec!["Node_CPU (gauge)", "http", "ÄRGER (a) b"]
    );
    assert_eq!(client.listed_metrics(&data, Some("")).len(), 3);
    assert!(keeps_metric("abc", &Some("bc".into())));
    assert!(!keeps_metric("abc", &Some("ca".into())));
    assert!(keeps_metric("abc", &None));
}

#[test]
fn a_vector_is_told_by_its_type() {
    let client = PrometheusClient::new("http://p", Auth::Anonymous, 100, 1, 15);
    let (_, result) = decoded(
        r#"{"data":{"resultType":"vector","result":[{"metric":{},"values":[[0,"1"]],"value":[0,"2"]}]}}"#,
    );
    assert_eq!(client.shaped("vector", &result), vec![" => 2"]);
    assert_eq!(
        client.shaped("scalar", &result),
        vec![" min=1 avg=1 max=1@1970-01-01T00:00:00Z last=1\n  1970-01-01T00:00:00Z 1"]
    );
}
