use miru::backend::{Auth, Credential, ReplyStep};
use miru::loki::query::LogRequest;
use miru::loki::{
    format_ns_timestamp, log_line, log_lines, newest_lines, LokiClient, StreamResult,
};
use miru::time::Timestamp;

const SERVER: &str = "http://127.0.0.1:4000";

fn make_client(base_url: &str) -> LokiClient {
    LokiClient::new(
        base_url,
        Auth::Bearer("test-api-key".into()),
        "app",
        None,
        200,
        1000,
    )
}

fn request(start: &str, end: &str) -> LogRequest {
    LogRequest {
        service: "auth".into(),
        start: start.into(),
        end: end.into(),
        level: None,
        search: None,
        search_is_regex: false,
        limit: Some(50),
    }
}

fn streams(body: &str) -> Vec<StreamResult> {
    let reply: serde_json::Value = serde_json::from_str(body).unwrap();
    reply["data"]["result"]
        .as_array()
        .unwrap()
        .iter()
        .map(|stream| StreamResult {
            values: serde_json::from_value(stream["values"].clone()).unwrap(),
        })
        .collect()
}

#[test]
fn list_services_returns_data_array() {
    let client = make_client(SERVER);
    let request = client.list_services();
    assert_eq!(request.url, format!("{SERVER}/loki/api/v1/label/app/values"));
    assert!(matches!(
        &request.credentials[..],
        [Credential::Bearer { token }] if token == "test-api-key"
    ));
    assert!(matches!(client.endpoint.on_status(200), ReplyStep::Decode));
    let reply: serde_json::Value =
        serde_json::from_str(r#"{"status":"success","data":["auth","api-gateway","db-proxy"]}"#)
            .unwrap();
    let services: Vec<String> = serde_json::from_value(reply["data"].clone()).unwrap();
    assert_eq!(services, vec!["auth", "api-gateway", "db-proxy"]);
}

#[test]
fn query_logs_returns_log_lines() {
    let client = make_client(SERVER);
    let request = client
        .query_logs(request("2026-06-12T13:00:00Z", "2026-06-12T14:00:00Z"))
        .unwrap();
    assert_eq!(request.url, format!("{SERVER}/loki/api/v1/query_range"));
    assert!(matches!(client.endpoint.on_status(200), ReplyStep::Decode));
    let lines = log_lines(&streams(
        r#"{
            "status": "success",
            "data": {
                "resultType": "streams",
                "result": [
                    {
                        "stream": {"app": "auth"},
                        "values": [
                            ["1686000000000000000", "user login failed"],
                            ["1686000060000000000", "invalid token"]
                        ]
                    }
                ]
            }
        }"#,
    ));
    assert_eq!(
        lines,
        vec![
            "2023-06-05T21:20:00Z | user login failed",
            "2023-06-05T21:21:00Z | invalid token",
        ]
    );
}

#[test]
fn format_ns_timestamp_formats_correctly() {
    // 1686000000000000000 ns = 2023-06-05T21:20:00Z
    assert_eq!(
        format_ns_timestamp("1686000000000000000"),
        "2023-06-05T21:20:00Z"
    );
}

#[test]
fn http_400_includes_response_body() {
    let client = make_client(SERVER);
    let request = client
        .query_logs(request("2026-01-01T00:00:00Z", "2026-06-14T00:00:00Z"))
        .unwrap();
    assert_eq!(request.url, format!("{SERVER}/loki/api/v1/query_range"));
    assert!(matches!(client.endpoint.on_status(400), ReplyStep::ReadBody));
    let err = client
        .endpoint
        .on_error_body(400, "query time range exceeds limit (5040h > 720h)");
    assert!(err.contains("400"), "got: {err}");
    assert!(err.contains("query time range exceeds limit"), "got: {err}");
}

#[test]
fn http_401_returns_friendly_message() {
    let client = make_client(SERVER);
    let request = client.list_services();
    assert_eq!(request.url, format!("{SERVER}/loki/api/v1/label/app/values"));
    let err = match client.endpoint.on_status(401) {
        ReplyStep::Fail(message) => message,
        other => panic!("got: {other:?}"),
    };
    assert!(err.contains("authentication failed"), "got: {err}");
}

#[test]
fn times_that_are_no_numbers_stay() {
    assert_eq!(format_ns_timestamp(""), "");
    assert_eq!(format_ns_timestamp("soon"), "soon");
    assert_eq!(format_ns_timestamp("1.5"), "1.5");
    assert_eq!(format_ns_timestamp("9223372036854775808"), "9223372036854775808");
}

#[test]
fn times_at_the_edges() {
    assert_eq!(format_ns_timestamp("0"), "1970-01-01T00:00:00Z");
    assert_eq!(format_ns_timestamp("+999999999"), "1970-01-01T00:00:00Z");
    assert_eq!(format_ns_timestamp("-999999999"), "1970-01-01T00:00:00Z");
    assert_eq!(format_ns_timestamp("-1000000000"), "1969-12-31T23:59:59Z");
    assert_eq!(format_ns_timestamp("9223372036854775807"), "2262-04-11T23:47:16Z");
    assert_eq!(format_ns_timestamp("-9223372036854775808"), "1677-09-21T00:12:44Z");
}

#[test]
fn a_shown_time_reads_back_as_its_second() {
    let shown = format_ns_timestamp("1686000059123456789");
    let back = chrono::DateTime::parse_from_rfc3339(&shown).unwrap();
    assert_eq!(back.timestamp(), 1686000059);
}

fn stream(items: &[(&str, &str)]) -> StreamResult {
    StreamResult {
        values: items.iter().map(|(t, l)| (t.to_string(), l.to_string())).collect(),
    }
}

#[test]
fn a_newer_stream_behind_an_older_one_comes_first() {
    let older = stream(&[("1000000000", "old")]);
    let newer = stream(&[("2000000000", "new")]);
    let lines = newest_lines(&vec![older, newer]);
    assert_eq!(lines, vec!["1970-01-01T00:00:02Z | new", "1970-01-01T00:00:01Z | old"]);
}

#[test]
fn lines_of_one_time_stay_in_the_order_of_the_reply() {
    let lines = newest_lines(&vec![
        stream(&[("5", "a"), ("x", "no time"), ("5", "b")]),
        stream(&[("5", "c"), ("6", "d"), ("", "none"), ("-1", "e"), ("05", "f")]),
    ]);
    let texts: Vec<&str> = lines.iter().map(|l| l.split_once(" | ").unwrap().1).collect();
    assert_eq!(texts, vec!["d", "a", "b", "c", "f", "e", "no time", "none"]);
}

#[test]
fn a_stream_that_is_newest_first_stays() {
    let values = [("3000000000", "c"), ("2000000000", "b"), ("2000000000", "b"), ("1", "a")];
    assert_eq!(newest_lines(&vec![stream(&values)]), log_lines(&vec![stream(&values)]));
    assert!(newest_lines(&vec![]).is_empty());
}

#[test]
fn no_line_is_lost_and_none_is_older_than_the_next() {
    let mut seed: u64 = 7;
    let mut next = || {
        seed = seed.wrapping_mul(6364136223846793005).wrapping_add(1442695040888963407);
        (seed >> 33) % 50
    };
    let streams: Vec<StreamResult> = (0..8)
        .map(|s| StreamResult {
            values: (0..40).map(|k| (format!("{}000000000", next()), format!("{s}-{k}"))).collect(),
        })
        .collect();
    let newest = newest_lines(&streams);
    assert!(newest.windows(2).all(|w| w[0][..20] >= w[1][..20]));
    let mut sorted = newest.clone();
    let mut all = log_lines(&streams);
    sorted.sort();
    all.sort();
    assert_eq!(sorted, all);
}

#[test]
fn lines_of_all_streams_in_their_order() {
    let first = [("2000000000", "b"), ("1000000000", "a")];
    let second = [("x", "c")];
    assert_eq!(
        log_lines(&vec![stream(&first), stream(&[]), stream(&second)]),
        vec!["1970-01-01T00:00:02Z | b", "1970-01-01T00:00:01Z | a", "x | c"]
    );
    assert!(log_lines(&vec![]).is_empty());
    assert_eq!(log_line("t", "l"), "t | l");
}

#[test]
fn services_of_the_last_thirty_days() {
    let client = make_client("http://loki/");
    let request = client.list_services_at(Timestamp { secs: 1_686_000_000, nanos: 5 });
    assert_eq!(request.url, "http://loki/loki/api/v1/label/app/values");
    assert_eq!(
        request.params,
        vec![
            ("start".to_string(), "1683408000000000005".to_string()),
            ("end".to_string(), "1686000000000000005".to_string()),
        ]
    );
}

#[test]
fn services_before_the_epoch_and_beyond_64_bits() {
    let client = make_client("http://loki");
    let start = client.list_services_at(Timestamp { secs: 0, nanos: 7 });
    assert_eq!(start.params[0].1, "-2591999999999993");
    assert_eq!(start.params[1].1, "7");
    let late = client.list_services_at(Timestamp { secs: 9_223_372_037, nanos: 0 });
    assert_eq!(late.params[0].1, "9220780037000000000");
    assert_eq!(late.params[1].1, "0");
}

#[test]
fn the_clock_gives_a_month() {
    let request = make_client("http://loki").list_services();
    let ns = |i: usize| request.params[i].1.parse::<i64>().unwrap();
    assert_eq!(ns(1) - ns(0), 30 * 86_400 * 1_000_000_000);
    let now = chrono::Utc::now().timestamp_nanos_opt().unwrap();
    assert!((now - ns(1)).abs() < 60 * 1_000_000_000);
}

#[test]
fn a_log_request_becomes_a_query() {
    let client = LokiClient::new("http://loki", Auth::Anonymous, "job", Some("level"), 200, 1000);
    let mut asked = request("s", "e");
    asked.level = Some("warn".into());
    asked.search = Some("a\"b".into());
    asked.limit = None;
    let sent = client.query_logs(asked).unwrap();
    let pairs: Vec<(&str, &str)> =
        sent.params.iter().map(|(k, v)| (k.as_str(), v.as_str())).collect();
    assert_eq!(
        pairs,
        vec![
            ("query", r#"{job="auth", level="warn"} |= "a\"b""#),
            ("start", "s"),
            ("end", "e"),
            ("limit", "200"),
            ("direction", "backward"),
        ]
    );
    assert!(sent.credentials.is_empty());
}

#[test]
fn the_cap_holds_whatever_is_asked() {
    let limit = |asked: Option<u32>, default: u32| {
        let client = LokiClient::new("http://loki", Auth::Anonymous, "job", None, default, 1000);
        let mut request = request("s", "e");
        request.limit = asked;
        client.query_logs(request).unwrap().params[3].1.clone()
    };
    assert_eq!(limit(Some(4_294_967_295), 200), "1000");
    assert_eq!(limit(Some(1000), 200), "1000");
    assert_eq!(limit(Some(0), 200), "0");
    assert_eq!(limit(None, 5000), "1000");
}
