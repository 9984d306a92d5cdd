use patchbay::app_state::state::AppState;
use patchbay::config::load::first_run_template;
use patchbay::json::Json;
use patchbay::utils::request_log::{
    active_today, enforce_retention, format_line, format_line_at, is_log_file, is_sensitive_header, log_error,
    log_event, log_file_for, log_request, log_request_at, num_path, redact_body, redact_headers,
    scan_today_numbers, truncate_body, LogFile, MAX_REQUEST_FILES, MAX_REQUEST_FILE_BYTES,
};

fn obj(members: Vec<(&str, Json)>) -> Json {
    let mut j = Json::empty_object();
    for (k, v) in members {
        j = j.with(k, v);
    }
    j
}

fn text(t: &str) -> Json {
    Json::from_text(t)
}

fn header(name: &str, value: &str) -> (String, Option<String>) {
    (name.to_string(), Some(value.to_string()))
}

fn logging(on: bool) -> AppState {
    let mut cfg = first_run_template();
    cfg.request_logging_enabled = on;
    AppState::new(cfg)
}

#[test]
fn sensitive_header_detection_case_insensitive() {
    assert!(is_sensitive_header("Authorization"));
    assert!(is_sensitive_header("AUTHORIZATION"));
    assert!(is_sensitive_header("authorization"));
    assert!(is_sensitive_header("X-Api-Key"));
    assert!(is_sensitive_header("x-api-key"));
    assert!(is_sensitive_header("x-token"));
    assert!(is_sensitive_header("Bearer-Token"));
    assert!(is_sensitive_header("apikey"));
    assert!(!is_sensitive_header("X-Patchbay-Client"));
    assert!(!is_sensitive_header("x-patchbay-client"));
    assert!(!is_sensitive_header("Content-Type"));
    assert!(!is_sensitive_header("Accept"));
    assert!(!is_sensitive_header("Mcp-Session-Id"));
    assert!(is_sensitive_header("Cookie"));
    assert!(is_sensitive_header("cookie"));
    assert!(is_sensitive_header("Set-Cookie"));
    assert!(is_sensitive_header("X-Secret"));
    assert!(is_sensitive_header("Proxy-Authorization"));
    assert!(is_sensitive_header("X-Password"));
}

#[test]
fn redact_body_redacts_nested_sensitive_keys_keeps_others() {
    let body = obj(vec![
        ("name", text("my-jack")),
        (
            "headers",
            obj(vec![("Authorization", text("Bearer secret-token")), ("X-Custom", text("fine"))]),
        ),
        (
            "env",
            obj(vec![
                ("DB_PASSWORD", text("hunter2")),
                ("API_KEY", text("abc123")),
                ("PLAIN", text("visible")),
            ]),
        ),
        (
            "nested",
            obj(vec![(
                "list",
                Json::list_2(obj(vec![("cookie", text("sess=abc"))]), obj(vec![("ok", text("value"))])),
            )]),
        ),
    ]);
    let r = redact_body(&body);
    let member = |a: &str, b: &str| r.get(a).unwrap().text_member(b).unwrap().clone();
    assert_eq!(r.text_member("name").unwrap(), "my-jack", "non-sensitive top-level key untouched");
    assert_eq!(member("headers", "Authorization"), "<redacted>");
    assert_eq!(member("headers", "X-Custom"), "fine");
    assert_eq!(member("env", "DB_PASSWORD"), "<redacted>");
    assert_eq!(member("env", "API_KEY"), "<redacted>");
    assert_eq!(member("env", "PLAIN"), "visible");
    let list = r.get("nested").unwrap().get("list").unwrap().as_array().unwrap();
    assert_eq!(list[0].text_member("cookie").unwrap(), "<redacted>");
    assert_eq!(list[1].text_member("ok").unwrap(), "value");
}

#[test]
fn redact_headers_redacts_values_keeps_keys() {
    let headers = vec![
        header("authorization", "Bearer hunter2"),
        header("x-api-key", "abc123"),
        header("x-patchbay-client", "desk-work"),
        header("content-type", "application/json"),
        ("x-raw".to_string(), None),
    ];
    let pairs = redact_headers(&headers);
    let value = |k: &str| pairs.iter().find(|p| p.0 == k).map(|p| p.1.as_str());
    assert_eq!(value("authorization"), Some("<redacted>"));
    assert_eq!(value("x-api-key"), Some("<redacted>"));
    assert_eq!(value("x-patchbay-client"), Some("desk-work"));
    assert_eq!(value("content-type"), Some("application/json"));
    assert_eq!(value("x-raw"), Some("<binary>"));
}

#[test]
fn truncate_under_300_is_unchanged() {
    assert_eq!(truncate_body("hello"), "hello");
    assert_eq!(truncate_body(""), "");
}

#[test]
fn truncate_exactly_300_has_no_suffix() {
    let s: String = std::iter::repeat('a').take(300).collect();
    let t = truncate_body(&s);
    assert_eq!(t.chars().count(), 300);
    assert_eq!(t, s, "exact-300 must be returned verbatim");
    assert!(!t.contains("... (total"));
}

#[test]
fn truncate_over_300_keeps_first_300_plus_suffix() {
    let s: String = std::iter::repeat('a').take(400).collect();
    let t = truncate_body(&s);
    assert!(t.starts_with(&"a".repeat(300)), "must begin with the first 300 chars");
    assert!(
        t.ends_with("... (total 400 chars)"),
        "must end with the total-count suffix, got: {}",
        t
    );
}

#[test]
fn truncate_is_char_based_not_byte_based() {
    let s: String = std::iter::repeat('\u{1F600}').take(150).collect();
    let t = truncate_body(&s);
    assert_eq!(t, s, "150 chars (450 bytes) must not be truncated");
    assert!(!t.contains("... (total"));
}

#[test]
fn a_request_is_one_line_with_its_secrets_hidden() {
    let st = logging(true);
    let headers = vec![header("accept", "a"), header("cookie", "c")];
    let body = obj(vec![("token", text("t")), ("a", text("x\ny"))]);
    assert_eq!(
        log_request_at(&st, "2026-07-12 10:00:00.000", Some("codex"), "tools/call", &headers, Some(&body)),
        Some(
            "[2026-07-12 10:00:00.000] [REQUEST] client=codex method=tools/call headers=[accept: a; cookie: <redacted>] body={\"a\":\"x\\ny\",\"token\":\"<redacted>\"}"
                .to_string()
        )
    );
    assert_eq!(
        log_request_at(&st, "s", None, "ping", &vec![], None),
        Some("[s] [REQUEST] client=- method=ping headers=[] body=".to_string())
    );
    assert_eq!(log_request(&logging(false), None, "ping", &vec![], None), None);
    assert!(log_request(&st, None, "ping", &vec![], None).unwrap().contains("[REQUEST] client=- method=ping"));
}

#[test]
fn an_event_line_carries_the_local_time() {
    assert_eq!(format_line_at("s", "EVENT", "m"), "[s] [EVENT] m");
    let line = format_line("EVENT", "m");
    // `[YYYY-MM-DD HH:MM:SS.mmm] [EVENT] m`
    assert_eq!(line.len(), "[2026-07-12 10:00:00.000] [EVENT] m".len(), "{}", line);
    assert_eq!(&line[5..6], "-");
    assert_eq!(&line[11..12], " ");
    assert_eq!(&line[20..21], ".");
    assert_eq!(log_event(&logging(false), "m"), None);
    assert!(log_event(&logging(true), "m").unwrap().ends_with("] [EVENT] m"));
    assert_eq!(log_error(&logging(false), "m"), None);
    assert!(log_error(&logging(true), "m").unwrap().ends_with("] [ERROR] m"));
}

#[test]
fn the_file_of_the_day_rolls_when_it_is_full() {
    assert_eq!(num_path("2026-07-12", 1), "2026-07-12.log");
    assert_eq!(num_path("2026-07-12", 3), "2026-07-12_3.log");
    let names: Vec<String> = ["2026-07-12_2.log", "2026-07-12.log", "2026-07-12_x.log", "2026-07-11.log", "2026-07-12_1.log"]
        .iter()
        .map(|n| n.to_string())
        .collect();
    let mut found = scan_today_numbers(&names, "2026-07-12");
    found.sort();
    assert_eq!(found, vec![1, 2]);
    assert_eq!(log_file_for("d", None, 0), "d.log");
    assert_eq!(log_file_for("d", Some(2), MAX_REQUEST_FILE_BYTES - 1), "d_2.log");
    assert_eq!(log_file_for("d", Some(2), MAX_REQUEST_FILE_BYTES), "d_3.log");
    let (day, active) = active_today(&names);
    assert_eq!(day.len(), 10);
    assert_eq!(&day[4..5], "-");
    assert_eq!(active_today(&vec![format!("{}_7.log", day)]).1, Some(7));
    assert!(active.is_none() || day == "2026-07-12");
}

#[test]
fn the_oldest_files_go_first() {
    let file = |i: u64| LogFile { name: format!("f{:02}.log", i), modified: 100 - i };
    let files: Vec<LogFile> = (0..MAX_REQUEST_FILES as u64 + 2).map(file).collect();
    let gone = enforce_retention(&files);
    assert_eq!(gone, vec![file(21), file(20)]);
    assert!(enforce_retention(&files[..MAX_REQUEST_FILES].iter().map(|f| LogFile { name: f.name.clone(), modified: f.modified }).collect()).is_empty());
    assert!(is_log_file("a.log"));
    assert!(!is_log_file(".log"));
    assert!(!is_log_file("a.txt"));
}
