//! Tests of the log of requests to providers.

use ai_proxy::json::parse_json;
use ai_proxy::request_log::{
    cost_columns, cost_columns_of, incomplete_stream, kept_entry, PendingLog, INSERT, INSERT_WINDOW,
    SCHEMA,
};
use std::time::Instant;

fn pending() -> PendingLog {
    PendingLog {
        ts: "2026-01-01T00:00:00.000Z".into(),
        account_id: "a".into(),
        provider: "chatgpt".into(),
        kind: "models".into(),
        method: "GET".into(),
        url: "https://example.com/models".into(),
        request_body: None,
        start: Instant::now(),
    }
}

#[test]
fn schema_creates_table_in_memory() {
    let conn = rusqlite::Connection::open_in_memory().unwrap();
    conn.execute_batch(SCHEMA).unwrap();
    let count: i64 = conn
        .query_row("SELECT COUNT(*) FROM upstream_requests", [], |row| row.get(0))
        .unwrap();
    assert_eq!(count, 0);
}

#[test]
fn pending_complete_computes_duration() {
    let entry = pending().complete(Some(200), Some("{}".into()), None);
    assert_eq!(entry.response_status, Some(200));
    assert!(entry.duration_ms >= 0);
}

#[test]
fn a_record_holds_what_was_sent_and_answered() {
    let mut sent = pending();
    sent.request_body = Some("q".to_owned());
    let entry = sent.complete_after(1_999_999, None, Some("r".to_owned()), Some("e".to_owned()));
    assert_eq!(entry.duration_ms, 1);
    assert_eq!(entry.response_status, None);
    assert_eq!(entry.ts, "2026-01-01T00:00:00.000Z");
    assert_eq!((entry.account_id.as_str(), entry.provider.as_str()), ("a", "chatgpt"));
    assert_eq!((entry.kind.as_str(), entry.method.as_str()), ("models", "GET"));
    assert_eq!(entry.url, "https://example.com/models");
    assert_eq!(entry.error.as_deref(), Some("e"));
    let kept = kept_entry(entry, true);
    assert_eq!(kept.request_body.as_deref(), Some("q"));
    assert_eq!(kept.response_body.as_deref(), Some("r"));
    let kept = kept_entry(kept, false);
    assert_eq!((kept.request_body, kept.response_body), (None, None));
    assert_eq!(kept.duration_ms, 1);
    assert_eq!(pending().complete_after(u128::MAX, None, None, None).duration_ms, i64::MAX);
}

#[test]
fn answers_that_do_not_end_are_noted() {
    assert_eq!(incomplete_stream("reset"), "incomplete_stream: reset");
}

#[test]
fn the_cost_is_read_from_the_bodies() {
    let cost = cost_columns(
        Some("{\"model\":\"m\",\"reasoning\":{\"effort\":\"low\"}}"),
        Some("event: response.completed\ndata: {\"response\":{\"usage\":{\"input_tokens\":1,\"output_tokens\":2,\"total_tokens\":3,\"input_tokens_details\":{\"cached_tokens\":4},\"output_tokens_details\":{\"reasoning_tokens\":5}}}}\n\n"),
    );
    assert_eq!((cost.model.as_deref(), cost.reasoning_effort.as_deref()), (Some("m"), Some("low")));
    assert_eq!((cost.input_tokens, cost.output_tokens, cost.total_tokens), (Some(1), Some(2), Some(3)));
    assert_eq!((cost.cached_tokens, cost.reasoning_tokens), (Some(4), Some(5)));
    let cost = cost_columns(Some("no document"), Some("{\"models\":[]}"));
    assert_eq!((cost.model, cost.total_tokens), (None, None));
    let cost = cost_columns(None, None);
    assert_eq!((cost.reasoning_effort, cost.input_tokens), (None, None));
    let document = parse_json("{\"model\":\"m\"}").unwrap();
    let payload = parse_json("{\"response\":{\"usage\":{\"total_tokens\":9}}}").unwrap();
    let cost = cost_columns_of(Some(&document), &vec![("response.completed".to_owned(), payload)]);
    assert_eq!((cost.model.as_deref(), cost.total_tokens), (Some("m"), Some(9)));
}

#[test]
fn records_fit_the_tables() {
    let conn = rusqlite::Connection::open_in_memory().unwrap();
    conn.execute_batch(SCHEMA).unwrap();
    let texts: Vec<String> = (1..19).map(|n: i64| n.to_string()).collect();
    let added = conn.execute(INSERT, rusqlite::params_from_iter(texts.iter())).unwrap();
    assert_eq!(added, 1);
    let windows: Vec<String> = (1..9).map(|n: i64| n.to_string()).collect();
    conn.execute(INSERT_WINDOW, rusqlite::params_from_iter(windows.iter())).unwrap();
    let row: (String, i64) = conn
        .query_row(
            "SELECT error, reasoning_tokens FROM upstream_requests JOIN usage_windows ON request_id = upstream_requests.id",
            [],
            |row| Ok((row.get(0)?, row.get(1)?)),
        )
        .unwrap();
    assert_eq!(row, ("11".to_owned(), 18));
}
