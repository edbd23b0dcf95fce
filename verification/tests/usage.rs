//! Tests of usage: windows, snapshots and the check that keeps windows going.

use ai_proxy::config::{ApiConfig, Config, OauthConfig, PortRange, Provider};
use ai_proxy::errors::AppError;
use ai_proxy::json::{parse_json, print_json, Json};
use ai_proxy::keep_alive::{
    begin_check, checked_accounts, current_windows, keep_alive_outcome, keep_alive_outcome_of, keep_alive_record,
    keep_alive_request, keep_alive_status, reset_detected, window_states, CheckMemory, CheckResult,
    CheckStep, StateDraft, WindowState, MODEL,
};
use ai_proxy::model::{Account, Database, UsageSnapshot};
use ai_proxy::sse::SseEvent;
use ai_proxy::usage::{
    assemble_windows, never_read, plan_type, read_windows, refreshed, usage_label, usage_reply,
    usage_reply_with, usage_request, usage_snapshot_for_account, window_sources, LengthSource,
    Readable, ResetSource, ShareSource, UsageRefreshState, WindowDraft, WindowNumbers,
};

fn doc(text: &str) -> Json {
    parse_json(text).unwrap()
}

/// An integer that orders numbers as they are ordered.
fn rank(number: f64) -> i64 {
    let bits = number.to_bits() as i64;
    if bits < 0 {
        i64::MIN.wrapping_sub(bits)
    } else {
        bits
    }
}

fn state_of(draft: StateDraft) -> WindowState {
    let number = |json: Option<Json>| json.and_then(|json| json.to_value().as_f64());
    let remaining = number(draft.remaining).unwrap_or(0.0);
    WindowState {
        id: draft.id,
        reset_at: number(draft.resets_at).map(|value| value.round() as i64),
        remaining: rank(remaining),
        allowance: rank(remaining + 0.01),
    }
}

fn states(windows: Vec<Json>) -> Vec<WindowState> {
    window_states(&windows).into_iter().map(state_of).collect()
}

#[test]
fn normal_usage_does_not_look_like_a_reset() {
    let previous = states(vec![doc(
        "{\"id\":\"codex:primary:0\", \"limitId\":\"codex\", \"label\":\"5-hour window\", \"remainingPercent\":80, \"resetsAt\":2000}",
    )]);
    let current = states(vec![doc(
        "{\"id\":\"codex:primary:0\", \"limitId\":\"codex\", \"label\":\"5-hour window\", \"remainingPercent\":60, \"resetsAt\":2000}",
    )]);
    assert!(!reset_detected(&previous, &current, 1000));
}

#[test]
fn changed_or_expired_window_looks_like_a_reset() {
    let previous = states(vec![doc(
        "{\"id\":\"codex:primary:0\", \"limitId\":\"codex\", \"label\":\"5-hour window\", \"remainingPercent\":50, \"resetsAt\":1000}",
    )]);
    let changed = states(vec![doc(
        "{\"id\":\"codex:primary:0\", \"limitId\":\"codex\", \"label\":\"5-hour window\", \"remainingPercent\":100, \"resetsAt\":2800}",
    )]);
    assert!(reset_detected(&previous, &changed, 900));
    assert!(reset_detected(&previous, &previous, 1000));
}

#[test]
fn increased_usage_or_new_window_looks_like_a_reset() {
    let previous = states(vec![doc(
        "{\"id\":\"codex:primary:0\", \"limitId\":\"codex\", \"label\":\"5-hour window\", \"remainingPercent\":25, \"resetsAt\":2000}",
    )]);
    let increased = states(vec![doc(
        "{\"id\":\"codex:primary:0\", \"limitId\":\"codex\", \"label\":\"5-hour window\", \"remainingPercent\":100, \"resetsAt\":2000}",
    )]);
    let added = states(vec![
        doc("{\"id\":\"codex:primary:0\", \"limitId\":\"codex\", \"label\":\"5-hour window\", \"remainingPercent\":25, \"resetsAt\":2000}"),
        doc("{\"id\":\"codex:secondary:1\", \"limitId\":\"codex\", \"label\":\"Weekly window\", \"remainingPercent\":100, \"resetsAt\":3000}"),
    ]);
    assert!(reset_detected(&previous, &increased, 1000));
    assert!(reset_detected(&previous, &added, 1000));
}

#[test]
fn ignores_non_codex_windows() {
    let windows = states(vec![doc(
        "{\"id\":\"reviews:primary:0\", \"limitId\":\"code_reviews\", \"label\":\"Weekly window\", \"remainingPercent\":100, \"resetsAt\":2000}",
    )]);
    assert!(windows.is_empty());
}

fn window(resets_at: Option<i64>, remaining: f64) -> Vec<WindowState> {
    vec![WindowState {
        id: "w".to_owned(),
        reset_at: resets_at,
        remaining: rank(remaining),
        allowance: rank(remaining + 0.01),
    }]
}

#[test]
fn small_moves_are_no_reset() {
    let before = window(Some(2000), 50.0);
    assert!(!reset_detected(&before, &window(Some(2060), 50.0), 1000));
    assert!(!reset_detected(&before, &window(Some(1940), 50.0), 1000));
    assert!(reset_detected(&before, &window(Some(2061), 50.0), 1000));
    assert!(reset_detected(&before, &window(Some(1939), 50.0), 1000));
    assert!(reset_detected(&before, &window(None, 50.0), 1000));
    assert!(reset_detected(&window(None, 50.0), &before, 1000));
    assert!(!reset_detected(&window(None, 50.0), &window(None, 50.005), 1000));
    assert!(reset_detected(&window(None, 50.0), &window(None, 50.02), 1000));
    assert!(!reset_detected(&before, &vec![], 1000));
}

#[test]
fn states_are_sorted_and_named() {
    let windows = vec![
        doc("{\"limitId\":\"codex\",\"label\":\"b\",\"resetsAt\":1.5}"),
        doc("{\"limitId\":\"codex\",\"id\":\"plain\",\"remainingPercent\":3}"),
        doc("{\"limitId\":\"codex\"}"),
        doc("{\"limitId\":\"codex\",\"label\":\"a\"}"),
        doc("5"),
    ];
    let ids: Vec<String> = window_states(&windows).into_iter().map(|state| state.id).collect();
    assert_eq!(ids, vec!["codex:a", "codex:b", "plain"]);
    assert_eq!(states(windows)[1].reset_at, Some(2));
}

#[test]
fn a_check_goes_its_way() {
    // The first check sends a request and reads the usage.
    let mut memory = CheckMemory::new();
    let CheckStep::Send(sending, reason) = memory.begin("a") else { panic!() };
    assert_eq!(reason, "startup");
    let CheckStep::Read(reading) = sending.sent(true) else { panic!() };
    let CheckStep::Done(result) = reading.read(Some(window(Some(2000), 50.0)), 1000) else { panic!() };
    assert!(!result.retry);
    memory.note("a".to_owned(), result);
    // The next one reads the usage, and is done where nothing started anew.
    let CheckStep::Read(reading) = memory.begin("a") else { panic!() };
    let CheckStep::Done(result) = reading.read(Some(window(Some(2000), 40.0)), 1000) else { panic!() };
    memory.note("a".to_owned(), result);
    // A window that started anew has a request sent, and the usage read again.
    let CheckStep::Read(reading) = memory.begin("a") else { panic!() };
    let CheckStep::Send(sending, reason) = reading.read(Some(window(Some(9000), 100.0)), 1000) else { panic!() };
    assert_eq!(reason, "usage_reset");
    let CheckStep::Read(reading) = sending.sent(true) else { panic!() };
    let CheckStep::Done(result) = reading.read(None, 1000) else { panic!() };
    assert_eq!(result.windows[0].reset_at, Some(9000));
    memory.note("a".to_owned(), result);
    let CheckStep::Read(reading) = memory.begin("a") else { panic!() };
    let CheckStep::Done(result) = reading.read(None, 1000) else { panic!() };
    assert_eq!(result.windows[0].reset_at, Some(9000));
    // What is gone is forgotten.
    memory.note("a".to_owned(), result);
    memory.retain(&vec!["b".to_owned()]);
    assert!(matches!(memory.begin("a"), CheckStep::Send(_, "startup")));
}

#[test]
fn a_failed_request_is_tried_again() {
    let CheckStep::Send(sending, _) = begin_check(None, false) else { panic!() };
    let CheckStep::Read(reading) = sending.sent(false) else { panic!() };
    let CheckStep::Done(result) = reading.read(None, 1000) else { panic!() };
    assert!(result.retry);
    assert!(result.windows.is_empty());
    let mut memory = CheckMemory::new();
    memory.note("a".to_owned(), result);
    assert!(matches!(memory.begin("a"), CheckStep::Send(_, "retry")));

    let CheckStep::Read(reading) = begin_check(Some(window(Some(1), 5.0)), false) else { panic!() };
    let CheckStep::Send(sending, _) = reading.read(Some(window(Some(1), 5.0)), 1000) else { panic!() };
    let CheckStep::Done(CheckResult { windows, retry }) = sending.sent(false) else { panic!() };
    assert!(retry);
    assert_eq!(windows.len(), 1);
    assert!(matches!(begin_check(Some(windows), true), CheckStep::Send(_, "retry")));
}

fn config(mode: &str) -> Config {
    Config {
        admin_port: 17800,
        oauth_port: 1455,
        host: "127.0.0.1".to_owned(),
        public_host: "localhost".to_owned(),
        db_path: "/data/db.json".to_owned(),
        request_log_path: "/data/log".to_owned(),
        log_bodies: false,
        port_range: PortRange { start: 18001, end: 18002 },
        default_provider: "chatgpt".to_owned(),
        providers: vec![(
            "chatgpt".to_owned(),
            Provider {
                id: "chatgpt".to_owned(),
                label: "ChatGPT".to_owned(),
                mode: mode.to_owned(),
                oauth: OauthConfig::default(),
                api: ApiConfig { usage_url: "https://api.example/usage".to_owned(), ..ApiConfig::default() },
            },
        )],
    }
}

fn account(id: &str) -> Account {
    let mut account = Account::default();
    account.id = id.to_owned();
    account.provider = "chatgpt".to_owned();
    account.status = "active".to_owned();
    account
}

#[test]
fn the_request_of_a_check_is_small() {
    let (path, body) = keep_alive_request(&config("responses-adapter"), &account("a")).unwrap();
    assert_eq!(path, "/responses");
    assert_eq!(
        print_json(&body),
        "{\"input\":[{\"content\":\"Reply with OK.\",\"role\":\"user\"}],\"model\":\"gpt-5.6-luna\",\"reasoning\":{\"effort\":\"none\"},\"store\":false,\"stream\":true}"
    );
    let error = keep_alive_request(&config("chat-passthrough"), &account("a")).unwrap_err();
    assert_eq!(
        (error.status, error.message.as_str()),
        (400, "Codex window keep alive requires a Responses adapter provider")
    );
    let mut stranger = account("a");
    stranger.provider = "nobody".to_owned();
    assert_eq!(keep_alive_request(&config("x"), &stranger).unwrap_err().status, 500);
    let error = keep_alive_status(503).unwrap_err();
    assert_eq!(
        (error.status, error.message.as_str()),
        (503, "Keepalive request returned HTTP 503")
    );
    assert!(keep_alive_status(204).is_ok());
}

fn event(name: &str, data: &str) -> SseEvent {
    SseEvent { event: name.to_owned(), data: data.to_owned() }
}

#[test]
fn the_answer_of_a_check_must_be_completed() {
    assert!(keep_alive_outcome(&vec![event("x", "{"), event("response.completed", "{}")]).is_ok());
    let error = keep_alive_outcome(&vec![event("x", "{}")]).unwrap_err();
    assert_eq!(
        (error.status, error.message.as_str()),
        (502, "Keepalive response ended before completion")
    );
    let error = keep_alive_outcome(&vec![
        event("response.completed", "{}"),
        event("x", "{\"type\":\"response.failed\",\"error\":{\"message\":\"no\"}}"),
    ])
    .unwrap_err();
    assert_eq!((error.status, error.message.as_str()), (502, "no"));
    let error =
        keep_alive_outcome_of(&vec![("response.incomplete".to_owned(), doc("{}"))]).unwrap_err();
    assert_eq!(error.message, "Keepalive response failed");
}

#[test]
fn a_check_is_logged() {
    assert_eq!(MODEL, "gpt-5.6-luna");
    assert_eq!(
        print_json(&keep_alive_record("codex_window_keep_alive_attempt", &account("a"), "retry", None)),
        "{\"accountId\":\"a\",\"event\":\"codex_window_keep_alive_attempt\",\"model\":\"gpt-5.6-luna\",\"provider\":\"chatgpt\",\"reason\":\"retry\"}"
    );
    let error = AppError::new(502, "no");
    assert_eq!(
        print_json(&keep_alive_record("codex_window_keep_alive_failed", &account("a"), "retry", Some(&error))),
        "{\"accountId\":\"a\",\"event\":\"codex_window_keep_alive_failed\",\"message\":\"no\",\"model\":\"gpt-5.6-luna\",\"provider\":\"chatgpt\",\"reason\":\"retry\",\"status\":502}"
    );
}

#[test]
fn windows_are_read_where_usage_is_known() {
    assert!(current_windows(None).is_none());
    let mut known = account("a");
    assert!(current_windows(Some(&known)).is_none());
    let mut snapshot = UsageSnapshot::default();
    snapshot.windows.push(doc("{\"limitId\":\"codex\",\"label\":\"l\"}"));
    known.usage_snapshot = Some(snapshot);
    assert_eq!(current_windows(Some(&known)).unwrap().len(), 1);
    known.usage_snapshot.as_mut().unwrap().error = Some("x".to_owned());
    assert!(current_windows(Some(&known)).is_none());
}

#[test]
fn labels_name_the_length_of_a_window() {
    assert_eq!(usage_label(Some(604800), "primary"), "Weekly window");
    assert_eq!(usage_label(Some(1209600), "primary"), "2-week window");
    assert_eq!(usage_label(Some(86400), "primary"), "1-day window");
    assert_eq!(usage_label(Some(18000), "primary"), "5-hour window");
    assert_eq!(usage_label(Some(300), "primary"), "5-minute window");
    assert_eq!(usage_label(Some(61), "primary"), "61-second window");
    assert_eq!(usage_label(Some(0), "primary"), "0-week window");
    assert_eq!(usage_label(None, "primary"), "Primary window");
    assert_eq!(usage_label(None, "secondary"), "Secondary window");
    assert_eq!(usage_label(None, "window-1"), "Usage window");
}

fn numbers(draft: &WindowDraft) -> Option<WindowNumbers> {
    let number = |json: &Option<Json>| json.as_ref().and_then(|json| json.as_u64());
    if number(&draft.used).is_none() && number(&draft.remaining).is_none() {
        return None;
    }
    Some(WindowNumbers {
        seconds: number(&draft.seconds),
        remaining: Json::count(number(&draft.remaining).unwrap_or(100 - number(&draft.used).unwrap_or(0))),
        resets_at: match number(&draft.reset_at) {
            Some(at) => Json::count(at),
            None => Json::Null,
        },
    })
}

#[test]
fn given_numbers_come_before_computed_ones() {
    let none = Readable {
        used: false,
        remaining: false,
        seconds: false,
        minutes: false,
        reset_at: false,
        reset_after: false,
    };
    let times = Readable { seconds: true, minutes: true, reset_at: true, reset_after: true, ..none };
    assert!(window_sources(times).is_none());
    let sources = window_sources(Readable { used: true, ..none }).unwrap();
    assert_eq!((sources.share, sources.length, sources.reset), (ShareSource::Used, None, None));
    let sources = window_sources(Readable { used: true, remaining: true, ..times }).unwrap();
    assert_eq!(
        (sources.share, sources.length, sources.reset),
        (ShareSource::Remaining, Some(LengthSource::Seconds), Some(ResetSource::At))
    );
    let computed = Readable { seconds: false, reset_at: false, ..times };
    let sources = window_sources(Readable { used: true, ..computed }).unwrap();
    assert_eq!(
        (sources.share, sources.length, sources.reset),
        (ShareSource::Used, Some(LengthSource::Minutes), Some(ResetSource::After))
    );
}

#[test]
fn windows_are_read_from_a_report() {
    let report = doc("{\"plan_type\":\"pro\",\"rate_limit\":{\"primary_window\":{\"used_percent\":20,\"limit_window_seconds\":18000,\"reset_at\":5},\"secondary\":{\"remaining_percent\":7,\"window_seconds\":604800}},\"additional_rate_limits\":[{\"metered_feature\":\"rev\",\"limit_name\":\"Reviews\",\"rate_limit\":{\"windows\":[{\"usedPercent\":1},{},3]}},{\"primary\":{\"used_percent\":2}}]}");
    assert_eq!(plan_type(&report), Some("pro".to_owned()));
    let drafts = read_windows(&report);
    let found: Vec<Option<WindowNumbers>> = drafts.iter().map(numbers).collect();
    let windows = assemble_windows(&drafts, &found);
    assert_eq!(
        print_json(&Json::Array(windows)),
        "[{\"id\":\"codex:primary:0\",\"label\":\"5-hour window\",\"limitId\":\"codex\",\"limitName\":null,\"remainingPercent\":80,\"resetsAt\":5},{\"id\":\"codex:secondary:1\",\"label\":\"Weekly window\",\"limitId\":\"codex\",\"limitName\":null,\"remainingPercent\":7,\"resetsAt\":null},{\"id\":\"rev:window-1:2\",\"label\":\"Usage window\",\"limitId\":\"rev\",\"limitName\":\"Reviews\",\"remainingPercent\":99,\"resetsAt\":null},{\"id\":\"limit-2:primary:3\",\"label\":\"Primary window\",\"limitId\":\"limit-2\",\"limitName\":null,\"remainingPercent\":98,\"resetsAt\":null}]"
    );
    // Without a limit of its own the report is the limit.
    let drafts = read_windows(&doc("{\"primary\":{\"used_percent\":\"5\",\"window_minutes\":300,\"reset_after_seconds\":4}}"));
    assert_eq!(drafts.len(), 1);
    assert_eq!(drafts[0].limit_id, "codex");
    assert_eq!(drafts[0].used.as_ref().unwrap().as_str(), Some("5"));
    assert_eq!(drafts[0].minutes.as_ref().unwrap().as_u64(), Some(300));
    assert_eq!(drafts[0].reset_after.as_ref().unwrap().as_u64(), Some(4));
}

#[test]
fn usage_is_asked_for() {
    assert_eq!(usage_request(&config("x"), &account("a")).unwrap(), "https://api.example/usage");
    let mut bare = config("x");
    bare.providers[0].1.api.usage_url = String::new();
    let error = usage_request(&bare, &account("a")).unwrap_err();
    assert_eq!((error.status, error.message.as_str()), (400, "Usage is not configured for ChatGPT"));
    let error = usage_reply(429, "{}").unwrap_err();
    assert_eq!((error.status, error.message.as_str()), (429, "Usage API returned HTTP 429"));
    let error = usage_reply(200, "{").unwrap_err();
    assert_eq!((error.status, error.message.as_str()), (502, "Usage API returned invalid JSON"));
    assert_eq!(print_json(&usage_reply(200, "{\"a\":1}").unwrap()), "{\"a\":1}");
    assert_eq!(usage_reply_with(200, Err("x".to_owned())).unwrap_err().status, 502);
}

#[test]
fn snapshots_are_kept_and_shown() {
    let mut db = Database::empty(1);
    db.accounts.push(account("a"));
    assert!(never_read(&db.accounts[0]));
    assert_eq!(
        print_json(&db.usage_snapshot_for_id("a")),
        "{\"accountId\":\"a\",\"error\":\"Usage has not been captured yet\",\"label\":\"a\",\"status\":\"active\",\"windows\":[]}"
    );
    assert!(db.record_usage("a", Err("no".to_owned()), "t0", "t1"));
    assert!(never_read(&db.accounts[0]));
    assert_eq!(
        print_json(&db.usage_snapshot_for_id("a")),
        "{\"accountId\":\"a\",\"error\":\"no\",\"label\":\"a\",\"status\":\"active\",\"windows\":[]}"
    );
    assert!(db.record_usage("a", Ok((Some("pro".to_owned()), vec![doc("{\"w\":1}")])), "t2", "t3"));
    assert!(!never_read(&db.accounts[0]));
    // A refresh that fails keeps what was known.
    assert!(db.record_usage("a", Err("later".to_owned()), "t4", "t5"));
    let snapshot = db.accounts[0].usage_snapshot.as_ref().unwrap();
    assert_eq!(snapshot.refresh_attempted_at.as_deref(), Some("t4"));
    assert_eq!(snapshot.fetched_at.as_deref(), Some("t3"));
    assert_eq!(
        print_json(&usage_snapshot_for_account(&db.accounts[0])),
        "{\"accountId\":\"a\",\"fetchedAt\":\"t3\",\"label\":\"a\",\"planType\":\"pro\",\"refreshError\":\"later\",\"status\":\"active\",\"windows\":[{\"w\":1}]}"
    );
    assert!(!db.record_usage("b", Err("no".to_owned()), "t", "t"));
    assert_eq!(
        print_json(&db.usage_snapshot_for_id("b")),
        "{\"accountId\":\"b\",\"error\":\"Account was removed\",\"status\":\"removed\",\"windows\":[]}"
    );
    let all = db.current_usage_snapshots("t9").to_value();
    assert_eq!(all["fetchedAt"], "t9");
    assert_eq!(all["accounts"][0]["accountId"], "a");
}

#[test]
fn failed_refreshes_are_counted() {
    let shown = vec![doc("{\"error\":\"x\"}"), doc("{\"refreshError\":null}"), doc("{}")];
    assert_eq!(
        print_json(&refreshed(shown, "t")),
        "{\"accounts\":[{\"error\":\"x\"},{\"refreshError\":null},{}],\"failed\":2,\"refreshedAt\":\"t\"}"
    );
}

#[test]
fn refreshes_of_an_account_follow_one_another() {
    let mut state = UsageRefreshState::default();
    assert!(state.schedule());
    assert!(!state.schedule());
    assert!(!state.schedule());
    assert!(state.next());
    assert!(!state.schedule());
    assert!(state.next());
    assert!(!state.next());
    assert!(!state.running);
    assert!(state.schedule());
}

#[test]
fn only_accounts_that_can_be_used_are_checked() {
    let mut db = Database::empty(1);
    db.accounts.push(account("a"));
    db.accounts.push(account("b"));
    db.accounts.push(account("c"));
    db.mark_reauth("b", "why", "t");
    db.accounts[2].status = "removed".to_owned();
    let ids: Vec<String> = checked_accounts(&db).into_iter().map(|found| found.id).collect();
    assert_eq!(ids, vec!["a"]);
}
