//! Tests of requests: their routes, headers, plans and answers, and the dashboard.

use ai_proxy::config::{ApiConfig, Config, OauthConfig, PortRange, Provider};
use ai_proxy::dashboard::{card, esc, escape_html, message_page, render, DASHBOARD_SCRIPT};
use ai_proxy::errors::{refusal, success, AppError};
use ai_proxy::headers::{
    adapter_headers, copy_response_headers, filtered_headers, hop_header, upstream_headers, Headers,
};
use ai_proxy::json::{parse_json, print_json, Json};
use ai_proxy::model::Account;
use ai_proxy::proxy::{
    accounts_document, admin_not_found, answer_reply, answering, chat_plan, chat_plan_with,
    chat_reply, cors_empty, describe_account, error_response, has_model, json_response, log_line,
    model_reply, models_path, models_reply, models_reply_with, must_retry, page_response,
    public_account, refreshes_usage, request_metadata, request_metadata_with, request_record,
    responses_plan, responses_plan_with, route, stream_headers, unsupported_endpoint, Answering,
    Plan, Route, BODY_LIMIT,
};
use ai_proxy::sse::SseEvent;
use ai_proxy::startup::{
    account_listening, admin_listening, bind_failure, failure, oauth_listening, port_taken, stored_port,
};
use ai_proxy::urls::{
    admin_url, base_url, oauth_paths, oauth_redirect_uri, redirect_path, upstream_url, user_agent,
};

fn doc(text: &str) -> Json {
    parse_json(text).unwrap()
}

fn provider(mode: &str) -> Provider {
    Provider {
        id: "chatgpt".to_owned(),
        label: "ChatGPT".to_owned(),
        mode: mode.to_owned(),
        oauth: OauthConfig::default(),
        api: ApiConfig { base_url: "https://api.example/v2//".to_owned(), ..ApiConfig::default() },
    }
}

fn config(mode: &str) -> Config {
    Config {
        admin_port: 17800,
        oauth_port: 1455,
        host: "127.0.0.1".to_owned(),
        public_host: "localhost".to_owned(),
        db_path: "/data/db.json".to_owned(),
        request_log_path: "/data/log".to_owned(),
        log_bodies: false,
        port_range: PortRange { start: 18001, end: 18100 },
        default_provider: "chatgpt".to_owned(),
        providers: vec![("chatgpt".to_owned(), provider(mode))],
    }
}

fn account() -> Account {
    let mut account = Account::default();
    account.id = "a1".to_owned();
    account.provider = "chatgpt".to_owned();
    account.status = "active".to_owned();
    account.port = Some(18001);
    account.tokens.access_token = "secret".to_owned();
    account.tokens.refresh_token = "hidden".to_owned();
    account
}

fn given(list: &[(&str, &str)]) -> Vec<(String, Vec<u8>)> {
    list.iter().map(|entry| (entry.0.to_owned(), entry.1.as_bytes().to_vec())).collect()
}

fn listed(headers: &Headers) -> Vec<String> {
    let mut list: Vec<String> = headers
        .entries
        .iter()
        .map(|entry| format!("{}: {}", entry.0, String::from_utf8(entry.1.clone()).unwrap()))
        .collect();
    list.sort();
    list
}

#[test]
fn requests_are_routed() {
    assert!(matches!(route("OPTIONS", "/anything"), Route::Options));
    assert!(matches!(route("GET", "/"), Route::Account));
    assert!(matches!(route("GET", "/v1/models"), Route::Models));
    match route("GET", "/v1/models/gpt%2D5") {
        Route::Model(id) => assert_eq!(id, "gpt-5"),
        _ => panic!(),
    }
    assert!(matches!(route("POST", "/v1/responses"), Route::Responses));
    assert!(matches!(route("POST", "/v1/chat/completions"), Route::Chat));
    assert!(matches!(route("GET", "/v1/responses"), Route::Unsupported));
    assert!(matches!(route("POST", "/v1/models"), Route::Unsupported));
    assert!(matches!(route("GET", "/v1/modelsx"), Route::Unsupported));
    assert!(has_model("POST", "/v1/responses"));
    assert!(!has_model("GET", "/v1/models"));
    assert!(refreshes_usage("GET", "/v1/models/x"));
    assert!(refreshes_usage("POST", "/v1/chat/completions"));
    assert!(!refreshes_usage("GET", "/"));
    assert!(!refreshes_usage("OPTIONS", "/v1/responses"));
    assert_eq!(
        print_json(&unsupported_endpoint("PUT", "/x")),
        "{\"error\":{\"message\":\"Unsupported endpoint: PUT /x\",\"type\":\"invalid_request_error\"}}"
    );
    assert_eq!(BODY_LIMIT, 20 * 1024 * 1024);
}

#[test]
fn addresses_are_made() {
    let config = config("responses-adapter");
    assert_eq!(base_url(&config, &account()), "http://localhost:18001/v1");
    assert_eq!(base_url(&config, &Account::default()), "http://localhost:0/v1");
    assert_eq!(admin_url(&config, "/x"), "http://localhost:17800/x");
    let mut own = provider("x");
    assert_eq!(redirect_path(&own), "/auth/callback");
    assert_eq!(oauth_redirect_uri(&config, &own), "http://localhost:1455/auth/callback");
    own.oauth.redirect_path = "/a".to_owned();
    own.api.user_agent = "agent".to_owned();
    assert_eq!(oauth_redirect_uri(&config, &own), "http://localhost:1455/a");
    assert_eq!(user_agent(&own), "agent");
    assert_eq!(user_agent(&provider("x")), "ai_proxy/0.1.0");
    assert_eq!(upstream_url(&own, "/models"), "https://api.example/v2/models");
    assert_eq!(upstream_url(&own, "models"), "https://api.example/v2/models");
    assert_eq!(upstream_url(&own, "http://x/y"), "http://x/y");
    assert_eq!(upstream_url(&own, "https://x/y"), "https://x/y");
    let mut several = config;
    several.providers.push(("b".to_owned(), own));
    several.providers.push(("c".to_owned(), provider("x")));
    assert_eq!(oauth_paths(&several), vec!["/a", "/auth/callback"]);
}

#[test]
fn what_a_client_says_of_itself_is_not_passed_on() {
    let from = given(&[
        ("authorization", "Bearer mine"), ("host", "h"), ("content-length", "5"), ("cookie", "c"),
        ("forwarded", "f"), ("x-forwarded-for", "x"), ("connection", "close"), ("te", "t"),
        ("session-id", "s"), ("content-type", "text/plain"), ("openai-beta", "b"),
    ]);
    assert_eq!(
        listed(&filtered_headers(&from)),
        vec!["content-type: text/plain", "openai-beta: b", "session-id: s"]
    );
    assert_eq!(
        listed(&adapter_headers(&from)),
        vec!["content-type: application/json", "openai-beta: b", "session-id: s"]
    );
    assert!(hop_header("Transfer-Encoding"));
    assert!(!hop_header("accept"));
}

#[test]
fn headers_of_an_answer_are_copied() {
    let from = given(&[("content-length", "5"), ("upgrade", "u"), ("x-id", "1"), ("x-id", "2")]);
    assert_eq!(
        listed(&copy_response_headers(&from, None)),
        vec!["access-control-allow-origin: *", "x-id: 2"]
    );
    assert_eq!(
        listed(&copy_response_headers(&from, Some("text/x"))),
        vec!["access-control-allow-origin: *", "content-type: text/x", "x-id: 2"]
    );
    let typed = given(&[("content-type", "a/b")]);
    assert_eq!(
        listed(&copy_response_headers(&typed, Some("text/x"))),
        vec!["access-control-allow-origin: *", "content-type: a/b"]
    );
}

#[test]
fn requests_bear_the_credentials_of_the_account() {
    let mut own = provider("x");
    own.api.headers.insert("X-Own", Json::text("1"));
    own.api.headers.insert("bad name", Json::text("1"));
    own.api.headers.insert("x-number", Json::count(1));
    own.api.headers.insert("x-line", Json::text("a\nb"));
    let mut known = account();
    known.metadata.values.insert("accountId", Json::text("acc"));
    let mut extra = Headers::new();
    extra.insert_text("authorization", "Bearer other");
    extra.insert_text("chatgpt-account-id", "other");
    extra.insert_text("x-own", "2");
    extra.insert("session-id", b"s");
    assert_eq!(
        listed(&upstream_headers(&own, &known, &extra).unwrap()),
        vec![
            "authorization: Bearer secret", "chatgpt-account-id: acc", "session-id: s",
            "user-agent: ai_proxy/0.1.0", "x-own: 2",
        ]
    );
    assert_eq!(
        listed(&upstream_headers(&own, &known, &Headers::new()).unwrap()),
        vec![
            "authorization: Bearer secret", "chatgpt-account-id: acc",
            "user-agent: ai_proxy/0.1.0", "x-own: 1",
        ]
    );
    // The case of a name makes no difference.
    let mut other_case = Headers { entries: given(&[("Authorization", "Bearer other"), ("X-OWN", "3")]) };
    other_case.insert_text("ChatGPT-Account-Id", "other");
    assert_eq!(
        listed(&upstream_headers(&own, &known, &other_case).unwrap()),
        vec![
            "authorization: Bearer secret", "chatgpt-account-id: acc",
            "user-agent: ai_proxy/0.1.0", "x-own: 3",
        ]
    );
    assert!(other_case.contains("x-Own") && !other_case.contains("x-other"));
    known.tokens.access_token = "a\nb".to_owned();
    let error = upstream_headers(&own, &known, &Headers::new()).unwrap_err();
    assert_eq!((error.status, error.message.as_str()), (500, "failed to parse header value"));
}

#[test]
fn values_of_headers_are_those_that_can_be_sent() {
    for text in ["", "a", "\t", "é", "\u{7f}", "\u{1f}", "\u{80}", "\n", " ", "~"] {
        let mut known = account();
        known.tokens.access_token = text.to_owned();
        let sent = upstream_headers(&provider("x"), &known, &Headers::new()).is_ok();
        let expected = reqwest::header::HeaderValue::from_str(&format!("Bearer {text}")).is_ok();
        assert_eq!(sent, expected, "{text:?}");
    }
}

#[test]
fn names_of_headers_are_those_that_can_be_sent() {
    let names = |name: &str| {
        let mut own = provider("x");
        own.api.headers.insert(name, Json::text("1"));
        let sent = upstream_headers(&own, &account(), &Headers::new()).unwrap();
        listed(&sent).into_iter().filter(|line| line.ends_with(": 1")).collect::<Vec<_>>()
    };
    for c in '\0'..='\u{ff}' {
        let taken = c.is_ascii_alphanumeric() || "!#$%&'*+-.^_`|~".contains(c);
        let expected =
            if taken { vec![format!("x-{}: 1", c.to_ascii_lowercase())] } else { Vec::new() };
        assert_eq!(names(&format!("X-{c}")), expected, "{c:?}");
    }
    assert_eq!(names(""), Vec::<String>::new());
    assert_eq!(names(&"A".repeat(65535)), vec![format!("{}: 1", "a".repeat(65535))]);
    assert_eq!(names(&"A".repeat(65536)), Vec::<String>::new());
}

#[test]
fn answers_are_given_as_they_are_wanted() {
    for (stream, chat) in [(false, false), (false, true), (true, false), (true, true)] {
        for status in [199, 300, 400, 401, 429, 500] {
            assert_eq!(answering(status, stream, chat), Answering::Refusal);
        }
    }
    assert_eq!(answering(200, false, false), Answering::Answer);
    assert_eq!(answering(299, false, true), Answering::Chat);
    assert_eq!(answering(200, true, false), Answering::Events);
    assert_eq!(answering(204, true, true), Answering::ChatEvents);
}

#[test]
fn answers_are_made() {
    let reply = json_response(201, &doc("{\"a\":1}"));
    assert_eq!((reply.status, reply.body.as_str()), (201, "{\"a\":1}\n"));
    assert_eq!(
        listed(&reply.headers),
        vec!["access-control-allow-origin: *", "content-type: application/json; charset=utf-8"]
    );
    let reply = error_response(&AppError::auth("who"));
    assert_eq!(reply.status, 401);
    assert_eq!(
        reply.body,
        "{\"error\":{\"details\":null,\"message\":\"who\",\"type\":\"auth_error\"}}\n"
    );
    assert!(error_response(&AppError::internal("x")).body.contains("\"type\":\"server_error\""));
    assert!(error_response(&AppError::new(404, "x"))
        .body
        .contains("\"type\":\"invalid_request_error\""));
    let empty = cors_empty();
    assert_eq!((empty.status, empty.body.as_str()), (204, ""));
    assert_eq!(
        listed(&empty.headers),
        vec![
            "access-control-allow-headers: authorization,content-type,openai-organization,openai-project",
            "access-control-allow-methods: GET,POST,OPTIONS",
            "access-control-allow-origin: *",
            "access-control-max-age: 86400",
        ]
    );
    assert_eq!(
        listed(&stream_headers()),
        vec![
            "access-control-allow-origin: *", "cache-control: no-cache, no-transform",
            "connection: keep-alive", "content-type: text/event-stream; charset=utf-8",
            "x-accel-buffering: no",
        ]
    );
}

#[test]
fn errors_of_the_server_are_logged() {
    assert_eq!(
        print_json(&AppError::internal("x").log_record().unwrap()),
        "{\"event\":\"server_error\",\"message\":\"x\",\"status\":500}"
    );
    assert!(AppError::new(404, "x").log_record().is_none());
    assert!(AppError::internal("x").fails_server());
    assert!(!AppError::auth("x").fails_server());
    assert_eq!(
        print_json(&AppError::auth("x").document()),
        "{\"error\":{\"details\":null,\"message\":\"x\",\"type\":\"auth_error\"}}"
    );
    assert_eq!(
        print_json(&refusal("x")),
        "{\"error\":{\"message\":\"x\",\"type\":\"invalid_request_error\"}}"
    );
    assert!(success(200) && success(299) && !success(300) && !success(199));
}

#[test]
fn a_refused_token_is_refreshed_once() {
    assert!(must_retry(401, 0, &account()));
    assert!(!must_retry(401, 1, &account()));
    assert!(!must_retry(403, 0, &account()));
    let mut fixed = account();
    fixed.tokens.refresh_token = String::new();
    assert!(!must_retry(401, 0, &fixed));
}

#[test]
fn models_are_answered() {
    let mut own = config("x");
    assert_eq!(models_path(&own, &account()).unwrap(), "/models");
    own.providers[0].1.api.models_path = "/m?v=1".to_owned();
    assert_eq!(models_path(&own, &account()).unwrap(), "/m?v=1");
    let mut stranger = account();
    stranger.provider = "nobody".to_owned();
    assert_eq!(models_path(&own, &stranger).unwrap_err().message, "Provider not configured: nobody");
    let list = models_reply(b"{\"models\":[{\"slug\":\"a\"}]}").unwrap();
    assert_eq!(model_reply(&list, "a").0, 200);
    assert_eq!(
        print_json(&model_reply(&list, "a").1),
        "{\"created\":0,\"id\":\"a\",\"object\":\"model\",\"owned_by\":\"chatgpt\"}"
    );
    let (status, body) = model_reply(&list, "b");
    assert_eq!(status, 404);
    assert_eq!(
        print_json(&body),
        "{\"error\":{\"message\":\"Model not found: b\",\"type\":\"invalid_request_error\"}}"
    );
    let error = models_reply(b"{").unwrap_err();
    assert_eq!(error.status, 500);
    assert!(error.message.starts_with("Upstream models returned invalid JSON: EOF"));
    assert_eq!(
        models_reply_with(Err("e".to_owned())).unwrap_err().message,
        "Upstream models returned invalid JSON: e"
    );
}

#[test]
fn requests_for_answers_are_planned() {
    let headers = given(&[("session-id", "s"), ("authorization", "x")]);
    match responses_plan(&config("responses-adapter"), &account(), &headers, b"{\"input\":\"Hi\",\"stream\":true,\"model\":\"m\"}").unwrap() {
        Plan::Adapt { path, headers, body, stream, model } => {
            assert_eq!(path, "/responses");
            assert_eq!(listed(&headers), vec!["content-type: application/json", "session-id: s"]);
            assert_eq!(
                body,
                "{\"input\":[{\"content\":\"Hi\",\"role\":\"user\"}],\"model\":\"m\",\"store\":false,\"stream\":true}"
            );
            assert!(stream);
            assert_eq!(model, "m");
        },
        _ => panic!(),
    }
    let error = responses_plan(&config("responses-adapter"), &account(), &headers, b"{").unwrap_err();
    assert_eq!((error.status, error.message.as_str()), (400, "Request body must be valid JSON"));
    match responses_plan(&config("chat-passthrough"), &account(), &headers, b"{").unwrap() {
        Plan::Refuse(status, document) => {
            assert_eq!(status, 404);
            assert_eq!(
                print_json(&document),
                "{\"error\":{\"message\":\"Provider does not expose a Responses endpoint\",\"type\":\"invalid_request_error\"}}"
            );
        },
        _ => panic!(),
    }
    let mut own = config("chat-passthrough");
    own.providers[0].1.api.responses_path = "/r".to_owned();
    match responses_plan(&own, &account(), &headers, b"{").unwrap() {
        Plan::Forward { path, headers } => {
            assert_eq!(path, "/r");
            assert_eq!(listed(&headers), vec!["session-id: s"]);
        },
        _ => panic!(),
    }
    let error = responses_plan_with(&config("responses-adapter"), &account(), &headers, Err("x".to_owned())).unwrap_err();
    assert_eq!(error.status, 400);
}

#[test]
fn chats_are_planned() {
    let headers = given(&[]);
    match chat_plan(&config("responses-adapter"), &account(), &headers, b"{\"messages\":[{\"content\":\"hi\"}]}").unwrap() {
        Plan::Adapt { body, stream, model, .. } => {
            assert_eq!(
                body,
                "{\"input\":[{\"content\":\"hi\",\"role\":\"user\"}],\"model\":null,\"store\":false,\"stream\":true}"
            );
            assert!(!stream);
            assert_eq!(model, "unknown");
        },
        _ => panic!(),
    }
    let error = chat_plan(&config("responses-adapter"), &account(), &headers, b"{\"messages\":[{\"content\":[{\"type\":\"image_url\"},{\"type\":\"x\"}]}]}").unwrap_err();
    assert_eq!(
        (error.status, error.message.as_str()),
        (400, "Only text chat content is supported for now. Unsupported content: image_url, x")
    );
    let error = chat_plan(&config("odd"), &account(), &headers, b"{}").unwrap_err();
    assert_eq!((error.status, error.message.as_str()), (500, "Unsupported provider mode: odd"));
    let mut own = config("chat-passthrough");
    match chat_plan(&own, &account(), &headers, b"no document").unwrap() {
        Plan::Forward { path, .. } => assert_eq!(path, "/chat/completions"),
        _ => panic!(),
    }
    own.providers[0].1.api.chat_completions_path = Some("/c".to_owned());
    match chat_plan_with(&own, &account(), &headers, Err("x".to_owned()), &vec![]).unwrap() {
        Plan::Forward { path, .. } => assert_eq!(path, "/c"),
        _ => panic!(),
    }
    let error = chat_plan(&config("responses-adapter"), &account(), &headers, b"").unwrap_err();
    assert_eq!((error.status, error.message.as_str()), (400, "Request body must be valid JSON"));
}

#[test]
fn a_request_is_logged_without_secrets() {
    let metadata = request_metadata(b"{\"model\":\"gpt-5.5\",\"reasoning\":{\"effort\":\"xhigh\"},\"input\":\"private\"}");
    assert_eq!(metadata, (Some("gpt-5.5".to_owned()), Some("xhigh".to_owned())));
    assert_eq!(request_metadata(b"{"), (None, None));
    assert_eq!(request_metadata_with(&Ok(doc("{\"model\":5}"))), (None, None));
    let record = request_record(&account(), "POST", "/v1/responses", 200, 1758, &metadata);
    assert_eq!(
        log_line(record, "2026-07-07T15:59:57.167Z"),
        "{\"accountId\":\"a1\",\"durationMs\":1758,\"event\":\"request\",\"method\":\"POST\",\"model\":\"gpt-5.5\",\"path\":\"/v1/responses\",\"port\":18001,\"provider\":\"chatgpt\",\"reasoningEffort\":\"xhigh\",\"status\":200,\"ts\":\"2026-07-07T15:59:57.167Z\"}"
    );
    assert_eq!(log_line(Json::Null, "t"), "null");
}

#[test]
fn an_account_is_shown_without_its_tokens() {
    let shown = print_json(&public_account(&config("x"), &account()));
    assert_eq!(
        shown,
        "{\"baseUrl\":\"http://localhost:18001/v1\",\"createdAt\":\"\",\"id\":\"a1\",\"label\":\"ChatGPT\",\"lastError\":null,\"lastRequestAt\":null,\"lastStatus\":null,\"metadata\":{},\"port\":18001,\"provider\":\"chatgpt\",\"status\":\"active\",\"updatedAt\":\"\"}"
    );
    assert!(!shown.contains("secret") && !shown.contains("hidden"));
    let document = describe_account(&config("x"), &account()).to_value();
    assert_eq!(document["object"], "ai_proxy.account");
    assert_eq!(document["primaryEndpoint"], "/v1/responses");
    assert_eq!(document["endpoints"][2], "/v1/chat/completions");
    assert_eq!(document["account"]["id"], "a1");
}

#[test]
fn markup_is_escaped() {
    assert_eq!(esc("<a href=\"x\">&'"), "&lt;a href=&quot;x&quot;&gt;&amp;&#39;");
    assert_eq!(escape_html("&lt;"), "&amp;lt;");
    assert_eq!(
        message_page("T<", "<b>m</b>", "/?a=\"1\""),
        "<!doctype html><html lang=\"en\"><head><meta charset=\"utf-8\"><meta name=\"viewport\" content=\"width=device-width,initial-scale=1\"><title>T&lt;</title><style>body{font-family:ui-sans-serif,system-ui;margin:40px;line-height:1.5}main{max-width:760px}code{font-family:ui-monospace,SFMono-Regular,Menlo,Consolas,monospace}a{display:inline-block;margin-top:20px}</style></head><body><main><h1>T&lt;</h1><p><b>m</b></p><a href=\"/?a=&quot;1&quot;\">Back to dashboard</a></main></body></html>"
    );
}

#[test]
fn accounts_are_drawn() {
    let mut known = account();
    known.last_error = Some("<e>".to_owned());
    known.last_request_at = Some("t".to_owned());
    known.last_status = Some(200);
    assert_eq!(
        card(&known),
        "<article class=\"usage-card\" data-usage-account=\"a1\"><div class=\"usage-account-heading\"><strong>a1</strong><span class=\"status active\">active</span><small class=\"account-error\">&lt;e&gt;</small></div><div class=\"usage-windows\"><span class=\"empty\">Loading current usage…</span></div><div class=\"account-fact\"><small class=\"field-label\">Port</small><code>18001</code></div><div class=\"account-fact last-request\"><small class=\"field-label\">Last request</small><time data-local-time=\"t\" datetime=\"t\">t</time><code>HTTP 200</code></div><div class=\"account-actions actions\"><form method=\"post\" action=\"/accounts/a1/reauth\"><button type=\"submit\">Re-auth</button></form><form method=\"post\" action=\"/accounts/a1/remove\"><button type=\"submit\">Remove</button></form></div></article>"
    );
    assert!(card(&account()).contains("<span class=\"empty\">None yet</span>"));
}

#[test]
fn the_dashboard_is_drawn() {
    let mut own = config("x");
    own.providers.insert(0, ("z".to_owned(), Provider { id: "z".to_owned(), label: String::new(), ..provider("x") }));
    let page = render(&own, &vec![account()], true, &vec!["/a&b".to_owned()]);
    assert!(page.starts_with("<!doctype html>\n<html lang=\"en\">"));
    assert!(page.contains("<p>Admin port <code>17800</code>, OAuth redirect <code>localhost:1455/a&amp;b</code>, downstream range <code>18001-18100</code>.</p><div class=\"notice\">Account removed.</div>\n"));
    assert!(page.contains("<select name=\"provider\"><option value=\"chatgpt\" selected>ChatGPT</option><option value=\"z\">z</option></select>"));
    assert!(page.contains(&card(&account())));
    assert!(page.contains(DASHBOARD_SCRIPT));
    assert!(page.ends_with("</script></body></html>"));
    let page = render(&own, &vec![], false, &vec![]);
    assert!(page.contains("No accounts yet. Add a ChatGPT account to get started."));
    assert!(page.contains("localhost:1455/auth/callback</code>"));
    assert!(!page.contains("Account removed."));
}

fn events(list: &[&str]) -> Vec<SseEvent> {
    list.iter()
        .map(|data| SseEvent { event: "message".to_owned(), data: data.to_string() })
        .collect()
}

#[test]
fn a_stream_is_answered_whole() {
    let stream = ["{\"type\":\"response.output_text.delta\",\"delta\":\"hi\"}", "{\"response\":{\"id\":\"r\"}}"];
    let answer = answer_reply(events(&stream)).unwrap().unwrap();
    assert_eq!(
        print_json(&answer),
        "{\"id\":\"r\",\"output\":[{\"content\":[{\"text\":\"hi\",\"type\":\"output_text\"}],\"role\":\"assistant\",\"type\":\"message\"}]}"
    );
    let chat = chat_reply(events(&stream), "m").unwrap().unwrap().to_value();
    assert_eq!(chat["id"], "r");
    assert_eq!(chat["model"], "m");
    assert_eq!(chat["choices"][0]["message"]["content"], "hi");
    let failed = ["{\"type\":\"response.failed\",\"error\":{\"message\":\"no\"}}"];
    let error = answer_reply(events(&failed)).unwrap().unwrap_err();
    assert_eq!((error.status, error.message.as_str()), (502, "no"));
    let error = chat_reply(events(&failed), "m").unwrap().unwrap_err();
    assert_eq!((error.status, error.message.as_str()), (502, "no"));
    let odd = [
        "{\"type\":\"response.output_item.added\",\"item\":1}",
        "{\"type\":\"response.function_call_arguments.delta\",\"delta\":\"x\"}",
    ];
    assert!(answer_reply(events(&odd)).is_none());
    assert!(chat_reply(events(&odd), "m").is_none());
}

#[test]
fn the_dashboard_answers_what_it_does_not_have() {
    let reply = admin_not_found("GET");
    assert_eq!(reply.status, 404);
    assert_eq!(listed(&reply.headers), vec!["content-type: text/html; charset=utf-8"]);
    assert_eq!(reply.body, message_page("Not found", "No admin route matched this request.", "/"));
    assert_eq!(admin_not_found("OPTIONS").status, 204);
    assert_eq!(page_response(400, "p".to_owned()).body, "p");
    let document = accounts_document(&config("x"), &vec![account()]).to_value();
    assert_eq!(document["accounts"][0]["id"], "a1");
    assert_eq!(print_json(&accounts_document(&config("x"), &vec![])), "{\"accounts\":[]}");
}

#[test]
fn the_proxy_says_where_it_listens() {
    let own = config("x");
    assert_eq!(
        print_json(&admin_listening(&own)),
        "{\"event\":\"admin_listening\",\"host\":\"127.0.0.1\",\"port\":17800,\"url\":\"http://localhost:17800/\"}"
    );
    assert_eq!(
        print_json(&oauth_listening(&own)),
        "{\"event\":\"oauth_listening\",\"host\":\"127.0.0.1\",\"port\":1455,\"url\":\"http://localhost:1455/auth/callback\"}"
    );
    assert_eq!(
        print_json(&account_listening(&own, &account())),
        "{\"accountId\":\"a1\",\"baseUrl\":\"http://localhost:18001/v1\",\"event\":\"account_listening\",\"port\":18001,\"provider\":\"chatgpt\",\"status\":\"active\"}"
    );
}

#[test]
fn failures_are_told() {
    assert_eq!(
        print_json(&failure("usage_refresh_failed", Some("a"), Some("p"), "m")),
        "{\"accountId\":\"a\",\"event\":\"usage_refresh_failed\",\"message\":\"m\",\"provider\":\"p\"}"
    );
    assert_eq!(
        print_json(&failure("fatal", None, None, "m")),
        "{\"event\":\"fatal\",\"message\":\"m\"}"
    );
    assert_eq!(
        bind_failure("admin dashboard", "127.0.0.1", 80, "denied"),
        "Failed to bind admin dashboard on 127.0.0.1:80: denied"
    );
    assert_eq!(stored_port(&account()), Ok(18001));
    let mut bare = account();
    bare.port = None;
    assert_eq!(stored_port(&bare), Err("Stored account a1 has no port".to_owned()));
    assert_eq!(
        port_taken(&config("x"), &account(), 18001, "taken"),
        "Stable downstream port 18001 for a1 is unavailable. Downstream agents may depend on http://localhost:18001/v1. Stop the conflicting process or edit /data/db.json.\nCause: taken"
    );
}
