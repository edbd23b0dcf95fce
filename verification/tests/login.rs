//! Tests of tokens, logins and the page that a provider sends the user back to.

use ai_proxy::callback::{callback, callback_with, login_page, unknown_state, Callback};
use ai_proxy::config::{ApiConfig, Config, OauthConfig, PortRange, Provider};
use ai_proxy::json::{parse_json, print_json, Json, JsonMap};
use ai_proxy::login::{
    authorize_parameters, begin_oauth, challenge_for, exchange_form, exchange_reply,
    exchange_reply_with, prune, retain_recent, take_pending, LoginStep, PortSearch, LOGIN_NANOS,
};
use ai_proxy::model::{Account, Database, PendingOauth};
use ai_proxy::outside::{can_append, current_time, Timestamp, UrlShape, LAST_SECOND};
use ai_proxy::tokens::{
    access_step, access_step_at, apply_token_response, can_expire, decode_jwt, error_message,
    metadata_from_tokens, must_refresh, reactivate, refresh_reply, refresh_reply_with,
    refresh_step, refresh_step_at, token_error, AccessStep, RefreshReply, RefreshStep,
};
use std::time::Instant;

fn doc(text: &str) -> Json {
    parse_json(text).unwrap()
}

fn provider() -> Provider {
    Provider {
        id: "chatgpt".to_owned(),
        label: "ChatGPT".to_owned(),
        mode: "responses-adapter".to_owned(),
        oauth: OauthConfig {
            authorize_url: "https://auth.example/authorize?x=1".to_owned(),
            token_url: "https://auth.example/token".to_owned(),
            client_id: "client".to_owned(),
            ..OauthConfig::default()
        },
        api: ApiConfig { base_url: "https://api.example/".to_owned(), ..ApiConfig::default() },
    }
}

fn config() -> Config {
    Config {
        admin_port: 17800,
        oauth_port: 1455,
        host: "127.0.0.1".to_owned(),
        public_host: "localhost".to_owned(),
        db_path: "/data/db.json".to_owned(),
        request_log_path: "/data/log".to_owned(),
        log_bodies: false,
        port_range: PortRange { start: 18001, end: 18002 },
        default_provider: "chatgpt".to_owned(),
        providers: vec![("chatgpt".to_owned(), provider())],
    }
}

fn account(access: &str, refresh: &str, expires: &str) -> Account {
    let mut account = Account::default();
    account.id = "a1".to_owned();
    account.provider = "chatgpt".to_owned();
    account.status = "active".to_owned();
    account.tokens.access_token = access.to_owned();
    account.tokens.refresh_token = refresh.to_owned();
    account.tokens.expires_at = expires.to_owned();
    account
}

fn at(secs: i64) -> Timestamp {
    Timestamp { secs, nanos: 0 }
}

/// A token with these claims, between two other parts.
fn jwt(claims: &str) -> String {
    let payload =
        base64::Engine::encode(&base64::engine::general_purpose::URL_SAFE_NO_PAD, claims);
    format!("head.{payload}.sign")
}

fn pending(provider_id: &str, reauth: Option<&str>) -> PendingOauth {
    PendingOauth {
        provider_id: provider_id.to_owned(),
        verifier: "ver".to_owned(),
        redirect_uri: "http://localhost:1455/auth/callback".to_owned(),
        reauth_account_id: reauth.map(str::to_owned),
        created_at: Instant::now(),
    }
}

#[test]
fn claims_are_read_from_a_token() {
    assert_eq!(print_json(&decode_jwt(&jwt("{\"exp\":5}")).unwrap()), "{\"exp\":5}");
    assert!(decode_jwt("one").is_none());
    assert!(decode_jwt("a.!!.c").is_none());
    assert!(decode_jwt("a.e30=.c").is_none());
    assert_eq!(print_json(&decode_jwt("a.e30").unwrap()), "{}");
    assert!(decode_jwt("a.eA.c").is_none());
}

#[test]
fn metadata_comes_from_claims() {
    let mut token = JsonMap::new();
    token.insert(
        "id_token",
        Json::text(&jwt("{\"email\":\"a@b\",\"https://api.openai.com/auth\":{\"chatgpt_user_id\":\"u\",\"chatgpt_account_id\":\"acc\",\"account_id\":\"no\",\"chatgpt_plan_type\":null},\"https://api.openai.com/profile\":{\"name\":\"N\"}}")),
    );
    token.insert("access_token", Json::text(&jwt("{\"sub\":\"s\"}")));
    let metadata = metadata_from_tokens(&Json::Object(token));
    assert_eq!(
        print_json(&Json::Object(metadata.values)),
        "{\"accountId\":\"acc\",\"email\":\"a@b\",\"profileName\":\"N\",\"userId\":\"u\"}"
    );
    let mut token = JsonMap::new();
    token.insert("access_token", Json::text(&jwt("{\"sub\":\"s\"}")));
    let metadata = metadata_from_tokens(&Json::Object(token));
    assert_eq!(print_json(&Json::Object(metadata.values)), "{\"userId\":\"s\"}");
}

#[test]
fn fresh_tokens_are_taken_over() {
    let mut known = account("old", "keep", "");
    apply_token_response(&mut known, &doc("{\"access_token\":\"new\",\"expires_in\":60}"), at(1767225600));
    assert_eq!(known.tokens.access_token, "new");
    assert_eq!(known.tokens.refresh_token, "keep");
    assert_eq!(known.tokens.token_type, "Bearer");
    assert_eq!(known.tokens.expires_at, "2026-01-01T00:01:00.000Z");
    // Without a lifetime the end is that of the access token, else fifty minutes from now.
    let mut token = JsonMap::new();
    token.insert("access_token", Json::text(&jwt("{\"exp\":1767225600}")));
    token.insert("token_type", Json::text("Other"));
    apply_token_response(&mut known, &Json::Object(token), at(0));
    assert_eq!(known.tokens.expires_at, "2026-01-01T00:00:00.000Z");
    assert_eq!(known.tokens.token_type, "Other");
    apply_token_response(&mut known, &doc("{\"access_token\":\"x\",\"id_token\":\"i\",\"refresh_token\":\"r\"}"), at(1767225600));
    assert_eq!(known.tokens.expires_at, "2026-01-01T00:50:00.000Z");
    assert_eq!(known.tokens.token_type, "Other");
    assert_eq!((known.tokens.id_token.as_str(), known.tokens.refresh_token.as_str()), ("i", "r"));
    assert!(can_expire(&doc("{\"expires_in\":60}"), at(0)));
    assert!(!can_expire(&doc("{\"expires_in\":60}"), at(LAST_SECOND)));
    assert!(!can_expire(&doc("{\"expires_in\":9223372036854775807}"), at(0)));
}

#[test]
fn errors_of_providers_are_found() {
    assert_eq!(
        token_error("{\"error_description\":\"d\",\"error\":{\"message\":\"m\"}}"),
        Some("d".to_owned())
    );
    assert_eq!(token_error("{\"error\":{\"message\":\"m\"},\"message\":\"x\"}"), Some("m".to_owned()));
    assert_eq!(token_error("{\"error\":\"e\",\"message\":\"x\"}"), Some("e".to_owned()));
    assert_eq!(token_error("{\"message\":\"x\"}"), Some("x".to_owned()));
    assert_eq!(token_error("{\"error\":{},\"message\":\"x\"}"), None);
    assert_eq!(token_error("nothing"), None);
    assert_eq!(error_message(&doc("{}")), None);
}

#[test]
fn tokens_are_refreshed_five_minutes_before_they_expire() {
    assert!(must_refresh(at(299), at(0)));
    assert!(!must_refresh(at(300), at(0)));
    assert!(must_refresh(at(300), Timestamp { secs: 0, nanos: 1 }));
    assert!(must_refresh(at(-5), at(0)));
    let soon = account("t", "r", "1970-01-01T00:04:59Z");
    assert!(matches!(access_step(Some(&soon), at(0)), AccessStep::Refresh));
    let later = account("t", "r", "1970-01-01T00:05:00Z");
    assert!(matches!(access_step(Some(&later), at(0)), AccessStep::Use));
    let fixed = account("t", "", "1970-01-01T00:00:00Z");
    assert!(matches!(access_step(Some(&fixed), at(0)), AccessStep::Use));
    let endless = account("t", "r", "never");
    assert!(matches!(access_step(Some(&endless), at(0)), AccessStep::Use));
    assert!(matches!(access_step_at(Some(&endless), Some(at(0)), at(0)), AccessStep::Refresh));
}

#[test]
fn accounts_that_cannot_be_used_are_refused() {
    match access_step(None, at(0)) {
        AccessStep::Fail(error) => {
            assert_eq!((error.status, error.message.as_str(), error.auth), (401, "Account was removed", true));
        },
        _ => panic!(),
    }
    let mut marked = account("t", "r", "");
    marked.status = "needs_reauth".to_owned();
    match access_step(Some(&marked), at(0)) {
        AccessStep::Fail(error) => assert_eq!(error.message, "Account requires re-authentication"),
        _ => panic!(),
    }
    match access_step(Some(&account("", "r", "")), at(0)) {
        AccessStep::Mark(reason, error) => {
            assert_eq!(reason, "Missing access token");
            assert_eq!(error.message, "Account is missing an access token");
            assert!(error.auth);
        },
        _ => panic!(),
    }
}

#[test]
fn a_refresh_is_asked_for() {
    let known = account("t", "r", "1970-01-01T01:00:00Z");
    assert!(matches!(refresh_step(&config(), Some(&known), false, at(0)), RefreshStep::Valid));
    match refresh_step(&config(), Some(&known), true, at(0)) {
        RefreshStep::Send(request) => {
            assert_eq!(request.url, "https://auth.example/token");
            assert_eq!(request.user_agent, "ai_proxy/0.1.0");
            assert_eq!(
                print_json(&request.body),
                "{\"client_id\":\"client\",\"grant_type\":\"refresh_token\",\"refresh_token\":\"r\"}"
            );
        },
        _ => panic!(),
    }
    assert!(matches!(
        refresh_step_at(&config(), Some(&known), Some(at(299)), false, at(0)),
        RefreshStep::Send(_)
    ));
    match refresh_step(&config(), Some(&account("t", "", "")), false, at(0)) {
        RefreshStep::Mark(reason, error) => {
            assert_eq!(reason, "Token refresh is not configured");
            assert_eq!((error.status, error.message.as_str()), (401, "Token refresh is not configured"));
        },
        _ => panic!(),
    }
    let mut stranger = account("t", "r", "");
    stranger.provider = "nobody".to_owned();
    match refresh_step(&config(), Some(&stranger), false, at(0)) {
        RefreshStep::Fail(error) => {
            assert_eq!((error.status, error.message.as_str()), (500, "Provider not configured: nobody"));
        },
        _ => panic!(),
    }
    assert!(matches!(refresh_step(&config(), None, true, at(0)), RefreshStep::Fail(_)));
}

#[test]
fn the_answer_to_a_refresh_is_read() {
    assert!(matches!(refresh_reply(200, "{\"access_token\":\"x\"}"), RefreshReply::Token(_)));
    match refresh_reply(401, "{\"error\":\"gone\"}") {
        RefreshReply::Mark(reason, error) => {
            assert_eq!(reason, "gone");
            assert_eq!((error.status, error.message.as_str(), error.auth), (401, "gone", true));
        },
        _ => panic!(),
    }
    match refresh_reply(400, "x") {
        RefreshReply::Mark(reason, _) => assert_eq!(reason, "Token refresh failed with HTTP 400"),
        _ => panic!(),
    }
    match refresh_reply(503, "x") {
        RefreshReply::Fail(error) => {
            assert_eq!((error.status, error.message.as_str()), (503, "Token refresh failed with HTTP 503"));
            assert!(!error.auth);
        },
        _ => panic!(),
    }
    match refresh_reply_with(200, Err("bad".to_owned())) {
        RefreshReply::Fail(error) => assert_eq!((error.status, error.message.as_str()), (500, "bad")),
        _ => panic!(),
    }
}

#[test]
fn a_refreshed_account_is_active() {
    let mut db = Database::empty(1);
    db.accounts.push(account("old", "keep", ""));
    db.accounts[0].port = Some(18001);
    db.mark_reauth("a1", "why", "t0");
    db.refresh_account("a1", &doc("{\"access_token\":\"new\",\"expires_in\":1}"), at(0), "t1").unwrap();
    let stored = &db.accounts[0];
    assert_eq!((stored.status.as_str(), stored.updated_at.as_str()), ("active", "t1"));
    assert_eq!(stored.last_error, None);
    assert_eq!(stored.tokens.access_token, "new");
    assert_eq!(stored.tokens.refresh_token, "keep");
    assert_eq!((stored.id.as_str(), stored.port), ("a1", Some(18001)));
    let error = db.refresh_account("nobody", &doc("{}"), at(0), "t1").unwrap_err();
    assert_eq!((error.status, error.message.as_str()), (401, "Account was removed"));
    let mut other = account("t", "r", "");
    other.last_error = Some("x".to_owned());
    reactivate(&mut other, "t2");
    assert_eq!((other.last_error, other.updated_at.as_str()), (None, "t2"));
}

#[test]
fn tokens_that_last_are_used_and_others_are_refreshed() {
    let now = Timestamp { secs: 1767225600, nanos: 999_999_999 };
    let mut db = Database::empty(1);
    db.accounts.push(account("old", "keep", ""));
    for (seconds, refreshed) in [(3600, false), (301, false), (299, true), (-5, true)] {
        let token = doc(&format!("{{\"access_token\":\"new\",\"expires_in\":{seconds}}}"));
        db.refresh_account("a1", &token, now, "t").unwrap();
        let step = access_step(Some(&db.accounts[0]), now);
        assert_eq!(matches!(step, AccessStep::Refresh), refreshed);
        assert_eq!(matches!(step, AccessStep::Use), !refreshed);
    }
    // What is written of a time is read back in milliseconds.
    assert_eq!(db.accounts[0].tokens.expires_at, "2025-12-31T23:59:55.999Z");
}

#[test]
fn the_challenge_is_the_digest_of_the_verifier() {
    // The example of RFC 7636, appendix B.
    assert_eq!(
        challenge_for("dBjftJeZ4CVP-mB92K27uhbUJU1p1r_wW1gFWFOEjXk"),
        "E9Melhoa2OwvFrEMTJguCHaoeK1t8URWbuGJSstw-cM"
    );
}

#[test]
fn a_login_begins() {
    let mut logins = Vec::new();
    let url = begin_oauth(&config(), "chatgpt", Some("a1".to_owned()), &mut logins).unwrap();
    assert_eq!(logins.len(), 1);
    let (state, login) = &logins[0];
    assert_eq!(state.len(), 43);
    assert_eq!(login.verifier.len(), 43);
    assert_eq!(login.provider_id, "chatgpt");
    assert_eq!(login.redirect_uri, "http://localhost:1455/auth/callback");
    assert_eq!(login.reauth_account_id.as_deref(), Some("a1"));
    assert_eq!(
        url,
        format!(
            "https://auth.example/authorize?x=1&response_type=code&client_id=client&redirect_uri=http%3A%2F%2Flocalhost%3A1455%2Fauth%2Fcallback&scope=openid+profile+email+offline_access&code_challenge={}&code_challenge_method=S256&state={}",
            challenge_for(&login.verifier),
            state
        )
    );
    let state = state.clone();
    assert!(take_pending(&mut logins, "other").is_none());
    assert!(take_pending(&mut logins, &state).is_some());
    assert!(take_pending(&mut logins, &state).is_none());
}

#[test]
fn a_login_needs_a_configured_provider() {
    let mut logins = Vec::new();
    let error = begin_oauth(&config(), "nobody", None, &mut logins).unwrap_err();
    assert_eq!((error.status, error.message.as_str()), (500, "Provider not configured: nobody"));
    let mut bare = config();
    bare.providers[0].1.oauth.client_id = String::new();
    let error = begin_oauth(&bare, "chatgpt", None, &mut logins).unwrap_err();
    assert_eq!(
        (error.status, error.message.as_str()),
        (400, "Provider chatgpt does not have OAuth configured")
    );
    assert!(logins.is_empty());
    let mut wrong = config();
    wrong.providers[0].1.oauth.authorize_url = "no url".to_owned();
    let error = begin_oauth(&wrong, "chatgpt", None, &mut logins).unwrap_err();
    assert_eq!((error.status, error.message.as_str()), (500, "relative URL without a base"));
    let mut long = config();
    long.providers[0].1.oauth.authorize_url = format!("https://x/{}", "a".repeat(70_000_000));
    let url = begin_oauth(&long, "chatgpt", None, &mut logins).unwrap();
    assert!(url.len() > 70_000_000 && url.contains("a?response_type=code&"));
    let mut marked = config();
    marked.providers[0].1.oauth.authorize_url = "https://x/?#end".to_owned();
    let url = begin_oauth(&marked, "chatgpt", None, &mut logins).unwrap();
    assert!(url.starts_with("https://x/?response_type=code&") && url.ends_with("#end"));
}

#[test]
fn addresses_are_counted_in_32_bits() {
    let limit = u32::MAX as usize;
    let shape = |path_end, query_end, end| UrlShape { path_end, query_end, end };
    let none = Vec::new();
    // "a=+%C3%A9&" and "b-=": ten and three bytes.
    let pairs = vec![("a".to_owned(), " é".to_owned()), ("b-".to_owned(), String::new())];
    // Without a query one is begun, and its place is counted.
    assert!(can_append(shape(limit, limit, limit), &pairs));
    assert!(!can_append(shape(limit + 1, limit + 1, limit + 1), &pairs));
    // A query that is there may be of any length.
    assert!(can_append(shape(9, limit + 1, limit + 1), &pairs));
    // A fragment is put back behind the pairs, where its place is counted again.
    assert!(can_append(shape(limit - 14, limit - 14, limit), &pairs));
    assert!(!can_append(shape(limit - 13, limit - 13, limit), &pairs));
    assert!(can_append(shape(limit - 14, limit - 13, limit), &pairs));
    assert!(can_append(shape(9, limit - 14, limit), &pairs));
    assert!(!can_append(shape(9, limit - 13, limit), &pairs));
    assert!(can_append(shape(9, limit - 1, limit), &none));
    assert!(!can_append(shape(9, limit, limit + 1), &none));
}

#[test]
fn parameters_are_those_of_the_provider() {
    let mut oauth = provider().oauth;
    oauth.scope = "s".to_owned();
    oauth.extra_authorize_params.insert("b", Json::count(1));
    oauth.extra_authorize_params.insert("a", Json::text("t"));
    let pairs: Vec<String> = authorize_parameters(&oauth, "r", "c", "st")
        .into_iter()
        .map(|pair| format!("{}={}", pair.0, pair.1))
        .collect();
    assert_eq!(
        pairs,
        vec![
            "response_type=code", "client_id=client", "redirect_uri=r", "scope=s",
            "code_challenge=c", "code_challenge_method=S256", "state=st", "a=t", "b=1",
        ]
    );
    let form: Vec<String> = exchange_form(&oauth, &pending("chatgpt", None), "co de")
        .into_iter()
        .map(|pair| format!("{}={}", pair.0, pair.1))
        .collect();
    assert_eq!(
        form,
        vec![
            "grant_type=authorization_code", "code=co de",
            "redirect_uri=http://localhost:1455/auth/callback", "client_id=client",
            "code_verifier=ver",
        ]
    );
}

#[test]
fn logins_are_forgotten_after_ten_minutes() {
    let logins = vec![
        ("a".to_owned(), pending("chatgpt", None)),
        ("b".to_owned(), pending("chatgpt", None)),
        ("c".to_owned(), pending("chatgpt", None)),
    ];
    let kept = retain_recent(logins, &vec![LOGIN_NANOS, LOGIN_NANOS - 1, 0]);
    let mut kept: Vec<(String, PendingOauth)> = kept;
    let keys: Vec<&str> = kept.iter().map(|entry| entry.0.as_str()).collect();
    assert_eq!(keys, vec!["b", "c"]);
    prune(&mut kept);
    assert_eq!(kept.len(), 2);
}

#[test]
fn the_exchange_is_answered() {
    let error = exchange_reply(403, "{}").unwrap_err();
    assert_eq!(
        (error.status, error.message.as_str()),
        (403, "OAuth token exchange failed with HTTP 403")
    );
    assert!(exchange_reply(200, "{").is_err());
    assert_eq!(print_json(&exchange_reply(201, "{\"a\":1}").unwrap()), "{\"a\":1}");
    let error = exchange_reply_with(200, Err("bad".to_owned())).unwrap_err();
    assert_eq!((error.status, error.message.as_str()), (500, "bad"));
}

fn token_of(account_id: &str) -> Json {
    let mut token = JsonMap::new();
    token.insert("access_token", Json::text("fresh"));
    token.insert("expires_in", Json::count(60));
    token.insert(
        "id_token",
        Json::text(&jwt(&format!(
            "{{\"https://api.openai.com/auth\":{{\"chatgpt_account_id\":\"{account_id}\"}}}}"
        ))),
    );
    Json::Object(token)
}

#[test]
fn a_login_is_settled() {
    let mut db = Database::empty(1);
    let mut known = account("old", "keep", "");
    known.port = Some(5);
    known.status = "needs_reauth".to_owned();
    known.metadata.values.insert("accountId", Json::text("acc"));
    known.metadata.values.insert("email", Json::text("a@b"));
    db.accounts.push(known);
    // The same account of the provider logs in again, and keeps its port.
    match db.settle_login_with(&pending("chatgpt", None), &token_of("acc"), "new".to_owned(), at(0), "t") {
        LoginStep::Known(found) => {
            assert_eq!((found.id.as_str(), found.port), ("a1", Some(5)));
            assert_eq!((found.status.as_str(), found.updated_at.as_str()), ("active", "t"));
            assert_eq!(found.tokens.access_token, "fresh");
            assert_eq!(found.tokens.refresh_token, "keep");
            assert_eq!(found.metadata.string("email"), Some("a@b"));
        },
        _ => panic!(),
    }
    // One that is asked to log in again is that one, whoever logs in.
    match db.settle_login_with(&pending("chatgpt", Some("a1")), &token_of("other"), "new".to_owned(), at(0), "t") {
        LoginStep::Known(found) => assert_eq!(found.metadata.string("accountId"), Some("other")),
        _ => panic!(),
    }
    match db.settle_login_with(&pending("chatgpt", None), &token_of("third"), "new".to_owned(), at(0), "t") {
        LoginStep::New(made) => {
            assert_eq!((made.id.as_str(), made.port), ("new", None));
            assert_eq!((made.created_at.as_str(), made.updated_at.as_str()), ("t", "t"));
            assert_eq!(made.tokens.expires_at, "1970-01-01T00:01:00.000Z");
        },
        _ => panic!(),
    }
    assert_eq!(db.accounts.len(), 1);
    match db.settle_login(&pending("chatgpt", None), &token_of("third"), current_time(), "t") {
        LoginStep::New(made) => assert_eq!(made.id.len(), 36),
        _ => panic!(),
    }
}

#[test]
fn a_new_account_gets_a_port_that_can_be_bound() {
    let mut db = Database::empty(18001);
    let range = PortRange { start: 18001, end: 18002 };
    let mut search = PortSearch::new();
    assert_eq!(search.next(&mut db, range).unwrap(), 18001);
    assert!(search.failed(18001, "address already in use").is_ok());
    assert_eq!(search.next(&mut db, range).unwrap(), 18002);
    assert!(search.failed(18002, "cause (os error 98)").is_ok());
    let error = search.next(&mut db, range).unwrap_err();
    assert_eq!(
        (error.status, error.message.as_str()),
        (500, "No downstream ports are available in the configured range")
    );
    let error = PortSearch::new().failed(1, "permission denied").unwrap_err();
    assert_eq!((error.status, error.message.as_str()), (500, "permission denied"));
    let mut made = account("t", "r", "");
    db.add_account(&mut made, 18002);
    assert_eq!(made.port, Some(18002));
    assert_eq!(db.accounts[0].port, Some(18002));
}

fn page(step: Callback) -> (u16, String) {
    match step {
        Callback::Page(status, text) => (status, text),
        _ => panic!(),
    }
}

#[test]
fn the_callback_is_read() {
    match callback(&config(), "GET", "/auth/callback?code=c%20d&state=s") {
        Callback::Exchange { code, state } => assert_eq!((code.as_str(), state.as_str()), ("c d", "s")),
        _ => panic!(),
    }
    let (status, text) = page(callback(&config(), "GET", "/"));
    assert_eq!(status, 200);
    assert!(text.contains("OAuth Redirect Listener"));
    assert!(text.contains("href=\"http://localhost:17800/\""));
    let (status, text) = page(callback(&config(), "POST", "/auth/callback"));
    assert_eq!(status, 404);
    assert!(text.contains("No OAuth route matched this request."));
    assert_eq!(page(callback(&config(), "GET", "/other")).0, 404);
    match callback(&config(), "GET", "/auth/callback?code=c") {
        Callback::Fail(error) => {
            assert_eq!(
                (error.status, error.message.as_str()),
                (400, "OAuth callback is missing code or state")
            );
        },
        _ => panic!(),
    }
    assert!(matches!(callback(&config(), "GET", "/auth/callback?state=s"), Callback::Fail(_)));
    assert_eq!(
        unknown_state().message,
        "OAuth state was not recognized. Start login again from the dashboard."
    );
}

#[test]
fn a_refused_login_is_shown_without_markup() {
    let params = vec![
        ("error".to_owned(), "<b>".to_owned()),
        ("error_description".to_owned(), "\"x\" & 'y'".to_owned()),
    ];
    let (status, text) = page(callback_with(&config(), "GET", "/auth/callback", &params));
    assert_eq!(status, 400);
    assert!(text.contains("<p>&lt;b&gt;: &quot;x&quot; &amp; &#39;y&#39;</p>"));
    let (_, text) = page(callback(&config(), "GET", "/auth/callback?error=denied"));
    assert!(text.contains("<p>denied: The provider rejected the login request.</p>"));
}

#[test]
fn a_finished_login_names_the_address() {
    let mut known = account("t", "r", "");
    known.port = Some(18001);
    known.metadata.values.insert("email", Json::text("<a>"));
    let text = login_page(&config(), &known);
    assert!(text.contains("<p>&lt;a&gt; is available at <code>http://localhost:18001/v1</code>.</p>"));
    assert!(text.contains("href=\"http://localhost:17800/?account=a1\""));
}
