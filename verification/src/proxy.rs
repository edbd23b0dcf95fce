//! Requests to the proxy: where they go, what is sent for them, how they are answered and logged.

use crate::config::{Config, Provider};
use crate::convert::{
    build_responses_request_with, call_ids_of, effort_of, law_chat_request_is_not_stored, models_view,
    normalize_models, normalize_responses_request, normalized_request, random_ids, reasoning_effort,
    responses_request, str_at_is, unnamed,
};
use crate::dashboard::{message_page, message_page_view};
use crate::errors::{
    error_document, error_view, is_success, refusal, refusal_document, success, AppError, ErrorView,
};
use crate::headers::{
    adapted, adapter_headers, filtered, filtered_headers, lemma_own_names, no_headers, text_bytes,
    Headers,
};
use crate::json::{
    items_view, json_opt_str, json_str, json_u64, no_fields, opt_string, or_default,
    parse_json_bytes, parsed_bytes, print_json, printed, Json, JsonMap, JsonView,
};
use crate::model::{account_views, Account, AccountView, TokensView};
use crate::outside::{form_pairs, is_random_id, names_of, percent_decode};
use crate::responses::{
    chat_view, collectable, collected, payloads_of, response_to_chat, try_collect_responses_events,
    unnamed_items,
};
use crate::sse::{event_views, SseEvent};
use crate::text::{
    chars_of, decimal, has_prefix, join, joined, starts_with, text_between, text_eq, texts,
};
use crate::tokens::document_view;
use crate::urls::{base_url, base_url_view, path_or, provider, provider_missing};
use vstd::prelude::*;
use vstd::string::*;

verus! {

/// The most bytes that a request may have: 20 MiB.
pub const BODY_LIMIT: usize = 20_971_520;

/// What a request to an account asks for.
#[derive(Debug)]
pub enum Route {
    /// Whether other requests are allowed.
    Options,
    /// What the account is.
    Account,
    /// The models.
    Models,
    /// The model with this identifier.
    Model(String),
    /// An answer.
    Responses,
    /// A chat completion.
    Chat,
    /// Something else.
    Unsupported,
}

/// What a request to an account asks for, as contracts speak of it.
pub enum RouteView {
    Options,
    Account,
    Models,
    Model(Seq<char>),
    Responses,
    Chat,
    Unsupported,
}

impl View for Route {
    type V = RouteView;

    open spec fn view(&self) -> RouteView {
        match self {
            Route::Options => RouteView::Options,
            Route::Account => RouteView::Account,
            Route::Models => RouteView::Models,
            Route::Model(id) => RouteView::Model(id@),
            Route::Responses => RouteView::Responses,
            Route::Chat => RouteView::Chat,
            Route::Unsupported => RouteView::Unsupported,
        }
    }
}

/// Whether a path is that of a model.
pub open spec fn is_model_path(path: Seq<char>) -> bool {
    has_prefix(path, "/v1/models/"@)
}

/// The part of a model's path that names it.
pub open spec fn model_segment(path: Seq<char>) -> Seq<char> {
    path.skip("/v1/models/"@.len() as int)
}

/// What a request to an account asks for.
pub open spec fn route_of(method: Seq<char>, path: Seq<char>) -> RouteView {
    if method == "OPTIONS"@ {
        RouteView::Options
    } else if method == "GET"@ && path == "/"@ {
        RouteView::Account
    } else if method == "GET"@ && path == "/v1/models"@ {
        RouteView::Models
    } else if method == "GET"@ && is_model_path(path) {
        RouteView::Model(names_of(form_pairs(model_segment(path))))
    } else if method == "POST"@ && path == "/v1/responses"@ {
        RouteView::Responses
    } else if method == "POST"@ && path == "/v1/chat/completions"@ {
        RouteView::Chat
    } else {
        RouteView::Unsupported
    }
}

/// The part of a model's path that names it.
fn model_name(path: &str) -> (name: String)
    requires
        is_model_path(path@),
    ensures
        name@ == model_segment(path@),
{
    let chars = chars_of(path);
    proof {
        reveal_strlit("/v1/models/");
        assert("/v1/models/"@.len() == 11);
    }
    let name = text_between(&chars, 11, chars.len());
    assert(name@ =~= model_segment(path@));
    name
}

/// What a request to an account asks for.
pub fn route(method: &str, path: &str) -> (route: Route)
    ensures
        route@ == route_of(method@, path@),
{
    if text_eq(method, "OPTIONS") {
        return Route::Options;
    }
    if text_eq(method, "GET") {
        if text_eq(path, "/") {
            return Route::Account;
        }
        if text_eq(path, "/v1/models") {
            return Route::Models;
        }
        if starts_with(path, "/v1/models/") {
            let name = model_name(path);
            return Route::Model(percent_decode(name.as_str()));
        }
    }
    if text_eq(method, "POST") {
        if text_eq(path, "/v1/responses") {
            return Route::Responses;
        }
        if text_eq(path, "/v1/chat/completions") {
            return Route::Chat;
        }
    }
    Route::Unsupported
}

/// Whether a request may be about a model, and its body says which.
pub open spec fn names_model(method: Seq<char>, path: Seq<char>) -> bool {
    method == "POST"@ && (path == "/v1/responses"@ || path == "/v1/chat/completions"@)
}

/// Whether a request may be about a model, and its body says which.
pub fn has_model(method: &str, path: &str) -> (result: bool)
    ensures
        result == names_model(method@, path@),
{
    text_eq(method, "POST") && (text_eq(path, "/v1/responses") || text_eq(
        path,
        "/v1/chat/completions",
    ))
}

/// Whether the usage of an account is refreshed after a request.
pub open spec fn refreshes(method: Seq<char>, path: Seq<char>) -> bool {
    (method == "GET"@ && (path == "/v1/models"@ || is_model_path(path))) || names_model(method, path)
}

/// Whether the usage of an account is refreshed after a request.
pub fn refreshes_usage(method: &str, path: &str) -> (result: bool)
    ensures
        result == refreshes(method@, path@),
{
    (text_eq(method, "GET") && (text_eq(path, "/v1/models") || starts_with(path, "/v1/models/")))
        || has_model(method, path)
}

/// Usage is refreshed after every request to a supported endpoint, and after no other.
pub proof fn law_supported_requests_refresh_usage(method: Seq<char>, path: Seq<char>)
    ensures
        refreshes(method, path) <==> match route_of(method, path) {
            RouteView::Models => true,
            RouteView::Model(_) => true,
            RouteView::Responses => true,
            RouteView::Chat => true,
            _ => false,
        },
{
    reveal_strlit("OPTIONS");
    reveal_strlit("GET");
    reveal_strlit("POST");
    reveal_strlit("/");
    reveal_strlit("/v1/models");
    reveal_strlit("/v1/models/");
    assert("OPTIONS"@.len() == 7 && "GET"@.len() == 3 && "POST"@.len() == 4);
    assert("/"@.len() == 1 && "/v1/models"@.len() == 10 && "/v1/models/"@.len() == 11);
}

/// What is shown of an account to others: nothing of its tokens.
pub open spec fn public_view(config: Config, account: AccountView) -> JsonView {
    let label = match config.provider(account.provider) {
        Some(provider) => if provider.label@.len() == 0 {
            account.provider
        } else {
            provider.label@
        },
        None => account.provider,
    };
    JsonView::Object(
        no_fields().insert("id"@, json_str(account.id)).insert(
            "provider"@,
            json_str(account.provider),
        ).insert("label"@, json_str(label)).insert("status"@, json_str(account.status)).insert(
            "port"@,
            json_opt_port(account.port),
        ).insert("baseUrl"@, json_str(base_url_view(config.public_host@, account))).insert(
            "metadata"@,
            JsonView::Object(account.metadata),
        ).insert("lastRequestAt"@, json_opt_str(account.last_request_at)).insert(
            "lastStatus"@,
            json_opt_port(account.last_status),
        ).insert("lastError"@, json_opt_str(account.last_error)).insert(
            "createdAt"@,
            json_str(account.created_at),
        ).insert("updatedAt"@, json_str(account.updated_at)),
    )
}

/// A document that is one number, or null.
pub open spec fn json_opt_port(number: Option<u16>) -> JsonView {
    match number {
        Some(number) => json_u64(number as u64),
        None => JsonView::Null,
    }
}

/// A document that is one number, or null.
pub fn opt_number(number: Option<u16>) -> (json: Json)
    ensures
        json@ == json_opt_port(number),
{
    match number {
        Some(number) => Json::count(number as u64),
        None => Json::Null,
    }
}

/// A document that is one text, or null.
fn opt_owned(text: &Option<String>) -> (json: Json)
    ensures
        json@ == json_opt_str(opt_string(*text)),
{
    match text {
        Some(text) => Json::text(text.as_str()),
        None => Json::Null,
    }
}

/// What is shown of an account to others: nothing of its tokens.
pub fn public_account(config: &Config, account: &Account) -> (shown: Json)
    ensures
        shown@ == public_view(*config, account@),
{
    let label = match config.find_provider(account.provider.as_str()) {
        Some(provider) => if provider.label.as_str().is_empty() {
            account.provider.as_str()
        } else {
            provider.label.as_str()
        },
        None => account.provider.as_str(),
    };
    let mut map = JsonMap::new();
    map.insert("id", Json::text(account.id.as_str()));
    map.insert("provider", Json::text(account.provider.as_str()));
    map.insert("label", Json::text(label));
    map.insert("status", Json::text(account.status.as_str()));
    map.insert("port", opt_number(account.port));
    map.insert("baseUrl", Json::String(base_url(config, account)));
    map.insert("metadata", Json::Object(account.metadata.values.clone()));
    map.insert("lastRequestAt", opt_owned(&account.last_request_at));
    map.insert("lastStatus", opt_number(account.last_status));
    map.insert("lastError", opt_owned(&account.last_error));
    map.insert("createdAt", Json::text(account.created_at.as_str()));
    map.insert("updatedAt", Json::text(account.updated_at.as_str()));
    Json::Object(map)
}

/// What is shown of an account does not depend on its tokens.
pub proof fn law_tokens_are_not_shown(
    config: Config,
    account: AccountView,
    tokens: TokensView,
)
    ensures
        public_view(config, AccountView { tokens, ..account }) == public_view(config, account),
{
}

/// What is shown of accounts to others.
pub open spec fn public_views(config: Config, accounts: Seq<AccountView>) -> Seq<JsonView> {
    accounts.map_values(|account: AccountView| public_view(config, account))
}

/// The list of accounts as others see it.
pub fn accounts_document(config: &Config, accounts: &Vec<Account>) -> (document: Json)
    ensures
        document@ == JsonView::Object(
            no_fields().insert(
                "accounts"@,
                JsonView::Array(public_views(*config, account_views(accounts@))),
            ),
        ),
{
    let ghost all = account_views(accounts@);
    let mut list: Vec<Json> = Vec::new();
    let mut i: usize = 0;
    while i < accounts.len()
        invariant
            i <= accounts@.len(),
            all == account_views(accounts@),
            list@.len() == i,
            forall|j: int| 0 <= j < i ==> (#[trigger] list@[j])@ == public_view(*config, all[j]),
        decreases accounts@.len() - i,
    {
        list.push(public_account(config, &accounts[i]));
        i = i + 1;
    }
    assert(items_view(list@) =~= public_views(*config, all));
    let mut map = JsonMap::new();
    map.insert("accounts", Json::Array(list));
    Json::Object(map)
}

/// What an account answers when it is asked what it is.
pub open spec fn account_document(config: Config, account: AccountView) -> JsonView {
    JsonView::Object(
        no_fields().insert("object"@, json_str("ai_proxy.account"@)).insert(
            "account"@,
            public_view(config, account),
        ).insert("primaryEndpoint"@, json_str("/v1/responses"@)).insert(
            "endpoints"@,
            JsonView::Array(
                seq![
                    json_str("/v1/models"@),
                    json_str("/v1/responses"@),
                    json_str("/v1/chat/completions"@),
                ],
            ),
        ),
    )
}

/// What an account answers when it is asked what it is.
pub fn describe_account(config: &Config, account: &Account) -> (document: Json)
    ensures
        document@ == account_document(*config, account@),
{
    let mut endpoints: Vec<Json> = Vec::new();
    endpoints.push(Json::text("/v1/models"));
    endpoints.push(Json::text("/v1/responses"));
    endpoints.push(Json::text("/v1/chat/completions"));
    assert(items_view(endpoints@) =~= seq![
        json_str("/v1/models"@),
        json_str("/v1/responses"@),
        json_str("/v1/chat/completions"@),
    ]);
    let mut map = JsonMap::new();
    map.insert("object", Json::text("ai_proxy.account"));
    map.insert("account", public_account(config, account));
    map.insert("primaryEndpoint", Json::text("/v1/responses"));
    map.insert("endpoints", Json::Array(endpoints));
    Json::Object(map)
}

/// The document that says that an endpoint is not supported.
pub fn unsupported_endpoint(method: &str, path: &str) -> (document: Json)
    ensures
        document@ == refusal_document("Unsupported endpoint: "@ + method@ + " "@ + path@),
{
    let mut message = "Unsupported endpoint: ".to_owned();
    message.append(method);
    message.append(" ");
    message.append(path);
    refusal(message.as_str())
}

/// An answer that the proxy makes itself.
#[derive(Debug)]
pub struct HttpReply {
    pub status: u16,
    pub headers: Headers,
    pub body: String,
}

/// The headers of a document.
pub open spec fn json_headers() -> Map<Seq<char>, Seq<u8>> {
    Map::empty().insert("content-type"@, text_bytes("application/json; charset=utf-8"@)).insert(
        "access-control-allow-origin"@,
        text_bytes("*"@),
    )
}

/// An answer that is a document, on one line.
pub fn json_response(status: u16, document: &Json) -> (reply: HttpReply)
    ensures
        reply.status == status,
        reply.headers@ == json_headers(),
        reply.body@ == printed(document@) + "\n"@,
{
    proof {
        lemma_own_names();
    }
    let mut headers = Headers::new();
    headers.insert_text("content-type", "application/json; charset=utf-8");
    headers.insert_text("access-control-allow-origin", "*");
    let mut body = print_json(document);
    body.append("\n");
    HttpReply { status, headers, body }
}

/// The answer to a request that failed.
pub fn error_response(error: &AppError) -> (reply: HttpReply)
    ensures
        reply.status == error.status,
        reply.headers@ == json_headers(),
        reply.body@ == printed(error_document(error@)) + "\n"@,
{
    json_response(error.status, &error.document())
}

/// The answer that allows other requests.
pub open spec fn is_cors_empty(reply: HttpReply) -> bool {
    &&& reply.status == 204
    &&& reply.headers@ == no_headers().insert(
        "access-control-allow-origin"@,
        text_bytes("*"@),
    ).insert("access-control-allow-methods"@, text_bytes("GET,POST,OPTIONS"@)).insert(
        "access-control-allow-headers"@,
        text_bytes("authorization,content-type,openai-organization,openai-project"@),
    ).insert("access-control-max-age"@, text_bytes("86400"@))
    &&& reply.body@ == Seq::<char>::empty()
}

/// The answer to the question whether other requests are allowed: they are.
pub fn cors_empty() -> (reply: HttpReply)
    ensures
        is_cors_empty(reply),
{
    proof {
        lemma_own_names();
    }
    let mut headers = Headers::new();
    headers.insert_text("access-control-allow-origin", "*");
    headers.insert_text("access-control-allow-methods", "GET,POST,OPTIONS");
    headers.insert_text(
        "access-control-allow-headers",
        "authorization,content-type,openai-organization,openai-project",
    );
    headers.insert_text("access-control-max-age", "86400");
    let body = String::new();
    assert(body@ =~= Seq::<char>::empty());
    HttpReply { status: 204, headers, body }
}

/// An answer that is a page.
pub open spec fn is_page(reply: HttpReply, status: u16, page: Seq<char>) -> bool {
    &&& reply.status == status
    &&& reply.headers@ == no_headers().insert(
        "content-type"@,
        text_bytes("text/html; charset=utf-8"@),
    )
    &&& reply.body@ == page
}

/// An answer that is a page.
pub fn page_response(status: u16, page: String) -> (reply: HttpReply)
    ensures
        is_page(reply, status, page@),
{
    proof {
        lemma_own_names();
    }
    let mut headers = Headers::new();
    headers.insert_text("content-type", "text/html; charset=utf-8");
    HttpReply { status, headers, body: page }
}

/// The answer of the dashboard to a request for something that it does not have.
pub fn admin_not_found(method: &str) -> (reply: HttpReply)
    ensures
        method@ == "OPTIONS"@ ==> is_cors_empty(reply),
        method@ != "OPTIONS"@ ==> is_page(
            reply,
            404,
            message_page_view("Not found"@, "No admin route matched this request."@, "/"@),
        ),
{
    if text_eq(method, "OPTIONS") {
        return cors_empty();
    }
    page_response(
        404,
        message_page("Not found", "No admin route matched this request.", "/"),
    )
}

/// The headers of a stream of events that the proxy makes itself.
pub fn stream_headers() -> (headers: Headers)
    ensures
        headers@ == no_headers().insert(
            "content-type"@,
            text_bytes("text/event-stream; charset=utf-8"@),
        ).insert("cache-control"@, text_bytes("no-cache, no-transform"@)).insert(
            "connection"@,
            text_bytes("keep-alive"@),
        ).insert("access-control-allow-origin"@, text_bytes("*"@)).insert(
            "x-accel-buffering"@,
            text_bytes("no"@),
        ),
{
    proof {
        lemma_own_names();
    }
    let mut headers = Headers::new();
    headers.insert_text("content-type", "text/event-stream; charset=utf-8");
    headers.insert_text("cache-control", "no-cache, no-transform");
    headers.insert_text("connection", "keep-alive");
    headers.insert_text("access-control-allow-origin", "*");
    headers.insert_text("x-accel-buffering", "no");
    headers
}

/// Whether a request that was answered with this status is sent once more with fresh tokens: the
/// first answer says that the token is not good, and there is a refresh token.
pub open spec fn tries_again(status: u16, attempt: nat, refresh_token: Seq<char>) -> bool {
    status == 401 && attempt == 0 && refresh_token.len() > 0
}

/// Whether a request that was answered with this status is sent once more with fresh tokens.
pub fn must_retry(status: u16, attempt: usize, account: &Account) -> (retry: bool)
    ensures
        retry == tries_again(status, attempt as nat, account@.tokens.refresh_token),
{
    status == 401 && attempt == 0 && !account.tokens.refresh_token.as_str().is_empty()
}

/// Where the models of a provider are asked for, or an error.
pub open spec fn models_path_of(config: Config, provider_id: Seq<char>) -> Result<
    Seq<char>,
    ErrorView,
> {
    match config.provider(provider_id) {
        None => Err(provider_missing(provider_id)),
        Some(provider) => Ok(path_or(provider.api.models_path@, "/models"@)),
    }
}

/// `path`, or `default` if it is empty.
fn own_path(path: &str, default: &str) -> (result: String)
    ensures
        result@ == path_or(path@, default@),
{
    if path.is_empty() {
        default.to_owned()
    } else {
        path.to_owned()
    }
}

/// Where the models of an account's provider are asked for, or an error.
pub fn models_path(config: &Config, account: &Account) -> (result: Result<String, AppError>)
    ensures
        models_path_of(*config, account@.provider) == (match result {
            Ok(path) => Ok::<Seq<char>, ErrorView>(path@),
            Err(error) => Err::<Seq<char>, ErrorView>(error@),
        }),
{
    match provider(config, account.provider.as_str()) {
        Ok(provider) => Ok(own_path(provider.api.models_path.as_str(), "/models")),
        Err(error) => Err(error),
    }
}

/// The models list that a provider's answer gives, or an error, with what reading it as JSON gives.
pub open spec fn models_reply_of(document: Result<JsonView, Seq<char>>) -> Result<
    JsonView,
    ErrorView,
> {
    match document {
        Ok(upstream) => Ok(models_view(upstream)),
        Err(message) => Err(
            error_view(500, "Upstream models returned invalid JSON: "@ + message),
        ),
    }
}

/// The models list that a provider's answer gives, or an error, with what reading it as JSON gives.
pub fn models_reply_with(document: Result<Json, String>) -> (result: Result<Json, AppError>)
    ensures
        models_reply_of(document_view(document)) == (match result {
            Ok(list) => Ok::<JsonView, ErrorView>(list@),
            Err(error) => Err::<JsonView, ErrorView>(error@),
        }),
{
    match document {
        Ok(upstream) => Ok(normalize_models(&upstream)),
        Err(error) => {
            let mut message = "Upstream models returned invalid JSON: ".to_owned();
            message.append(error.as_str());
            Err(AppError::internal(message.as_str()))
        },
    }
}

/// The models list that a provider's answer gives, or an error.
pub fn models_reply(bytes: &[u8]) -> (result: Result<Json, AppError>)
    ensures
        models_reply_of(parsed_bytes(bytes@)) == (match result {
            Ok(list) => Ok::<JsonView, ErrorView>(list@),
            Err(error) => Err::<JsonView, ErrorView>(error@),
        }),
{
    models_reply_with(parse_json_bytes(bytes))
}

/// The first model from `i` on with this identifier.
pub open spec fn model_at(models: Seq<JsonView>, id: Seq<char>, i: int) -> Option<JsonView>
    decreases models.len() - i,
{
    if i >= models.len() {
        None
    } else if models[i].str_at("id"@) == Some(id) {
        Some(models[i])
    } else {
        model_at(models, id, i + 1)
    }
}

/// The answer to the question for one model of a list: the model, or that there is none.
pub open spec fn model_reply_of(list: JsonView, id: Seq<char>) -> (u16, JsonView) {
    match model_at(list.items_at("data"@), id, 0) {
        Some(model) => (200, model),
        None => (404, refusal_document("Model not found: "@ + id)),
    }
}

/// The answer to the question for one model of a list: the model, or that there is none.
pub fn model_reply(list: &Json, id: &str) -> (reply: (u16, Json))
    ensures
        (reply.0, reply.1@) == model_reply_of(list@, id@),
{
    if let Some(models) = list.array_at("data") {
        let ghost all = items_view(models@);
        let mut i: usize = 0;
        while i < models.len()
            invariant
                i <= models@.len(),
                all == items_view(models@),
                list@.items_at("data"@) == all,
                model_at(all, id@, 0) == model_at(all, id@, i as int),
            decreases models@.len() - i,
        {
            assert(all[i as int] == models@[i as int]@);
            if str_at_is(&models[i], "id", id) {
                return (200, models[i].clone());
            }
            i = i + 1;
        }
    }
    let mut message = "Model not found: ".to_owned();
    message.append(id);
    (404, refusal(message.as_str()))
}

/// The answer that the kinds and payloads of a provider's events make up, or an error.
pub open spec fn answer_of(payloads: Seq<(Seq<char>, JsonView)>) -> Result<JsonView, ErrorView> {
    match collected(payloads) {
        Ok(answer) => Ok(answer),
        Err(message) => Err(error_view(502, message)),
    }
}

/// The answer that the events of a provider make up, or an error; nothing if an event does not fit
/// what those before it have given.
pub fn answer_reply(events: Vec<SseEvent>) -> (result: Option<Result<Json, AppError>>)
    ensures
        result is Some == collectable(payloads_of(event_views(events@))),
        result matches Some(outcome) ==> answer_of(payloads_of(event_views(events@))) == (
        match outcome {
            Ok(answer) => Ok::<JsonView, ErrorView>(answer@),
            Err(error) => Err::<JsonView, ErrorView>(error@),
        }),
{
    match try_collect_responses_events(events) {
        Some(Ok(answer)) => Some(Ok(answer)),
        Some(Err(message)) => Some(Err(AppError::new(502, message.as_str()))),
        None => None,
    }
}

/// Whether a document is the chat completion that an answer is, with random identifiers where it has
/// none.
pub open spec fn is_chat_of(chat: JsonView, answer: JsonView, model: Seq<char>) -> bool {
    exists|ids: Seq<Seq<char>>, id: Seq<char>, created: i64|
        {
            &&& ids.len() == unnamed_items(answer.items_at("output"@))
            &&& random_ids(ids, "call"@)
            &&& is_random_id(id, "chatcmpl"@)
            &&& created >= 0
            &&& chat == #[trigger] chat_view(answer, model, ids, id, created)
        }
}

/// The chat completion that the events of a provider make up, or an error; nothing if an event does
/// not fit what those before it have given.
pub fn chat_reply(events: Vec<SseEvent>, model: &str) -> (result: Option<Result<Json, AppError>>)
    ensures
        result is Some == collectable(payloads_of(event_views(events@))),
        result matches Some(outcome) ==> (match answer_of(payloads_of(event_views(events@))) {
            Ok(answer) => outcome matches Ok(chat) && is_chat_of(chat@, answer, model@),
            Err(error) => outcome matches Err(own) && own@ == error,
        }),
{
    match answer_reply(events) {
        Some(Ok(answer)) => Some(Ok(response_to_chat(&answer, model))),
        Some(Err(error)) => Some(Err(error)),
        None => None,
    }
}

/// What is done for a request that needs a provider's answer.
#[derive(Debug)]
pub enum Plan {
    /// It is refused with this status and document.
    Refuse(u16, Json),
    /// The body is sent on as it is, to this path with these headers, and the answer is handed back.
    Forward { path: String, headers: Headers },
    /// This body is sent in its place, and the answer is turned into what was asked for, as a stream
    /// or whole. The model is the one that was asked for.
    Adapt { path: String, headers: Headers, body: String, stream: bool, model: String },
}

/// What is done for a request, as contracts speak of it.
pub enum PlanView {
    Refuse(u16, JsonView),
    Forward { path: Seq<char>, headers: Map<Seq<char>, Seq<u8>> },
    Adapt {
        path: Seq<char>,
        headers: Map<Seq<char>, Seq<u8>>,
        body: Seq<char>,
        stream: bool,
        model: Seq<char>,
    },
}

impl View for Plan {
    type V = PlanView;

    open spec fn view(&self) -> PlanView {
        match self {
            Plan::Refuse(status, document) => PlanView::Refuse(*status, document@),
            Plan::Forward { path, headers } => PlanView::Forward {
                path: path@,
                headers: headers@,
            },
            Plan::Adapt { path, headers, body, stream, model } => PlanView::Adapt {
                path: path@,
                headers: headers@,
                body: body@,
                stream: *stream,
                model: model@,
            },
        }
    }
}

/// A plan or an error, as contracts speak of it.
pub open spec fn plan_outcome(result: Result<Plan, AppError>) -> Result<PlanView, ErrorView> {
    match result {
        Ok(plan) => Ok(plan@),
        Err(error) => Err(error@),
    }
}

/// The model that a request asks for.
pub open spec fn requested_model(document: JsonView) -> Seq<char> {
    or_default(document.str_at("model"@), "unknown"@)
}

/// The model that a request asks for.
fn model_of(document: &Json) -> (model: String)
    ensures
        model@ == requested_model(document@),
{
    match document.str_at("model") {
        Some(model) => model.to_owned(),
        None => "unknown".to_owned(),
    }
}

/// What is done for a request for an answer, with what reading its body as JSON gives.
pub open spec fn responses_plan_of(
    config: Config,
    provider_id: Seq<char>,
    headers: Seq<(String, Vec<u8>)>,
    document: Result<JsonView, Seq<char>>,
) -> Result<PlanView, ErrorView> {
    match config.provider(provider_id) {
        None => Err(provider_missing(provider_id)),
        Some(provider) => if provider.mode@ != "responses-adapter"@ {
            if provider.api.responses_path@.len() == 0 {
                Ok(
                    PlanView::Refuse(
                        404,
                        refusal_document("Provider does not expose a Responses endpoint"@),
                    ),
                )
            } else {
                Ok(
                    PlanView::Forward {
                        path: provider.api.responses_path@,
                        headers: filtered(headers),
                    },
                )
            }
        } else {
            match document {
                Err(_) => Err(error_view(400, "Request body must be valid JSON"@)),
                Ok(body) => Ok(
                    PlanView::Adapt {
                        path: path_or(provider.api.responses_path@, "/responses"@),
                        headers: adapted(headers),
                        body: printed(normalized_request(body)),
                        stream: body.bool_at("stream"@),
                        model: requested_model(body),
                    },
                ),
            }
        },
    }
}

/// What is done for a request for an answer, with what reading its body as JSON gives.
pub fn responses_plan_with(
    config: &Config,
    account: &Account,
    headers: &Vec<(String, Vec<u8>)>,
    document: Result<Json, String>,
) -> (result: Result<Plan, AppError>)
    ensures
        plan_outcome(result) == responses_plan_of(
            *config,
            account@.provider,
            headers@,
            document_view(document),
        ),
{
    let provider = match provider(config, account.provider.as_str()) {
        Ok(provider) => provider,
        Err(error) => {
            return Err(error);
        },
    };
    if !text_eq(provider.mode.as_str(), "responses-adapter") {
        if provider.api.responses_path.as_str().is_empty() {
            return Ok(
                Plan::Refuse(404, refusal("Provider does not expose a Responses endpoint")),
            );
        }
        return Ok(
            Plan::Forward {
                path: provider.api.responses_path.clone(),
                headers: filtered_headers(headers),
            },
        );
    }
    match document {
        Err(_) => Err(AppError::new(400, "Request body must be valid JSON")),
        Ok(body) => Ok(
            Plan::Adapt {
                path: own_path(provider.api.responses_path.as_str(), "/responses"),
                headers: adapter_headers(headers),
                body: print_json(&normalize_responses_request(&body)),
                stream: body.bool_at("stream"),
                model: model_of(&body),
            },
        ),
    }
}

/// What is done for a request for an answer: a provider that speaks the language of Responses is sent
/// a normalized request, any other the request as it came.
pub fn responses_plan(
    config: &Config,
    account: &Account,
    headers: &Vec<(String, Vec<u8>)>,
    bytes: &[u8],
) -> (result: Result<Plan, AppError>)
    ensures
        plan_outcome(result) == responses_plan_of(
            *config,
            account@.provider,
            headers@,
            parsed_bytes(bytes@),
        ),
{
    responses_plan_with(config, account, headers, parse_json_bytes(bytes))
}

/// The message for a chat with content that is not supported.
pub open spec fn unsupported_message(kinds: Seq<Seq<char>>) -> Seq<char> {
    "Only text chat content is supported for now. Unsupported content: "@ + joined(kinds, ", "@)
}

/// The request for a chat, always as a stream.
pub open spec fn streamed(request: JsonView) -> JsonView {
    JsonView::Object(
        or_default(request.object(), no_fields()).insert("stream"@, JsonView::Bool(true)),
    )
}

/// What is done for a request for a chat completion, with what reading its body as JSON gives. Tool
/// calls without an identifier are given those of `ids`.
pub open spec fn chat_plan_of(
    config: Config,
    provider_id: Seq<char>,
    headers: Seq<(String, Vec<u8>)>,
    document: Result<JsonView, Seq<char>>,
    ids: Seq<Seq<char>>,
) -> Result<PlanView, ErrorView> {
    match config.provider(provider_id) {
        None => Err(provider_missing(provider_id)),
        Some(provider) => if provider.mode@ == "chat-passthrough"@ {
            Ok(
                PlanView::Forward {
                    path: or_default(
                        opt_string(provider.api.chat_completions_path),
                        "/chat/completions"@,
                    ),
                    headers: filtered(headers),
                },
            )
        } else if provider.mode@ != "responses-adapter"@ {
            Err(error_view(500, "Unsupported provider mode: "@ + provider.mode@))
        } else {
            match document {
                Err(_) => Err(error_view(400, "Request body must be valid JSON"@)),
                Ok(chat) => match responses_request(chat, ids) {
                    Err(kinds) => Err(error_view(400, unsupported_message(kinds))),
                    Ok(request) => Ok(
                        PlanView::Adapt {
                            path: path_or(provider.api.responses_path@, "/responses"@),
                            headers: adapted(headers),
                            body: printed(streamed(request)),
                            stream: chat.bool_at("stream"@),
                            model: requested_model(chat),
                        },
                    ),
                },
            }
        },
    }
}

/// The chat that a body holds, where there is one.
pub open spec fn chat_of(document: Result<JsonView, Seq<char>>) -> JsonView {
    match document {
        Ok(chat) => chat,
        Err(_) => JsonView::Null,
    }
}

/// What is done for a chat at a provider that speaks the language of Responses, once its request is
/// made.
fn adapt_chat(
    provider: &Provider,
    headers: &Vec<(String, Vec<u8>)>,
    chat: &Json,
    made: Result<Json, Vec<String>>,
) -> (result: Result<Plan, AppError>)
    ensures
        match made {
            Err(kinds) => result matches Err(error) && error@ == error_view(
                400,
                unsupported_message(texts(kinds@)),
            ),
            Ok(request) => result matches Ok(plan) && plan@ == (PlanView::Adapt {
                path: path_or(provider.api.responses_path@, "/responses"@),
                headers: adapted(headers@),
                body: printed(streamed(request@)),
                stream: chat@.bool_at("stream"@),
                model: requested_model(chat@),
            }),
        },
{
    let request = match made {
        Ok(request) => request,
        Err(kinds) => {
            let mut message = "Only text chat content is supported for now. Unsupported content: ".to_owned();
            message.append(join(&kinds, ", ").as_str());
            return Err(AppError::new(400, message.as_str()));
        },
    };
    let mut fields = match request {
        Json::Object(fields) => fields,
        _ => JsonMap::new(),
    };
    fields.insert("stream", Json::Bool(true));
    Ok(
        Plan::Adapt {
            path: own_path(provider.api.responses_path.as_str(), "/responses"),
            headers: adapter_headers(headers),
            body: print_json(&Json::Object(fields)),
            stream: chat.bool_at("stream"),
            model: model_of(chat),
        },
    )
}

/// What is done for a request for a chat completion, with what reading its body as JSON gives. Tool
/// calls without an identifier are given those of `ids`.
pub fn chat_plan_with(
    config: &Config,
    account: &Account,
    headers: &Vec<(String, Vec<u8>)>,
    document: Result<Json, String>,
    ids: &Vec<String>,
) -> (result: Result<Plan, AppError>)
    requires
        unnamed(chat_of(document_view(document)).items_at("messages"@)) <= ids@.len(),
    ensures
        plan_outcome(result) == chat_plan_of(
            *config,
            account@.provider,
            headers@,
            document_view(document),
            texts(ids@),
        ),
{
    let provider = match provider(config, account.provider.as_str()) {
        Ok(provider) => provider,
        Err(error) => {
            return Err(error);
        },
    };
    if let Some(plan) = forward_chat(provider, headers) {
        return plan;
    }
    proof {
        reveal_strlit("chat-passthrough");
        reveal_strlit("responses-adapter");
        assert("chat-passthrough"@.len() != "responses-adapter"@.len());
    }
    match document {
        Err(_) => Err(AppError::new(400, "Request body must be valid JSON")),
        Ok(chat) => {
            let made = build_responses_request_with(&chat, ids);
            adapt_chat(provider, headers, &chat, made)
        },
    }
}

/// What is done for a chat at a provider that does not speak the language of Responses; nothing at
/// one that does.
fn forward_chat(provider: &Provider, headers: &Vec<(String, Vec<u8>)>) -> (plan: Option<
    Result<Plan, AppError>,
>)
    ensures
        plan is None == (provider.mode@ == "responses-adapter"@),
        plan matches Some(result) ==> plan_outcome(result) == (if provider.mode@
            == "chat-passthrough"@ {
            Ok::<PlanView, ErrorView>(
                PlanView::Forward {
                    path: or_default(
                        opt_string(provider.api.chat_completions_path),
                        "/chat/completions"@,
                    ),
                    headers: filtered(headers@),
                },
            )
        } else {
            Err::<PlanView, ErrorView>(
                error_view(500, "Unsupported provider mode: "@ + provider.mode@),
            )
        }),
{
    proof {
        reveal_strlit("chat-passthrough");
        reveal_strlit("responses-adapter");
        assert("chat-passthrough"@.len() != "responses-adapter"@.len());
    }
    if text_eq(provider.mode.as_str(), "chat-passthrough") {
        let path = match &provider.api.chat_completions_path {
            Some(path) => path.clone(),
            None => "/chat/completions".to_owned(),
        };
        return Some(Ok(Plan::Forward { path, headers: filtered_headers(headers) }));
    }
    if !text_eq(provider.mode.as_str(), "responses-adapter") {
        let mut message = "Unsupported provider mode: ".to_owned();
        message.append(provider.mode.as_str());
        return Some(Err(AppError::internal(message.as_str())));
    }
    None
}

/// What is done for a request for a chat completion: a provider that speaks the language of Responses
/// is sent the chat in that language, one that speaks the language of chats the request as it came.
pub fn chat_plan(
    config: &Config,
    account: &Account,
    headers: &Vec<(String, Vec<u8>)>,
    bytes: &[u8],
) -> (result: Result<Plan, AppError>)
    ensures
        exists|ids: Seq<Seq<char>>|
            {
                &&& random_ids(ids, "call"@)
                &&& ids.len() == unnamed(chat_of(parsed_bytes(bytes@)).items_at("messages"@))
                &&& plan_outcome(result) == #[trigger] chat_plan_of(
                    *config,
                    account@.provider,
                    headers@,
                    parsed_bytes(bytes@),
                    ids,
                )
            },
{
    let document = parse_json_bytes(bytes);
    let none = Json::Null;
    let ids = call_ids_of(
        match &document {
            Ok(chat) => chat,
            Err(_) => &none,
        },
    );
    chat_plan_with(config, account, headers, document, &ids)
}

/// What is done with a provider's answer to a request that was sent in place of a client's.
#[derive(Debug, Clone, Copy, PartialEq, Eq, Structural)]
pub enum Answering {
    /// The provider refuses: its answer is handed back as it is.
    Refusal,
    /// Its events are handed back as they come.
    Events,
    /// Its events are turned into those of a chat as they come.
    ChatEvents,
    /// Its events are put together into one answer.
    Answer,
    /// Its events are put together into one chat completion.
    Chat,
}

/// What is done with a provider's answer: by its status, by whether the client wants a stream, and by
/// whether it wants a chat completion.
pub open spec fn answering_of(status: u16, stream: bool, chat: bool) -> Answering {
    if !is_success(status) {
        Answering::Refusal
    } else if stream {
        if chat {
            Answering::ChatEvents
        } else {
            Answering::Events
        }
    } else {
        if chat {
            Answering::Chat
        } else {
            Answering::Answer
        }
    }
}

/// What is done with a provider's answer: by its status, by whether the client wants a stream, and by
/// whether it wants a chat completion.
pub fn answering(status: u16, stream: bool, chat: bool) -> (way: Answering)
    ensures
        way == answering_of(status, stream, chat),
{
    if !success(status) {
        return Answering::Refusal;
    }
    match (stream, chat) {
        (true, true) => Answering::ChatEvents,
        (true, false) => Answering::Events,
        (false, true) => Answering::Chat,
        (false, false) => Answering::Answer,
    }
}

/// What a request that was made from a chat asks of the provider: nothing is stored, and the answer is
/// streamed, whatever the client wants.
pub proof fn law_chats_are_streamed_and_not_stored(chat: JsonView, ids: Seq<Seq<char>>)
    requires
        responses_request(chat, ids) is Ok,
    ensures
        streamed(responses_request(chat, ids)->Ok_0).get("store"@) == Some(JsonView::Bool(false)),
        streamed(responses_request(chat, ids)->Ok_0).get("stream"@) == Some(JsonView::Bool(true)),
{
    law_chat_request_is_not_stored(chat, ids);
    reveal_strlit("store");
    reveal_strlit("stream");
    assert("store"@.len() != "stream"@.len());
}

/// What the body of a request says of the model and the effort that it asks for, with what reading it
/// as JSON gives.
pub open spec fn metadata_of(document: Result<JsonView, Seq<char>>) -> (
    Option<Seq<char>>,
    Option<Seq<char>>,
) {
    match document {
        Ok(body) => (body.str_at("model"@), effort_of(body)),
        Err(_) => (None, None),
    }
}

/// What the body of a request says of the model and the effort that it asks for, with what reading it
/// as JSON gives.
pub fn request_metadata_with(document: &Result<Json, String>) -> (metadata: (
    Option<String>,
    Option<String>,
))
    ensures
        (opt_string(metadata.0), opt_string(metadata.1)) == metadata_of(document_view(*document)),
{
    match document {
        Ok(body) => {
            let model = match body.str_at("model") {
                Some(model) => Some(model.to_owned()),
                None => None,
            };
            (model, reasoning_effort(body))
        },
        Err(_) => (None, None),
    }
}

/// What the body of a request says of the model and the effort that it asks for.
pub fn request_metadata(bytes: &[u8]) -> (metadata: (Option<String>, Option<String>))
    ensures
        (opt_string(metadata.0), opt_string(metadata.1)) == metadata_of(parsed_bytes(bytes@)),
{
    request_metadata_with(&parse_json_bytes(bytes))
}

/// The record that is logged of a request.
pub open spec fn request_record_view(
    account: AccountView,
    method: Seq<char>,
    path: Seq<char>,
    status: u16,
    millis: u64,
    model: Option<Seq<char>>,
    effort: Option<Seq<char>>,
) -> JsonView {
    JsonView::Object(
        no_fields().insert("event"@, json_str("request"@)).insert(
            "port"@,
            json_opt_port(account.port),
        ).insert("accountId"@, json_str(account.id)).insert(
            "provider"@,
            json_str(account.provider),
        ).insert("method"@, json_str(method)).insert("path"@, json_str(path)).insert(
            "status"@,
            json_u64(status as u64),
        ).insert("durationMs"@, json_u64(millis)).insert("model"@, json_opt_str(model)).insert(
            "reasoningEffort"@,
            json_opt_str(effort),
        ),
    )
}

/// The record that is logged of a request: where it went, how it was answered and how long that took,
/// and of its body the model and the effort alone.
pub fn request_record(
    account: &Account,
    method: &str,
    path: &str,
    status: u16,
    millis: u64,
    metadata: &(Option<String>, Option<String>),
) -> (record: Json)
    ensures
        record@ == request_record_view(
            account@,
            method@,
            path@,
            status,
            millis,
            opt_string(metadata.0),
            opt_string(metadata.1),
        ),
{
    let mut map = JsonMap::new();
    map.insert("event", Json::text("request"));
    map.insert("port", opt_number(account.port));
    map.insert("accountId", Json::text(account.id.as_str()));
    map.insert("provider", Json::text(account.provider.as_str()));
    map.insert("method", Json::text(method));
    map.insert("path", Json::text(path));
    map.insert("status", Json::count(status as u64));
    map.insert("durationMs", Json::count(millis));
    map.insert("model", opt_owned(&metadata.0));
    map.insert("reasoningEffort", opt_owned(&metadata.1));
    Json::Object(map)
}

/// The line that is logged for a record: its fields and the time.
pub open spec fn log_line_view(record: JsonView, time: Seq<char>) -> Seq<char> {
    printed(
        match record {
            JsonView::Object(fields) => JsonView::Object(fields.insert("ts"@, json_str(time))),
            _ => record,
        },
    )
}

/// The line that is logged for a record: its fields and the time. It is one line.
pub fn log_line(record: Json, time: &str) -> (line: String)
    ensures
        line@ == log_line_view(record@, time@),
        !line@.contains('\n'),
        !line@.contains('\r'),
{
    let stamped = match record {
        Json::Object(mut fields) => {
            fields.insert("ts", Json::text(time));
            Json::Object(fields)
        },
        other => other,
    };
    print_json(&stamped)
}

/// What is logged of a request tells nothing of its account but the port, the identifier and the
/// provider, and nothing of its body but the model and the effort.
pub proof fn law_logs_hold_no_secrets(
    account: AccountView,
    other: AccountView,
    method: Seq<char>,
    path: Seq<char>,
    status: u16,
    millis: u64,
    body: JsonView,
    other_body: JsonView,
)
    requires
        account.port == other.port,
        account.id == other.id,
        account.provider == other.provider,
        body.str_at("model"@) == other_body.str_at("model"@),
        effort_of(body) == effort_of(other_body),
    ensures
        ({
            let (model, effort) = metadata_of(Ok(body));
            let (other_model, other_effort) = metadata_of(Ok(other_body));
            request_record_view(account, method, path, status, millis, model, effort)
                == request_record_view(
                other,
                method,
                path,
                status,
                millis,
                other_model,
                other_effort,
            )
        }),
{
}

/// A request is for what its method and path say: each endpoint has one method, a question whether
/// requests are allowed is answered at every path, and everything else is unsupported.
pub proof fn law_routes(method: Seq<char>, path: Seq<char>)
    ensures
        ({
            let get = method == "GET"@;
            let post = method == "POST"@;
            let model = path.len() >= 11 && path.take(11) == "/v1/models/"@;
            let route = route_of(method, path);
            &&& route is Options <==> method == "OPTIONS"@
            &&& route is Account <==> get && path == "/"@
            &&& route is Models <==> get && path == "/v1/models"@
            &&& route is Model <==> get && model
            &&& route is Responses <==> post && path == "/v1/responses"@
            &&& route is Chat <==> post && path == "/v1/chat/completions"@
            &&& route matches RouteView::Model(id) ==> id == names_of(form_pairs(path.skip(11)))
        }),
{
    reveal_strlit("OPTIONS");
    reveal_strlit("GET");
    reveal_strlit("POST");
    reveal_strlit("/");
    reveal_strlit("/v1/models");
    reveal_strlit("/v1/models/");
    reveal_strlit("/v1/responses");
    reveal_strlit("/v1/chat/completions");
    assert("OPTIONS"@.len() == 7 && "GET"@.len() == 3 && "POST"@.len() == 4 && "/"@.len() == 1);
    assert("/v1/models"@.len() == 10 && "/v1/models/"@.len() == 11 && "/v1/responses"@.len() == 13);
    assert("/v1/chat/completions"@.len() == 20);
    if path == "/v1/models"@ || path == "/"@ {
        assert(path.len() < 11);
    }
}

/// An account is shown to others with what it is, where it is served and how its last request went.
pub proof fn law_account_is_shown_whole(config: Config, account: AccountView)
    ensures
        ({
            let shown = public_view(config, account);
            let provider = config.provider(account.provider);
            let port: u16 = match account.port {
                Some(port) => port,
                None => 0,
            };
            &&& shown.str_at("id"@) == Some(account.id)
            &&& shown.str_at("provider"@) == Some(account.provider)
            &&& shown.str_at("status"@) == Some(account.status)
            &&& provider is Some && provider->0.label@.len() > 0 ==> shown.str_at("label"@) == Some(
                provider->0.label@,
            )
            &&& provider is None || provider->0.label@.len() == 0 ==> shown.str_at("label"@) == Some(
                account.provider,
            )
            &&& account.port is Some ==> shown.u64_at("port"@) == Some(port as u64)
            &&& account.port is None ==> shown.get("port"@) == Some(JsonView::Null)
            &&& shown.str_at("baseUrl"@) == Some(
                "http://"@ + config.public_host@ + ":"@ + decimal(port as nat) + "/v1"@,
            )
            &&& shown.get("metadata"@) == Some(JsonView::Object(account.metadata))
            &&& shown.str_at("lastRequestAt"@) == account.last_request_at
            &&& account.last_status is Some ==> shown.u64_at("lastStatus"@) == Some(
                account.last_status->0 as u64,
            )
            &&& shown.str_at("lastError"@) == account.last_error
            &&& shown.str_at("createdAt"@) == Some(account.created_at)
            &&& shown.str_at("updatedAt"@) == Some(account.updated_at)
        }),
{
    reveal_strlit("id");
    reveal_strlit("provider");
    reveal_strlit("label");
    reveal_strlit("status");
    reveal_strlit("port");
    reveal_strlit("baseUrl");
    reveal_strlit("metadata");
    reveal_strlit("lastRequestAt");
    reveal_strlit("lastStatus");
    reveal_strlit("lastError");
    reveal_strlit("createdAt");
    reveal_strlit("updatedAt");
    assert("id"@.len() == 2 && "provider"@.len() == 8 && "label"@.len() == 5);
    assert("status"@.len() == 6 && "port"@.len() == 4 && "baseUrl"@.len() == 7);
    assert("metadata"@.len() == 8 && "lastRequestAt"@.len() == 13 && "lastStatus"@.len() == 10);
    assert("lastError"@.len() == 9 && "createdAt"@.len() == 9 && "updatedAt"@.len() == 9);
    assert("provider"@[0] != "metadata"@[0]);
    assert("lastError"@[0] != "createdAt"@[0]);
    assert("lastError"@[0] != "updatedAt"@[0]);
    assert("createdAt"@[0] != "updatedAt"@[0]);
}

/// An account that is asked what it is shows itself and its endpoints.
pub proof fn law_account_describes_itself(config: Config, account: AccountView)
    ensures
        ({
            let document = account_document(config, account);
            let endpoints = document.items_at("endpoints"@);
            &&& document.str_at("object"@) == Some("ai_proxy.account"@)
            &&& document.get("account"@) == Some(public_view(config, account))
            &&& document.str_at("primaryEndpoint"@) == Some("/v1/responses"@)
            &&& endpoints.len() == 3
            &&& endpoints[0].str() == Some("/v1/models"@)
            &&& endpoints[1].str() == Some("/v1/responses"@)
            &&& endpoints[2].str() == Some("/v1/chat/completions"@)
        }),
{
    reveal_strlit("object");
    reveal_strlit("account");
    reveal_strlit("primaryEndpoint");
    reveal_strlit("endpoints");
    assert("object"@.len() == 6 && "account"@.len() == 7 && "primaryEndpoint"@.len() == 15);
    assert("endpoints"@.len() == 9);
}

/// A request is sent once more exactly if it was refused as unauthorized, for the first time, and
/// there is a refresh token to try again with.
pub proof fn law_one_more_attempt(status: u16, attempt: nat, refresh_token: Seq<char>)
    ensures
        tries_again(status, attempt, refresh_token) <==> status == 401 && attempt == 0
            && refresh_token.len() > 0,
{
}

proof fn lemma_model_at(models: Seq<JsonView>, id: Seq<char>, i: int)
    requires
        0 <= i <= models.len(),
    ensures
        match model_at(models, id, i) {
            Some(model) => exists|at: int|
                #![trigger models[at]]
                {
                    &&& i <= at < models.len()
                    &&& models[at] == model
                    &&& model.str_at("id"@) == Some(id)
                    &&& forall|k: int|
                        i <= k < at ==> (#[trigger] models[k]).str_at("id"@) != Some(id)
                },
            None => forall|k: int|
                i <= k < models.len() ==> (#[trigger] models[k]).str_at("id"@) != Some(id),
        },
    decreases models.len() - i,
{
    if i < models.len() {
        if models[i].str_at("id"@) == Some(id) {
            assert(models[i] == model_at(models, id, i)->0);
        } else {
            lemma_model_at(models, id, i + 1);
        }
    }
}

/// The question for one model is answered with the first of the list that has its identifier, and
/// with 404 exactly if none has.
pub proof fn law_model_is_found_by_its_identifier(list: JsonView, id: Seq<char>, at: int)
    ensures
        ({
            let models = list.items_at("data"@);
            let (status, document) = model_reply_of(list, id);
            &&& 0 <= at < models.len() && models[at].str_at("id"@) == Some(id) && (forall|k: int|
                0 <= k < at ==> (#[trigger] models[k]).str_at("id"@) != Some(id)) ==> status == 200
                && document == models[at]
            &&& (forall|k: int|
                0 <= k < models.len() ==> (#[trigger] models[k]).str_at("id"@) != Some(id))
                ==> status == 404 && document.str_at2("error"@, "message"@) == Some(
                "Model not found: "@ + id,
            )
        }),
{
    let models = list.items_at("data"@);
    lemma_model_at(models, id, 0);
    if let Some(model) = model_at(models, id, 0) {
        let first = choose|first: int|
            #![trigger models[first]]
            {
                &&& 0 <= first < models.len()
                &&& models[first] == model
                &&& model.str_at("id"@) == Some(id)
                &&& forall|k: int|
                    0 <= k < first ==> (#[trigger] models[k]).str_at("id"@) != Some(id)
            };
        assert(models[first].str_at("id"@) == Some(id));
        if 0 <= at < models.len() {
            assert(models[at].str_at("id"@) == Some(id) || at != first);
        }
    } else if 0 <= at < models.len() {
        assert(models[at].str_at("id"@) != Some(id));
    }
    reveal_strlit("message");
    reveal_strlit("type");
    assert("message"@.len() == 7 && "type"@.len() == 4);
}

/// The models are asked for where the provider has them, `/models` unless it says otherwise.
pub proof fn law_models_are_asked_at_the_provider(config: Config, id: Seq<char>)
    ensures
        models_path_of(config, id) is Ok <==> config.provider(id) is Some,
        config.provider(id) is Some && config.provider(id)->0.api.models_path@.len() > 0
            ==> models_path_of(config, id)->Ok_0 == config.provider(id)->0.api.models_path@,
        config.provider(id) is Some && config.provider(id)->0.api.models_path@.len() == 0
            ==> models_path_of(config, id)->Ok_0 == "/models"@,
{
}

/// A request for an answer is rewritten for a provider with an adapter and handed on as it is to any
/// other; what is sent is the normalized body, to the provider's path, and the client gets a stream
/// exactly if it asked for one.
pub proof fn law_answers_are_asked_for(
    config: Config,
    id: Seq<char>,
    headers: Seq<(String, Vec<u8>)>,
    document: Result<JsonView, Seq<char>>,
)
    requires
        config.provider(id) is Some,
    ensures
        ({
            let provider = config.provider(id)->0;
            let own = provider.api.responses_path@;
            let plan = responses_plan_of(config, id, headers, document);
            let adapts = provider.mode@ == "responses-adapter"@;
            &&& adapts && document is Err ==> plan is Err && plan->Err_0.status == 400
            &&& adapts && document is Ok ==> {
                &&& plan is Ok
                &&& plan->Ok_0 matches PlanView::Adapt { path, headers: sent, body, stream, model }
                    && {
                    &&& path == if own.len() > 0 {
                        own
                    } else {
                        "/responses"@
                    }
                    &&& sent == adapted(headers)
                    &&& body == printed(normalized_request(document->Ok_0))
                    &&& stream <==> document->Ok_0.get("stream"@) == Some(JsonView::Bool(true))
                    &&& document->Ok_0.str_at("model"@) is Some ==> Some(model)
                        == document->Ok_0.str_at("model"@)
                }
            }
            &&& !adapts && own.len() > 0 ==> plan == Ok::<PlanView, ErrorView>(
                PlanView::Forward { path: own, headers: filtered(headers) },
            )
            &&& !adapts && own.len() == 0 ==> plan is Ok && (plan->Ok_0 matches PlanView::Refuse(
                status,
                _,
            ) && status == 404)
        }),
{
}

/// A request for a chat completion is turned into a request for an answer, always as a stream, for a
/// provider with an adapter, and handed on as it is to one that completes chats itself; any other
/// mode, a body that is no JSON and content that is not supported are refused.
pub proof fn law_chats_are_asked_for(
    config: Config,
    id: Seq<char>,
    headers: Seq<(String, Vec<u8>)>,
    document: Result<JsonView, Seq<char>>,
    ids: Seq<Seq<char>>,
    key: Seq<char>,
)
    requires
        config.provider(id) is Some,
    ensures
        ({
            let provider = config.provider(id)->0;
            let own = provider.api.responses_path@;
            let plan = chat_plan_of(config, id, headers, document, ids);
            let adapts = provider.mode@ == "responses-adapter"@;
            let passes = provider.mode@ == "chat-passthrough"@;
            &&& passes ==> plan is Ok && (plan->Ok_0 matches PlanView::Forward {
                path,
                headers: sent,
            } && sent == filtered(headers) && path
                == if provider.api.chat_completions_path is Some {
                provider.api.chat_completions_path->0@
            } else {
                "/chat/completions"@
            })
            &&& !passes && !adapts ==> plan is Err && plan->Err_0.status == 500
            &&& adapts && document is Err ==> plan is Err && plan->Err_0.status == 400
            &&& adapts && document is Ok && responses_request(document->Ok_0, ids) is Err
                ==> plan is Err && plan->Err_0.status == 400
            &&& adapts && document is Ok && responses_request(document->Ok_0, ids) is Ok ==> {
                let request = responses_request(document->Ok_0, ids)->Ok_0;
                &&& plan is Ok
                &&& plan->Ok_0 matches PlanView::Adapt { path, headers: sent, body, stream, model }
                    && {
                    &&& path == if own.len() > 0 {
                        own
                    } else {
                        "/responses"@
                    }
                    &&& sent == adapted(headers)
                    &&& body == printed(streamed(request))
                    &&& stream <==> document->Ok_0.get("stream"@) == Some(JsonView::Bool(true))
                    &&& document->Ok_0.str_at("model"@) is Some ==> Some(model)
                        == document->Ok_0.str_at("model"@)
                }
                &&& streamed(request).get("stream"@) == Some(JsonView::Bool(true))
                &&& key != "stream"@ ==> streamed(request).get(key) == request.get(key)
            }
        }),
{
    reveal_strlit("responses-adapter");
    reveal_strlit("chat-passthrough");
    assert("responses-adapter"@.len() == 17 && "chat-passthrough"@.len() == 16);
}

/// An answer is handed on as the client asked for it; one that is no success is a refusal.
pub proof fn law_answer_has_the_form_that_was_asked_for(status: u16, stream: bool, chat: bool)
    ensures
        answering_of(status, stream, chat) is Refusal <==> !(200 <= status < 300),
        answering_of(status, stream, chat) is ChatEvents <==> 200 <= status < 300 && stream && chat,
        answering_of(status, stream, chat) is Events <==> 200 <= status < 300 && stream && !chat,
        answering_of(status, stream, chat) is Chat <==> 200 <= status < 300 && !stream && chat,
        answering_of(status, stream, chat) is Answer <==> 200 <= status < 300 && !stream && !chat,
{
}

/// What is logged of a request says where it went, in whose name, how it was answered and how long
/// that took, and is stamped with the time.
pub proof fn law_requests_are_logged(
    account: AccountView,
    method: Seq<char>,
    path: Seq<char>,
    status: u16,
    millis: u64,
    model: Option<Seq<char>>,
    effort: Option<Seq<char>>,
    time: Seq<char>,
)
    ensures
        ({
            let record = request_record_view(account, method, path, status, millis, model, effort);
            &&& record.str_at("event"@) == Some("request"@)
            &&& account.port is Some ==> record.u64_at("port"@) == Some(account.port->0 as u64)
            &&& record.str_at("accountId"@) == Some(account.id)
            &&& record.str_at("provider"@) == Some(account.provider)
            &&& record.str_at("method"@) == Some(method)
            &&& record.str_at("path"@) == Some(path)
            &&& record.u64_at("status"@) == Some(status as u64)
            &&& record.u64_at("durationMs"@) == Some(millis)
            &&& record.str_at("model"@) == model
            &&& record.str_at("reasoningEffort"@) == effort
            &&& record.get("ts"@) is None
            &&& exists|stamped: JsonView|
                {
                    &&& log_line_view(record, time) == #[trigger] printed(stamped)
                    &&& stamped.str_at("ts"@) == Some(time)
                    &&& forall|key: Seq<char>|
                        key != "ts"@ ==> (#[trigger] stamped.get(key)) == record.get(key)
                }
        }),
{
    reveal_strlit("event");
    reveal_strlit("port");
    reveal_strlit("accountId");
    reveal_strlit("provider");
    reveal_strlit("method");
    reveal_strlit("path");
    reveal_strlit("status");
    reveal_strlit("durationMs");
    reveal_strlit("model");
    reveal_strlit("reasoningEffort");
    reveal_strlit("ts");
    assert("event"@.len() == 5 && "port"@.len() == 4 && "accountId"@.len() == 9);
    assert("provider"@.len() == 8 && "method"@.len() == 6 && "path"@.len() == 4);
    assert("status"@.len() == 6 && "durationMs"@.len() == 10 && "model"@.len() == 5);
    assert("reasoningEffort"@.len() == 15 && "ts"@.len() == 2);
    assert("port"@[1] != "path"@[1]);
    assert("event"@[0] != "model"@[0]);
    assert("method"@[0] != "status"@[0]);
    let record = request_record_view(account, method, path, status, millis, model, effort);
    let stamped = JsonView::Object(record->Object_0.insert("ts"@, json_str(time)));
    assert(log_line_view(record, time) == printed(stamped));
}

/// What the events of a provider make up is handed on; a failure in them is an error of the provider
/// with its message.
pub proof fn law_collected_answer_is_handed_on(payloads: Seq<(Seq<char>, JsonView)>)
    ensures
        collected(payloads) is Ok ==> answer_of(payloads) == Ok::<JsonView, ErrorView>(
            collected(payloads)->Ok_0,
        ),
        collected(payloads) is Err ==> answer_of(payloads) is Err && answer_of(
            payloads,
        )->Err_0.status == 502 && answer_of(payloads)->Err_0.message == collected(payloads)->Err_0,
{
}

/// An answer about models that is JSON is listed, and one that is not is an error.
pub proof fn law_models_answer_must_be_json(document: Result<JsonView, Seq<char>>)
    ensures
        models_reply_of(document) is Ok <==> document is Ok,
        document is Ok ==> models_reply_of(document)->Ok_0 == models_view(document->Ok_0),
        document is Err ==> models_reply_of(document)->Err_0.status == 500,
{
}

/// The model of a request is the one that it names, and unknown where it names none; for a log it is
/// then left out, as everything is of a body that is no JSON.
pub proof fn law_model_is_the_one_that_is_named(body: JsonView, message: Seq<char>)
    ensures
        body.str_at("model"@) is Some ==> requested_model(body) == body.str_at("model"@)->0,
        body.str_at("model"@) is None ==> requested_model(body) == "unknown"@,
        metadata_of(Ok(body)).0 == body.str_at("model"@),
        body.str_at2("reasoning"@, "effort"@) is Some ==> metadata_of(Ok(body)).1 == body.str_at2(
            "reasoning"@,
            "effort"@,
        ),
        metadata_of(Err(message)) == (None::<Seq<char>>, None::<Seq<char>>),
{
}

/// Only requests for an answer or a chat completion name a model in their body.
pub proof fn law_requests_that_name_a_model(method: Seq<char>, path: Seq<char>)
    ensures
        names_model(method, path) <==> route_of(method, path) is Responses || route_of(
            method,
            path,
        ) is Chat,
{
    law_routes(method, path);
}

/// What a client did wrong is told to it: a body that is no JSON, content that is not supported by its
/// kinds, a mode that the provider does not have.
pub proof fn law_refusals_say_why(
    config: Config,
    id: Seq<char>,
    headers: Seq<(String, Vec<u8>)>,
    document: Result<JsonView, Seq<char>>,
    ids: Seq<Seq<char>>,
    kind: Seq<char>,
)
    ensures
        config.provider(id) is None ==> {
            let plan = chat_plan_of(config, id, headers, document, ids);
            let other = responses_plan_of(config, id, headers, document);
            &&& plan is Err && plan->Err_0.status == 500 && plan->Err_0.message
                == "Provider not configured: "@ + id
            &&& other is Err && other->Err_0 == plan->Err_0
        },
        config.provider(id) is Some && config.provider(id)->0.mode@ == "responses-adapter"@
            && document is Err ==> {
            &&& chat_plan_of(config, id, headers, document, ids)->Err_0.message
                == "Request body must be valid JSON"@
            &&& responses_plan_of(config, id, headers, document)->Err_0.message
                == "Request body must be valid JSON"@
        },
        config.provider(id) is Some && config.provider(id)->0.mode@ == "responses-adapter"@
            && document is Ok && responses_request(document->Ok_0, ids) == Err::<
            JsonView,
            Seq<Seq<char>>,
        >(seq![kind]) ==> chat_plan_of(config, id, headers, document, ids)->Err_0.message
            == "Only text chat content is supported for now. Unsupported content: "@ + kind,
{
    reveal_strlit("responses-adapter");
    reveal_strlit("chat-passthrough");
    assert("responses-adapter"@.len() == 17 && "chat-passthrough"@.len() == 16);
    assert(joined(seq![kind], ", "@) == kind);
}

/// A document is answered as JSON that every page may read.
pub proof fn law_documents_are_answered_as_json()
    ensures
        json_headers().contains_key("content-type"@),
        json_headers()["content-type"@] == text_bytes("application/json; charset=utf-8"@),
        json_headers().contains_key("access-control-allow-origin"@),
        json_headers()["access-control-allow-origin"@] == text_bytes("*"@),
{
    reveal_strlit("content-type");
    reveal_strlit("access-control-allow-origin");
    assert("content-type"@.len() == 12 && "access-control-allow-origin"@.len() == 27);
}

}
