//! The log of requests to providers.

use crate::chat_stream::{read_stream_payloads, stream_payloads};
use crate::convert::{effort_of, reasoning_effort};
use crate::json::{opt_string, opt_text, parse_json, parsed, Json, JsonView};
use crate::outside::elapsed_nanos;
use crate::responses::payload_views;
use crate::sse::{event_views, events_of, last_event, leftover, EventView, SseDecoder};
use crate::text::text_eq;
use vstd::prelude::*;
use vstd::string::*;
use vstd::utf8::encode_utf8;

verus! {

/// The tables of the log: one row for each request to a provider, and one for each window of usage
/// that such a request told of.
pub const SCHEMA: &'static str = r#"
CREATE TABLE IF NOT EXISTS upstream_requests (
  id INTEGER PRIMARY KEY AUTOINCREMENT,
  ts TEXT NOT NULL,
  account_id TEXT NOT NULL,
  provider TEXT NOT NULL,
  kind TEXT NOT NULL,
  method TEXT NOT NULL,
  url TEXT NOT NULL,
  request_body TEXT,
  response_status INTEGER,
  response_body TEXT,
  duration_ms INTEGER NOT NULL,
  error TEXT,
  model TEXT,
  reasoning_effort TEXT,
  input_tokens INTEGER,
  output_tokens INTEGER,
  total_tokens INTEGER,
  cached_tokens INTEGER,
  reasoning_tokens INTEGER
);
CREATE TABLE IF NOT EXISTS usage_windows (
  id INTEGER PRIMARY KEY AUTOINCREMENT,
  request_id INTEGER NOT NULL REFERENCES upstream_requests(id),
  ts TEXT NOT NULL,
  account_id TEXT NOT NULL,
  limit_id TEXT NOT NULL,
  limit_name TEXT,
  label TEXT NOT NULL,
  remaining_percent REAL NOT NULL,
  resets_at INTEGER
);
CREATE INDEX IF NOT EXISTS idx_upstream_requests_account_ts ON upstream_requests(account_id, ts);
CREATE INDEX IF NOT EXISTS idx_upstream_requests_ts ON upstream_requests(ts);
"#;

/// How a record is added to the log.
pub const INSERT: &'static str = "INSERT INTO upstream_requests (ts, account_id, provider, kind, method, url, request_body, response_status, response_body, duration_ms, error, model, reasoning_effort, input_tokens, output_tokens, total_tokens, cached_tokens, reasoning_tokens) VALUES (?1, ?2, ?3, ?4, ?5, ?6, ?7, ?8, ?9, ?10, ?11, ?12, ?13, ?14, ?15, ?16, ?17, ?18)";

/// How a window of usage is added to the log.
pub const INSERT_WINDOW: &'static str = "INSERT INTO usage_windows (request_id, ts, account_id, limit_id, limit_name, label, remaining_percent, resets_at) VALUES (?1, ?2, ?3, ?4, ?5, ?6, ?7, ?8)";

/// The record of a request to a provider and its answer. Bodies are kept as they were, neither
/// shortened nor changed.
#[derive(Debug, Clone)]
pub struct StoredEntry {
    pub ts: String,
    pub account_id: String,
    pub provider: String,
    pub kind: String,
    pub method: String,
    pub url: String,
    pub request_body: Option<String>,
    pub response_status: Option<i64>,
    pub response_body: Option<String>,
    pub duration_ms: i64,
    pub error: Option<String>,
}

/// A request that was sent and whose answer has not ended yet. Its own body is complete; that of the
/// answer may not be.
#[derive(Debug)]
pub struct PendingLog {
    pub ts: String,
    pub account_id: String,
    pub provider: String,
    pub kind: String,
    pub method: String,
    pub url: String,
    pub request_body: Option<String>,
    pub start: std::time::Instant,
}

/// The milliseconds of a record: those of the time that passed, as far as a record can hold them.
pub open spec fn stored_millis(nanos: u128) -> i64 {
    if nanos / 1_000_000 <= i64::MAX {
        (nanos / 1_000_000) as i64
    } else {
        i64::MAX
    }
}

/// Whether a record is that of a request with its answer, but for the time that passed.
pub open spec fn is_record_of(
    entry: StoredEntry,
    pending: PendingLog,
    response_status: Option<u16>,
    response_body: Option<String>,
    error: Option<String>,
) -> bool {
    &&& entry.ts == pending.ts
    &&& entry.account_id == pending.account_id
    &&& entry.provider == pending.provider
    &&& entry.kind == pending.kind
    &&& entry.method == pending.method
    &&& entry.url == pending.url
    &&& entry.request_body == pending.request_body
    &&& entry.response_status == (match response_status {
        Some(status) => Some(status as i64),
        None => None,
    })
    &&& entry.response_body == response_body
    &&& entry.error == error
}

impl PendingLog {
    /// The record of the request, which ended after this many nanoseconds.
    pub fn complete_after(
        self,
        nanos: u128,
        response_status: Option<u16>,
        response_body: Option<String>,
        error: Option<String>,
    ) -> (entry: StoredEntry)
        ensures
            is_record_of(entry, self, response_status, response_body, error),
            entry.duration_ms == stored_millis(nanos),
            entry.duration_ms >= 0,
    {
        let millis = nanos / 1_000_000;
        StoredEntry {
            ts: self.ts,
            account_id: self.account_id,
            provider: self.provider,
            kind: self.kind,
            method: self.method,
            url: self.url,
            request_body: self.request_body,
            response_status: match response_status {
                Some(status) => Some(status as i64),
                None => None,
            },
            response_body,
            duration_ms: if millis <= i64::MAX as u128 {
                millis as i64
            } else {
                i64::MAX
            },
            error,
        }
    }

    /// The record of the request, which ends now.
    pub fn complete(
        self,
        response_status: Option<u16>,
        response_body: Option<String>,
        error: Option<String>,
    ) -> (entry: StoredEntry)
        ensures
            is_record_of(entry, self, response_status, response_body, error),
            entry.duration_ms >= 0,
    {
        let nanos = elapsed_nanos(&self.start);
        self.complete_after(nanos, response_status, response_body, error)
    }
}

/// What a record says of the cost of a request.
#[derive(Debug)]
pub struct CostColumns {
    pub model: Option<String>,
    pub reasoning_effort: Option<String>,
    pub input_tokens: Option<i64>,
    pub output_tokens: Option<i64>,
    pub total_tokens: Option<i64>,
    pub cached_tokens: Option<i64>,
    pub reasoning_tokens: Option<i64>,
}

/// What a record says of the cost of a request, as contracts speak of it.
pub struct CostView {
    pub model: Option<Seq<char>>,
    pub reasoning_effort: Option<Seq<char>>,
    pub input_tokens: Option<i64>,
    pub output_tokens: Option<i64>,
    pub total_tokens: Option<i64>,
    pub cached_tokens: Option<i64>,
    pub reasoning_tokens: Option<i64>,
}

impl View for CostColumns {
    type V = CostView;

    open spec fn view(&self) -> CostView {
        CostView {
            model: opt_string(self.model),
            reasoning_effort: opt_string(self.reasoning_effort),
            input_tokens: self.input_tokens,
            output_tokens: self.output_tokens,
            total_tokens: self.total_tokens,
            cached_tokens: self.cached_tokens,
            reasoning_tokens: self.reasoning_tokens,
        }
    }
}

/// The usage that an answer told of when it was completed, given the kinds and payloads of its
/// events; null if it did not.
pub open spec fn completed_usage(payloads: Seq<(Seq<char>, JsonView)>) -> JsonView
    decreases payloads.len(),
{
    if payloads.len() == 0 {
        JsonView::Null
    } else {
        let (kind, payload) = payloads.last();
        if kind == "response.completed"@ {
            match payload.get2("response"@, "usage"@) {
                Some(usage) => usage,
                None => JsonView::Null,
            }
        } else {
            completed_usage(payloads.drop_last())
        }
    }
}

/// The number in a field.
pub open spec fn number_at(document: JsonView, key: Seq<char>) -> Option<i64> {
    match document.get(key) {
        Some(value) => value.i64(),
        None => None,
    }
}

/// The number in a field of a field.
pub open spec fn number_at2(document: JsonView, outer: Seq<char>, inner: Seq<char>) -> Option<i64> {
    match document.get2(outer, inner) {
        Some(value) => value.i64(),
        None => None,
    }
}

/// What a record says of the cost of a request, given its body and the kinds and payloads of the
/// events of its answer.
pub open spec fn cost_of(
    request: Option<JsonView>,
    payloads: Seq<(Seq<char>, JsonView)>,
) -> CostView {
    let usage = completed_usage(payloads);
    CostView {
        model: match request {
            Some(request) => request.str_at("model"@),
            None => None,
        },
        reasoning_effort: match request {
            Some(request) => effort_of(request),
            None => None,
        },
        input_tokens: number_at(usage, "input_tokens"@),
        output_tokens: number_at(usage, "output_tokens"@),
        total_tokens: number_at(usage, "total_tokens"@),
        cached_tokens: number_at2(usage, "input_tokens_details"@, "cached_tokens"@),
        reasoning_tokens: number_at2(usage, "output_tokens_details"@, "reasoning_tokens"@),
    }
}

/// The number in a field.
fn find_number(document: &Json, key: &str) -> (n: Option<i64>)
    ensures
        n == number_at(document@, key@),
{
    match document.get(key) {
        Some(value) => value.as_i64(),
        None => None,
    }
}

/// The number in a field of a field.
fn find_number2(document: &Json, outer: &str, inner: &str) -> (n: Option<i64>)
    ensures
        n == number_at2(document@, outer@, inner@),
{
    match document.get2(outer, inner) {
        Some(value) => value.as_i64(),
        None => None,
    }
}

/// The usage that an answer told of when it was completed; null if it did not.
fn find_usage(payloads: &Vec<(String, Json)>) -> (usage: Json)
    ensures
        usage@ == completed_usage(payload_views(payloads@)),
{
    let ghost all = payload_views(payloads@);
    let n = payloads.len();
    let mut i = n;
    assert(all.take(n as int) =~= all);
    while i > 0
        invariant
            i <= n,
            n == payloads@.len(),
            all == payload_views(payloads@),
            completed_usage(all) == completed_usage(all.take(i as int)),
        decreases i,
    {
        let payload = &payloads[i - 1].1;
        proof {
            assert(all.take(i as int).drop_last() =~= all.take(i - 1));
            assert(all.take(i as int).last() == (payloads@[i - 1].0@, payload@));
        }
        if text_eq(payloads[i - 1].0.as_str(), "response.completed") {
            return match payload.get2("response", "usage") {
                Some(usage) => usage.clone(),
                None => Json::Null,
            };
        }
        i = i - 1;
    }
    Json::Null
}

/// What a record says of the cost of a request, given its body and the kinds and payloads of the
/// events of its answer.
pub fn cost_columns_of(request: Option<&Json>, payloads: &Vec<(String, Json)>) -> (cost: CostColumns)
    ensures
        cost@ == cost_of(
            match request {
                Some(request) => Some(request@),
                None => None,
            },
            payload_views(payloads@),
        ),
{
    let usage = find_usage(payloads);
    let (model, effort) = match request {
        Some(request) => (
            match request.str_at("model") {
                Some(model) => Some(model.to_owned()),
                None => None,
            },
            reasoning_effort(request),
        ),
        None => (None, None),
    };
    CostColumns {
        model,
        reasoning_effort: effort,
        input_tokens: find_number(&usage, "input_tokens"),
        output_tokens: find_number(&usage, "output_tokens"),
        total_tokens: find_number(&usage, "total_tokens"),
        cached_tokens: find_number2(&usage, "input_tokens_details", "cached_tokens"),
        reasoning_tokens: find_number2(&usage, "output_tokens_details", "reasoning_tokens"),
    }
}

/// All events of the bytes of an answer that has ended.
pub open spec fn whole_events(bytes: Seq<u8>) -> Seq<EventView> {
    match last_event(leftover(bytes)) {
        Some(event) => events_of(bytes).push(event),
        None => events_of(bytes),
    }
}

/// The document that the body of a request holds.
pub open spec fn body_document(body: Option<Seq<char>>) -> Option<JsonView> {
    match body {
        Some(text) => match parsed(text) {
            Ok(document) => Some(document),
            Err(_) => None,
        },
        None => None,
    }
}

/// The kinds and payloads of the events of an answer's body.
pub open spec fn body_payloads(body: Option<Seq<char>>) -> Seq<(Seq<char>, JsonView)> {
    match body {
        Some(text) => stream_payloads(whole_events(encode_utf8(text))),
        None => Seq::empty(),
    }
}

/// The kinds and payloads of the events of an answer's body.
fn read_body(body: Option<&str>) -> (payloads: Vec<(String, Json)>)
    ensures
        payload_views(payloads@) == body_payloads(opt_text(body)),
{
    let text = match body {
        Some(text) => text,
        None => {
            let none: Vec<(String, Json)> = Vec::new();
            assert(payload_views(none@) =~= Seq::<(Seq<char>, JsonView)>::empty());
            return none;
        },
    };
    let mut decoder = SseDecoder::default();
    let bytes = text.as_bytes();
    assert(Seq::<u8>::empty() + bytes@ =~= bytes@);
    let mut events = decoder.push(bytes);
    if let Some(event) = decoder.finish() {
        let ghost before = events@;
        events.push(event);
        assert(event_views(events@) =~= event_views(before).push(event@));
    }
    read_stream_payloads(&events)
}

/// What a record says of the cost of a request: the model and the effort that the request asks for,
/// and the tokens that the answer told of when it was completed.
pub fn cost_columns(request_body: Option<&str>, response_body: Option<&str>) -> (cost: CostColumns)
    ensures
        cost@ == cost_of(
            body_document(opt_text(request_body)),
            body_payloads(opt_text(response_body)),
        ),
{
    let payloads = read_body(response_body);
    let request = match request_body {
        Some(text) => match parse_json(text) {
            Ok(document) => Some(document),
            Err(_) => None,
        },
        None => None,
    };
    match &request {
        Some(document) => cost_columns_of(Some(document), &payloads),
        None => cost_columns_of(None, &payloads),
    }
}

/// What a record says of an answer that did not come to its end, and why it did not.
pub fn incomplete_stream(reason: &str) -> (error: String)
    ensures
        error@ == "incomplete_stream: "@ + reason@,
{
    let mut error = "incomplete_stream: ".to_owned();
    error.append(reason);
    error
}

/// The record that is kept: bodies are left out unless they are wanted.
pub fn kept_entry(entry: StoredEntry, log_bodies: bool) -> (kept: StoredEntry)
    ensures
        log_bodies ==> kept == entry,
        !log_bodies ==> kept == (StoredEntry { request_body: None, response_body: None, ..entry }),
{
    if log_bodies {
        entry
    } else {
        StoredEntry { request_body: None, response_body: None, ..entry }
    }
}

proof fn lemma_completed_usage(payloads: Seq<(Seq<char>, JsonView)>, i: int)
    ensures
        0 <= i < payloads.len() && payloads[i].0 == "response.completed"@ && (forall|k: int|
            i < k < payloads.len() ==> (#[trigger] payloads[k]).0 != "response.completed"@)
            ==> completed_usage(payloads) == (match payloads[i].1.get2("response"@, "usage"@) {
            Some(usage) => usage,
            None => JsonView::Null,
        }),
        (forall|k: int|
            0 <= k < payloads.len() ==> (#[trigger] payloads[k]).0 != "response.completed"@)
            ==> completed_usage(payloads) is Null,
    decreases payloads.len(),
{
    if payloads.len() > 0 {
        let short = payloads.drop_last();
        let last = payloads[payloads.len() - 1];
        lemma_completed_usage(short, i);
        assert(forall|k: int| 0 <= k < short.len() ==> short[k] == payloads[k]);
        if last.0 != "response.completed"@ {
            if 0 <= i < payloads.len() && (forall|k: int|
                i < k < payloads.len() ==> (#[trigger] payloads[k]).0 != "response.completed"@) {
                assert forall|k: int| i < k < short.len() implies (#[trigger] short[k]).0
                    != "response.completed"@ by {
                    assert(payloads[k].0 != "response.completed"@);
                }
            }
            if forall|k: int|
                0 <= k < payloads.len() ==> (#[trigger] payloads[k]).0 != "response.completed"@ {
                assert forall|k: int| 0 <= k < short.len() implies (#[trigger] short[k]).0
                    != "response.completed"@ by {
                    assert(payloads[k].0 != "response.completed"@);
                }
            }
        }
    }
}

/// The cost of a request is what its answer told of when it was completed, the last time if it was
/// more often: each count from its own field. An answer that was not completed costs nothing that is
/// known.
pub proof fn law_cost_is_told_at_the_end(
    request: Option<JsonView>,
    payloads: Seq<(Seq<char>, JsonView)>,
    i: int,
    usage: JsonView,
)
    ensures
        0 <= i < payloads.len() && payloads[i].0 == "response.completed"@ && payloads[i].1.get2(
            "response"@,
            "usage"@,
        ) == Some(usage) && (forall|k: int|
            i < k < payloads.len() ==> (#[trigger] payloads[k]).0 != "response.completed"@) ==> {
            let cost = cost_of(request, payloads);
            &&& usage.u64_at("input_tokens"@) is Some && usage.u64_at("input_tokens"@)->0
                <= i64::MAX ==> cost.input_tokens == Some(usage.u64_at("input_tokens"@)->0 as i64)
            &&& usage.u64_at("output_tokens"@) is Some && usage.u64_at("output_tokens"@)->0
                <= i64::MAX ==> cost.output_tokens == Some(usage.u64_at("output_tokens"@)->0 as i64)
            &&& usage.u64_at("total_tokens"@) is Some && usage.u64_at("total_tokens"@)->0
                <= i64::MAX ==> cost.total_tokens == Some(usage.u64_at("total_tokens"@)->0 as i64)
            &&& usage.get("input_tokens"@) is None ==> cost.input_tokens is None
            &&& usage.get("output_tokens"@) is None ==> cost.output_tokens is None
            &&& usage.get("total_tokens"@) is None ==> cost.total_tokens is None
            &&& usage.get2("input_tokens_details"@, "cached_tokens"@) is Some ==> cost.cached_tokens
                == usage.get2("input_tokens_details"@, "cached_tokens"@)->0.i64()
            &&& usage.get2("output_tokens_details"@, "reasoning_tokens"@) is Some
                ==> cost.reasoning_tokens == usage.get2(
                "output_tokens_details"@,
                "reasoning_tokens"@,
            )->0.i64()
        },
        (forall|k: int|
            0 <= k < payloads.len() ==> (#[trigger] payloads[k]).0 != "response.completed"@) ==> {
            let cost = cost_of(request, payloads);
            cost.input_tokens is None && cost.output_tokens is None && cost.total_tokens is None
                && cost.cached_tokens is None && cost.reasoning_tokens is None
        },
{
    lemma_completed_usage(payloads, i);
}

/// What a request cost is told with the model and the effort that it asked for.
pub proof fn law_cost_names_the_model(request: JsonView, payloads: Seq<(Seq<char>, JsonView)>)
    ensures
        cost_of(Some(request), payloads).model == request.str_at("model"@),
        request.str_at2("reasoning"@, "effort"@) is Some ==> cost_of(
            Some(request),
            payloads,
        ).reasoning_effort == request.str_at2("reasoning"@, "effort"@),
        cost_of(None, payloads).model is None,
        cost_of(None, payloads).reasoning_effort is None,
{
}

/// A record has the whole milliseconds that passed.
pub proof fn law_durations_are_whole_milliseconds(nanos: u128)
    ensures
        0 <= stored_millis(nanos),
        nanos < 9_000_000_000_000_000_000 ==> stored_millis(nanos) * 1_000_000 <= nanos < (
        stored_millis(nanos) + 1) * 1_000_000,
{
}

/// All of an answer counts for its cost, also an event that is not ended by an empty line.
pub proof fn law_last_event_counts(bytes: Seq<u8>)
    ensures
        last_event(leftover(bytes)) is None ==> whole_events(bytes) == events_of(bytes),
        last_event(leftover(bytes)) is Some ==> whole_events(bytes) == events_of(bytes).push(
            last_event(leftover(bytes))->0,
        ),
{
}

/// A record says of a request and its answer what they were, each in its own place.
pub proof fn law_record_holds_the_request(
    entry: StoredEntry,
    pending: PendingLog,
    status: Option<u16>,
    body: Option<String>,
    error: Option<String>,
)
    requires
        is_record_of(entry, pending, status, body, error),
    ensures
        entry.ts@ == pending.ts@,
        entry.account_id@ == pending.account_id@,
        entry.provider@ == pending.provider@,
        entry.kind@ == pending.kind@,
        entry.method@ == pending.method@,
        entry.url@ == pending.url@,
        entry.request_body == pending.request_body,
        status is Some ==> entry.response_status is Some && entry.response_status->0 == status->0,
        status is None ==> entry.response_status is None,
        entry.response_body == body,
        entry.error == error,
{
}

/// The cost of a request is read from its body as JSON and from the events of the answer's body.
pub proof fn law_cost_is_read_from_the_bodies(request: Seq<char>, response: Seq<char>)
    ensures
        parsed(request) is Ok ==> body_document(Some(request)) == Some(parsed(request)->Ok_0),
        parsed(request) is Err ==> body_document(Some(request)) is None,
        body_document(None) is None,
        body_payloads(None).len() == 0,
        body_payloads(Some(response)) == stream_payloads(whole_events(encode_utf8(response))),
{
}

}
