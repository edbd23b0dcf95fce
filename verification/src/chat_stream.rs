//! Chat completions as a stream of chunks, made from the events of an answer.

use crate::convert::random_ids;
use crate::json::{
    items_view, json_i64, json_str, json_u64, no_fields, opt_view, or_default, or_view, parse_json,
    parsed, printed, Json, JsonMap, JsonView,
};
use crate::outside::{current_time, is_random_id, random_id};
use crate::responses::{
    chat_usage, chat_view, collectable, collected, concat, delta_of, deltas, event_kind,
    failure_message, first_text_piece, kind_of, law_text_pieces_come_out_whole, lemma_chat_text,
    payload_views, usage_view,
};
use crate::sse::{
    data_frame, event_views, events_of, leftover, sse_bytes, EventView, SseDecoder, SseEvent,
};
use crate::text::{text_eq, texts};
use vstd::prelude::*;
use vstd::string::*;

verus! {

/// A chunk of a chat completion.
pub open spec fn chunk_view(
    id: Seq<char>,
    created: i64,
    model: Seq<char>,
    delta: JsonView,
    finish: JsonView,
    usage: Option<JsonView>,
) -> JsonView {
    let choice = JsonView::Object(
        no_fields().insert("index"@, json_u64(0)).insert("delta"@, delta).insert(
            "finish_reason"@,
            finish,
        ),
    );
    let base = no_fields().insert("id"@, json_str(id)).insert(
        "object"@,
        json_str("chat.completion.chunk"@),
    ).insert("created"@, json_i64(created)).insert("model"@, json_str(model)).insert(
        "choices"@,
        JsonView::Array(seq![choice]),
    );
    JsonView::Object(
        if usage is Some {
            base.insert("usage"@, usage_view(usage))
        } else {
            base
        },
    )
}

/// A chunk of a chat completion.
pub fn chat_chunk(
    id: &str,
    created: i64,
    model: &str,
    delta: Json,
    finish: Json,
    usage: Option<&Json>,
) -> (chunk: Json)
    ensures
        chunk@ == chunk_view(id@, created, model@, delta@, finish@, opt_view(usage)),
{
    let mut choice = JsonMap::new();
    choice.insert("index", Json::count(0));
    choice.insert("delta", delta);
    choice.insert("finish_reason", finish);
    let ghost choice_json = Json::Object(choice);
    let mut choices: Vec<Json> = Vec::new();
    choices.push(Json::Object(choice));
    assert(items_view(choices@) =~= seq![choice_json@]);
    let mut map = JsonMap::new();
    map.insert("id", Json::text(id));
    map.insert("object", Json::text("chat.completion.chunk"));
    map.insert("created", Json::integer(created));
    map.insert("model", Json::text(model));
    map.insert("choices", Json::Array(choices));
    if usage.is_some() {
        map.insert("usage", chat_usage(usage));
    }
    Json::Object(map)
}

/// What a stream of chunks has come to: who it is, the output indexes of the tool calls in the order
/// in which they began, the tool calls whose arguments have come in pieces, whether there was a tool
/// call, and whether a last chunk was sent.
#[verifier::ext_equal]
pub struct StreamView {
    pub id: Seq<char>,
    pub created: i64,
    pub model: Seq<char>,
    pub begun: Seq<u64>,
    pub pieces: Set<u64>,
    pub saw_tool: bool,
    pub final_sent: bool,
}

impl StreamView {
    /// A chunk of this stream.
    pub open spec fn chunk(self, delta: JsonView, finish: JsonView, usage: Option<JsonView>) -> JsonView {
        chunk_view(self.id, self.created, self.model, delta, finish, usage)
    }

    /// Why the stream ends, where nothing went wrong.
    pub open spec fn finish_reason(self) -> Seq<char> {
        if self.saw_tool {
            "tool_calls"@
        } else {
            "stop"@
        }
    }

    /// The number of the tool call that was begun last at this output index; 0 if there is none.
    pub open spec fn tool_at(self, output_index: u64) -> u64 {
        last_index(self.begun, output_index)
    }
}

/// The last position of `item` in `list`; 0 if there is none.
pub open spec fn last_index(list: Seq<u64>, item: u64) -> u64
    decreases list.len(),
{
    if list.len() == 0 {
        0
    } else if list.last() == item {
        (list.len() - 1) as u64
    } else {
        last_index(list.drop_last(), item)
    }
}

/// The output index that a payload gives, or `default`.
pub open spec fn output_index(payload: JsonView, default: u64) -> u64 {
    match or_view(payload.get("output_index"@), payload.get("index"@)) {
        Some(index) => or_default(index.u64(), default),
        None => default,
    }
}

/// Whether a payload is about a function call.
pub open spec fn is_call(payload: JsonView) -> bool {
    payload.str_at2("item"@, "type"@) == Some("function_call"@)
}

/// Whether an event begins a tool call that has no identifier.
pub open spec fn needs_id(kind: Seq<char>, payload: JsonView) -> bool {
    &&& kind == "response.output_item.added"@
    &&& is_call(payload)
    &&& payload.get2("item"@, "call_id"@) is None
    &&& payload.get2("item"@, "id"@) is None
}

/// A document with one field.
pub open spec fn one_field(key: Seq<char>, value: JsonView) -> JsonView {
    JsonView::Object(no_fields().insert(key, value))
}

/// The delta that begins a tool call.
pub open spec fn begin_delta(index: u64, payload: JsonView, fresh: Seq<char>) -> JsonView {
    let id = or_default(
        or_view(payload.get2("item"@, "call_id"@), payload.get2("item"@, "id"@)),
        json_str(fresh),
    );
    let function = JsonView::Object(
        no_fields().insert(
            "name"@,
            json_str(or_default(payload.str_at2("item"@, "name"@), Seq::empty())),
        ).insert("arguments"@, json_str(Seq::empty())),
    );
    one_field(
        "tool_calls"@,
        JsonView::Array(
            seq![
                JsonView::Object(
                    no_fields().insert("index"@, json_u64(index)).insert("id"@, id).insert(
                        "type"@,
                        json_str("function"@),
                    ).insert("function"@, function),
                ),
            ],
        ),
    )
}

/// The delta that adds to the arguments of a tool call.
pub open spec fn arguments_delta(index: u64, arguments: Seq<char>) -> JsonView {
    one_field(
        "tool_calls"@,
        JsonView::Array(
            seq![
                JsonView::Object(
                    no_fields().insert("index"@, json_u64(index)).insert(
                        "function"@,
                        one_field("arguments"@, json_str(arguments)),
                    ),
                ),
            ],
        ),
    )
}

/// What a stream comes to with one more event of this kind, and the chunk that is sent for it.
/// `fresh` is the identifier of a tool call that has none.
pub open spec fn stream_step(
    stream: StreamView,
    kind: Seq<char>,
    payload: JsonView,
    fresh: Seq<char>,
) -> (StreamView, Option<JsonView>) {
    if kind == "response.output_text.delta"@ {
        match payload.str_at("delta"@) {
            Some(delta) => (
                stream,
                Some(stream.chunk(one_field("content"@, json_str(delta)), JsonView::Null, None)),
            ),
            None => (stream, None),
        }
    } else if kind == "response.output_item.added"@ && is_call(payload) {
        let index = stream.begun.len() as u64;
        (
            StreamView {
                begun: stream.begun.push(output_index(payload, index)),
                saw_tool: true,
                ..stream
            },
            Some(stream.chunk(begin_delta(index, payload, fresh), JsonView::Null, None)),
        )
    } else if kind == "response.function_call_arguments.delta"@ {
        match payload.str_at("delta"@) {
            Some(delta) => {
                let index = stream.tool_at(output_index(payload, 0));
                (
                    StreamView { pieces: stream.pieces.insert(index), saw_tool: true, ..stream },
                    Some(stream.chunk(arguments_delta(index, delta), JsonView::Null, None)),
                )
            },
            None => (stream, None),
        }
    } else if kind == "response.output_item.done"@ && is_call(payload) {
        let index = stream.tool_at(output_index(payload, 0));
        let arguments = payload.str_at2("item"@, "arguments"@);
        (
            StreamView { saw_tool: true, ..stream },
            if !stream.pieces.contains(index) && arguments is Some {
                Some(stream.chunk(arguments_delta(index, arguments->0), JsonView::Null, None))
            } else {
                None
            },
        )
    } else if kind == "response.completed"@ {
        (
            StreamView { final_sent: true, ..stream },
            Some(
                stream.chunk(
                    JsonView::Object(no_fields()),
                    json_str(stream.finish_reason()),
                    payload.get2("response"@, "usage"@),
                ),
            ),
        )
    } else if kind == "response.failed"@ || kind == "response.incomplete"@ {
        (
            StreamView { final_sent: true, ..stream },
            Some(
                stream.chunk(
                    one_field(
                        "content"@,
                        json_str("\n["@ + failure_message(payload) + "]"@),
                    ),
                    json_str("stop"@),
                    None,
                ),
            ),
        )
    } else {
        (stream, None)
    }
}

/// What a run of events does to a stream: what the stream has come to, the chunks that are sent, and
/// how many tool calls had to be given an identifier.
#[verifier::ext_equal]
pub struct RunView {
    pub stream: StreamView,
    pub chunks: Seq<JsonView>,
    pub named: nat,
}

/// What a run of events, given by their kinds and payloads, does to a stream. A tool call without an
/// identifier is given the next of `ids`.
pub open spec fn stream_run(
    stream: StreamView,
    payloads: Seq<(Seq<char>, JsonView)>,
    ids: Seq<Seq<char>>,
) -> RunView
    decreases payloads.len(),
{
    if payloads.len() == 0 {
        RunView { stream, chunks: Seq::empty(), named: 0 }
    } else {
        let before = stream_run(stream, payloads.drop_last(), ids);
        let (kind, payload) = payloads.last();
        let (after, chunk) = stream_step(before.stream, kind, payload, ids[before.named as int]);
        RunView {
            stream: after,
            chunks: match chunk {
                Some(chunk) => before.chunks.push(chunk),
                None => before.chunks,
            },
            named: if needs_id(kind, payload) {
                before.named + 1
            } else {
                before.named
            },
        }
    }
}

/// The kinds and payloads of events; one whose data is no JSON has none.
pub open spec fn stream_payloads(events: Seq<EventView>) -> Seq<(Seq<char>, JsonView)>
    decreases events.len(),
{
    if events.len() == 0 {
        Seq::empty()
    } else {
        let before = stream_payloads(events.drop_last());
        match parsed(events.last().data) {
            Ok(payload) => before.push((kind_of(events.last(), payload), payload)),
            Err(_) => before,
        }
    }
}

/// The frames that send chunks.
pub open spec fn frames_of(chunks: Seq<JsonView>) -> Seq<Seq<char>> {
    chunks.map_values(|chunk: JsonView| data_frame(chunk))
}

/// The frames that end a stream.
pub open spec fn last_frames(stream: StreamView) -> Seq<char> {
    let end = "data: [DONE]\n\n"@;
    if stream.final_sent {
        end
    } else {
        data_frame(
            stream.chunk(JsonView::Object(no_fields()), json_str(stream.finish_reason()), None),
        ) + end
    }
}

/// The kinds and payloads of events.
pub fn read_stream_payloads(events: &Vec<SseEvent>) -> (payloads: Vec<(String, Json)>)
    ensures
        payload_views(payloads@) == stream_payloads(event_views(events@)),
{
    let mut payloads: Vec<(String, Json)> = Vec::new();
    let mut i: usize = 0;
    assert(event_views(events@).take(0) =~= Seq::<EventView>::empty());
    assert(payload_views(payloads@) =~= Seq::<(Seq<char>, JsonView)>::empty());
    while i < events.len()
        invariant
            i <= events@.len(),
            payload_views(payloads@) == stream_payloads(event_views(events@).take(i as int)),
        decreases events@.len() - i,
    {
        let event = &events[i];
        proof {
            let next = event_views(events@).take(i + 1);
            assert(next.drop_last() =~= event_views(events@).take(i as int));
            assert(next.last() == event@);
        }
        if let Ok(payload) = parse_json(event.data.as_str()) {
            let ghost before = payloads@;
            let kind = event_kind(event, &payload);
            payloads.push((kind, payload));
            assert(payload_views(payloads@) =~= payload_views(before).push((kind@, payload@)));
        }
        i = i + 1;
    }
    assert(event_views(events@).take(events@.len() as int) =~= event_views(events@));
    payloads
}

/// A stream of chat completion chunks.
pub struct ChatStream {
    decoder: SseDecoder,
    id: String,
    created: i64,
    model: String,
    begun: Vec<u64>,
    pieces: Vec<u64>,
    saw_tool: bool,
    final_sent: bool,
}

/// A document with one field.
fn object_with(key: &str, value: Json) -> (json: Json)
    ensures
        json@ == one_field(key@, value@),
{
    let mut map = JsonMap::new();
    map.insert(key, value);
    Json::Object(map)
}

/// A list of one item.
fn list_of(item: Json) -> (json: Json)
    ensures
        json@ == JsonView::Array(seq![item@]),
{
    let mut items: Vec<Json> = Vec::new();
    items.push(item);
    assert(items_view(items@) =~= seq![item@]);
    Json::Array(items)
}

/// The output index that a payload gives, or `default`.
fn output_index_at(payload: &Json, default: u64) -> (index: u64)
    ensures
        index == output_index(payload@, default),
{
    let found = match payload.get("output_index") {
        Some(index) => Some(index),
        None => payload.get("index"),
    };
    match found {
        Some(index) => match index.as_u64() {
            Some(n) => n,
            None => default,
        },
        None => default,
    }
}

/// Whether a payload is about a function call.
fn about_call(payload: &Json) -> (result: bool)
    ensures
        result == is_call(payload@),
{
    match payload.str_at2("item", "type") {
        Some(kind) => text_eq(kind, "function_call"),
        None => false,
    }
}

/// The delta that begins a tool call.
fn begin_delta_json(index: u64, payload: &Json, fresh: &str) -> (delta: Json)
    ensures
        delta@ == begin_delta(index, payload@, fresh@),
{
    proof {
        reveal_strlit("");
        assert(""@ =~= Seq::<char>::empty());
    }
    let id = match payload.get2("item", "call_id") {
        Some(id) => id.clone(),
        None => match payload.get2("item", "id") {
            Some(id) => id.clone(),
            None => Json::text(fresh),
        },
    };
    let mut function = JsonMap::new();
    function.insert(
        "name",
        Json::text(
            match payload.str_at2("item", "name") {
                Some(name) => name,
                None => "",
            },
        ),
    );
    function.insert("arguments", Json::text(""));
    let mut call = JsonMap::new();
    call.insert("index", Json::count(index));
    call.insert("id", id);
    call.insert("type", Json::text("function"));
    call.insert("function", Json::Object(function));
    object_with("tool_calls", list_of(Json::Object(call)))
}

/// The delta that adds to the arguments of a tool call.
fn arguments_delta_json(index: u64, arguments: &str) -> (delta: Json)
    ensures
        delta@ == arguments_delta(index, arguments@),
{
    let mut call = JsonMap::new();
    call.insert("index", Json::count(index));
    call.insert("function", object_with("arguments", Json::text(arguments)));
    object_with("tool_calls", list_of(Json::Object(call)))
}

/// Whether `list` holds `item`.
fn holds(list: &Vec<u64>, item: u64) -> (found: bool)
    ensures
        found == list@.to_set().contains(item),
{
    let mut i: usize = 0;
    while i < list.len()
        invariant
            i <= list@.len(),
            forall|j: int| 0 <= j < i ==> list@[j] != item,
        decreases list@.len() - i,
    {
        if list[i] == item {
            return true;
        }
        i = i + 1;
    }
    false
}

impl ChatStream {
    /// What the stream has come to.
    pub closed spec fn view(&self) -> StreamView {
        StreamView {
            id: self.id@,
            created: self.created,
            model: self.model@,
            begun: self.begun@,
            pieces: self.pieces@.to_set(),
            saw_tool: self.saw_tool,
            final_sent: self.final_sent,
        }
    }

    /// The bytes of the answer that no complete event accounts for yet.
    pub closed spec fn held(&self) -> Seq<u8> {
        self.decoder@
    }

    /// A stream with this identifier, made at this time.
    pub fn with_identity(id: String, created: i64, model: String) -> (stream: ChatStream)
        ensures
            stream@ == (StreamView {
                id: id@,
                created,
                model: model@,
                begun: Seq::empty(),
                pieces: Set::empty(),
                saw_tool: false,
                final_sent: false,
            }),
            stream.held() == Seq::<u8>::empty(),
    {
        let stream = ChatStream {
            decoder: SseDecoder::default(),
            id,
            created,
            model,
            begun: Vec::new(),
            pieces: Vec::new(),
            saw_tool: false,
            final_sent: false,
        };
        assert(stream.pieces@.to_set() =~= Set::<u64>::empty());
        stream
    }

    /// A stream with a random identifier, made now.
    pub fn new(model: String) -> (stream: ChatStream)
        ensures
            is_random_id(stream@.id, "chatcmpl"@),
            stream@.created >= 0,
            stream@ == (StreamView {
                id: stream@.id,
                created: stream@.created,
                model: model@,
                begun: Seq::empty(),
                pieces: Set::empty(),
                saw_tool: false,
                final_sent: false,
            }),
            stream.held() == Seq::<u8>::empty(),
    {
        let id = random_id("chatcmpl");
        let created = current_time();
        ChatStream::with_identity(id, created.secs, model)
    }

    /// The frame that begins the stream.
    pub fn first_frame(&self) -> (frame: String)
        ensures
            frame@ == data_frame(
                self@.chunk(one_field("role"@, json_str("assistant"@)), JsonView::Null, None),
            ),
    {
        let delta = object_with("role", Json::text("assistant"));
        sse_bytes(
            &chat_chunk(self.id.as_str(), self.created, self.model.as_str(), delta, Json::Null, None),
        )
    }

    /// A chunk of this stream.
    fn chunk(&self, delta: Json, finish: Json, usage: Option<&Json>) -> (chunk: Json)
        ensures
            chunk@ == self@.chunk(delta@, finish@, opt_view(usage)),
    {
        chat_chunk(self.id.as_str(), self.created, self.model.as_str(), delta, finish, usage)
    }

    /// Why the stream ends, where nothing went wrong.
    fn finish_text(&self) -> (reason: &'static str)
        ensures
            reason@ == self@.finish_reason(),
    {
        if self.saw_tool {
            "tool_calls"
        } else {
            "stop"
        }
    }

    /// The number of the tool call that was begun last at this output index; 0 if there is none.
    fn tool_number(&self, output_index: u64) -> (index: u64)
        ensures
            index == self@.tool_at(output_index),
    {
        let n = self.begun.len();
        let mut i = n;
        assert(self.begun@.take(n as int) =~= self.begun@);
        while i > 0
            invariant
                i <= n,
                n == self.begun@.len(),
                last_index(self.begun@, output_index) == last_index(
                    self.begun@.take(i as int),
                    output_index,
                ),
            decreases i,
        {
            assert(self.begun@.take(i as int).drop_last() =~= self.begun@.take(i - 1));
            if self.begun[i - 1] == output_index {
                return (i - 1) as u64;
            }
            i = i - 1;
        }
        0
    }

    /// Takes in one more event of this kind and gives the chunk to send for it. `fresh` is the
    /// identifier of a tool call that has none.
    pub fn step(&mut self, kind: &str, payload: &Json, fresh: &str) -> (chunk: Option<Json>)
        ensures
            (final(self)@, (match chunk {
                Some(chunk) => Some(chunk@),
                None => None,
            })) == stream_step(old(self)@, kind@, payload@, fresh@),
            final(self).held() == old(self).held(),
    {
        if text_eq(kind, "response.output_text.delta") {
            match payload.str_at("delta") {
                Some(delta) => Some(
                    self.chunk(object_with("content", Json::text(delta)), Json::Null, None),
                ),
                None => None,
            }
        } else if text_eq(kind, "response.output_item.added") && about_call(payload) {
            let index = self.begun.len() as u64;
            let chunk = self.chunk(begin_delta_json(index, payload, fresh), Json::Null, None);
            self.begun.push(output_index_at(payload, index));
            self.saw_tool = true;
            Some(chunk)
        } else if text_eq(kind, "response.function_call_arguments.delta") {
            match payload.str_at("delta") {
                Some(delta) => {
                    let index = self.tool_number(output_index_at(payload, 0));
                    let chunk = self.chunk(arguments_delta_json(index, delta), Json::Null, None);
                    let ghost before = self.pieces@;
                    if !holds(&self.pieces, index) {
                        self.pieces.push(index);
                        proof {
                            assert(self.pieces@ == before.push(index));
                            assert forall|n: u64| #[trigger] self.pieces@.to_set().contains(n)
                                == before.to_set().insert(index).contains(n) by {
                                if before.contains(n) {
                                    let j = choose|j: int| 0 <= j < before.len() && before[j] == n;
                                    assert(self.pieces@[j] == n);
                                }
                                if n == index {
                                    assert(self.pieces@[before.len() as int] == n);
                                }
                            }
                            assert(self.pieces@.to_set() =~= before.to_set().insert(index));
                        }
                    } else {
                        assert(before.to_set().insert(index) =~= before.to_set());
                    }
                    self.saw_tool = true;
                    Some(chunk)
                },
                None => None,
            }
        } else if text_eq(kind, "response.output_item.done") && about_call(payload) {
            let index = self.tool_number(output_index_at(payload, 0));
            let chunk = if holds(&self.pieces, index) {
                None
            } else {
                match payload.str_at2("item", "arguments") {
                    Some(arguments) => Some(
                        self.chunk(arguments_delta_json(index, arguments), Json::Null, None),
                    ),
                    None => None,
                }
            };
            self.saw_tool = true;
            chunk
        } else if text_eq(kind, "response.completed") {
            let chunk = self.chunk(
                Json::Object(JsonMap::new()),
                Json::text(self.finish_text()),
                payload.get2("response", "usage"),
            );
            self.final_sent = true;
            Some(chunk)
        } else if text_eq(kind, "response.failed") || text_eq(kind, "response.incomplete") {
            let mut text = "\n[".to_owned();
            text.append(
                match payload.str_at2("error", "message") {
                    Some(message) => message,
                    None => "Upstream response failed",
                },
            );
            text.append("]");
            let chunk = self.chunk(
                object_with("content", Json::String(text)),
                Json::text("stop"),
                None,
            );
            self.final_sent = true;
            Some(chunk)
        } else {
            None
        }
    }

    /// Takes in the next bytes of the answer and gives the frames to send for them.
    pub fn push(&mut self, bytes: &[u8]) -> (frames: Vec<String>)
        ensures
            final(self).held() == leftover(old(self).held() + bytes@),
            exists|ids: Seq<Seq<char>>|
                {
                    let run = #[trigger] stream_run(
                        old(self)@,
                        stream_payloads(events_of(old(self).held() + bytes@)),
                        ids,
                    );
                    &&& ids.len() == run.named
                    &&& random_ids(ids, "call"@)
                    &&& final(self)@ == run.stream
                    &&& texts(frames@) == frames_of(run.chunks)
                },
    {
        let ghost start = self@;
        let events = self.decoder.push(bytes);
        let payloads = read_stream_payloads(&events);
        let ghost all = payload_views(payloads@);
        let mut frames: Vec<String> = Vec::new();
        let ghost mut ids: Seq<Seq<char>> = Seq::empty();
        let mut i: usize = 0;
        proof {
            assert(all.take(0) =~= Seq::<(Seq<char>, JsonView)>::empty());
            assert(texts(frames@) =~= frames_of(Seq::<JsonView>::empty()));
        }
        while i < payloads.len()
            invariant
                i <= payloads@.len(),
                all == payload_views(payloads@),
                self.held() == leftover(old(self).held() + bytes@),
                ids.len() == stream_run(start, all.take(i as int), ids).named,
                random_ids(ids, "call"@),
                self@ == stream_run(start, all.take(i as int), ids).stream,
                texts(frames@) == frames_of(stream_run(start, all.take(i as int), ids).chunks),
            decreases payloads@.len() - i,
        {
            let kind = payloads[i].0.as_str();
            let payload = &payloads[i].1;
            let fresh = if must_name(kind, payload) {
                random_id("call")
            } else {
                String::new()
            };
            let ghost before = ids;
            proof {
                let next = all.take(i + 1);
                assert(next.drop_last() =~= all.take(i as int));
                assert(next.last() == (kind@, payload@));
                if needs_id(kind@, payload@) {
                    ids = ids.push(fresh@);
                }
                assert(ids.take(before.len() as int) =~= before);
                lemma_run_ids(start, all.take(i as int), before, ids);
                lemma_fresh(self@, kind@, payload@, fresh@, ids[before.len() as int]);
            }
            let ghost sent = frames@;
            let ghost run = stream_run(start, all.take(i as int), ids);
            match self.step(kind, payload, fresh.as_str()) {
                Some(chunk) => {
                    let frame = sse_bytes(&chunk);
                    frames.push(frame);
                    assert(texts(frames@) =~= texts(sent).push(frame@));
                    assert(frames_of(run.chunks.push(chunk@)) =~= frames_of(run.chunks).push(
                        data_frame(chunk@),
                    ));
                },
                None => {},
            }
            i = i + 1;
        }
        assert(all.take(payloads@.len() as int) =~= all);
        frames
    }

    /// The frames that end the stream.
    pub fn finish(&self) -> (frames: String)
        ensures
            frames@ == last_frames(self@),
    {
        let mut frames = String::new();
        if !self.final_sent {
            let chunk = self.chunk(
                Json::Object(JsonMap::new()),
                Json::text(self.finish_text()),
                None,
            );
            frames.append(sse_bytes(&chunk).as_str());
        }
        frames.append("data: [DONE]\n\n");
        assert(frames@ =~= last_frames(self@));
        frames
    }
}

/// Whether an event begins a tool call that has no identifier.
fn must_name(kind: &str, payload: &Json) -> (result: bool)
    ensures
        result == needs_id(kind@, payload@),
{
    text_eq(kind, "response.output_item.added") && about_call(payload) && payload.get2(
        "item",
        "call_id",
    ).is_none() && payload.get2("item", "id").is_none()
}

proof fn lemma_fresh(
    stream: StreamView,
    kind: Seq<char>,
    payload: JsonView,
    some: Seq<char>,
    other: Seq<char>,
)
    requires
        needs_id(kind, payload) ==> some == other,
    ensures
        stream_step(stream, kind, payload, some) == stream_step(stream, kind, payload, other),
{
}

proof fn lemma_run_ids(
    stream: StreamView,
    payloads: Seq<(Seq<char>, JsonView)>,
    some: Seq<Seq<char>>,
    more: Seq<Seq<char>>,
)
    requires
        stream_run(stream, payloads, some).named <= some.len(),
        some.len() <= more.len(),
        more.take(some.len() as int) == some,
    ensures
        stream_run(stream, payloads, more) == stream_run(stream, payloads, some),
    decreases payloads.len(),
{
    if payloads.len() > 0 {
        let before = payloads.drop_last();
        let (kind, payload) = payloads.last();
        lemma_run_ids(stream, before, some, more);
        let run = stream_run(stream, before, some);
        if needs_id(kind, payload) {
            assert(more.take(some.len() as int)[run.named as int] == more[run.named as int]);
        }
        lemma_fresh(run.stream, kind, payload, some[run.named as int], more[run.named as int]);
    }
}

/// Where the bytes of an answer are cut makes no difference to a stream: what a run of events does is
/// what its first part does followed by what its second part does.
pub proof fn law_runs_follow_one_another(
    stream: StreamView,
    first: Seq<(Seq<char>, JsonView)>,
    second: Seq<(Seq<char>, JsonView)>,
    ids: Seq<Seq<char>>,
)
    requires
        stream_run(stream, first + second, ids).named <= ids.len(),
    ensures
        ({
            let begin = stream_run(stream, first, ids);
            let end = stream_run(begin.stream, second, ids.skip(begin.named as int));
            stream_run(stream, first + second, ids) == (RunView {
                stream: end.stream,
                chunks: begin.chunks + end.chunks,
                named: begin.named + end.named,
            })
        }),
    decreases second.len(),
{
    let begin = stream_run(stream, first, ids);
    if second.len() == 0 {
        assert(first + second =~= first);
        assert(begin.chunks + Seq::<JsonView>::empty() =~= begin.chunks);
    } else {
        let short = second.drop_last();
        assert((first + second).drop_last() =~= first + short);
        law_runs_follow_one_another(stream, first, short, ids);
        let (kind, payload) = second.last();
        let rest = ids.skip(begin.named as int);
        let end = stream_run(begin.stream, short, rest);
        if needs_id(kind, payload) {
            assert(rest[end.named as int] == ids[(begin.named + end.named) as int]);
        }
        lemma_fresh(
            end.stream,
            kind,
            payload,
            rest[end.named as int],
            ids[(begin.named + end.named) as int],
        );
        let (_, chunk) = stream_step(end.stream, kind, payload, rest[end.named as int]);
        if let Some(chunk) = chunk {
            assert((begin.chunks + end.chunks).push(chunk) =~= begin.chunks + end.chunks.push(
                chunk,
            ));
        }
    }
}

/// Whether a chunk gives a reason for its stream's end.
pub open spec fn is_last_chunk(chunk: JsonView) -> bool {
    chunk.items_at("choices"@)[0].str_at("finish_reason"@) is Some
}

proof fn lemma_chunk(
    stream: StreamView,
    delta: JsonView,
    finish: JsonView,
    usage: Option<JsonView>,
)
    ensures
        stream.chunk(delta, finish, usage).get("id"@) == Some(json_str(stream.id)),
        stream.chunk(delta, finish, usage).get("created"@) == Some(json_i64(stream.created)),
        stream.chunk(delta, finish, usage).get("model"@) == Some(json_str(stream.model)),
        stream.chunk(delta, finish, usage).items_at("choices"@).len() == 1,
        is_last_chunk(stream.chunk(delta, finish, usage)) == finish is String,
{
    reveal_strlit("id");
    reveal_strlit("object");
    reveal_strlit("created");
    reveal_strlit("model");
    reveal_strlit("choices");
    reveal_strlit("usage");
    assert("id"@.len() == 2 && "object"@.len() == 6 && "created"@.len() == 7);
    assert("choices"@.len() == 7 && "model"@.len() == 5 && "usage"@.len() == 5);
    assert("created"@[1] != "choices"@[1]);
    assert("model"@[0] != "usage"@[0]);
}

/// Every chunk of a stream bears the identity of the stream, and an event that sends the last chunk
/// is one that sends a chunk with a reason for the end.
pub proof fn law_chunks_bear_the_identity(
    stream: StreamView,
    kind: Seq<char>,
    payload: JsonView,
    fresh: Seq<char>,
)
    ensures
        ({
            let (after, chunk) = stream_step(stream, kind, payload, fresh);
            &&& after.id == stream.id && after.created == stream.created && after.model
                == stream.model
            &&& chunk matches Some(chunk) ==> {
                &&& chunk.get("id"@) == Some(json_str(stream.id))
                &&& chunk.get("created"@) == Some(json_i64(stream.created))
                &&& chunk.get("model"@) == Some(json_str(stream.model))
                &&& is_last_chunk(chunk) ==> after.final_sent
            }
            &&& after.final_sent && !stream.final_sent ==> chunk is Some && is_last_chunk(chunk->0)
        }),
{
    assert forall|delta: JsonView, finish: JsonView, usage: Option<JsonView>|
        {
            let chunk = #[trigger] stream.chunk(delta, finish, usage);
            &&& chunk.get("id"@) == Some(json_str(stream.id))
            &&& chunk.get("created"@) == Some(json_i64(stream.created))
            &&& chunk.get("model"@) == Some(json_str(stream.model))
            &&& is_last_chunk(chunk) == finish is String
        } by {
        lemma_chunk(stream, delta, finish, usage);
    }
}

/// A stream of which no chunk gave a reason for the end is ended by one that does, and every stream
/// is closed by the end mark.
pub proof fn law_stream_is_ended(
    stream: StreamView,
    payloads: Seq<(Seq<char>, JsonView)>,
    ids: Seq<Seq<char>>,
)
    requires
        !stream.final_sent,
    ensures
        ({
            let run = stream_run(stream, payloads, ids);
            let given = exists|i: int| 0 <= i < run.chunks.len() && is_last_chunk(
                #[trigger] run.chunks[i],
            );
            let last = run.stream.chunk(
                JsonView::Object(no_fields()),
                json_str(run.stream.finish_reason()),
                None,
            );
            &&& is_last_chunk(last)
            &&& last_frames(run.stream) == if given {
                "data: [DONE]\n\n"@
            } else {
                data_frame(last) + "data: [DONE]\n\n"@
            }
        }),
{
    lemma_final_sent(stream, payloads, ids);
    let run = stream_run(stream, payloads, ids);
    lemma_chunk(
        run.stream,
        JsonView::Object(no_fields()),
        json_str(run.stream.finish_reason()),
        None,
    );
}

proof fn lemma_final_sent(
    stream: StreamView,
    payloads: Seq<(Seq<char>, JsonView)>,
    ids: Seq<Seq<char>>,
)
    requires
        !stream.final_sent,
    ensures
        ({
            let run = stream_run(stream, payloads, ids);
            run.stream.final_sent <==> exists|i: int|
                0 <= i < run.chunks.len() && is_last_chunk(#[trigger] run.chunks[i])
        }),
    decreases payloads.len(),
{
    if payloads.len() > 0 {
        let before = stream_run(stream, payloads.drop_last(), ids);
        let run = stream_run(stream, payloads, ids);
        let (kind, payload) = payloads.last();
        let fresh = ids[before.named as int];
        lemma_final_sent(stream, payloads.drop_last(), ids);
        law_chunks_bear_the_identity(before.stream, kind, payload, fresh);
        let (after, chunk) = stream_step(before.stream, kind, payload, fresh);
        if before.stream.final_sent {
            let i = choose|i: int|
                0 <= i < before.chunks.len() && is_last_chunk(#[trigger] before.chunks[i]);
            assert(is_last_chunk(run.chunks[i]));
        } else if after.final_sent {
            assert(is_last_chunk(run.chunks[before.chunks.len() as int]));
        } else {
            assert forall|i: int| 0 <= i < run.chunks.len() implies !is_last_chunk(
                #[trigger] run.chunks[i],
            ) by {
                if i < before.chunks.len() {
                    assert(run.chunks[i] == before.chunks[i]);
                }
            }
        }
    }
}

/// The text that a chunk adds.
pub open spec fn chunk_text(chunk: JsonView) -> Seq<char> {
    or_default(chunk.items_at("choices"@)[0].str_at2("delta"@, "content"@), Seq::empty())
}

/// The text that chunks add, one after the other.
pub open spec fn chunks_text(chunks: Seq<JsonView>) -> Seq<char>
    decreases chunks.len(),
{
    if chunks.len() == 0 {
        Seq::empty()
    } else {
        chunks_text(chunks.drop_last()) + chunk_text(chunks.last())
    }
}

/// The text of a chat completion.
pub open spec fn chat_text(chat: JsonView) -> Option<Seq<char>> {
    chat.items_at("choices"@)[0].str_at2("message"@, "content"@)
}

proof fn lemma_chunk_text(stream: StreamView, text: Seq<char>)
    ensures
        chunk_text(stream.chunk(one_field("content"@, json_str(text)), JsonView::Null, None)) == text,
{
    let delta = one_field("content"@, json_str(text));
    lemma_chunk(stream, delta, JsonView::Null, None);
    reveal_strlit("delta");
    reveal_strlit("finish_reason");
    assert("finish_reason"@.len() != "delta"@.len());
}

proof fn lemma_streamed_text(
    stream: StreamView,
    payloads: Seq<(Seq<char>, JsonView)>,
    ids: Seq<Seq<char>>,
)
    requires
        forall|i: int| 0 <= i < payloads.len() ==> first_text_piece(#[trigger] payloads[i]),
    ensures
        stream_run(stream, payloads, ids).stream == stream,
        chunks_text(stream_run(stream, payloads, ids).chunks) == concat(deltas(payloads)),
    decreases payloads.len(),
{
    if payloads.len() == 0 {
        assert(deltas(payloads) =~= Seq::<Seq<char>>::empty());
    } else {
        let short = payloads.drop_last();
        let (kind, payload) = payloads.last();
        assert(first_text_piece(payloads[payloads.len() - 1]));
        assert forall|i: int| 0 <= i < short.len() implies first_text_piece(#[trigger] short[i]) by {
            assert(first_text_piece(payloads[i]));
        }
        lemma_streamed_text(stream, short, ids);
        let before = stream_run(stream, short, ids);
        assert(deltas(payloads).drop_last() =~= deltas(short));
        assert(deltas(payloads).last() == delta_of(payload));
        match payload.str_at("delta"@) {
            Some(delta) => {
                lemma_chunk_text(stream, delta);
                let chunk = stream.chunk(
                    one_field("content"@, json_str(delta)),
                    JsonView::Null,
                    None,
                );
                assert(before.chunks.push(chunk).drop_last() =~= before.chunks);
            },
            None => {
                assert(concat(deltas(short)) + Seq::<char>::empty() =~= concat(deltas(short)));
            },
        }
    }
}

/// A client that asks for a stream is given the text that one which does not is given: the texts of
/// the chunks, one after the other, are the text of the whole completion.
pub proof fn law_streamed_text_is_the_whole_text(
    stream: StreamView,
    payloads: Seq<(Seq<char>, JsonView)>,
    ids: Seq<Seq<char>>,
    model: Seq<char>,
    id: Seq<char>,
    created: i64,
)
    requires
        payloads.len() > 0,
        forall|i: int| 0 <= i < payloads.len() ==> first_text_piece(#[trigger] payloads[i]),
    ensures
        collectable(payloads),
        collected(payloads) is Ok,
        chat_text(chat_view(collected(payloads)->Ok_0, model, ids, id, created)) == Some(
            chunks_text(stream_run(stream, payloads, ids).chunks),
        ),
{
    law_text_pieces_come_out_whole(payloads);
    lemma_streamed_text(stream, payloads, ids);
    lemma_chat_text(concat(deltas(payloads)), model, ids, id, created);
}

/// The arguments of a tool call are sent once: where they came in pieces, the whole of them that
/// comes at the end is not sent again; where they did not, it is.
pub proof fn law_arguments_are_sent_once(
    stream: StreamView,
    piece: JsonView,
    done: JsonView,
    fresh: Seq<char>,
)
    requires
        piece.str_at("delta"@) is Some,
        is_call(done),
        output_index(piece, 0) == output_index(done, 0),
    ensures
        ({
            let (held, first) = stream_step(
                stream,
                "response.function_call_arguments.delta"@,
                piece,
                fresh,
            );
            let (_, last) = stream_step(held, "response.output_item.done"@, done, fresh);
            first is Some && last is None
        }),
        !stream.pieces.contains(stream.tool_at(output_index(done, 0))) ==> stream_step(
            stream,
            "response.output_item.done"@,
            done,
            fresh,
        ).1 == (match done.str_at2("item"@, "arguments"@) {
            Some(arguments) => Some(
                stream.chunk(
                    arguments_delta(stream.tool_at(output_index(done, 0)), arguments),
                    JsonView::Null,
                    None,
                ),
            ),
            None => None,
        }),
{
    lemma_kinds();
}

proof fn lemma_kinds()
    ensures
        "response.function_call_arguments.delta"@ != "response.output_text.delta"@,
        "response.function_call_arguments.delta"@ != "response.output_item.added"@,
        "response.output_item.done"@ != "response.output_text.delta"@,
        "response.output_item.done"@ != "response.output_item.added"@,
        "response.output_item.done"@ != "response.function_call_arguments.delta"@,
{
    reveal_strlit("response.function_call_arguments.delta");
    reveal_strlit("response.output_text.delta");
    reveal_strlit("response.output_item.added");
    reveal_strlit("response.output_item.done");
    assert("response.function_call_arguments.delta"@.len() == 38);
    assert("response.output_text.delta"@.len() == 26);
    assert("response.output_item.added"@.len() == 26);
    assert("response.output_item.done"@.len() == 25);
}

/// Whether an event begins a tool call.
pub open spec fn begins_call(entry: (Seq<char>, JsonView)) -> bool {
    &&& entry.0 == "response.output_item.added"@
    &&& entry.1.str_at2("item"@, "type"@) == Some("function_call"@)
}

/// How many of the events begin a tool call.
pub open spec fn calls_begun(payloads: Seq<(Seq<char>, JsonView)>) -> nat
    decreases payloads.len(),
{
    if payloads.len() == 0 {
        0
    } else if begins_call(payloads.last()) {
        calls_begun(payloads.drop_last()) + 1
    } else {
        calls_begun(payloads.drop_last())
    }
}

/// The output index that a payload says, if it says one: `index` counts only where there is no
/// `output_index`.
pub open spec fn said_index(payload: JsonView) -> Option<u64> {
    if payload.get("output_index"@) is Some {
        payload.u64_at("output_index"@)
    } else {
        payload.u64_at("index"@)
    }
}

/// The output index of the tool call that event `i` begins: the one that it says, or else the number
/// of calls that were begun before.
pub open spec fn place_of(payloads: Seq<(Seq<char>, JsonView)>, i: int) -> u64 {
    match said_index(payloads[i].1) {
        Some(index) => index,
        None => calls_begun(payloads.take(i)) as u64,
    }
}

/// The output index that a piece of arguments, or the end of a call, is for.
pub open spec fn meant_index(payload: JsonView) -> u64 {
    match said_index(payload) {
        Some(index) => index,
        None => 0,
    }
}

/// The chunk that is sent for event `i` of a run.
pub open spec fn sent_for(
    stream: StreamView,
    payloads: Seq<(Seq<char>, JsonView)>,
    ids: Seq<Seq<char>>,
    i: int,
) -> Option<JsonView> {
    let before = stream_run(stream, payloads.take(i), ids);
    stream_step(before.stream, payloads[i].0, payloads[i].1, ids[before.named as int]).1
}

/// What a chunk adds to the answer.
pub open spec fn chunk_delta(chunk: JsonView) -> Option<JsonView> {
    chunk.items_at("choices"@)[0].get("delta"@)
}

/// Whether a chunk is about one tool call, which has this number.
pub open spec fn is_for_call(chunk: JsonView, number: u64) -> bool {
    &&& chunk_delta(chunk) is Some
    &&& chunk_delta(chunk)->0.items_at("tool_calls"@).len() == 1
    &&& chunk_delta(chunk)->0.items_at("tool_calls"@)[0].get("index"@) == Some(json_u64(number))
}

/// The tool call that a chunk is about.
pub open spec fn chunk_call(chunk: JsonView) -> JsonView {
    chunk_delta(chunk)->0.items_at("tool_calls"@)[0]
}

proof fn lemma_event_kinds()
    ensures
        "response.output_item.added"@ != "response.output_text.delta"@,
        "response.output_item.added"@ != "response.function_call_arguments.delta"@,
        "response.output_item.added"@ != "response.output_item.done"@,
        "response.output_item.added"@ != "response.completed"@,
        "response.output_item.added"@ != "response.failed"@,
        "response.output_item.added"@ != "response.incomplete"@,
        "response.output_text.delta"@ != "response.function_call_arguments.delta"@,
        "response.output_text.delta"@ != "response.output_item.done"@,
        "response.output_text.delta"@ != "response.completed"@,
        "response.output_text.delta"@ != "response.failed"@,
        "response.output_text.delta"@ != "response.incomplete"@,
        "response.function_call_arguments.delta"@ != "response.output_item.done"@,
        "response.function_call_arguments.delta"@ != "response.completed"@,
        "response.function_call_arguments.delta"@ != "response.failed"@,
        "response.function_call_arguments.delta"@ != "response.incomplete"@,
        "response.output_item.done"@ != "response.completed"@,
        "response.output_item.done"@ != "response.failed"@,
        "response.output_item.done"@ != "response.incomplete"@,
        "response.completed"@ != "response.failed"@,
        "response.completed"@ != "response.incomplete"@,
        "response.failed"@ != "response.incomplete"@,
{
    reveal_strlit("response.output_item.added");
    reveal_strlit("response.output_text.delta");
    reveal_strlit("response.function_call_arguments.delta");
    reveal_strlit("response.output_item.done");
    reveal_strlit("response.completed");
    reveal_strlit("response.failed");
    reveal_strlit("response.incomplete");
    assert("response.output_item.added"@.len() == 26 && "response.output_text.delta"@.len() == 26);
    assert("response.function_call_arguments.delta"@.len() == 38);
    assert("response.output_item.done"@.len() == 25 && "response.completed"@.len() == 18);
    assert("response.failed"@.len() == 15 && "response.incomplete"@.len() == 19);
    assert("response.output_item.added"@[16] != "response.output_text.delta"@[16]);
}

proof fn lemma_chunk_choice(
    stream: StreamView,
    delta: JsonView,
    finish: JsonView,
    usage: Option<JsonView>,
)
    ensures
        ({
            let chunk = stream.chunk(delta, finish, usage);
            &&& chunk_delta(chunk) == Some(delta)
            &&& chunk.items_at("choices"@).len() == 1
            &&& chunk.items_at("choices"@)[0].get("index"@) == Some(json_u64(0))
            &&& chunk.items_at("choices"@)[0].get("finish_reason"@) == Some(finish)
            &&& chunk.get("object"@) == Some(json_str("chat.completion.chunk"@))
            &&& chunk.get("usage"@) == (match usage {
                Some(_) => Some(usage_view(usage)),
                None => None,
            })
        }),
{
    reveal_strlit("id");
    reveal_strlit("object");
    reveal_strlit("created");
    reveal_strlit("model");
    reveal_strlit("choices");
    reveal_strlit("usage");
    reveal_strlit("index");
    reveal_strlit("delta");
    reveal_strlit("finish_reason");
    assert("id"@.len() == 2 && "object"@.len() == 6 && "created"@.len() == 7);
    assert("model"@.len() == 5 && "choices"@.len() == 7 && "usage"@.len() == 5);
    assert("index"@.len() == 5 && "delta"@.len() == 5 && "finish_reason"@.len() == 13);
    assert("model"@[0] != "usage"@[0]);
    assert("model"@[0] != "index"@[0]);
    assert("model"@[0] != "delta"@[0]);
    assert("usage"@[0] != "index"@[0]);
    assert("usage"@[0] != "delta"@[0]);
    assert("index"@[0] != "delta"@[0]);
    assert("created"@[1] != "choices"@[1]);
}

proof fn lemma_call_keys()
    ensures
        "index"@ != "id"@,
        "index"@ != "type"@,
        "index"@ != "function"@,
        "id"@ != "type"@,
        "id"@ != "function"@,
        "type"@ != "function"@,
        "name"@ != "arguments"@,
{
    reveal_strlit("index");
    reveal_strlit("id");
    reveal_strlit("type");
    reveal_strlit("function");
    reveal_strlit("name");
    reveal_strlit("arguments");
    assert("index"@.len() == 5 && "id"@.len() == 2 && "type"@.len() == 4 && "function"@.len() == 8);
    assert("name"@.len() == 4 && "arguments"@.len() == 9);
    assert("type"@[0] != "name"@[0]);
}

proof fn lemma_begun(
    stream: StreamView,
    payloads: Seq<(Seq<char>, JsonView)>,
    ids: Seq<Seq<char>>,
)
    requires
        stream.begun.len() == 0,
    ensures
        stream_run(stream, payloads, ids).stream.begun.len() == calls_begun(payloads),
    decreases payloads.len(),
{
    if payloads.len() > 0 {
        lemma_event_kinds();
        lemma_begun(stream, payloads.drop_last(), ids);
    }
}

proof fn lemma_number(
    stream: StreamView,
    payloads: Seq<(Seq<char>, JsonView)>,
    ids: Seq<Seq<char>>,
    i: int,
    j: int,
)
    requires
        stream.begun.len() == 0,
        0 <= i < j <= payloads.len(),
        begins_call(payloads[i]),
        forall|k: int|
            i < k < j && begins_call(#[trigger] payloads[k]) ==> place_of(payloads, k) != place_of(
                payloads,
                i,
            ),
    ensures
        stream_run(stream, payloads.take(j), ids).stream.tool_at(place_of(payloads, i))
            == calls_begun(payloads.take(i)) as u64,
    decreases j,
{
    let before = payloads.take(j - 1);
    assert(payloads.take(j).drop_last() =~= before);
    assert(payloads.take(j).last() == payloads[j - 1]);
    lemma_begun(stream, before, ids);
    let begun = stream_run(stream, before, ids).stream.begun;
    lemma_event_kinds();
    if i < j - 1 {
        lemma_number(stream, payloads, ids, i, j - 1);
    }
    if begins_call(payloads[j - 1]) {
        let place = place_of(payloads, j - 1);
        assert(stream_run(stream, payloads.take(j), ids).stream.begun == begun.push(place));
        assert(begun.push(place).drop_last() =~= begun);
    }
}

proof fn lemma_no_number(
    stream: StreamView,
    payloads: Seq<(Seq<char>, JsonView)>,
    ids: Seq<Seq<char>>,
    place: u64,
    j: int,
)
    requires
        stream.begun.len() == 0,
        0 <= j <= payloads.len(),
        forall|k: int|
            0 <= k < j && begins_call(#[trigger] payloads[k]) ==> place_of(payloads, k) != place,
    ensures
        stream_run(stream, payloads.take(j), ids).stream.tool_at(place) == 0,
    decreases j,
{
    if j > 0 {
        let before = payloads.take(j - 1);
        assert(payloads.take(j).drop_last() =~= before);
        assert(payloads.take(j).last() == payloads[j - 1]);
        lemma_begun(stream, before, ids);
        lemma_no_number(stream, payloads, ids, place, j - 1);
        lemma_event_kinds();
        let begun = stream_run(stream, before, ids).stream.begun;
        if begins_call(payloads[j - 1]) {
            let other = place_of(payloads, j - 1);
            assert(stream_run(stream, payloads.take(j), ids).stream.begun == begun.push(other));
            assert(begun.push(other).drop_last() =~= begun);
        }
    }
}

/// How many of the events begin a tool call that is given no identifier.
pub open spec fn calls_unnamed(payloads: Seq<(Seq<char>, JsonView)>) -> nat
    decreases payloads.len(),
{
    if payloads.len() == 0 {
        0
    } else {
        let before = calls_unnamed(payloads.drop_last());
        let (kind, payload) = payloads.last();
        if begins_call((kind, payload)) && payload.get2("item"@, "call_id"@) is None && payload.get2(
            "item"@,
            "id"@,
        ) is None {
            before + 1
        } else {
            before
        }
    }
}

proof fn lemma_unnamed(
    stream: StreamView,
    payloads: Seq<(Seq<char>, JsonView)>,
    ids: Seq<Seq<char>>,
)
    ensures
        stream_run(stream, payloads, ids).named == calls_unnamed(payloads),
    decreases payloads.len(),
{
    if payloads.len() > 0 {
        lemma_unnamed(stream, payloads.drop_last(), ids);
    }
}

/// Tool calls are numbered from 0 in the order in which they begin: the chunk for an event that
/// begins a call has the number of calls that were begun before it, the identifier and the name that
/// the event gives, and no arguments yet. A call that is given no identifier has the next of `ids`.
pub proof fn law_calls_are_numbered(
    stream: StreamView,
    payloads: Seq<(Seq<char>, JsonView)>,
    ids: Seq<Seq<char>>,
    i: int,
)
    requires
        stream.begun.len() == 0,
        0 <= i < payloads.len(),
        begins_call(payloads[i]),
    ensures
        ({
            let item = payloads[i].1.get("item"@)->0;
            let chunk = sent_for(stream, payloads, ids, i);
            &&& chunk is Some
            &&& is_for_call(chunk->0, calls_begun(payloads.take(i)) as u64)
            &&& chunk_call(chunk->0).str_at("type"@) == Some("function"@)
            &&& chunk_call(chunk->0).str_at2("function"@, "name"@) == (match item.str_at("name"@) {
                Some(name) => Some(name),
                None => Some(Seq::empty()),
            })
            &&& chunk_call(chunk->0).str_at2("function"@, "arguments"@) == Some(Seq::<char>::empty())
            &&& item.get("call_id"@) is Some ==> chunk_call(chunk->0).get("id"@) == item.get(
                "call_id"@,
            )
            &&& item.get("call_id"@) is None && item.get("id"@) is Some ==> chunk_call(
                chunk->0,
            ).get("id"@) == item.get("id"@)
            &&& item.get("call_id"@) is None && item.get("id"@) is None ==> chunk_call(
                chunk->0,
            ).str_at("id"@) == Some(ids[calls_unnamed(payloads.take(i)) as int])
            &&& chunk->0.items_at("choices"@)[0].get("finish_reason"@) == Some(JsonView::Null)
        }),
{
    lemma_event_kinds();
    lemma_call_keys();
    lemma_unnamed(stream, payloads.take(i), ids);
    lemma_begun(stream, payloads.take(i), ids);
    let before = stream_run(stream, payloads.take(i), ids);
    let payload = payloads[i].1;
    let delta = begin_delta(
        calls_begun(payloads.take(i)) as u64,
        payload,
        ids[before.named as int],
    );
    lemma_chunk_choice(before.stream, delta, JsonView::Null, None);
}

/// A piece of arguments goes to the tool call that was begun last at its output index: the chunk has
/// the number that this call was given when it began, and the piece as it came. A piece for an index
/// at which no call was begun goes to the first call.
pub proof fn law_arguments_go_to_their_call(
    stream: StreamView,
    payloads: Seq<(Seq<char>, JsonView)>,
    ids: Seq<Seq<char>>,
    i: int,
    j: int,
    piece: Seq<char>,
)
    requires
        stream.begun.len() == 0,
        0 <= j < payloads.len(),
        payloads[j].0 == "response.function_call_arguments.delta"@,
        payloads[j].1.str_at("delta"@) == Some(piece),
    ensures
        ({
            let chunk = sent_for(stream, payloads, ids, j);
            &&& chunk is Some
            &&& chunk_delta(chunk->0) is Some
            &&& chunk_delta(chunk->0)->0.items_at("tool_calls"@).len() == 1
            &&& chunk_call(chunk->0).str_at2("function"@, "arguments"@) == Some(piece)
            &&& chunk->0.items_at("choices"@)[0].get("finish_reason"@) == Some(JsonView::Null)
        }),
        0 <= i < j && begins_call(payloads[i]) && place_of(payloads, i) == meant_index(
            payloads[j].1,
        ) && (forall|k: int|
            i < k < j && begins_call(#[trigger] payloads[k]) ==> place_of(payloads, k) != place_of(
                payloads,
                i,
            )) ==> ({
            let begin = sent_for(stream, payloads, ids, i)->0;
            let chunk = sent_for(stream, payloads, ids, j)->0;
            &&& is_for_call(chunk, calls_begun(payloads.take(i)) as u64)
            &&& chunk_call(chunk).get("index"@) == chunk_call(begin).get("index"@)
        }),
        (forall|k: int|
            0 <= k < j && begins_call(#[trigger] payloads[k]) ==> place_of(payloads, k)
                != meant_index(payloads[j].1)) ==> is_for_call(
            sent_for(stream, payloads, ids, j)->0,
            0,
        ),
{
    lemma_event_kinds();
    lemma_call_keys();
    let before = stream_run(stream, payloads.take(j), ids);
    let place = meant_index(payloads[j].1);
    let delta = arguments_delta(before.stream.tool_at(place), piece);
    lemma_chunk_choice(before.stream, delta, JsonView::Null, None);
    if 0 <= i < j && begins_call(payloads[i]) && place_of(payloads, i) == place && (forall|k: int|
        i < k < j && begins_call(#[trigger] payloads[k]) ==> place_of(payloads, k) != place_of(
            payloads,
            i,
        )) {
        lemma_number(stream, payloads, ids, i, j);
        law_calls_are_numbered(stream, payloads, ids, i);
    }
    if forall|k: int|
        0 <= k < j && begins_call(#[trigger] payloads[k]) ==> place_of(payloads, k) != place {
        lemma_no_number(stream, payloads, ids, place, j);
    }
}

/// Whether an event is a piece of the arguments of a tool call.
pub open spec fn is_piece(entry: (Seq<char>, JsonView)) -> bool {
    &&& entry.0 == "response.function_call_arguments.delta"@
    &&& entry.1.str_at("delta"@) is Some
}

/// Whether an event ends a tool call.
pub open spec fn ends_call(entry: (Seq<char>, JsonView)) -> bool {
    &&& entry.0 == "response.output_item.done"@
    &&& entry.1.str_at2("item"@, "type"@) == Some("function_call"@)
}

proof fn lemma_pieces(
    stream: StreamView,
    payloads: Seq<(Seq<char>, JsonView)>,
    ids: Seq<Seq<char>>,
    number: u64,
    j: int,
)
    requires
        stream.begun.len() == 0,
        stream.pieces == Set::<u64>::empty(),
        0 <= j <= payloads.len(),
    ensures
        stream_run(stream, payloads.take(j), ids).stream.pieces.contains(number) <==> exists|k: int|
            0 <= k < j && is_piece(#[trigger] payloads[k]) && is_for_call(
                sent_for(stream, payloads, ids, k)->0,
                number,
            ),
    decreases j,
{
    if j > 0 {
        lemma_pieces(stream, payloads, ids, number, j - 1);
        lemma_event_kinds();
        lemma_call_keys();
        let before = stream_run(stream, payloads.take(j - 1), ids);
        assert(payloads.take(j).drop_last() =~= payloads.take(j - 1));
        assert(payloads.take(j).last() == payloads[j - 1]);
        let payload = payloads[j - 1].1;
        if is_piece(payloads[j - 1]) {
            let piece = payload.str_at("delta"@)->0;
            let index = before.stream.tool_at(output_index(payload, 0));
            lemma_chunk_choice(
                before.stream,
                arguments_delta(index, piece),
                JsonView::Null,
                None,
            );
            assert(is_for_call(sent_for(stream, payloads, ids, j - 1)->0, number) <==> index
                == number);
        }
    }
}

/// The end of a tool call sends the whole of its arguments, with the number that the call was given
/// when it began, if no piece of them was sent before; otherwise it sends nothing.
pub proof fn law_whole_arguments_go_to_their_call(
    stream: StreamView,
    payloads: Seq<(Seq<char>, JsonView)>,
    ids: Seq<Seq<char>>,
    i: int,
    j: int,
)
    requires
        stream.begun.len() == 0,
        stream.pieces == Set::<u64>::empty(),
        0 <= i < j < payloads.len(),
        begins_call(payloads[i]),
        ends_call(payloads[j]),
        place_of(payloads, i) == meant_index(payloads[j].1),
        forall|k: int|
            i < k < j && begins_call(#[trigger] payloads[k]) ==> place_of(payloads, k) != place_of(
                payloads,
                i,
            ),
    ensures
        ({
            let number = calls_begun(payloads.take(i)) as u64;
            let sent = exists|k: int|
                0 <= k < j && is_piece(#[trigger] payloads[k]) && is_for_call(
                    sent_for(stream, payloads, ids, k)->0,
                    number,
                );
            let whole = payloads[j].1.str_at2("item"@, "arguments"@);
            let chunk = sent_for(stream, payloads, ids, j);
            &&& chunk is Some <==> !sent && whole is Some
            &&& chunk is Some ==> {
                &&& is_for_call(chunk->0, number)
                &&& chunk_call(chunk->0).str_at2("function"@, "arguments"@) == whole
            }
        }),
{
    lemma_event_kinds();
    lemma_call_keys();
    let number = calls_begun(payloads.take(i)) as u64;
    let before = stream_run(stream, payloads.take(j), ids);
    lemma_number(stream, payloads, ids, i, j);
    lemma_pieces(stream, payloads, ids, number, j);
    if let Some(whole) = payloads[j].1.str_at2("item"@, "arguments"@) {
        lemma_chunk_choice(before.stream, arguments_delta(number, whole), JsonView::Null, None);
    }
}

/// The chunks of a run are those that are sent for its events, in the order of the events.
pub proof fn law_chunks_are_sent_in_order(
    stream: StreamView,
    payloads: Seq<(Seq<char>, JsonView)>,
    ids: Seq<Seq<char>>,
    i: int,
)
    requires
        0 <= i < payloads.len(),
    ensures
        stream_run(stream, payloads.take(0), ids).chunks.len() == 0,
        stream_run(stream, payloads.take(i + 1), ids).chunks == stream_run(
            stream,
            payloads.take(i),
            ids,
        ).chunks + (match sent_for(stream, payloads, ids, i) {
            Some(chunk) => seq![chunk],
            None => Seq::empty(),
        }),
{
    assert(payloads.take(i + 1).drop_last() =~= payloads.take(i));
    assert(payloads.take(i + 1).last() == payloads[i]);
}

/// A piece of text is sent as it came, and begins, fills and ends nothing else.
pub proof fn law_text_is_sent_as_it_came(stream: StreamView, payload: JsonView, fresh: Seq<char>)
    ensures
        ({
            let (after, chunk) = stream_step(stream, "response.output_text.delta"@, payload, fresh);
            &&& after == stream
            &&& chunk is Some <==> payload.str_at("delta"@) is Some
            &&& chunk is Some ==> {
                &&& chunk_delta(chunk->0) == Some(
                    JsonView::Object(
                        Map::empty().insert(
                            "content"@,
                            JsonView::String(payload.str_at("delta"@)->0),
                        ),
                    ),
                )
                &&& chunk->0.items_at("choices"@)[0].get("finish_reason"@) == Some(JsonView::Null)
                &&& chunk->0.str_at("object"@) == Some("chat.completion.chunk"@)
            }
        }),
{
    if let Some(delta) = payload.str_at("delta"@) {
        lemma_chunk_choice(stream, one_field("content"@, json_str(delta)), JsonView::Null, None);
    }
}

/// Whether an event is about a tool call: it begins one, brings a piece of its arguments or ends it.
pub open spec fn is_about_call(entry: (Seq<char>, JsonView)) -> bool {
    begins_call(entry) || is_piece(entry) || ends_call(entry)
}

proof fn lemma_saw_tool(
    stream: StreamView,
    payloads: Seq<(Seq<char>, JsonView)>,
    ids: Seq<Seq<char>>,
)
    requires
        !stream.saw_tool,
    ensures
        stream_run(stream, payloads, ids).stream.saw_tool <==> exists|k: int|
            0 <= k < payloads.len() && is_about_call(#[trigger] payloads[k]),
    decreases payloads.len(),
{
    if payloads.len() > 0 {
        let short = payloads.drop_last();
        lemma_saw_tool(stream, short, ids);
        lemma_event_kinds();
        let last = payloads[payloads.len() - 1];
        if exists|k: int| 0 <= k < short.len() && is_about_call(#[trigger] short[k]) {
            let k = choose|k: int| 0 <= k < short.len() && is_about_call(#[trigger] short[k]);
            assert(is_about_call(payloads[k]));
        }
        if exists|k: int| 0 <= k < payloads.len() && is_about_call(#[trigger] payloads[k]) {
            let k = choose|k: int| 0 <= k < payloads.len() && is_about_call(#[trigger] payloads[k]);
            if k < short.len() {
                assert(is_about_call(short[k]));
            }
        }
    }
}

/// An answer that is completed ends with a chunk that adds nothing, gives tool calls as the reason
/// exactly if an event before was about one, and has the counts of tokens of the response.
pub proof fn law_completed_answer_ends(
    stream: StreamView,
    payloads: Seq<(Seq<char>, JsonView)>,
    ids: Seq<Seq<char>>,
    i: int,
)
    requires
        !stream.saw_tool,
        0 <= i < payloads.len(),
        payloads[i].0 == "response.completed"@,
    ensures
        ({
            let called = exists|k: int| 0 <= k < i && is_about_call(#[trigger] payloads[k]);
            let usage = payloads[i].1.get2("response"@, "usage"@);
            let chunk = sent_for(stream, payloads, ids, i);
            &&& chunk is Some
            &&& chunk_delta(chunk->0) == Some(JsonView::Object(Map::empty()))
            &&& called ==> chunk->0.items_at("choices"@)[0].str_at("finish_reason"@) == Some(
                "tool_calls"@,
            )
            &&& !called ==> chunk->0.items_at("choices"@)[0].str_at("finish_reason"@) == Some(
                "stop"@,
            )
            &&& chunk->0.get("usage"@) is Some <==> usage is Some
            &&& usage is Some ==> {
                &&& usage->0.u64_at("input_tokens"@) is Some ==> chunk->0.get2(
                    "usage"@,
                    "prompt_tokens"@,
                ) == usage->0.get("input_tokens"@)
                &&& usage->0.u64_at("output_tokens"@) is Some ==> chunk->0.get2(
                    "usage"@,
                    "completion_tokens"@,
                ) == usage->0.get("output_tokens"@)
                &&& usage->0.u64_at("total_tokens"@) is Some ==> chunk->0.get2(
                    "usage"@,
                    "total_tokens"@,
                ) == usage->0.get("total_tokens"@)
            }
        }),
{
    lemma_event_kinds();
    let taken = payloads.take(i);
    lemma_saw_tool(stream, taken, ids);
    if exists|k: int| 0 <= k < taken.len() && is_about_call(#[trigger] taken[k]) {
        let k = choose|k: int| 0 <= k < taken.len() && is_about_call(#[trigger] taken[k]);
        assert(is_about_call(payloads[k]));
    }
    if exists|k: int| 0 <= k < i && is_about_call(#[trigger] payloads[k]) {
        let k = choose|k: int| 0 <= k < i && is_about_call(#[trigger] payloads[k]);
        assert(is_about_call(taken[k]));
    }
    let before = stream_run(stream, taken, ids);
    let usage = payloads[i].1.get2("response"@, "usage"@);
    lemma_chunk_choice(
        before.stream,
        JsonView::Object(no_fields()),
        json_str(before.stream.finish_reason()),
        usage,
    );
    reveal_strlit("prompt_tokens");
    reveal_strlit("completion_tokens");
    reveal_strlit("total_tokens");
    reveal_strlit("input_tokens");
    reveal_strlit("output_tokens");
    assert("prompt_tokens"@.len() == 13 && "completion_tokens"@.len() == 17);
    assert("total_tokens"@.len() == 12 && "input_tokens"@.len() == 12);
    assert("output_tokens"@.len() == 13);
    assert("total_tokens"@[0] != "input_tokens"@[0]);
    assert("prompt_tokens"@[0] != "output_tokens"@[0]);
}

/// An answer that fails, or stays incomplete, ends with its message in brackets on a line of its own.
pub proof fn law_failed_answer_says_why(
    stream: StreamView,
    kind: Seq<char>,
    payload: JsonView,
    fresh: Seq<char>,
)
    requires
        kind == "response.failed"@ || kind == "response.incomplete"@,
    ensures
        ({
            let message = match payload.str_at2("error"@, "message"@) {
                Some(message) => message,
                None => "Upstream response failed"@,
            };
            let (after, chunk) = stream_step(stream, kind, payload, fresh);
            &&& after.final_sent
            &&& chunk is Some
            &&& chunk_text(chunk->0) == "\n["@ + message + "]"@
            &&& chunk->0.items_at("choices"@)[0].str_at("finish_reason"@) == Some("stop"@)
            &&& chunk->0.get("usage"@) is None
        }),
{
    lemma_event_kinds();
    let delta = one_field("content"@, json_str("\n["@ + failure_message(payload) + "]"@));
    lemma_chunk_choice(stream, delta, json_str("stop"@), None);
}

/// An event of any other kind changes nothing and sends nothing.
pub proof fn law_other_events_are_passed_over(
    stream: StreamView,
    entry: (Seq<char>, JsonView),
    fresh: Seq<char>,
)
    requires
        !is_about_call(entry),
        entry.0 == "response.output_text.delta"@ ==> entry.1.str_at("delta"@) is None,
        entry.0 != "response.completed"@,
        entry.0 != "response.failed"@,
        entry.0 != "response.incomplete"@,
    ensures
        stream_step(stream, entry.0, entry.1, fresh) == (stream, None::<JsonView>),
{
}

/// The events of a stream are read in their order: each with JSON data gives its payload, with the
/// type that the payload says or else the name of the event, and any other gives nothing.
pub proof fn law_stream_events_are_read_in_order(events: Seq<EventView>, event: EventView)
    ensures
        stream_payloads(Seq::empty()) == Seq::<(Seq<char>, JsonView)>::empty(),
        parsed(event.data) is Err ==> stream_payloads(events.push(event)) == stream_payloads(events),
        parsed(event.data) is Ok ==> ({
            let payload = parsed(event.data)->Ok_0;
            stream_payloads(events.push(event)) == stream_payloads(events).push(
                (
                    match payload.str_at("type"@) {
                        Some(kind) => kind,
                        None => event.event,
                    },
                    payload,
                ),
            )
        }),
{
    assert(events.push(event).drop_last() =~= events);
}

/// Every chunk is sent in a frame of its own, as the data of an event.
pub proof fn law_chunks_are_framed(chunks: Seq<JsonView>, i: int)
    requires
        0 <= i < chunks.len(),
    ensures
        frames_of(chunks).len() == chunks.len(),
        frames_of(chunks)[i] == "data: "@ + printed(chunks[i]) + "\n\n"@,
{
}

/// The arguments that chunks carry for the tool call with this number, one after the other.
pub open spec fn call_text(chunks: Seq<JsonView>, number: u64) -> Seq<char>
    decreases chunks.len(),
{
    if chunks.len() == 0 {
        Seq::empty()
    } else {
        call_text(chunks.drop_last(), number) + carried_text(chunks.last(), number)
    }
}

/// The arguments that a chunk carries for the tool call with this number.
pub open spec fn carried_text(chunk: JsonView, number: u64) -> Seq<char> {
    if is_for_call(chunk, number) && chunk_call(chunk).str_at2("function"@, "arguments"@) is Some {
        chunk_call(chunk).str_at2("function"@, "arguments"@)->0
    } else {
        Seq::empty()
    }
}

/// Whether a piece of arguments for this output index is among the first `j` events.
pub open spec fn piece_came(payloads: Seq<(Seq<char>, JsonView)>, place: u64, j: int) -> bool {
    exists|k: int|
        0 <= k < j && is_piece(#[trigger] payloads[k]) && meant_index(payloads[k].1) == place
}

/// The arguments that the first `j` events give for an output index: the pieces one after the other,
/// or, where none came, the whole of them that the end of the call brings.
pub open spec fn given_arguments(
    payloads: Seq<(Seq<char>, JsonView)>,
    place: u64,
    j: int,
) -> Seq<char>
    decreases j,
{
    if j <= 0 {
        Seq::empty()
    } else {
        let before = given_arguments(payloads, place, j - 1);
        let (kind, payload) = payloads[j - 1];
        if is_piece((kind, payload)) && meant_index(payload) == place {
            before + payload.str_at("delta"@)->0
        } else if ends_call((kind, payload)) && meant_index(payload) == place && !piece_came(
            payloads,
            place,
            j - 1,
        ) && payload.str_at2("item"@, "arguments"@) is Some {
            before + payload.str_at2("item"@, "arguments"@)->0
        } else {
            before
        }
    }
}

/// Whether each tool call of a run has an output index of its own, and each piece of arguments, and
/// each end of a call, is for a call that was begun before.
pub open spec fn is_orderly(payloads: Seq<(Seq<char>, JsonView)>) -> bool {
    &&& forall|a: int, b: int|
        0 <= a < b < payloads.len() && begins_call(#[trigger] payloads[a]) && begins_call(
            #[trigger] payloads[b],
        ) ==> place_of(payloads, a) != place_of(payloads, b)
    &&& forall|k: int|
        0 <= k < payloads.len() && (is_piece(#[trigger] payloads[k]) || ends_call(payloads[k]))
            ==> is_begun_before(payloads, k)
}

/// Whether a tool call was begun, before event `k`, at the output index that this event is for.
pub open spec fn is_begun_before(payloads: Seq<(Seq<char>, JsonView)>, k: int) -> bool {
    exists|a: int|
        0 <= a < k && begins_call(#[trigger] payloads[a]) && place_of(payloads, a) == meant_index(
            payloads[k].1,
        )
}

proof fn lemma_numbers_grow(payloads: Seq<(Seq<char>, JsonView)>, a: int, b: int)
    requires
        0 <= a < b <= payloads.len(),
        begins_call(payloads[a]),
    ensures
        calls_begun(payloads.take(a)) < calls_begun(payloads.take(b)) <= b,
    decreases b,
{
    let short = payloads.take(b - 1);
    assert(payloads.take(b).drop_last() =~= short);
    assert(payloads.take(b).last() == payloads[b - 1]);
    lemma_calls_bound(short);
    if a < b - 1 {
        lemma_numbers_grow(payloads, a, b - 1);
    }
}

proof fn lemma_calls_bound(payloads: Seq<(Seq<char>, JsonView)>)
    ensures
        calls_begun(payloads) <= payloads.len(),
    decreases payloads.len(),
{
    if payloads.len() > 0 {
        lemma_calls_bound(payloads.drop_last());
    }
}

proof fn lemma_same_number(payloads: Seq<(Seq<char>, JsonView)>, a: int, b: int)
    requires
        payloads.len() <= u64::MAX,
        0 <= a < payloads.len(),
        0 <= b < payloads.len(),
        begins_call(payloads[a]),
        begins_call(payloads[b]),
        calls_begun(payloads.take(a)) as u64 == calls_begun(payloads.take(b)) as u64,
    ensures
        a == b,
{
    lemma_calls_bound(payloads.take(a));
    lemma_calls_bound(payloads.take(b));
    if a < b {
        lemma_numbers_grow(payloads, a, b);
    }
    if b < a {
        lemma_numbers_grow(payloads, b, a);
    }
}

proof fn lemma_piece_chunk(
    stream: StreamView,
    payloads: Seq<(Seq<char>, JsonView)>,
    ids: Seq<Seq<char>>,
    i: int,
    k: int,
)
    requires
        stream.begun.len() == 0,
        is_orderly(payloads),
        payloads.len() <= u64::MAX,
        0 <= i < payloads.len(),
        begins_call(payloads[i]),
        0 <= k < payloads.len(),
        is_piece(payloads[k]),
    ensures
        sent_for(stream, payloads, ids, k) is Some,
        is_for_call(
            sent_for(stream, payloads, ids, k)->0,
            calls_begun(payloads.take(i)) as u64,
        ) <==> meant_index(payloads[k].1) == place_of(payloads, i),
        meant_index(payloads[k].1) == place_of(payloads, i) ==> i < k,
        chunk_call(sent_for(stream, payloads, ids, k)->0).str_at2("function"@, "arguments"@)
            == payloads[k].1.str_at("delta"@),
{
    assert(is_begun_before(payloads, k));
    let a = choose|a: int|
        0 <= a < k && begins_call(#[trigger] payloads[a]) && place_of(payloads, a) == meant_index(
            payloads[k].1,
        );
    assert forall|b: int| a < b < k && begins_call(#[trigger] payloads[b]) implies place_of(
        payloads,
        b,
    ) != place_of(payloads, a) by {
        assert(begins_call(payloads[a]));
    }
    law_arguments_go_to_their_call(stream, payloads, ids, a, k, payloads[k].1.str_at("delta"@)->0);
    if meant_index(payloads[k].1) == place_of(payloads, i) {
        assert(i == a) by {
            assert(begins_call(payloads[i]) && begins_call(payloads[a]));
        }
    } else if calls_begun(payloads.take(i)) as u64 == calls_begun(payloads.take(a)) as u64 {
        lemma_same_number(payloads, i, a);
    }
}

proof fn lemma_end_chunk(
    stream: StreamView,
    payloads: Seq<(Seq<char>, JsonView)>,
    ids: Seq<Seq<char>>,
    i: int,
    j: int,
)
    requires
        stream.begun.len() == 0,
        stream.pieces == Set::<u64>::empty(),
        is_orderly(payloads),
        payloads.len() <= u64::MAX,
        0 <= i < payloads.len(),
        begins_call(payloads[i]),
        0 <= j < payloads.len(),
        ends_call(payloads[j]),
    ensures
        ({
            let chunk = sent_for(stream, payloads, ids, j);
            let number = calls_begun(payloads.take(i)) as u64;
            let whole = payloads[j].1.str_at2("item"@, "arguments"@);
            if meant_index(payloads[j].1) == place_of(payloads, i) {
                &&& chunk is Some <==> whole is Some && !piece_came(
                    payloads,
                    place_of(payloads, i),
                    j,
                )
                &&& chunk is Some ==> carried_text(chunk->0, number) == whole->0
            } else {
                chunk is Some ==> carried_text(chunk->0, number).len() == 0
            }
        }),
{
    assert(is_begun_before(payloads, j));
    let a = choose|a: int|
        0 <= a < j && begins_call(#[trigger] payloads[a]) && place_of(payloads, a) == meant_index(
            payloads[j].1,
        );
    assert forall|b: int| a < b < j && begins_call(#[trigger] payloads[b]) implies place_of(
        payloads,
        b,
    ) != place_of(payloads, a) by {
        assert(begins_call(payloads[a]));
    }
    law_whole_arguments_go_to_their_call(stream, payloads, ids, a, j);
    let number = calls_begun(payloads.take(a)) as u64;
    assert forall|k: int| 0 <= k < j && is_piece(#[trigger] payloads[k]) implies (is_for_call(
        sent_for(stream, payloads, ids, k)->0,
        number,
    ) <==> meant_index(payloads[k].1) == place_of(payloads, a)) by {
        lemma_piece_chunk(stream, payloads, ids, a, k);
    }
    if meant_index(payloads[j].1) == place_of(payloads, i) {
        assert(i == a) by {
            assert(begins_call(payloads[i]) && begins_call(payloads[a]));
        }
        let sent = exists|k: int|
            0 <= k < j && is_piece(#[trigger] payloads[k]) && is_for_call(
                sent_for(stream, payloads, ids, k)->0,
                number,
            );
        if sent {
            let k = choose|k: int|
                0 <= k < j && is_piece(#[trigger] payloads[k]) && is_for_call(
                    sent_for(stream, payloads, ids, k)->0,
                    number,
                );
            assert(is_piece(payloads[k]) && meant_index(payloads[k].1) == place_of(payloads, a));
        }
        if piece_came(payloads, place_of(payloads, i), j) {
            let k = choose|k: int|
                0 <= k < j && is_piece(#[trigger] payloads[k]) && meant_index(payloads[k].1)
                    == place_of(payloads, i);
            assert(is_for_call(sent_for(stream, payloads, ids, k)->0, number));
        }
    } else if calls_begun(payloads.take(i)) as u64 == number {
        lemma_same_number(payloads, i, a);
    }
}

proof fn lemma_other_chunk(
    stream: StreamView,
    payloads: Seq<(Seq<char>, JsonView)>,
    ids: Seq<Seq<char>>,
    number: u64,
    j: int,
)
    requires
        stream.begun.len() == 0,
        0 <= j < payloads.len(),
        !is_piece(payloads[j]),
        !ends_call(payloads[j]),
    ensures
        sent_for(stream, payloads, ids, j) is Some ==> carried_text(
            sent_for(stream, payloads, ids, j)->0,
            number,
        ).len() == 0,
{
    lemma_event_kinds();
    let before = stream_run(stream, payloads.take(j), ids).stream;
    let (kind, payload) = payloads[j];
    if begins_call(payloads[j]) {
        law_calls_are_numbered(stream, payloads, ids, j);
    } else {
        reveal_strlit("content");
        reveal_strlit("tool_calls");
        assert("content"@.len() != "tool_calls"@.len());
        if let Some(text) = payload.str_at("delta"@) {
            lemma_chunk_choice(before, one_field("content"@, json_str(text)), JsonView::Null, None);
        }
        lemma_chunk_choice(
            before,
            JsonView::Object(no_fields()),
            json_str(before.finish_reason()),
            payload.get2("response"@, "usage"@),
        );
        lemma_chunk_choice(
            before,
            one_field("content"@, json_str("\n["@ + failure_message(payload) + "]"@)),
            json_str("stop"@),
            None,
        );
    }
}

proof fn lemma_call_text(
    stream: StreamView,
    payloads: Seq<(Seq<char>, JsonView)>,
    ids: Seq<Seq<char>>,
    i: int,
    j: int,
)
    requires
        stream.begun.len() == 0,
        stream.pieces == Set::<u64>::empty(),
        is_orderly(payloads),
        payloads.len() <= u64::MAX,
        0 <= i < payloads.len(),
        begins_call(payloads[i]),
        0 <= j <= payloads.len(),
    ensures
        call_text(
            stream_run(stream, payloads.take(j), ids).chunks,
            calls_begun(payloads.take(i)) as u64,
        ) == given_arguments(payloads, place_of(payloads, i), j),
    decreases j,
{
    let number = calls_begun(payloads.take(i)) as u64;
    let place = place_of(payloads, i);
    if j > 0 {
        lemma_call_text(stream, payloads, ids, i, j - 1);
        law_chunks_are_sent_in_order(stream, payloads, ids, j - 1);
        let before = stream_run(stream, payloads.take(j - 1), ids).chunks;
        let after = stream_run(stream, payloads.take(j), ids).chunks;
        let sent = sent_for(stream, payloads, ids, j - 1);
        let entry = payloads[j - 1];
        if is_piece(entry) {
            lemma_piece_chunk(stream, payloads, ids, i, j - 1);
            lemma_event_kinds();
        } else if ends_call(entry) {
            lemma_end_chunk(stream, payloads, ids, i, j - 1);
        } else {
            lemma_other_chunk(stream, payloads, ids, number, j - 1);
        }
        let given = given_arguments(payloads, place, j - 1);
        if let Some(chunk) = sent {
            assert(after =~= before.push(chunk));
            assert(after.drop_last() =~= before);
            if carried_text(chunk, number).len() == 0 {
                assert(given + carried_text(chunk, number) =~= given);
            }
        } else {
            assert(after =~= before);
        }
    }
}

/// The arguments that the chunks of a stream carry for a tool call, one after the other, are those
/// that the provider's events gave for the output index at which the call was begun: the pieces in
/// their order, or the whole of them where none came. The call has the number of calls that were
/// begun before it.
pub proof fn law_streamed_arguments_are_those_of_the_call(
    stream: StreamView,
    payloads: Seq<(Seq<char>, JsonView)>,
    ids: Seq<Seq<char>>,
    i: int,
)
    requires
        stream.begun.len() == 0,
        stream.pieces == Set::<u64>::empty(),
        is_orderly(payloads),
        payloads.len() <= u64::MAX,
        0 <= i < payloads.len(),
        begins_call(payloads[i]),
    ensures
        call_text(
            stream_run(stream, payloads, ids).chunks,
            calls_begun(payloads.take(i)) as u64,
        ) == given_arguments(payloads, place_of(payloads, i), payloads.len() as int),
{
    assert(payloads.take(payloads.len() as int) =~= payloads);
    lemma_call_text(stream, payloads, ids, i, payloads.len() as int);
}

}
