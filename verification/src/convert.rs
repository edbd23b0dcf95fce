//! Requests: what a client sends and what the provider is sent.

use crate::json::{
    field, items_view, json_str, json_u64, lemma_items_push, lemma_items_take, lemma_items_whole, no_fields,
    opt_string, opt_view, or_default, or_view, Json, JsonMap, JsonView,
};
use crate::outside::{is_random_id, random_id};
use crate::text::{join, joined, text_eq, texts};
use vstd::prelude::*;
use vstd::string::*;

verus! {

/// A message with a role and a content.
pub open spec fn message_view(role: Seq<char>, content: Seq<char>) -> JsonView {
    JsonView::Object(
        no_fields().insert("role"@, json_str(role)).insert("content"@, json_str(content)),
    )
}

/// A message with a role and a content.
pub fn message(role: &str, content: &str) -> (json: Json)
    ensures
        json@ == message_view(role@, content@),
{
    let mut map = JsonMap::new();
    map.insert("role", Json::text(role));
    map.insert("content", Json::text(content));
    Json::Object(map)
}

/// The fields of a Responses request with a text as input turned into a user message.
pub open spec fn with_input_list(fields: Map<Seq<char>, JsonView>) -> Map<Seq<char>, JsonView> {
    match field(fields, "input"@) {
        Some(JsonView::String(text)) => fields.insert(
            "input"@,
            JsonView::Array(seq![message_view("user"@, text)]),
        ),
        _ => fields,
    }
}

/// The fields of a Responses request without those that the provider does not take.
pub open spec fn without_unsupported(fields: Map<Seq<char>, JsonView>) -> Map<Seq<char>, JsonView> {
    fields.remove("max_output_tokens"@).remove("temperature"@).remove("top_p"@).remove(
        "metadata"@,
    ).remove("user"@)
}

/// A Responses request as the provider takes it.
pub open spec fn normalized_request(body: JsonView) -> JsonView {
    let fields = or_default(body.object(), no_fields());
    JsonView::Object(
        without_unsupported(
            with_input_list(fields).insert("store"@, JsonView::Bool(false)).insert(
                "stream"@,
                JsonView::Bool(true),
            ),
        ),
    )
}

/// A Responses request as the provider takes it: nothing is stored, the answer is streamed, a text
/// as input is one user message, and some fields are left out.
pub fn normalize_responses_request(body: &Json) -> (request: Json)
    ensures
        request@ == normalized_request(body@),
{
    let mut map = match body.as_object() {
        Some(map) => map.clone(),
        None => JsonMap::new(),
    };
    let input: Option<String> = match map.get("input") {
        Some(Json::String(text)) => Some(text.clone()),
        _ => None,
    };
    if let Some(text) = input {
        let mut list: Vec<Json> = Vec::new();
        list.push(message("user", text.as_str()));
        assert(items_view(list@) =~= seq![message_view("user"@, text@)]);
        map.insert("input", Json::Array(list));
    }
    map.insert("store", Json::Bool(false));
    map.insert("stream", Json::Bool(true));
    map.remove("max_output_tokens");
    map.remove("temperature");
    map.remove("top_p");
    map.remove("metadata");
    map.remove("user");
    Json::Object(map)
}

/// The reasoning effort that a request asks for.
pub open spec fn effort_of(body: JsonView) -> Option<Seq<char>> {
    or_view(
        body.str_at2("reasoning"@, "effort"@),
        or_view(body.str_at("reasoningEffort"@), body.str_at("reasoning_effort"@)),
    )
}

/// The reasoning effort that a request asks for.
pub fn reasoning_effort(body: &Json) -> (effort: Option<String>)
    ensures
        opt_string(effort) == effort_of(body@),
{
    if let Some(text) = body.str_at2("reasoning", "effort") {
        return Some(text.to_owned());
    }
    if let Some(text) = body.str_at("reasoningEffort") {
        return Some(text.to_owned());
    }
    match body.str_at("reasoning_effort") {
        Some(text) => Some(text.to_owned()),
        None => None,
    }
}

/// The texts of a content and the kinds of content that are not supported.
pub struct ContentView {
    pub texts: Seq<Seq<char>>,
    pub unsupported: Seq<Seq<char>>,
}

/// `list` with `text` at its end, unless it is empty.
pub open spec fn push_text(list: Seq<Seq<char>>, text: Seq<char>) -> Seq<Seq<char>> {
    if text.len() > 0 {
        list.push(text)
    } else {
        list
    }
}

/// Whether a part of this kind holds text.
pub open spec fn is_text_kind(kind: Seq<char>) -> bool {
    kind == "text"@ || kind == "input_text"@ || kind == "output_text"@
}

/// What the parts of a content have given after one more part.
pub open spec fn part_step(content: ContentView, part: JsonView) -> ContentView {
    match part {
        JsonView::String(text) => ContentView { texts: push_text(content.texts, text), ..content },
        JsonView::Object(_) => {
            let kind = part.str_at("type"@);
            if kind is Some && is_text_kind(kind->0) {
                let text = or_default(part.str_at("text"@), Seq::empty());
                ContentView { texts: push_text(content.texts, text), ..content }
            } else {
                ContentView {
                    unsupported: content.unsupported.push(or_default(kind, "unknown"@)),
                    ..content
                }
            }
        },
        _ => content,
    }
}

/// What the parts of a content give.
pub open spec fn parts_after(parts: Seq<JsonView>) -> ContentView
    decreases parts.len(),
{
    if parts.len() == 0 {
        ContentView { texts: Seq::empty(), unsupported: Seq::empty() }
    } else {
        part_step(parts_after(parts.drop_last()), parts.last())
    }
}

/// The text of a content and the kinds of content in it that are not supported.
pub open spec fn content_of(content: Option<JsonView>) -> (Seq<char>, Seq<Seq<char>>) {
    match content {
        None => (Seq::empty(), Seq::empty()),
        Some(JsonView::Null) => (Seq::empty(), Seq::empty()),
        Some(JsonView::String(text)) => (text, Seq::empty()),
        Some(JsonView::Array(parts)) => {
            let all = parts_after(parts);
            (joined(all.texts, "\n"@), all.unsupported)
        },
        Some(JsonView::Bool(_)) => (Seq::empty(), seq!["boolean"@]),
        Some(JsonView::Number(_)) => (Seq::empty(), seq!["number"@]),
        Some(JsonView::Object(_)) => (Seq::empty(), seq!["object"@]),
    }
}

/// The text of a content; the kinds of content that are not supported are added to a list.
pub fn extract_text(content: Option<&Json>, unsupported: &mut Vec<String>) -> (text: String)
    ensures
        text@ == content_of(opt_view(content)).0,
        texts(final(unsupported)@) == texts(old(unsupported)@) + content_of(opt_view(content)).1,
{
    let ghost before = texts(unsupported@);
    assert(before + Seq::<Seq<char>>::empty() =~= before);
    let json = match content {
        None => {
            return String::new();
        },
        Some(json) => json,
    };
    match json {
        Json::Null => String::new(),
        Json::String(text) => text.clone(),
        Json::Array(parts) => {
            let mut list: Vec<String> = Vec::new();
            let mut i: usize = 0;
            proof {
                lemma_items_whole(parts@);
                assert(texts(list@) =~= Seq::<Seq<char>>::empty());
            }
            while i < parts.len()
                invariant
                    i <= parts@.len(),
                    before == texts(old(unsupported)@),
                    texts(list@) == parts_after(items_view(parts@).take(i as int)).texts,
                    texts(unsupported@) == before + parts_after(
                        items_view(parts@).take(i as int),
                    ).unsupported,
                decreases parts@.len() - i,
            {
                proof {
                    lemma_items_take(parts@, i as int);
                }
                let ghost listed = list@;
                let ghost refused = unsupported@;
                let part = &parts[i];
                match part {
                    Json::String(text) => {
                        if !text.as_str().is_empty() {
                            list.push(text.clone());
                            assert(texts(list@) =~= texts(listed).push(text@));
                        }
                    },
                    Json::Object(_) => {
                        let kind = part.str_at("type");
                        let supported = match kind {
                            Some(kind) => text_eq(kind, "text") || text_eq(kind, "input_text")
                                || text_eq(kind, "output_text"),
                            None => false,
                        };
                        if supported {
                            let text = match part.str_at("text") {
                                Some(text) => text.to_owned(),
                                None => String::new(),
                            };
                            if !text.as_str().is_empty() {
                                list.push(text);
                                assert(texts(list@) =~= texts(listed).push(text@));
                            } else {
                                assert(text@ =~= Seq::<char>::empty());
                            }
                        } else {
                            let name = match kind {
                                Some(kind) => kind.to_owned(),
                                None => "unknown".to_owned(),
                            };
                            unsupported.push(name);
                            assert(texts(unsupported@) =~= texts(refused).push(name@));
                            assert(texts(unsupported@) =~= before + parts_after(
                                items_view(parts@).take(i + 1),
                            ).unsupported);
                        }
                    },
                    _ => {},
                }
                i = i + 1;
            }
            join(&list, "\n")
        },
        Json::Bool(_) => {
            unsupported.push("boolean".to_owned());
            assert(texts(unsupported@) =~= before + seq!["boolean"@]);
            String::new()
        },
        Json::Number(_) => {
            unsupported.push("number".to_owned());
            assert(texts(unsupported@) =~= before + seq!["number"@]);
            String::new()
        },
        Json::Object(_) => {
            unsupported.push("object".to_owned());
            assert(texts(unsupported@) =~= before + seq!["object"@]);
            String::new()
        },
    }
}

/// A tool as the provider takes it: a function is flattened, any other tool is handed on.
pub open spec fn tool_view(tool: JsonView) -> JsonView {
    if tool.str_at("type"@) != Some("function"@) {
        tool
    } else {
        JsonView::Object(
            no_fields().insert("type"@, json_str("function"@)).insert(
                "name"@,
                or_default(tool.get2("function"@, "name"@), JsonView::Null),
            ).insert(
                "description"@,
                or_default(tool.get2("function"@, "description"@), JsonView::Null),
            ).insert(
                "parameters"@,
                or_default(tool.get2("function"@, "parameters"@), no_parameters()),
            ),
        )
    }
}

/// The schema of a function without parameters.
pub open spec fn no_parameters() -> JsonView {
    JsonView::Object(
        no_fields().insert("type"@, json_str("object"@)).insert(
            "properties"@,
            JsonView::Object(no_fields()),
        ),
    )
}

/// A copy of an optional document, or `default`.
pub fn copy_or(value: Option<&Json>, default: Json) -> (json: Json)
    ensures
        json@ == or_default(opt_view(value), default@),
{
    match value {
        Some(value) => value.clone(),
        None => default,
    }
}

/// Whether the field `key` is this text.
pub fn str_at_is(json: &Json, key: &str, text: &str) -> (result: bool)
    ensures
        result == (json@.str_at(key@) == Some(text@)),
{
    match json.str_at(key) {
        Some(found) => text_eq(found, text),
        None => false,
    }
}

/// A tool as the provider takes it: a function is flattened, any other tool is handed on.
pub fn convert_tool(tool: &Json) -> (converted: Json)
    ensures
        converted@ == tool_view(tool@),
{
    if !str_at_is(tool, "type", "function") {
        return tool.clone();
    }
    let mut parameters = JsonMap::new();
    parameters.insert("type", Json::text("object"));
    parameters.insert("properties", Json::Object(JsonMap::new()));
    let mut map = JsonMap::new();
    map.insert("type", Json::text("function"));
    map.insert("name", copy_or(tool.get2("function", "name"), Json::Null));
    map.insert("description", copy_or(tool.get2("function", "description"), Json::Null));
    map.insert(
        "parameters",
        copy_or(tool.get2("function", "parameters"), Json::Object(parameters)),
    );
    Json::Object(map)
}

/// A choice of tool as the provider takes it.
pub open spec fn choice_view(choice: JsonView) -> JsonView {
    if choice.str_at("type"@) == Some("function"@) && choice.get2("function"@, "name"@) is Some {
        JsonView::Object(
            no_fields().insert("type"@, json_str("function"@)).insert(
                "name"@,
                choice.get2("function"@, "name"@)->0,
            ),
        )
    } else {
        choice
    }
}

/// A choice of tool as the provider takes it.
pub fn convert_tool_choice(choice: &Json) -> (converted: Json)
    ensures
        converted@ == choice_view(choice@),
{
    if str_at_is(choice, "type", "function") {
        if let Some(name) = choice.get2("function", "name") {
            let mut map = JsonMap::new();
            map.insert("type", Json::text("function"));
            map.insert("name", name.clone());
            return Json::Object(map);
        }
    }
    choice.clone()
}

/// What the messages of a chat have given: the instructions, the items of the input, the kinds of
/// content that are not supported, and how many tool calls had to be given an identifier.
pub struct ChatView {
    pub instructions: Seq<Seq<char>>,
    pub input: Seq<JsonView>,
    pub unsupported: Seq<Seq<char>>,
    pub named: nat,
}

/// The input item for a tool call.
pub open spec fn call_item(call: JsonView, id: Seq<char>) -> JsonView {
    JsonView::Object(
        no_fields().insert("type"@, json_str("function_call"@)).insert("call_id"@, json_str(id)).insert(
            "name"@,
            json_str(or_default(call.str_at2("function"@, "name"@), "unknown_function"@)),
        ).insert(
            "arguments"@,
            json_str(or_default(call.str_at2("function"@, "arguments"@), "{}"@)),
        ),
    )
}

/// The input item for the output of a tool.
pub open spec fn output_item(message: JsonView, content: Seq<char>) -> JsonView {
    let id = match or_view(message.get("tool_call_id"@), message.get("call_id"@)) {
        Some(JsonView::String(id)) => id,
        _ => "unknown_call"@,
    };
    JsonView::Object(
        no_fields().insert("type"@, json_str("function_call_output"@)).insert(
            "call_id"@,
            json_str(id),
        ).insert("output"@, json_str(content)),
    )
}

/// The chat after one more tool call. A call without an identifier is given the next of `ids`.
pub open spec fn call_step(chat: ChatView, call: JsonView, ids: Seq<Seq<char>>) -> ChatView {
    if call.str_at("type"@) != Some("function"@) {
        chat
    } else {
        match call.str_at("id"@) {
            Some(id) => ChatView { input: chat.input.push(call_item(call, id)), ..chat },
            None => ChatView {
                input: chat.input.push(call_item(call, ids[chat.named as int])),
                named: chat.named + 1,
                ..chat
            },
        }
    }
}

/// The chat after tool calls.
pub open spec fn calls_after(chat: ChatView, calls: Seq<JsonView>, ids: Seq<Seq<char>>) -> ChatView
    decreases calls.len(),
{
    if calls.len() == 0 {
        chat
    } else {
        call_step(calls_after(chat, calls.drop_last(), ids), calls.last(), ids)
    }
}

/// The chat after one more message.
pub open spec fn message_step(chat: ChatView, message: JsonView, ids: Seq<Seq<char>>) -> ChatView {
    let role = or_default(message.str_at("role"@), "user"@);
    let (content, refused) = content_of(message.get("content"@));
    let read = ChatView { unsupported: chat.unsupported + refused, ..chat };
    if role == "system"@ || role == "developer"@ {
        ChatView { instructions: push_text(read.instructions, content), ..read }
    } else if role == "tool"@ {
        ChatView { input: read.input.push(output_item(message, content)), ..read }
    } else {
        let assistant = role == "assistant"@;
        let spoken = if content.len() > 0 {
            ChatView {
                input: read.input.push(
                    message_view(
                        if assistant {
                            "assistant"@
                        } else {
                            "user"@
                        },
                        content,
                    ),
                ),
                ..read
            }
        } else {
            read
        };
        if assistant {
            calls_after(spoken, message.items_at("tool_calls"@), ids)
        } else {
            spoken
        }
    }
}

/// What the messages of a chat give.
pub open spec fn messages_after(messages: Seq<JsonView>, ids: Seq<Seq<char>>) -> ChatView
    decreases messages.len(),
{
    if messages.len() == 0 {
        ChatView {
            instructions: Seq::empty(),
            input: Seq::empty(),
            unsupported: Seq::empty(),
            named: 0,
        }
    } else {
        message_step(messages_after(messages.drop_last(), ids), messages.last(), ids)
    }
}

/// `fields` with the field `key` of `source`, if it has one.
pub open spec fn with_copied(
    fields: Map<Seq<char>, JsonView>,
    source: JsonView,
    key: Seq<char>,
) -> Map<Seq<char>, JsonView> {
    match source.get(key) {
        Some(value) => fields.insert(key, value),
        None => fields,
    }
}

/// The Responses request for a chat whose messages gave `read`.
pub open spec fn request_fields(chat: JsonView, read: ChatView) -> Map<Seq<char>, JsonView> {
    let base = no_fields().insert("model"@, or_default(chat.get("model"@), JsonView::Null)).insert(
        "input"@,
        JsonView::Array(read.input),
    ).insert("stream"@, JsonView::Bool(chat.bool_at("stream"@))).insert(
        "store"@,
        JsonView::Bool(false),
    );
    let instructed = if read.instructions.len() > 0 {
        base.insert("instructions"@, json_str(joined(read.instructions, "\n\n"@)))
    } else {
        base
    };
    let tooled = match chat.get("tools"@) {
        Some(JsonView::Array(tools)) => instructed.insert(
            "tools"@,
            JsonView::Array(tools.map_values(|tool: JsonView| tool_view(tool))),
        ),
        _ => instructed,
    };
    let chosen = match chat.get("tool_choice"@) {
        Some(choice) => tooled.insert("tool_choice"@, choice_view(choice)),
        None => tooled,
    };
    with_copied(with_copied(chosen, chat, "parallel_tool_calls"@), chat, "reasoning"@)
}

/// The Responses request for a chat, or the kinds of content in it that are not supported.
pub open spec fn responses_request(chat: JsonView, ids: Seq<Seq<char>>) -> Result<
    JsonView,
    Seq<Seq<char>>,
> {
    let read = messages_after(chat.items_at("messages"@), ids);
    if read.unsupported.len() > 0 {
        Err(read.unsupported)
    } else {
        Ok(JsonView::Object(request_fields(chat, read)))
    }
}

/// How many of some tool calls have no identifier.
pub open spec fn unnamed_calls(calls: Seq<JsonView>) -> nat
    decreases calls.len(),
{
    if calls.len() == 0 {
        0
    } else {
        let before = unnamed_calls(calls.drop_last());
        if calls.last().str_at("type"@) == Some("function"@) && calls.last().str_at("id"@) is None {
            before + 1
        } else {
            before
        }
    }
}

/// How many tool calls of some messages have no identifier.
pub open spec fn unnamed(messages: Seq<JsonView>) -> nat
    decreases messages.len(),
{
    if messages.len() == 0 {
        0
    } else {
        let before = unnamed(messages.drop_last());
        if messages.last().str_at("role"@) == Some("assistant"@) {
            before + unnamed_calls(messages.last().items_at("tool_calls"@))
        } else {
            before
        }
    }
}

proof fn lemma_calls_named(chat: ChatView, calls: Seq<JsonView>, ids: Seq<Seq<char>>)
    ensures
        calls_after(chat, calls, ids).named == chat.named + unnamed_calls(calls),
    decreases calls.len(),
{
    if calls.len() > 0 {
        lemma_calls_named(chat, calls.drop_last(), ids);
    }
}

proof fn lemma_unnamed_calls_take(calls: Seq<JsonView>, i: int)
    requires
        0 <= i <= calls.len(),
    ensures
        unnamed_calls(calls.take(i)) <= unnamed_calls(calls),
    decreases calls.len(),
{
    if i < calls.len() {
        lemma_unnamed_calls_take(calls.drop_last(), i);
        assert(calls.drop_last().take(i) =~= calls.take(i));
    } else {
        assert(calls.take(i) =~= calls);
    }
}

proof fn lemma_messages_named(messages: Seq<JsonView>, ids: Seq<Seq<char>>)
    ensures
        messages_after(messages, ids).named == unnamed(messages),
    decreases messages.len(),
{
    if messages.len() > 0 {
        let before = messages.drop_last();
        let message = messages.last();
        lemma_messages_named(before, ids);
        let role = or_default(message.str_at("role"@), "user"@);
        reveal_strlit("user");
        reveal_strlit("assistant");
        reveal_strlit("system");
        reveal_strlit("developer");
        reveal_strlit("tool");
        assert("user"@.len() != "assistant"@.len());
        assert("system"@.len() != "assistant"@.len());
        assert("developer"@[0] != "assistant"@[0]);
        assert("tool"@.len() != "assistant"@.len());
        let (content, refused) = content_of(message.get("content"@));
        let chat = messages_after(before, ids);
        let read = ChatView { unsupported: chat.unsupported + refused, ..chat };
        let spoken = if content.len() > 0 {
            ChatView { input: read.input.push(message_view("assistant"@, content)), ..read }
        } else {
            read
        };
        lemma_calls_named(spoken, message.items_at("tool_calls"@), ids);
    }
}

proof fn lemma_unnamed_take(messages: Seq<JsonView>, i: int)
    requires
        0 <= i <= messages.len(),
    ensures
        unnamed(messages.take(i)) <= unnamed(messages),
    decreases messages.len(),
{
    if i < messages.len() {
        lemma_unnamed_take(messages.drop_last(), i);
        assert(messages.drop_last().take(i) =~= messages.take(i));
    } else {
        assert(messages.take(i) =~= messages);
    }
}

/// What the messages of a chat have given so far.
struct ChatParts {
    instructions: Vec<String>,
    input: Vec<Json>,
    unsupported: Vec<String>,
    named: usize,
}

impl ChatParts {
    spec fn view(&self) -> ChatView {
        ChatView {
            instructions: texts(self.instructions@),
            input: items_view(self.input@),
            unsupported: texts(self.unsupported@),
            named: self.named as nat,
        }
    }

    /// Adds an item to the input.
    fn push_input(&mut self, item: Json)
        ensures
            final(self)@ == (ChatView { input: old(self)@.input.push(item@), ..old(self)@ }),
    {
        let ghost before = self.input@;
        self.input.push(item);
        proof {
            lemma_items_push(before, item);
        }
    }
}

fn call_item_json(call: &Json, id: &str) -> (item: Json)
    ensures
        item@ == call_item(call@, id@),
{
    let mut map = JsonMap::new();
    map.insert("type", Json::text("function_call"));
    map.insert("call_id", Json::text(id));
    map.insert(
        "name",
        Json::text(
            match call.str_at2("function", "name") {
                Some(name) => name,
                None => "unknown_function",
            },
        ),
    );
    map.insert(
        "arguments",
        Json::text(
            match call.str_at2("function", "arguments") {
                Some(arguments) => arguments,
                None => "{}",
            },
        ),
    );
    Json::Object(map)
}

fn output_item_json(message: &Json, content: &str) -> (item: Json)
    ensures
        item@ == output_item(message@, content@),
{
    let id = match message.get("tool_call_id") {
        Some(id) => Some(id),
        None => message.get("call_id"),
    };
    let mut map = JsonMap::new();
    map.insert("type", Json::text("function_call_output"));
    map.insert(
        "call_id",
        Json::text(
            match id {
                Some(Json::String(id)) => id.as_str(),
                _ => "unknown_call",
            },
        ),
    );
    map.insert("output", Json::text(content));
    Json::Object(map)
}

/// Reads the tool calls of a message.
fn read_calls(parts: &mut ChatParts, calls: &Vec<Json>, ids: &Vec<String>)
    requires
        old(parts).named + unnamed_calls(items_view(calls@)) <= ids@.len(),
    ensures
        final(parts)@ == calls_after(old(parts)@, items_view(calls@), texts(ids@)),
{
    let ghost start = parts@;
    let ghost all = items_view(calls@);
    let total = ids.len();
    let mut i: usize = 0;
    proof {
        lemma_items_whole(calls@);
    }
    while i < calls.len()
        invariant
            i <= calls@.len(),
            total == ids@.len(),
            all == items_view(calls@),
            start.named + unnamed_calls(all) <= ids@.len(),
            parts@ == calls_after(start, all.take(i as int), texts(ids@)),
        decreases calls@.len() - i,
    {
        let call = &calls[i];
        proof {
            lemma_items_take(calls@, i as int);
            lemma_calls_named(start, all.take(i as int), texts(ids@));
            lemma_unnamed_calls_take(all, i + 1);
        }
        if str_at_is(call, "type", "function") {
            match call.str_at("id") {
                Some(id) => {
                    parts.push_input(call_item_json(call, id));
                },
                None => {
                    parts.push_input(call_item_json(call, ids[parts.named].as_str()));
                    parts.named = parts.named + 1;
                },
            }
        }
        i = i + 1;
    }
}

/// Reads one message of a chat.
fn read_message(parts: &mut ChatParts, message: &Json, ids: &Vec<String>)
    requires
        message@.str_at("role"@) == Some("assistant"@) ==> old(parts).named + unnamed_calls(
            message@.items_at("tool_calls"@),
        ) <= ids@.len(),
    ensures
        final(parts)@ == message_step(old(parts)@, message@, texts(ids@)),
{
    let role = match message.str_at("role") {
        Some(role) => role,
        None => "user",
    };
    let content = extract_text(message.get("content"), &mut parts.unsupported);
    if text_eq(role, "system") || text_eq(role, "developer") {
        if !content.as_str().is_empty() {
            let ghost before = parts.instructions@;
            parts.instructions.push(content);
            assert(texts(parts.instructions@) =~= texts(before).push(content@));
        }
        return ;
    }
    if text_eq(role, "tool") {
        parts.push_input(output_item_json(message, content.as_str()));
        return ;
    }
    let assistant = text_eq(role, "assistant");
    if !content.as_str().is_empty() {
        let speaker = if assistant {
            "assistant"
        } else {
            "user"
        };
        parts.push_input(self::message(speaker, content.as_str()));
    }
    if assistant {
        proof {
            reveal_strlit("user");
            reveal_strlit("assistant");
            assert("user"@.len() != "assistant"@.len());
        }
        if let Some(calls) = message.array_at("tool_calls") {
            read_calls(parts, calls, ids);
        }
    }
}

/// Reads the messages of a chat.
fn read_messages(messages: &Vec<Json>, ids: &Vec<String>) -> (parts: ChatParts)
    requires
        unnamed(items_view(messages@)) <= ids@.len(),
    ensures
        parts@ == messages_after(items_view(messages@), texts(ids@)),
{
    let ghost all = items_view(messages@);
    let mut parts = ChatParts {
        instructions: Vec::new(),
        input: Vec::new(),
        unsupported: Vec::new(),
        named: 0,
    };
    let mut i: usize = 0;
    proof {
        lemma_items_whole(messages@);
        assert(texts(parts.instructions@) =~= Seq::<Seq<char>>::empty());
        assert(texts(parts.unsupported@) =~= Seq::<Seq<char>>::empty());
        assert(items_view(parts.input@) =~= Seq::<JsonView>::empty());
    }
    while i < messages.len()
        invariant
            i <= messages@.len(),
            all == items_view(messages@),
            unnamed(all) <= ids@.len(),
            parts@ == messages_after(all.take(i as int), texts(ids@)),
        decreases messages@.len() - i,
    {
        proof {
            lemma_items_take(messages@, i as int);
            lemma_messages_named(all.take(i as int), texts(ids@));
            lemma_unnamed_take(all, i + 1);
        }
        read_message(&mut parts, &messages[i], ids);
        i = i + 1;
    }
    parts
}

/// Tools as the provider takes them.
fn convert_tools(tools: &Vec<Json>) -> (converted: Vec<Json>)
    ensures
        items_view(converted@) == items_view(tools@).map_values(|tool: JsonView| tool_view(tool)),
{
    let mut converted: Vec<Json> = Vec::new();
    let mut i: usize = 0;
    while i < tools.len()
        invariant
            i <= tools@.len(),
            converted@.len() == i,
            forall|j: int| 0 <= j < i ==> (#[trigger] converted@[j])@ == tool_view(tools@[j]@),
        decreases tools@.len() - i,
    {
        converted.push(convert_tool(&tools[i]));
        i = i + 1;
    }
    assert(items_view(converted@) =~= items_view(tools@).map_values(
        |tool: JsonView| tool_view(tool),
    ));
    converted
}

/// Gives `map` the field `key` of `source`, if it has one.
fn copy_field(map: &mut JsonMap, source: &Json, key: &str)
    ensures
        final(map)@ == with_copied(old(map)@, source@, key@),
{
    if let Some(value) = source.get(key) {
        map.insert(key, value.clone());
    }
}

/// The Responses request for a chat, or the kinds of content in it that are not supported. A tool
/// call without an identifier is given the next of `ids`.
pub fn build_responses_request_with(chat: &Json, ids: &Vec<String>) -> (result: Result<
    Json,
    Vec<String>,
>)
    requires
        unnamed(chat@.items_at("messages"@)) <= ids@.len(),
    ensures
        responses_request(chat@, texts(ids@)) == (match result {
            Ok(request) => Ok::<JsonView, Seq<Seq<char>>>(request@),
            Err(kinds) => Err::<JsonView, Seq<Seq<char>>>(texts(kinds@)),
        }),
{
    let none: Vec<Json> = Vec::new();
    assert(items_view(none@) =~= Seq::<JsonView>::empty());
    let parts = read_messages(
        match chat.array_at("messages") {
            Some(messages) => messages,
            None => &none,
        },
        ids,
    );
    if parts.unsupported.len() > 0 {
        return Err(parts.unsupported);
    }
    let mut body = JsonMap::new();
    body.insert("model", copy_or(chat.get("model"), Json::Null));
    body.insert("input", Json::Array(parts.input));
    body.insert("stream", Json::Bool(chat.bool_at("stream")));
    body.insert("store", Json::Bool(false));
    if parts.instructions.len() > 0 {
        body.insert("instructions", Json::String(join(&parts.instructions, "\n\n")));
    }
    if let Some(tools) = chat.array_at("tools") {
        body.insert("tools", Json::Array(convert_tools(tools)));
    }
    if let Some(choice) = chat.get("tool_choice") {
        body.insert("tool_choice", convert_tool_choice(choice));
    }
    copy_field(&mut body, chat, "parallel_tool_calls");
    copy_field(&mut body, chat, "reasoning");
    Ok(Json::Object(body))
}

/// Whether every one of some texts is a random identifier with this prefix.
pub open spec fn random_ids(ids: Seq<Seq<char>>, prefix: Seq<char>) -> bool {
    forall|i: int| 0 <= i < ids.len() ==> is_random_id(#[trigger] ids[i], prefix)
}

/// Random identifiers for the tool calls of some messages that have none.
fn call_ids(messages: &Vec<Json>) -> (ids: Vec<String>)
    ensures
        ids@.len() == unnamed(items_view(messages@)),
        random_ids(texts(ids@), "call"@),
{
    let ghost all = items_view(messages@);
    let mut ids: Vec<String> = Vec::new();
    let mut i: usize = 0;
    proof {
        lemma_items_whole(messages@);
    }
    while i < messages.len()
        invariant
            i <= messages@.len(),
            all == items_view(messages@),
            ids@.len() == unnamed(all.take(i as int)),
            random_ids(texts(ids@), "call"@),
        decreases messages@.len() - i,
    {
        proof {
            lemma_items_take(messages@, i as int);
        }
        if str_at_is(&messages[i], "role", "assistant") {
            if let Some(calls) = messages[i].array_at("tool_calls") {
                let ghost before = ids@.len();
                let mut j: usize = 0;
                proof {
                    lemma_items_whole(calls@);
                }
                while j < calls.len()
                    invariant
                        j <= calls@.len(),
                        ids@.len() == before + unnamed_calls(items_view(calls@).take(j as int)),
                        random_ids(texts(ids@), "call"@),
                    decreases calls@.len() - j,
                {
                    proof {
                        lemma_items_take(calls@, j as int);
                    }
                    if str_at_is(&calls[j], "type", "function") && calls[j].str_at("id").is_none() {
                        let ghost held = ids@;
                        let id = random_id("call");
                        ids.push(id);
                        assert(texts(ids@) =~= texts(held).push(id@));
                    }
                    j = j + 1;
                }
            }
        }
        i = i + 1;
    }
    ids
}

/// Random identifiers for the tool calls of a chat that have none.
pub fn call_ids_of(chat: &Json) -> (ids: Vec<String>)
    ensures
        ids@.len() == unnamed(chat@.items_at("messages"@)),
        random_ids(texts(ids@), "call"@),
{
    let none: Vec<Json> = Vec::new();
    assert(items_view(none@) =~= Seq::<JsonView>::empty());
    call_ids(
        match chat.array_at("messages") {
            Some(messages) => messages,
            None => &none,
        },
    )
}

/// The Responses request for a chat, or the kinds of content in it that are not supported. A tool
/// call without an identifier is given a random one.
pub fn build_responses_request(chat: &Json) -> (result: Result<Json, Vec<String>>)
    ensures
        exists|ids: Seq<Seq<char>>|
            {
                &&& ids.len() == unnamed(chat@.items_at("messages"@))
                &&& random_ids(ids, "call"@)
                &&& #[trigger] responses_request(chat@, ids) == (match result {
                    Ok(request) => Ok::<JsonView, Seq<Seq<char>>>(request@),
                    Err(kinds) => Err::<JsonView, Seq<Seq<char>>>(texts(kinds@)),
                })
            },
{
    let ids = call_ids_of(chat);
    build_responses_request_with(chat, &ids)
}

/// The identifier of a model in a list of the provider's.
pub open spec fn model_id(model: JsonView) -> Option<JsonView> {
    or_view(model.get("id"@), or_view(model.get("slug"@), model.get("name"@)))
}

/// The entry of the models list for a model.
pub open spec fn model_entry(model: JsonView, id: JsonView) -> JsonView {
    JsonView::Object(
        no_fields().insert("id"@, id).insert("object"@, json_str("model"@)).insert(
            "created"@,
            or_default(model.get("created"@), json_u64(0)),
        ).insert("owned_by"@, or_default(model.get("owned_by"@), json_str("chatgpt"@))),
    )
}

/// The entries of the models list for some models; one without an identifier has none.
pub open spec fn model_entries(models: Seq<JsonView>) -> Seq<JsonView>
    decreases models.len(),
{
    if models.len() == 0 {
        Seq::empty()
    } else {
        let before = model_entries(models.drop_last());
        match model_id(models.last()) {
            Some(id) => before.push(model_entry(models.last(), id)),
            None => before,
        }
    }
}

/// The models list that stands for a provider's answer.
pub open spec fn models_view(upstream: JsonView) -> JsonView {
    if upstream.str_at("object"@) == Some("list"@) && (upstream.get("data"@) matches Some(
        JsonView::Array(_),
    )) {
        upstream
    } else {
        let models = match upstream.get("models"@) {
            Some(JsonView::Array(models)) => models,
            _ => or_default(upstream.array(), Seq::empty()),
        };
        JsonView::Object(
            no_fields().insert("object"@, json_str("list"@)).insert(
                "data"@,
                JsonView::Array(model_entries(models)),
            ),
        )
    }
}

/// The models list that stands for a provider's answer: a list is handed on, of anything else the
/// models with an identifier are listed.
pub fn normalize_models(upstream: &Json) -> (list: Json)
    ensures
        list@ == models_view(upstream@),
{
    if str_at_is(upstream, "object", "list") && upstream.array_at("data").is_some() {
        return upstream.clone();
    }
    let none: Vec<Json> = Vec::new();
    assert(items_view(none@) =~= Seq::<JsonView>::empty());
    let models = match upstream.array_at("models") {
        Some(models) => models,
        None => match upstream.as_array() {
            Some(models) => models,
            None => &none,
        },
    };
    let mut data: Vec<Json> = Vec::new();
    let mut i: usize = 0;
    proof {
        lemma_items_whole(models@);
        assert(items_view(data@) =~= Seq::<JsonView>::empty());
    }
    while i < models.len()
        invariant
            i <= models@.len(),
            items_view(data@) == model_entries(items_view(models@).take(i as int)),
        decreases models@.len() - i,
    {
        proof {
            lemma_items_take(models@, i as int);
        }
        let model = &models[i];
        let id = match model.get("id") {
            Some(id) => Some(id),
            None => match model.get("slug") {
                Some(id) => Some(id),
                None => model.get("name"),
            },
        };
        if let Some(id) = id {
            let mut map = JsonMap::new();
            map.insert("id", id.clone());
            map.insert("object", Json::text("model"));
            map.insert("created", copy_or(model.get("created"), Json::count(0)));
            map.insert("owned_by", copy_or(model.get("owned_by"), Json::text("chatgpt")));
            let ghost before = data@;
            data.push(Json::Object(map));
            proof {
                lemma_items_push(before, Json::Object(map));
            }
        }
        i = i + 1;
    }
    let mut list = JsonMap::new();
    list.insert("object", Json::text("list"));
    list.insert("data", Json::Array(data));
    Json::Object(list)
}

/// The fields of a Responses request that are given a value or left out.
pub open spec fn rewritten_field(key: Seq<char>) -> bool {
    key == "store"@ || key == "stream"@ || left_out_field(key)
}

/// The fields of a Responses request that are left out.
pub open spec fn left_out_field(key: Seq<char>) -> bool {
    key == "max_output_tokens"@ || key == "temperature"@ || key == "top_p"@ || key == "metadata"@
        || key == "user"@
}

proof fn lemma_request_keys()
    ensures
        "store"@ != "stream"@,
        "store"@ != "input"@,
        "stream"@ != "input"@,
        !left_out_field("store"@),
        !left_out_field("stream"@),
        !left_out_field("input"@),
{
    reveal_strlit("store");
    reveal_strlit("stream");
    reveal_strlit("input");
    reveal_strlit("max_output_tokens");
    reveal_strlit("temperature");
    reveal_strlit("top_p");
    reveal_strlit("metadata");
    reveal_strlit("user");
    assert("store"@[0] != "input"@[0]);
    assert("top_p"@[0] != "store"@[0]);
    assert("top_p"@[0] != "input"@[0]);
    assert("store"@.len() == 5 && "input"@.len() == 5 && "stream"@.len() == 6);
    assert("max_output_tokens"@.len() == 17);
    assert("temperature"@.len() == 11);
    assert("metadata"@.len() == 8);
    assert("user"@.len() == 4);
    assert("top_p"@.len() == 5);
}

/// A Responses request to the provider is never stored and always streamed, has none of the fields
/// that the provider does not take, has no bare text as its input, and hands every other field on
/// as it came.
pub proof fn law_normalized_request(body: JsonView, key: Seq<char>)
    ensures
        normalized_request(body).get("store"@) == Some(JsonView::Bool(false)),
        normalized_request(body).get("stream"@) == Some(JsonView::Bool(true)),
        left_out_field(key) ==> normalized_request(body).get(key) is None,
        normalized_request(body).str_at("input"@) is None,
        body.str_at("input"@) matches Some(text) ==> normalized_request(body).get("input"@) == Some(
            JsonView::Array(seq![message_view("user"@, text)]),
        ),
        body.str_at("input"@) is None ==> normalized_request(body).get("input"@) == body.get(
            "input"@,
        ),
        !rewritten_field(key) && key != "input"@ ==> normalized_request(body).get(key) == body.get(
            key,
        ),
{
    lemma_request_keys();
}

/// To normalize a Responses request twice is to normalize it once.
pub proof fn law_normalizing_twice_is_once(body: JsonView)
    ensures
        normalized_request(normalized_request(body)) == normalized_request(body),
{
    let once = normalized_request(body);
    let twice = normalized_request(once);
    assert forall|key: Seq<char>| twice.get(key) == once.get(key) by {
        law_normalized_request(body, key);
        law_normalized_request(once, key);
    }
    assert forall|key: Seq<char>| once->Object_0.contains_key(key)
        == twice->Object_0.contains_key(key) by {
        assert(twice.get(key) == once.get(key));
    }
    assert forall|key: Seq<char>| once->Object_0.contains_key(key) implies once->Object_0[key]
        == twice->Object_0[key] by {
        assert(twice.get(key) == once.get(key));
    }
    assert(once->Object_0 =~= twice->Object_0);
}

/// Whether a message has content that is not supported.
pub open spec fn has_unsupported(message: JsonView) -> bool {
    content_of(message.get("content"@)).1.len() > 0
}

proof fn lemma_calls_unsupported(chat: ChatView, calls: Seq<JsonView>, ids: Seq<Seq<char>>)
    ensures
        calls_after(chat, calls, ids).unsupported == chat.unsupported,
    decreases calls.len(),
{
    if calls.len() > 0 {
        lemma_calls_unsupported(chat, calls.drop_last(), ids);
    }
}

proof fn lemma_message_unsupported(chat: ChatView, message: JsonView, ids: Seq<Seq<char>>)
    ensures
        message_step(chat, message, ids).unsupported == chat.unsupported + content_of(
            message.get("content"@),
        ).1,
{
    let (content, refused) = content_of(message.get("content"@));
    let read = ChatView { unsupported: chat.unsupported + refused, ..chat };
    let spoken = if content.len() > 0 {
        ChatView { input: read.input.push(message_view("assistant"@, content)), ..read }
    } else {
        read
    };
    lemma_calls_unsupported(spoken, message.items_at("tool_calls"@), ids);
}

/// A chat is refused exactly if one of its messages has content that is not supported.
pub proof fn law_refused_iff_unsupported(chat: JsonView, ids: Seq<Seq<char>>)
    ensures
        responses_request(chat, ids) is Err <==> exists|i: int|
            0 <= i < chat.items_at("messages"@).len() && #[trigger] has_unsupported(
                chat.items_at("messages"@)[i],
            ),
{
    lemma_unsupported_messages(chat.items_at("messages"@), ids);
}

proof fn lemma_unsupported_messages(messages: Seq<JsonView>, ids: Seq<Seq<char>>)
    ensures
        messages_after(messages, ids).unsupported.len() > 0 <==> exists|i: int|
            0 <= i < messages.len() && #[trigger] has_unsupported(messages[i]),
    decreases messages.len(),
{
    if messages.len() > 0 {
        let before = messages.drop_last();
        lemma_unsupported_messages(before, ids);
        lemma_message_unsupported(messages_after(before, ids), messages.last(), ids);
        if messages_after(before, ids).unsupported.len() > 0 {
            let i = choose|i: int| 0 <= i < before.len() && #[trigger] has_unsupported(before[i]);
            assert(has_unsupported(messages[i]));
        }
        if has_unsupported(messages.last()) {
            assert(has_unsupported(messages[messages.len() - 1]));
        }
        if exists|i: int| 0 <= i < messages.len() && #[trigger] has_unsupported(messages[i]) {
            let i = choose|i: int| 0 <= i < messages.len() && #[trigger] has_unsupported(messages[i]);
            if i < before.len() {
                assert(has_unsupported(before[i]));
            }
        }
    }
}

proof fn lemma_same_calls(
    chat: ChatView,
    calls: Seq<JsonView>,
    some: Seq<Seq<char>>,
    other: Seq<Seq<char>>,
)
    requires
        unnamed_calls(calls) == 0,
    ensures
        calls_after(chat, calls, some) == calls_after(chat, calls, other),
    decreases calls.len(),
{
    if calls.len() > 0 {
        lemma_same_calls(chat, calls.drop_last(), some, other);
    }
}

proof fn lemma_same_messages(messages: Seq<JsonView>, some: Seq<Seq<char>>, other: Seq<Seq<char>>)
    requires
        unnamed(messages) == 0,
    ensures
        messages_after(messages, some) == messages_after(messages, other),
    decreases messages.len(),
{
    if messages.len() > 0 {
        let before = messages.drop_last();
        let message = messages.last();
        lemma_same_messages(before, some, other);
        if or_default(message.str_at("role"@), "user"@) == "assistant"@ {
            reveal_strlit("user");
            reveal_strlit("assistant");
            assert("user"@.len() != "assistant"@.len());
            let chat = messages_after(before, some);
            let (content, refused) = content_of(message.get("content"@));
            let read = ChatView { unsupported: chat.unsupported + refused, ..chat };
            let spoken = if content.len() > 0 {
                ChatView { input: read.input.push(message_view("assistant"@, content)), ..read }
            } else {
                read
            };
            lemma_same_calls(spoken, message.items_at("tool_calls"@), some, other);
        }
    }
}

/// Where every tool call of a chat has an identifier, chance has no part in its request.
pub proof fn law_named_calls_leave_nothing_to_chance(
    chat: JsonView,
    some: Seq<Seq<char>>,
    other: Seq<Seq<char>>,
)
    requires
        unnamed(chat.items_at("messages"@)) == 0,
    ensures
        responses_request(chat, some) == responses_request(chat, other),
{
    lemma_same_messages(chat.items_at("messages"@), some, other);
}

/// A request made from a chat is never stored.
pub proof fn law_chat_request_is_not_stored(chat: JsonView, ids: Seq<Seq<char>>)
    requires
        responses_request(chat, ids) is Ok,
    ensures
        responses_request(chat, ids)->Ok_0.get("store"@) == Some(JsonView::Bool(false)),
{
    reveal_strlit("store");
    reveal_strlit("instructions");
    reveal_strlit("tools");
    reveal_strlit("tool_choice");
    reveal_strlit("parallel_tool_calls");
    reveal_strlit("reasoning");
    assert("store"@[0] != "tools"@[0]);
    assert("store"@.len() == 5 && "instructions"@.len() == 12 && "tool_choice"@.len() == 11);
    assert("parallel_tool_calls"@.len() == 19 && "reasoning"@.len() == 9);
}

/// A models list made from a provider's answer is handed on unchanged when it is read again.
pub proof fn law_models_list_is_stable(upstream: JsonView)
    ensures
        models_view(models_view(upstream)) == models_view(upstream),
{
    reveal_strlit("object");
    reveal_strlit("data");
    assert("object"@.len() != "data"@.len());
}

proof fn lemma_chat_keys()
    ensures
        forall|chat: JsonView, read: ChatView|
            {
                let request = JsonView::Object(#[trigger] request_fields(chat, read));
                &&& request.get("model"@) == Some(
                    match chat.get("model"@) {
                        Some(model) => model,
                        None => JsonView::Null,
                    },
                )
                &&& request.get("input"@) == Some(JsonView::Array(read.input))
                &&& request.get("stream"@) == Some(
                    JsonView::Bool(chat.get("stream"@) == Some(JsonView::Bool(true))),
                )
                &&& request.get("instructions"@) == (if read.instructions.len() > 0 {
                    Some(JsonView::String(joined(read.instructions, "\n\n"@)))
                } else {
                    None
                })
                &&& request.get("tools"@) == (match chat.get("tools"@) {
                    Some(JsonView::Array(tools)) => Some(
                        JsonView::Array(tools.map_values(|tool: JsonView| tool_view(tool))),
                    ),
                    _ => None,
                })
                &&& request.get("tool_choice"@) == (match chat.get("tool_choice"@) {
                    Some(choice) => Some(choice_view(choice)),
                    None => None,
                })
                &&& request.get("parallel_tool_calls"@) == chat.get("parallel_tool_calls"@)
                &&& request.get("reasoning"@) == chat.get("reasoning"@)
            },
{
    reveal_strlit("model");
    reveal_strlit("input");
    reveal_strlit("stream");
    reveal_strlit("store");
    reveal_strlit("instructions");
    reveal_strlit("tools");
    reveal_strlit("tool_choice");
    reveal_strlit("parallel_tool_calls");
    reveal_strlit("reasoning");
    assert("model"@.len() == 5 && "input"@.len() == 5 && "stream"@.len() == 6);
    assert("store"@.len() == 5 && "instructions"@.len() == 12 && "tools"@.len() == 5);
    assert("tool_choice"@.len() == 11 && "parallel_tool_calls"@.len() == 19);
    assert("reasoning"@.len() == 9);
    assert("model"@[0] != "input"@[0]);
    assert("model"@[0] != "store"@[0]);
    assert("model"@[0] != "tools"@[0]);
    assert("input"@[0] != "store"@[0]);
    assert("input"@[0] != "tools"@[0]);
    assert("store"@[0] != "tools"@[0]);
}

/// The items of the input that a chat is turned into.
pub open spec fn chat_input(chat: JsonView, ids: Seq<Seq<char>>) -> Seq<JsonView> {
    responses_request(chat, ids)->Ok_0.items_at("input"@)
}

/// Whether an item of an input is the call of a function with this identifier.
pub open spec fn is_call_of(item: JsonView, id: Seq<char>) -> bool {
    item.str_at("type"@) == Some("function_call"@) && item.str_at("call_id"@) == Some(id)
}

/// Whether an item of an input is what the call with this identifier gave.
pub open spec fn is_result_of(item: JsonView, id: Seq<char>) -> bool {
    item.str_at("type"@) == Some("function_call_output"@) && item.str_at("call_id"@) == Some(id)
}

proof fn lemma_roles()
    ensures
        "system"@ != "tool"@,
        "system"@ != "assistant"@,
        "system"@ != "user"@,
        "developer"@ != "tool"@,
        "developer"@ != "assistant"@,
        "developer"@ != "user"@,
        "tool"@ != "assistant"@,
        "tool"@ != "user"@,
        "assistant"@ != "user"@,
{
    reveal_strlit("system");
    reveal_strlit("developer");
    reveal_strlit("tool");
    reveal_strlit("assistant");
    reveal_strlit("user");
    assert("system"@.len() == 6 && "developer"@.len() == 9 && "tool"@.len() == 4);
    assert("assistant"@.len() == 9 && "user"@.len() == 4);
    assert("tool"@[0] != "user"@[0]);
    assert("developer"@[0] != "assistant"@[0]);
}

proof fn lemma_item_fields(message: JsonView, call: JsonView, content: Seq<char>, id: Seq<char>)
    ensures
        output_item(message, content).str_at("type"@) == Some("function_call_output"@),
        output_item(message, content).str_at("output"@) == Some(content),
        message.str_at("tool_call_id"@) is Some ==> output_item(message, content).str_at("call_id"@)
            == message.str_at("tool_call_id"@),
        message.get("tool_call_id"@) is None && message.str_at("call_id"@) is Some ==> output_item(
            message,
            content,
        ).str_at("call_id"@) == message.str_at("call_id"@),
        call_item(call, id).str_at("type"@) == Some("function_call"@),
        call_item(call, id).str_at("call_id"@) == Some(id),
        call.str_at2("function"@, "name"@) is Some ==> call_item(call, id).str_at("name"@)
            == call.str_at2("function"@, "name"@),
        call.str_at2("function"@, "arguments"@) is Some ==> call_item(call, id).str_at("arguments"@)
            == call.str_at2("function"@, "arguments"@),
{
    reveal_strlit("type");
    reveal_strlit("call_id");
    reveal_strlit("output");
    reveal_strlit("name");
    reveal_strlit("arguments");
    assert("type"@.len() == 4 && "call_id"@.len() == 7 && "output"@.len() == 6);
    assert("name"@.len() == 4 && "arguments"@.len() == 9);
    assert("type"@[0] != "name"@[0]);
}

/// What a tool gave is handed on under the identifier of the call that it answers: a tool message
/// becomes the last item of the input, with the text of its `tool_call_id` (or of `call_id` where it
/// has none) as the identifier and its content as the output.
pub proof fn law_tool_results_name_their_call(
    chat: JsonView,
    ids: Seq<Seq<char>>,
    message: JsonView,
    id: Seq<char>,
)
    requires
        chat.items_at("messages"@).len() > 0,
        message == chat.items_at("messages"@).last(),
        message.str_at("role"@) == Some("tool"@),
        message.str_at("tool_call_id"@) == Some(id) || (message.get("tool_call_id"@) is None
            && message.str_at("call_id"@) == Some(id)),
        responses_request(chat, ids) is Ok,
    ensures
        chat_input(chat, ids).len() > 0,
        is_result_of(chat_input(chat, ids).last(), id),
        message.str_at("content"@) is Some ==> chat_input(chat, ids).last().str_at("output"@)
            == message.str_at("content"@),
{
    lemma_chat_keys();
    lemma_roles();
    lemma_item_fields(message, message, content_of(message.get("content"@)).0, id);
}

proof fn lemma_calls_keep(chat: ChatView, calls: Seq<JsonView>, ids: Seq<Seq<char>>)
    ensures
        chat.input.len() <= calls_after(chat, calls, ids).input.len(),
        calls_after(chat, calls, ids).input.take(chat.input.len() as int) == chat.input,
        calls_after(chat, calls, ids).instructions == chat.instructions,
    decreases calls.len(),
{
    if calls.len() > 0 {
        lemma_calls_keep(chat, calls.drop_last(), ids);
        let before = calls_after(chat, calls.drop_last(), ids).input;
        let after = calls_after(chat, calls, ids).input;
        assert(after.take(before.len() as int) =~= before);
        assert(after.take(chat.input.len() as int) =~= before.take(chat.input.len() as int));
    } else {
        assert(chat.input.take(chat.input.len() as int) =~= chat.input);
    }
}

proof fn lemma_call_is_told(chat: ChatView, calls: Seq<JsonView>, ids: Seq<Seq<char>>, c: int)
    requires
        0 <= c < calls.len(),
        calls[c].str_at("type"@) == Some("function"@),
        calls[c].str_at("id"@) is Some,
    ensures
        exists|p: int|
            chat.input.len() <= p < calls_after(chat, calls, ids).input.len() && #[trigger]
                calls_after(chat, calls, ids).input[p] == call_item(
                calls[c],
                calls[c].str_at("id"@)->0,
            ),
    decreases calls.len(),
{
    let short = calls.drop_last();
    lemma_calls_keep(chat, short, ids);
    let before = calls_after(chat, short, ids).input;
    let after = calls_after(chat, calls, ids).input;
    let item = call_item(calls[c], calls[c].str_at("id"@)->0);
    if c == calls.len() - 1 {
        assert(after[before.len() as int] == item);
    } else {
        lemma_call_is_told(chat, short, ids, c);
        let p = choose|p: int| chat.input.len() <= p < before.len() && #[trigger] before[p] == item;
        assert(after[p] == before[p]);
    }
}

proof fn lemma_messages_keep(messages: Seq<JsonView>, ids: Seq<Seq<char>>, i: int)
    requires
        0 <= i <= messages.len(),
    ensures
        ({
            let before = messages_after(messages.take(i), ids).input;
            let after = messages_after(messages, ids).input;
            before.len() <= after.len() && after.take(before.len() as int) == before
        }),
    decreases messages.len(),
{
    let before = messages_after(messages.take(i), ids).input;
    let after = messages_after(messages, ids).input;
    if i == messages.len() {
        assert(messages.take(i) =~= messages);
        assert(after.take(before.len() as int) =~= before);
    } else {
        let short = messages.drop_last();
        let message = messages.last();
        assert(short.take(i) =~= messages.take(i));
        lemma_messages_keep(short, ids, i);
        let chat = messages_after(short, ids);
        let (content, refused) = content_of(message.get("content"@));
        let read = ChatView { unsupported: chat.unsupported + refused, ..chat };
        let spoken = if content.len() > 0 {
            ChatView { input: read.input.push(message_view("assistant"@, content)), ..read }
        } else {
            read
        };
        lemma_calls_keep(spoken, message.items_at("tool_calls"@), ids);
        assert(after.take(chat.input.len() as int) =~= chat.input);
        assert(after.take(before.len() as int) =~= chat.input.take(before.len() as int));
    }
}

/// A call and what it gave stay together: where the assistant calls a function under an identifier
/// and a later tool message answers under the same identifier, the input has the call with its name
/// and arguments, and behind it the result, under that identifier both times.
pub proof fn law_calls_and_results_stay_together(
    chat: JsonView,
    ids: Seq<Seq<char>>,
    i: int,
    c: int,
    j: int,
    id: Seq<char>,
)
    requires
        responses_request(chat, ids) is Ok,
        ({
            let messages = chat.items_at("messages"@);
            let call = messages[i].items_at("tool_calls"@)[c];
            &&& 0 <= i < j < messages.len()
            &&& messages[i].str_at("role"@) == Some("assistant"@)
            &&& 0 <= c < messages[i].items_at("tool_calls"@).len()
            &&& call.str_at("type"@) == Some("function"@)
            &&& call.str_at("id"@) == Some(id)
            &&& messages[j].str_at("role"@) == Some("tool"@)
            &&& messages[j].str_at("tool_call_id"@) == Some(id)
        }),
    ensures
        ({
            let messages = chat.items_at("messages"@);
            let call = messages[i].items_at("tool_calls"@)[c];
            let input = chat_input(chat, ids);
            exists|p: int, q: int|
                #![trigger input[p], input[q]]
                {
                    &&& 0 <= p < q < input.len()
                    &&& is_call_of(input[p], id)
                    &&& is_result_of(input[q], id)
                    &&& call.str_at2("function"@, "name"@) is Some ==> input[p].str_at("name"@)
                        == call.str_at2("function"@, "name"@)
                    &&& call.str_at2("function"@, "arguments"@) is Some ==> input[p].str_at(
                        "arguments"@,
                    ) == call.str_at2("function"@, "arguments"@)
                    &&& messages[j].str_at("content"@) is Some ==> input[q].str_at("output"@)
                        == messages[j].str_at("content"@)
                }
        }),
{
    lemma_chat_keys();
    lemma_roles();
    let messages = chat.items_at("messages"@);
    let input = chat_input(chat, ids);
    let speech = messages[i];
    let answer = messages[j];
    let calls = speech.items_at("tool_calls"@);
    let item = call_item(calls[c], id);
    assert(messages.take(i + 1).drop_last() =~= messages.take(i));
    assert(messages.take(j + 1).drop_last() =~= messages.take(j));
    let start = messages_after(messages.take(i), ids);
    let (content, refused) = content_of(speech.get("content"@));
    let read = ChatView { unsupported: start.unsupported + refused, ..start };
    let spoken = if content.len() > 0 {
        ChatView { input: read.input.push(message_view("assistant"@, content)), ..read }
    } else {
        read
    };
    lemma_call_is_told(spoken, calls, ids, c);
    let called = messages_after(messages.take(i + 1), ids).input;
    assert(called == calls_after(spoken, calls, ids).input);
    let p = choose|p: int| spoken.input.len() <= p < called.len() && #[trigger] called[p] == item;
    lemma_messages_keep(messages.take(j), ids, i + 1);
    assert(messages.take(j).take(i + 1) =~= messages.take(i + 1));
    let waiting = messages_after(messages.take(j), ids).input;
    assert(waiting.take(called.len() as int)[p] == called[p]);
    lemma_messages_keep(messages, ids, j + 1);
    let answered = messages_after(messages.take(j + 1), ids).input;
    let q = waiting.len() as int;
    let told = content_of(answer.get("content"@)).0;
    assert(answered == waiting.push(output_item(answer, told)));
    assert(input.take(answered.len() as int)[p] == answered[p]);
    assert(input.take(answered.len() as int)[q] == answered[q]);
    lemma_item_fields(answer, calls[c], told, id);
    assert(input[p] == item);
    assert(input[q] == output_item(answer, told));
}

/// The instructions that a chat is turned into.
pub open spec fn chat_instructions(chat: JsonView, ids: Seq<Seq<char>>) -> Option<Seq<char>> {
    responses_request(chat, ids)->Ok_0.str_at("instructions"@)
}

/// Whether an item of an input is a message with this role and content, and nothing more.
pub open spec fn is_message_of(item: JsonView, role: Seq<char>, content: Seq<char>) -> bool {
    item == JsonView::Object(
        Map::empty().insert("role"@, JsonView::String(role)).insert(
            "content"@,
            JsonView::String(content),
        ),
    )
}

/// The messages of a chat are handed on one after the other. With one more message that has a text
/// as its content, the input has one more item and the instructions stay, or, for a message of the
/// system or the developer, the instructions end with its text, after an empty line where there were
/// any, and the input stays. An empty text adds nothing.
pub proof fn law_messages_are_handed_on(
    short: JsonView,
    long: JsonView,
    ids: Seq<Seq<char>>,
    message: JsonView,
    text: Seq<char>,
)
    requires
        long.items_at("messages"@) == short.items_at("messages"@).push(message),
        message.str_at("content"@) == Some(text),
        message.str_at("role"@) == Some("assistant"@) ==> message.items_at("tool_calls"@).len() == 0,
        responses_request(long, ids) is Ok,
    ensures
        responses_request(short, ids) is Ok,
        short.items_at("messages"@).len() == 0 ==> chat_input(short, ids).len() == 0
            && chat_instructions(short, ids) is None,
        ({
            let role = message.str_at("role"@);
            let before = chat_input(short, ids);
            let after = chat_input(long, ids);
            let instructed = role == Some("system"@) || role == Some("developer"@);
            &&& instructed ==> {
                &&& after == before
                &&& text.len() == 0 ==> chat_instructions(long, ids) == chat_instructions(short, ids)
                &&& text.len() > 0 ==> chat_instructions(long, ids) == Some(
                    match chat_instructions(short, ids) {
                        Some(instructions) => instructions + "\n\n"@ + text,
                        None => text,
                    },
                )
            }
            &&& !instructed ==> chat_instructions(long, ids) == chat_instructions(short, ids)
            &&& !instructed && role != Some("tool"@) && text.len() == 0 ==> after == before
            &&& role == Some("assistant"@) && text.len() > 0 ==> {
                &&& after.len() == before.len() + 1
                &&& after.drop_last() == before
                &&& is_message_of(after.last(), "assistant"@, text)
            }
            &&& !instructed && role != Some("tool"@) && role != Some("assistant"@) && text.len() > 0
                ==> {
                &&& after.len() == before.len() + 1
                &&& after.drop_last() == before
                &&& is_message_of(after.last(), "user"@, text)
            }
            &&& role == Some("tool"@) ==> {
                &&& after.len() == before.len() + 1
                &&& after.drop_last() == before
                &&& after.last().str_at("output"@) == Some(text)
            }
        }),
{
    lemma_chat_keys();
    lemma_roles();
    lemma_item_fields(message, message, text, text);
    let messages = short.items_at("messages"@);
    assert(messages.push(message).drop_last() =~= messages);
    let chat = messages_after(messages, ids);
    let next = messages_after(messages.push(message), ids);
    lemma_message_unsupported(chat, message, ids);
    let input = chat_input(short, ids);
    if next.input.len() > chat.input.len() {
        assert(next.input.drop_last() =~= chat.input);
    }
    if next.instructions.len() > chat.instructions.len() {
        assert(next.instructions.drop_last() =~= chat.instructions);
    }
}

/// The calls of a message of the assistant are handed on one after the other: with one more call, the
/// input has one more item, with the identifier, the name and the arguments of the call. A call of
/// another type than a function adds nothing.
pub proof fn law_calls_are_handed_on(
    short: JsonView,
    long: JsonView,
    ids: Seq<Seq<char>>,
    first: Seq<JsonView>,
    said: JsonView,
    saying: JsonView,
    call: JsonView,
)
    requires
        short.items_at("messages"@) == first.push(said),
        long.items_at("messages"@) == first.push(saying),
        said.str_at("role"@) == Some("assistant"@),
        saying.str_at("role"@) == Some("assistant"@),
        saying.get("content"@) == said.get("content"@),
        saying.items_at("tool_calls"@) == said.items_at("tool_calls"@).push(call),
        responses_request(long, ids) is Ok,
    ensures
        responses_request(short, ids) is Ok,
        chat_instructions(long, ids) == chat_instructions(short, ids),
        ({
            let before = chat_input(short, ids);
            let after = chat_input(long, ids);
            &&& call.str_at("type"@) != Some("function"@) ==> after == before
            &&& call.str_at("type"@) == Some("function"@) ==> {
                &&& after.len() == before.len() + 1
                &&& after.drop_last() == before
                &&& after.last().str_at("type"@) == Some("function_call"@)
                &&& call.str_at("id"@) is Some ==> after.last().str_at("call_id"@) == call.str_at(
                    "id"@,
                )
                &&& call.str_at("id"@) is None ==> after.last().str_at("call_id"@) == Some(
                    ids[unnamed(short.items_at("messages"@)) as int],
                )
                &&& after.last().str_at("name"@) == Some(
                    match call.str_at2("function"@, "name"@) {
                        Some(name) => name,
                        None => "unknown_function"@,
                    },
                )
                &&& after.last().str_at("arguments"@) == Some(
                    match call.str_at2("function"@, "arguments"@) {
                        Some(arguments) => arguments,
                        None => "{}"@,
                    },
                )
            }
        }),
{
    lemma_chat_keys();
    lemma_roles();
    let shorter = short.items_at("messages"@);
    let longer = long.items_at("messages"@);
    assert(shorter.drop_last() =~= first);
    assert(longer.drop_last() =~= first);
    let chat = messages_after(first, ids);
    lemma_message_unsupported(chat, said, ids);
    lemma_message_unsupported(chat, saying, ids);
    lemma_messages_named(shorter, ids);
    let calls = said.items_at("tool_calls"@);
    assert(calls.push(call).drop_last() =~= calls);
    let (content, refused) = content_of(said.get("content"@));
    let read = ChatView { unsupported: chat.unsupported + refused, ..chat };
    let spoken = if content.len() > 0 {
        ChatView { input: read.input.push(message_view("assistant"@, content)), ..read }
    } else {
        read
    };
    let before = calls_after(spoken, calls, ids);
    let after = calls_after(spoken, calls.push(call), ids);
    assert(messages_after(shorter, ids) == before);
    assert(messages_after(longer, ids) == after);
    assert(after == call_step(before, call, ids));
    if call.str_at("type"@) == Some("function"@) {
        assert(after.input.drop_last() =~= before.input);
        let id = match call.str_at("id"@) {
            Some(id) => id,
            None => ids[before.named as int],
        };
        lemma_item_fields(said, call, content, id);
        reveal_strlit("type");
        reveal_strlit("call_id");
        reveal_strlit("name");
        reveal_strlit("arguments");
        assert("type"@.len() == 4 && "call_id"@.len() == 7 && "name"@.len() == 4);
        assert("arguments"@.len() == 9);
        assert("type"@[0] != "name"@[0]);
    }
}

/// The text of a part of a content, if it has one: a part is a text, or an object of a kind of text.
pub open spec fn told_by_part(part: JsonView) -> Option<Seq<char>> {
    if part is String {
        part.str()
    } else if part.str_at("type"@) == Some("text"@) || part.str_at("type"@) == Some("input_text"@)
        || part.str_at("type"@) == Some("output_text"@) {
        Some(
            match part.str_at("text"@) {
                Some(text) => text,
                None => Seq::empty(),
            },
        )
    } else {
        None
    }
}

proof fn lemma_part_texts(parts: Seq<JsonView>)
    ensures
        forall|i: int|
            0 <= i < parts_after(parts).texts.len() ==> (#[trigger] parts_after(parts).texts[i]).len()
                > 0,
    decreases parts.len(),
{
    if parts.len() > 0 {
        let before = parts_after(parts.drop_last()).texts;
        let after = parts_after(parts).texts;
        lemma_part_texts(parts.drop_last());
        assert forall|i: int| 0 <= i < after.len() implies (#[trigger] after[i]).len() > 0 by {
            if i < before.len() {
                assert(after[i] == before[i]);
            }
        }
    }
}

proof fn lemma_joined_len(list: Seq<Seq<char>>, separator: Seq<char>)
    requires
        list.len() > 0,
        list[0].len() > 0,
    ensures
        joined(list, separator).len() > 0,
    decreases list.len(),
{
    if list.len() > 1 {
        lemma_joined_len(list.drop_last(), separator);
    }
}

/// A content is a text, or a list of parts whose texts follow one another on lines of their own; a
/// part that is an object of any other kind is refused by its kind.
pub proof fn law_contents_are_read(parts: Seq<JsonView>, part: JsonView, text: Seq<char>)
    ensures
        content_of(None) == (Seq::<char>::empty(), Seq::<Seq<char>>::empty()),
        content_of(Some(JsonView::Null)) == (Seq::<char>::empty(), Seq::<Seq<char>>::empty()),
        content_of(Some(JsonView::String(text))) == (text, Seq::<Seq<char>>::empty()),
        content_of(Some(JsonView::Array(Seq::empty()))) == (
            Seq::<char>::empty(),
            Seq::<Seq<char>>::empty(),
        ),
        forall|value: JsonView|
            (value is Bool || value is Number || value is Object) ==> {
                let (told, refused) = #[trigger] content_of(Some(value));
                &&& told.len() == 0
                &&& refused.len() == 1
                &&& refused[0] == if value is Bool {
                    "boolean"@
                } else if value is Number {
                    "number"@
                } else {
                    "object"@
                }
            },
        ({
            let (before, refused) = content_of(Some(JsonView::Array(parts)));
            let (after, refusing) = content_of(Some(JsonView::Array(parts.push(part))));
            &&& told_by_part(part) is Some ==> refusing == refused
            &&& told_by_part(part) is Some && told_by_part(part)->0.len() == 0 ==> after == before
            &&& told_by_part(part) is Some && told_by_part(part)->0.len() > 0 ==> after
                == if before.len() == 0 {
                told_by_part(part)->0
            } else {
                before + "\n"@ + told_by_part(part)->0
            }
            &&& told_by_part(part) is None ==> after == before
            &&& told_by_part(part) is None && part is Object ==> refusing == refused.push(
                match part.str_at("type"@) {
                    Some(kind) => kind,
                    None => "unknown"@,
                },
            )
            &&& told_by_part(part) is None && !(part is Object) ==> refusing == refused
        }),
{
    assert(parts.push(part).drop_last() =~= parts);
    let read = parts_after(parts);
    let next = parts_after(parts.push(part));
    lemma_part_texts(parts);
    if read.texts.len() > 0 {
        assert(read.texts[0].len() > 0);
        lemma_joined_len(read.texts, "\n"@);
    }
    if next.texts.len() > read.texts.len() {
        assert(next.texts.drop_last() =~= read.texts);
    }
}

/// The tools of a chat are handed on in their order: of a function its name, description and
/// parameters come one level up, and any other tool stays as it is. The choice of a function is
/// handed on by its name, and any other choice as it is.
pub proof fn law_tools_are_handed_on(chat: JsonView, ids: Seq<Seq<char>>, i: int)
    requires
        responses_request(chat, ids) is Ok,
    ensures
        ({
            let request = responses_request(chat, ids)->Ok_0;
            let given = chat.items_at("tools"@);
            let tools = request.items_at("tools"@);
            let choice = chat.get("tool_choice"@);
            &&& request.get("tools"@) is Some <==> (chat.get("tools"@) matches Some(
                JsonView::Array(_),
            ))
            &&& tools.len() == given.len()
            &&& 0 <= i < given.len() && given[i].str_at("type"@) != Some("function"@) ==> tools[i]
                == given[i]
            &&& 0 <= i < given.len() && given[i].str_at("type"@) == Some("function"@) ==> {
                &&& tools[i].str_at("type"@) == Some("function"@)
                &&& given[i].get2("function"@, "name"@) is Some ==> tools[i].get("name"@)
                    == given[i].get2("function"@, "name"@)
                &&& given[i].get2("function"@, "description"@) is Some ==> tools[i].get(
                    "description"@,
                ) == given[i].get2("function"@, "description"@)
                &&& given[i].get2("function"@, "parameters"@) is Some ==> tools[i].get("parameters"@)
                    == given[i].get2("function"@, "parameters"@)
                &&& given[i].get2("function"@, "name"@) is None ==> tools[i].get("name"@) == Some(
                    JsonView::Null,
                )
                &&& given[i].get2("function"@, "description"@) is None ==> tools[i].get(
                    "description"@,
                ) == Some(JsonView::Null)
                &&& given[i].get2("function"@, "parameters"@) is None ==> tools[i].str_at2(
                    "parameters"@,
                    "type"@,
                ) == Some("object"@) && tools[i].get2("parameters"@, "properties"@) == Some(
                    JsonView::Object(Map::empty()),
                )
            }
            &&& choice is None ==> request.get("tool_choice"@) is None
            &&& choice is Some && (choice->0.str_at("type"@) != Some("function"@) || choice->0.get2(
                "function"@,
                "name"@,
            ) is None) ==> request.get("tool_choice"@) == choice
            &&& choice is Some && choice->0.str_at("type"@) == Some("function"@) && choice->0.get2(
                "function"@,
                "name"@,
            ) is Some ==> {
                &&& request.str_at2("tool_choice"@, "type"@) == Some("function"@)
                &&& request.get2("tool_choice"@, "name"@) == choice->0.get2("function"@, "name"@)
            }
        }),
{
    lemma_chat_keys();
    reveal_strlit("type");
    reveal_strlit("name");
    reveal_strlit("description");
    reveal_strlit("parameters");
    reveal_strlit("properties");
    assert("type"@.len() == 4 && "name"@.len() == 4 && "description"@.len() == 11);
    assert("parameters"@.len() == 10 && "properties"@.len() == 10);
    assert("type"@[0] != "name"@[0]);
    assert("parameters"@[1] != "properties"@[1]);
    let read = messages_after(chat.items_at("messages"@), ids);
    assert(responses_request(chat, ids)->Ok_0 == JsonView::Object(request_fields(chat, read)));
}

/// What else a chat says is handed on as it is: the model, the settings for parallel calls and for
/// reasoning, and whether the answer is to be streamed.
pub proof fn law_settings_are_handed_on(chat: JsonView, ids: Seq<Seq<char>>)
    requires
        responses_request(chat, ids) is Ok,
    ensures
        ({
            let request = responses_request(chat, ids)->Ok_0;
            &&& chat.get("model"@) is Some ==> request.get("model"@) == chat.get("model"@)
            &&& chat.get("model"@) is None ==> request.get("model"@) == Some(JsonView::Null)
            &&& request.get("parallel_tool_calls"@) == chat.get("parallel_tool_calls"@)
            &&& request.get("reasoning"@) == chat.get("reasoning"@)
            &&& chat.get("stream"@) == Some(JsonView::Bool(true)) <==> request.get("stream"@)
                == Some(JsonView::Bool(true))
            &&& request.get("stream"@) == Some(JsonView::Bool(true)) || request.get("stream"@)
                == Some(JsonView::Bool(false))
        }),
{
    lemma_chat_keys();
    let read = messages_after(chat.items_at("messages"@), ids);
    assert(responses_request(chat, ids)->Ok_0 == JsonView::Object(request_fields(chat, read)));
}

/// The reasoning effort of a request is the one under `reasoning`; only where that is no text the
/// ones under the two plain names count, in this order.
pub proof fn law_effort_has_three_places(body: JsonView, effort: Seq<char>)
    ensures
        body.str_at2("reasoning"@, "effort"@) == Some(effort) ==> effort_of(body) == Some(effort),
        body.str_at2("reasoning"@, "effort"@) is None && body.str_at("reasoningEffort"@) == Some(
            effort,
        ) ==> effort_of(body) == Some(effort),
        body.str_at2("reasoning"@, "effort"@) is None && body.str_at("reasoningEffort"@) is None
            && body.str_at("reasoning_effort"@) == Some(effort) ==> effort_of(body) == Some(effort),
        body.str_at2("reasoning"@, "effort"@) is None && body.str_at("reasoningEffort"@) is None
            && body.str_at("reasoning_effort"@) is None ==> effort_of(body) is None,
{
}

/// The models of a provider are listed in their order, each under its `id`, `slug` or `name`; one
/// with none of them is left out.
pub proof fn law_models_are_listed_in_order(
    short: JsonView,
    long: JsonView,
    model: JsonView,
    id: JsonView,
)
    requires
        short.get("models"@) matches Some(JsonView::Array(_)),
        long.get("models"@) == Some(JsonView::Array(short.items_at("models"@).push(model))),
        short.get("data"@) is None,
        long.get("data"@) is None,
    ensures
        short.items_at("models"@).len() == 0 ==> models_view(short).items_at("data"@).len() == 0,
        models_view(long).str_at("object"@) == Some("list"@),
        model.get("id"@) == Some(id) || (model.get("id"@) is None && model.get("slug"@) == Some(id))
            || (model.get("id"@) is None && model.get("slug"@) is None && model.get("name"@) == Some(
            id,
        )) ==> ({
            let before = models_view(short).items_at("data"@);
            let after = models_view(long).items_at("data"@);
            &&& after.len() == before.len() + 1
            &&& after.drop_last() == before
            &&& after.last().get("id"@) == Some(id)
            &&& after.last().str_at("object"@) == Some("model"@)
            &&& model.get("created"@) is Some ==> after.last().get("created"@) == model.get(
                "created"@,
            )
            &&& model.get("created"@) is None ==> after.last().u64_at("created"@) == Some(0u64)
            &&& model.get("owned_by"@) is Some ==> after.last().get("owned_by"@) == model.get(
                "owned_by"@,
            )
            &&& model.get("owned_by"@) is None ==> after.last().str_at("owned_by"@) == Some(
                "chatgpt"@,
            )
        }),
        model.get("id"@) is None && model.get("slug"@) is None && model.get("name"@) is None
            ==> models_view(long).items_at("data"@) == models_view(short).items_at("data"@),
{
    reveal_strlit("object");
    reveal_strlit("data");
    reveal_strlit("id");
    reveal_strlit("created");
    reveal_strlit("owned_by");
    assert("object"@.len() == 6 && "data"@.len() == 4 && "id"@.len() == 2 && "created"@.len() == 7);
    assert("owned_by"@.len() == 8);
    let models = short.items_at("models"@);
    assert(models.push(model).drop_last() =~= models);
    let before = model_entries(models);
    let after = model_entries(models.push(model));
    assert(models_view(short).items_at("data"@) == before);
    assert(models_view(long).items_at("data"@) == after);
    if after.len() > before.len() {
        assert(after.drop_last() =~= before);
    }
}

/// A tool message that names no call by a text is handed on for an unknown call.
pub proof fn law_unnamed_results_are_handed_on(chat: JsonView, ids: Seq<Seq<char>>, message: JsonView)
    requires
        chat.items_at("messages"@).len() > 0,
        message == chat.items_at("messages"@).last(),
        message.str_at("role"@) == Some("tool"@),
        (message.get("tool_call_id"@) is Some && message.str_at("tool_call_id"@) is None) || (
        message.get("tool_call_id"@) is None && message.str_at("call_id"@) is None),
        responses_request(chat, ids) is Ok,
    ensures
        chat_input(chat, ids).len() > 0,
        is_result_of(chat_input(chat, ids).last(), "unknown_call"@),
{
    lemma_chat_keys();
    lemma_roles();
    let content = content_of(message.get("content"@)).0;
    lemma_item_fields(message, message, content, content);
    reveal_strlit("type");
    reveal_strlit("call_id");
    reveal_strlit("output");
    assert("type"@.len() == 4 && "call_id"@.len() == 7 && "output"@.len() == 6);
}

/// A list of models is handed on as it is, and a bare array of models is listed as one under `models`
/// is.
pub proof fn law_lists_of_models_are_handed_on(upstream: JsonView, models: Seq<JsonView>)
    ensures
        upstream.str_at("object"@) == Some("list"@) && upstream.get("data"@) is Some
            && upstream.get("data"@)->0 is Array ==> models_view(upstream) == upstream,
        models_view(JsonView::Array(models)) == models_view(
            JsonView::Object(Map::empty().insert("models"@, JsonView::Array(models))),
        ),
{
    reveal_strlit("object");
    reveal_strlit("data");
    reveal_strlit("models");
    assert("object"@.len() == 6 && "data"@.len() == 4 && "models"@.len() == 6);
    assert("object"@[0] != "models"@[0]);
}

}
