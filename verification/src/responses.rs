//! Answers of the Responses endpoint: collected from a stream of events, and as chat completions.

use crate::convert::{copy_or, random_ids, str_at_is};
use crate::json::{
    copy_items, field, items_view, json_i64, json_str, json_u64, lemma_items_push, lemma_items_take,
    lemma_items_whole, no_fields, opt_view, or_default, or_view, parse_json, parsed, Json, JsonMap,
    JsonView,
};
use crate::outside::{current_time, is_random_id, random_id};
use crate::sse::{event_views, EventView, SseEvent};
use crate::text::{text_eq, texts};
use vstd::pervasive::unreached;
use vstd::prelude::*;
use vstd::string::*;

verus! {

/// What the events of an answer have given so far.
pub struct CollectView {
    pub response: Map<Seq<char>, JsonView>,
    pub output: Seq<JsonView>,
}

/// `list` made at least `n` long with nulls.
pub open spec fn padded(list: Seq<JsonView>, n: int) -> Seq<JsonView> {
    if list.len() < n {
        list + Seq::new((n - list.len()) as nat, |i: int| JsonView::Null)
    } else {
        list
    }
}

/// `list` with `item` at `index`; what is missing before it is null.
pub open spec fn with_item_at(list: Seq<JsonView>, index: int, item: JsonView) -> Seq<JsonView> {
    padded(list, index + 1).update(index, item)
}

/// The item at `index`; null beyond the end.
pub open spec fn item_at(list: Seq<JsonView>, index: int) -> JsonView {
    if index < list.len() {
        list[index]
    } else {
        JsonView::Null
    }
}

/// An index that a payload gives, or `default`.
pub open spec fn index_of(payload: JsonView, key: Seq<char>, default: u64) -> usize {
    or_default(payload.u64_at(key), default) as usize
}

/// A message of the assistant without content.
pub open spec fn empty_message() -> JsonView {
    JsonView::Object(
        no_fields().insert("type"@, json_str("message"@)).insert("role"@, json_str("assistant"@)).insert(
            "content"@,
            JsonView::Array(Seq::empty()),
        ),
    )
}

/// A part of a message that is an empty text.
pub open spec fn empty_part() -> JsonView {
    JsonView::Object(
        no_fields().insert("type"@, json_str("output_text"@)).insert("text"@, json_str(Seq::empty())),
    )
}

/// `parts` made at least `n` long with empty texts.
pub open spec fn padded_parts(parts: Seq<JsonView>, n: int) -> Seq<JsonView> {
    if parts.len() < n {
        parts + Seq::new((n - parts.len()) as nat, |i: int| empty_part())
    } else {
        parts
    }
}

/// A part with `delta` at the end of its text.
pub open spec fn part_with_delta(part: JsonView, delta: Seq<char>) -> JsonView {
    JsonView::Object(
        or_default(part.object(), no_fields()).insert(
            "text"@,
            json_str(or_default(part.str_at("text"@), Seq::empty()) + delta),
        ),
    )
}

/// The item that a text is added to: what is there, or a new message.
pub open spec fn message_at(output: Seq<JsonView>, index: int) -> JsonView {
    match item_at(output, index) {
        JsonView::Null => empty_message(),
        item => item,
    }
}

/// A message with `delta` at the end of the text of its part `ci`.
pub open spec fn message_with_delta(message: JsonView, ci: int, delta: Seq<char>) -> JsonView {
    let parts = padded_parts(message.items_at("content"@), ci + 1);
    JsonView::Object(
        or_default(message.object(), no_fields()).insert(
            "content"@,
            JsonView::Array(parts.update(ci, part_with_delta(parts[ci], delta))),
        ),
    )
}

/// Whether a text can be added to the part `ci` of an item: the item is an object, its content is a
/// list if there is one, and the part is an object if there is one.
pub open spec fn takes_text(message: JsonView, ci: int) -> bool {
    &&& message is Object
    &&& message.get("content"@) matches Some(content) ==> content is Array
    &&& ci < message.items_at("content"@).len() ==> message.items_at("content"@)[ci] is Object
}

/// The item that arguments are added to: what is there, or a new function call.
pub open spec fn call_at(output: Seq<JsonView>, index: int) -> JsonView {
    match item_at(output, index) {
        JsonView::Null => JsonView::Object(
            no_fields().insert("type"@, json_str("function_call"@)).insert(
                "arguments"@,
                json_str(Seq::empty()),
            ),
        ),
        item => item,
    }
}

/// A function call with `delta` at the end of its arguments.
pub open spec fn call_with_delta(call: JsonView, delta: Seq<char>) -> JsonView {
    JsonView::Object(
        or_default(call.object(), no_fields()).insert(
            "arguments"@,
            json_str(or_default(call.str_at("arguments"@), Seq::empty()) + delta),
        ),
    )
}

/// The delta of a payload.
pub open spec fn delta_of(payload: JsonView) -> Seq<char> {
    or_default(payload.str_at("delta"@), Seq::empty())
}

/// The output after one more event of this kind.
pub open spec fn output_step(
    output: Seq<JsonView>,
    kind: Seq<char>,
    payload: JsonView,
) -> Seq<JsonView> {
    if kind == "response.output_item.added"@ {
        match payload.get("item"@) {
            Some(item) => with_item_at(
                output,
                index_of(payload, "output_index"@, output.len() as u64) as int,
                item,
            ),
            None => output,
        }
    } else if kind == "response.output_item.done"@ {
        match payload.get("item"@) {
            Some(item) => with_item_at(output, index_of(payload, "output_index"@, 0) as int, item),
            None => output,
        }
    } else if kind == "response.output_text.delta"@ {
        let oi = index_of(payload, "output_index"@, 0) as int;
        let ci = index_of(payload, "content_index"@, 0) as int;
        with_item_at(
            output,
            oi,
            message_with_delta(message_at(output, oi), ci, delta_of(payload)),
        )
    } else if kind == "response.function_call_arguments.delta"@ {
        let oi = index_of(payload, "output_index"@, 0) as int;
        with_item_at(output, oi, call_with_delta(call_at(output, oi), delta_of(payload)))
    } else {
        output
    }
}

/// Whether an event of this kind fits the output so far: its indexes can be reached, and what a
/// delta is added to has the shape for it.
pub open spec fn fits(output: Seq<JsonView>, kind: Seq<char>, payload: JsonView) -> bool {
    if kind == "response.output_item.added"@ {
        payload.get("item"@) is Some ==> index_of(payload, "output_index"@, output.len() as u64)
            < usize::MAX
    } else if kind == "response.output_item.done"@ {
        payload.get("item"@) is Some ==> index_of(payload, "output_index"@, 0) < usize::MAX
    } else if kind == "response.output_text.delta"@ {
        let oi = index_of(payload, "output_index"@, 0);
        let ci = index_of(payload, "content_index"@, 0);
        oi < usize::MAX && ci < usize::MAX && takes_text(message_at(output, oi as int), ci as int)
    } else if kind == "response.function_call_arguments.delta"@ {
        let oi = index_of(payload, "output_index"@, 0);
        oi < usize::MAX && call_at(output, oi as int) is Object
    } else {
        true
    }
}

/// The message of a failure.
pub open spec fn failure_message(payload: JsonView) -> Seq<char> {
    or_default(payload.str_at2("error"@, "message"@), "Upstream response failed"@)
}

/// What the events have given after one more, of this kind; a failure ends the answer.
pub open spec fn collect_step(
    state: CollectView,
    kind: Seq<char>,
    payload: JsonView,
) -> Result<CollectView, Seq<char>> {
    if kind == "response.failed"@ {
        Err(failure_message(payload))
    } else {
        Ok(
            CollectView {
                response: match payload.get("response"@) {
                    Some(JsonView::Object(fields)) => state.response.union_prefer_right(fields),
                    _ => state.response,
                },
                output: output_step(state.output, kind, payload),
            },
        )
    }
}

/// What events, given by their kinds and payloads, give.
pub open spec fn collect_after(payloads: Seq<(Seq<char>, JsonView)>) -> Result<
    CollectView,
    Seq<char>,
>
    decreases payloads.len(),
{
    if payloads.len() == 0 {
        Ok(CollectView { response: no_fields(), output: Seq::empty() })
    } else {
        match collect_after(payloads.drop_last()) {
            Ok(state) => collect_step(state, payloads.last().0, payloads.last().1),
            Err(message) => Err(message),
        }
    }
}

/// Whether each event fits what those before it have given, up to a failure.
pub open spec fn collectable(payloads: Seq<(Seq<char>, JsonView)>) -> bool
    decreases payloads.len(),
{
    payloads.len() > 0 ==> {
        &&& collectable(payloads.drop_last())
        &&& collect_after(payloads.drop_last()) matches Ok(state) ==> fits(
            state.output,
            payloads.last().0,
            payloads.last().1,
        )
    }
}

/// The items that are not null.
pub open spec fn without_nulls(items: Seq<JsonView>) -> Seq<JsonView>
    decreases items.len(),
{
    if items.len() == 0 {
        Seq::empty()
    } else if items.last() is Null {
        without_nulls(items.drop_last())
    } else {
        without_nulls(items.drop_last()).push(items.last())
    }
}

/// The answer that events made up: the response that was sent, with the collected output unless it
/// has an output of its own.
pub open spec fn collected_response(state: CollectView) -> JsonView {
    let own = match field(state.response, "output"@) {
        Some(JsonView::Array(items)) => items.len() > 0,
        _ => false,
    };
    JsonView::Object(
        if own {
            state.response
        } else {
            state.response.insert("output"@, JsonView::Array(without_nulls(state.output)))
        },
    )
}

/// The answer that events, given by their kinds and payloads, make up, or the message of a failure.
pub open spec fn collected(payloads: Seq<(Seq<char>, JsonView)>) -> Result<JsonView, Seq<char>> {
    match collect_after(payloads) {
        Ok(state) => Ok(collected_response(state)),
        Err(message) => Err(message),
    }
}

/// The kind of an event with this payload: its type, or the name of the event.
pub open spec fn kind_of(event: EventView, payload: JsonView) -> Seq<char> {
    or_default(payload.str_at("type"@), event.event)
}

/// The kinds and payloads of events; one whose data is empty, the end mark or no JSON has none.
pub open spec fn payloads_of(events: Seq<EventView>) -> Seq<(Seq<char>, JsonView)>
    decreases events.len(),
{
    if events.len() == 0 {
        Seq::empty()
    } else {
        let before = payloads_of(events.drop_last());
        let event = events.last();
        if event.data.len() == 0 || event.data == "[DONE]"@ {
            before
        } else {
            match parsed(event.data) {
                Ok(payload) => before.push((kind_of(event, payload), payload)),
                Err(_) => before,
            }
        }
    }
}

/// The contents of a list of kinds and payloads.
pub open spec fn payload_views(payloads: Seq<(String, Json)>) -> Seq<(Seq<char>, JsonView)> {
    payloads.map_values(|payload: (String, Json)| (payload.0@, payload.1@))
}

/// The outcome of collecting, as contracts speak of it.
pub open spec fn outcome_view(result: Result<Json, String>) -> Result<JsonView, Seq<char>> {
    match result {
        Ok(json) => Ok(json@),
        Err(message) => Err(message@),
    }
}

/// The kind of an event with this payload.
pub fn event_kind(event: &SseEvent, payload: &Json) -> (kind: String)
    ensures
        kind@ == kind_of(event@, payload@),
{
    match payload.str_at("type") {
        Some(kind) => kind.to_owned(),
        None => event.event.clone(),
    }
}

/// The kinds and payloads of events.
pub fn read_payloads(events: &Vec<SseEvent>) -> (payloads: Vec<(String, Json)>)
    ensures
        payload_views(payloads@) == payloads_of(event_views(events@)),
{
    let mut payloads: Vec<(String, Json)> = Vec::new();
    let mut i: usize = 0;
    assert(event_views(events@).take(0) =~= Seq::<EventView>::empty());
    assert(payload_views(payloads@) =~= Seq::<(Seq<char>, JsonView)>::empty());
    while i < events.len()
        invariant
            i <= events@.len(),
            payload_views(payloads@) == payloads_of(event_views(events@).take(i as int)),
        decreases events@.len() - i,
    {
        let event = &events[i];
        proof {
            let next = event_views(events@).take(i + 1);
            assert(next.drop_last() =~= event_views(events@).take(i as int));
            assert(next.last() == event@);
        }
        if !event.data.as_str().is_empty() && !text_eq(event.data.as_str(), "[DONE]") {
            if let Ok(payload) = parse_json(event.data.as_str()) {
                let ghost before = payloads@;
                let kind = event_kind(event, &payload);
                payloads.push((kind, payload));
                assert(payload_views(payloads@) =~= payload_views(before).push(
                    (kind@, payload@),
                ));
            }
        }
        i = i + 1;
    }
    assert(event_views(events@).take(events@.len() as int) =~= event_views(events@));
    payloads
}

/// An index that a payload gives, or `default`.
fn index_at(payload: &Json, key: &str, default: u64) -> (index: usize)
    ensures
        index == index_of(payload@, key@, default),
{
    let n = match payload.u64_at(key) {
        Some(n) => n,
        None => default,
    };
    n as usize
}

/// Makes `values` longer than `index` with nulls.
fn pad(values: &mut Vec<Json>, index: usize)
    requires
        index < usize::MAX,
    ensures
        items_view(final(values)@) == padded(items_view(old(values)@), index + 1),
        final(values)@.len() > index,
{
    let ghost start = items_view(values@);
    while values.len() <= index
        invariant
            start == items_view(old(values)@),
            index < usize::MAX,
            values@.len() <= index + 1 || values@ == old(values)@,
            items_view(values@) == padded(start, values@.len() as int),
        decreases index + 1 - values@.len(),
    {
        let ghost before = values@;
        values.push(Json::Null);
        proof {
            lemma_items_push(before, Json::Null);
            assert(items_view(values@) =~= padded(start, values@.len() as int));
        }
    }
}

/// Puts `value` at `index`; what is missing before it is null.
pub fn set_index(values: &mut Vec<Json>, index: usize, value: Json)
    requires
        index < usize::MAX,
    ensures
        items_view(final(values)@) == with_item_at(items_view(old(values)@), index as int, value@),
{
    pad(values, index);
    let ghost before = values@;
    values.set(index, value);
    assert(items_view(values@) =~= items_view(before).update(index as int, value@));
}

/// A copy of the item at `index`; null beyond the end.
fn copy_at(values: &Vec<Json>, index: usize) -> (item: Json)
    ensures
        item@ == item_at(items_view(values@), index as int),
{
    if index < values.len() {
        values[index].clone()
    } else {
        Json::Null
    }
}

/// The item that a text is added to: what is there, or a new message.
pub fn ensure_message(output: &Vec<Json>, index: usize) -> (message: Json)
    ensures
        message@ == message_at(items_view(output@), index as int),
{
    match copy_at(output, index) {
        Json::Null => {
            let mut map = JsonMap::new();
            map.insert("type", Json::text("message"));
            map.insert("role", Json::text("assistant"));
            let none: Vec<Json> = Vec::new();
            assert(items_view(none@) =~= Seq::<JsonView>::empty());
            map.insert("content", Json::Array(none));
            Json::Object(map)
        },
        item => item,
    }
}

/// The item that arguments are added to: what is there, or a new function call.
fn ensure_call(output: &Vec<Json>, index: usize) -> (call: Json)
    ensures
        call@ == call_at(items_view(output@), index as int),
{
    match copy_at(output, index) {
        Json::Null => {
            let mut map = JsonMap::new();
            map.insert("type", Json::text("function_call"));
            map.insert("arguments", Json::text(""));
            proof {
                reveal_strlit("");
                assert(""@ =~= Seq::<char>::empty());
            }
            Json::Object(map)
        },
        item => item,
    }
}

/// The fields of a document; none if it is no object.
fn fields_of(json: Json) -> (map: JsonMap)
    ensures
        map@ == or_default(json@.object(), no_fields()),
{
    match json {
        Json::Object(map) => map,
        _ => JsonMap::new(),
    }
}

/// The text of a field with `delta` at its end.
fn text_with_delta(json: &Json, key: &str, delta: &str) -> (text: String)
    ensures
        text@ == or_default(json@.str_at(key@), Seq::empty()) + delta@,
{
    let mut text = match json.str_at(key) {
        Some(text) => text.to_owned(),
        None => String::new(),
    };
    text.append(delta);
    text
}

/// A message with `delta` at the end of the text of its part `ci`.
fn add_text(message: Json, ci: usize, delta: &str) -> (result: Json)
    requires
        ci < usize::MAX,
    ensures
        result@ == message_with_delta(message@, ci as int, delta@),
{
    let mut parts: Vec<Json> = match message.array_at("content") {
        Some(parts) => copy_items(parts),
        None => Vec::new(),
    };
    let ghost start = items_view(parts@);
    assert(start =~= message@.items_at("content"@));
    while parts.len() <= ci
        invariant
            ci < usize::MAX,
            parts@.len() <= ci + 1 || items_view(parts@) == start,
            items_view(parts@) == padded_parts(start, parts@.len() as int),
        decreases ci + 1 - parts@.len(),
    {
        let mut map = JsonMap::new();
        map.insert("type", Json::text("output_text"));
        map.insert("text", Json::text(""));
        proof {
            reveal_strlit("");
            assert(""@ =~= Seq::<char>::empty());
        }
        let ghost before = parts@;
        parts.push(Json::Object(map));
        proof {
            lemma_items_push(before, Json::Object(map));
            assert(items_view(parts@) =~= padded_parts(start, parts@.len() as int));
        }
    }
    assert(items_view(parts@) == padded_parts(start, ci + 1));
    let text = text_with_delta(&parts[ci], "text", delta);
    let mut part = fields_of(parts[ci].clone());
    part.insert("text", Json::String(text));
    let ghost before = parts@;
    parts.set(ci, Json::Object(part));
    assert(items_view(parts@) =~= items_view(before).update(ci as int, Json::Object(part)@));
    let mut map = fields_of(message);
    map.insert("content", Json::Array(parts));
    Json::Object(map)
}

/// A function call with `delta` at the end of its arguments.
fn add_arguments(call: Json, delta: &str) -> (result: Json)
    ensures
        result@ == call_with_delta(call@, delta@),
{
    let text = text_with_delta(&call, "arguments", delta);
    let mut map = fields_of(call);
    map.insert("arguments", Json::String(text));
    Json::Object(map)
}

/// The delta of a payload.
fn payload_delta(payload: &Json) -> (delta: &str)
    ensures
        delta@ == delta_of(payload@),
{
    match payload.str_at("delta") {
        Some(delta) => delta,
        None => {
            proof {
                reveal_strlit("");
                assert(""@ =~= Seq::<char>::empty());
            }
            ""
        },
    }
}

/// Whether an event of this kind fits the output so far.
fn event_fits(output: &Vec<Json>, kind: &str, payload: &Json) -> (result: bool)
    ensures
        result == fits(items_view(output@), kind@, payload@),
{
    if text_eq(kind, "response.output_item.added") {
        payload.get("item").is_none() || index_at(payload, "output_index", output.len() as u64)
            < usize::MAX
    } else if text_eq(kind, "response.output_item.done") {
        payload.get("item").is_none() || index_at(payload, "output_index", 0) < usize::MAX
    } else if text_eq(kind, "response.output_text.delta") {
        let oi = index_at(payload, "output_index", 0);
        let ci = index_at(payload, "content_index", 0);
        if oi == usize::MAX || ci == usize::MAX {
            return false;
        }
        let message = ensure_message(output, oi);
        if message.as_object().is_none() {
            return false;
        }
        match message.get("content") {
            None => true,
            Some(Json::Array(parts)) => if ci < parts.len() {
                parts[ci].as_object().is_some()
            } else {
                true
            },
            Some(_) => false,
        }
    } else if text_eq(kind, "response.function_call_arguments.delta") {
        let oi = index_at(payload, "output_index", 0);
        oi < usize::MAX && ensure_call(output, oi).as_object().is_some()
    } else {
        true
    }
}

/// Adds what an event of this kind gives to the output.
fn step_output(output: &mut Vec<Json>, kind: &str, payload: &Json)
    requires
        fits(items_view(old(output)@), kind@, payload@),
    ensures
        items_view(final(output)@) == output_step(items_view(old(output)@), kind@, payload@),
{
    if text_eq(kind, "response.output_item.added") {
        if let Some(item) = payload.get("item") {
            let index = index_at(payload, "output_index", output.len() as u64);
            set_index(output, index, item.clone());
        }
    } else if text_eq(kind, "response.output_item.done") {
        if let Some(item) = payload.get("item") {
            let index = index_at(payload, "output_index", 0);
            set_index(output, index, item.clone());
        }
    } else if text_eq(kind, "response.output_text.delta") {
        let oi = index_at(payload, "output_index", 0);
        let ci = index_at(payload, "content_index", 0);
        let message = add_text(ensure_message(output, oi), ci, payload_delta(payload));
        set_index(output, oi, message);
    } else if text_eq(kind, "response.function_call_arguments.delta") {
        let oi = index_at(payload, "output_index", 0);
        let call = add_arguments(ensure_call(output, oi), payload_delta(payload));
        set_index(output, oi, call);
    }
}

/// The answer that the collected response and output make up.
fn finish_response(mut response: JsonMap, output: Vec<Json>) -> (json: Json)
    ensures
        json@ == collected_response(
            CollectView { response: response@, output: items_view(output@) },
        ),
{
    let own = match response.get("output") {
        Some(Json::Array(items)) => items.len() > 0,
        _ => false,
    };
    if !own {
        let ghost whole = output@;
        let mut kept: Vec<Json> = Vec::new();
        proof {
            lemma_items_whole(whole);
            assert(items_view(kept@) =~= Seq::<JsonView>::empty());
        }
        for item in it: output
            invariant
                it.seq() == whole,
                items_view(kept@) == without_nulls(items_view(whole).take(it.index() as int)),
        {
            proof {
                lemma_items_take(whole, it.index() as int);
            }
            if !item.is_null() {
                let ghost before = kept@;
                kept.push(item);
                proof {
                    lemma_items_push(before, item);
                }
            }
        }
        response.insert("output", Json::Array(kept));
    }
    Json::Object(response)
}

proof fn lemma_collect_prefix(payloads: Seq<(Seq<char>, JsonView)>, i: int)
    requires
        0 <= i <= payloads.len(),
    ensures
        collect_after(payloads.take(i)) matches Err(message) ==> collect_after(payloads) == Err::<
            CollectView,
            Seq<char>,
        >(message),
        collectable(payloads) ==> collectable(payloads.take(i)),
        collectable(payloads.take(i)) && collect_after(payloads.take(i)) is Err ==> collectable(
            payloads,
        ),
    decreases payloads.len(),
{
    if i < payloads.len() {
        let short = payloads.drop_last();
        lemma_collect_prefix(short, i);
        assert(short.take(i) =~= payloads.take(i));
    } else {
        assert(payloads.take(i) =~= payloads);
    }
}

/// The answer that events make up, or the message of a failure; nothing if one does not fit what
/// those before it have given.
fn collect(payloads: &Vec<(String, Json)>) -> (result: Option<Result<Json, String>>)
    ensures
        result is Some == collectable(payload_views(payloads@)),
        result matches Some(outcome) ==> outcome_view(outcome) == collected(
            payload_views(payloads@),
        ),
{
    let ghost all = payload_views(payloads@);
    let mut response = JsonMap::new();
    let mut output: Vec<Json> = Vec::new();
    let mut i: usize = 0;
    proof {
        assert(all.take(0) =~= Seq::<(Seq<char>, JsonView)>::empty());
        assert(items_view(output@) =~= Seq::<JsonView>::empty());
    }
    while i < payloads.len()
        invariant
            i <= payloads@.len(),
            all == payload_views(payloads@),
            collectable(all.take(i as int)),
            collect_after(all.take(i as int)) == Ok::<CollectView, Seq<char>>(
                CollectView { response: response@, output: items_view(output@) },
            ),
        decreases payloads@.len() - i,
    {
        let kind = payloads[i].0.as_str();
        let payload = &payloads[i].1;
        proof {
            let next = all.take(i + 1);
            assert(next.drop_last() =~= all.take(i as int));
            assert(next.last() == (kind@, payload@));
            lemma_collect_prefix(all, i + 1);
        }
        if !event_fits(&output, kind, payload) {
            return None;
        }
        if text_eq(kind, "response.failed") {
            let message = match payload.str_at2("error", "message") {
                Some(message) => message,
                None => "Upstream response failed",
            };
            return Some(Err(message.to_owned()));
        }
        if let Some(Json::Object(fields)) = payload.get("response") {
            response.extend(fields.clone());
        }
        step_output(&mut output, kind, payload);
        i = i + 1;
    }
    assert(all.take(payloads@.len() as int) =~= all);
    Some(Ok(finish_response(response, output)))
}

/// The answer that events, given by their kinds and payloads, make up, or the message of a failure.
pub fn collect_payloads(payloads: &Vec<(String, Json)>) -> (result: Result<Json, String>)
    requires
        collectable(payload_views(payloads@)),
    ensures
        outcome_view(result) == collected(payload_views(payloads@)),
{
    match collect(payloads) {
        Some(outcome) => outcome,
        None => unreached(),
    }
}

/// The answer that the events of a stream make up, or the message of a failure.
pub fn collect_responses_events(events: Vec<SseEvent>) -> (result: Result<Json, String>)
    requires
        collectable(payloads_of(event_views(events@))),
    ensures
        outcome_view(result) == collected(payloads_of(event_views(events@))),
{
    collect_payloads(&read_payloads(&events))
}

/// The answer that the events of a stream make up, or the message of a failure; nothing if an event
/// does not fit what those before it have given.
pub fn try_collect_responses_events(events: Vec<SseEvent>) -> (result: Option<
    Result<Json, String>,
>)
    ensures
        result is Some == collectable(payloads_of(event_views(events@))),
        result matches Some(outcome) ==> outcome_view(outcome) == collected(
            payloads_of(event_views(events@)),
        ),
{
    let payloads = read_payloads(&events);
    if collect(&payloads).is_none() {
        return None;
    }
    Some(collect_responses_events(events))
}

/// Token counts as chat completions have them.
pub open spec fn usage_view(usage: Option<JsonView>) -> JsonView {
    match usage {
        None => JsonView::Null,
        Some(usage) => {
            let prompt = tokens_of(usage, "input_tokens"@, "prompt_tokens"@);
            let completion = tokens_of(usage, "output_tokens"@, "completion_tokens"@);
            JsonView::Object(
                no_fields().insert("prompt_tokens"@, json_u64(prompt)).insert(
                    "completion_tokens"@,
                    json_u64(completion),
                ).insert(
                    "total_tokens"@,
                    json_u64(
                        or_default(usage.u64_at("total_tokens"@), prompt.wrapping_add(completion)),
                    ),
                ),
            )
        },
    }
}

/// The count in the field `key`, or else in the field `other`.
pub open spec fn tokens_of(usage: JsonView, key: Seq<char>, other: Seq<char>) -> u64 {
    match or_view(usage.get(key), usage.get(other)) {
        Some(count) => or_default(count.u64(), 0),
        None => 0,
    }
}

/// The count in the field `key`, or else in the field `other`.
fn tokens_at(usage: &Json, key: &str, other: &str) -> (count: u64)
    ensures
        count == tokens_of(usage@, key@, other@),
{
    let found = match usage.get(key) {
        Some(count) => Some(count),
        None => usage.get(other),
    };
    match found {
        Some(count) => match count.as_u64() {
            Some(n) => n,
            None => 0,
        },
        None => 0,
    }
}

/// Token counts as chat completions have them. A missing total is the sum of the two counts, modulo
/// 2^64.
pub fn chat_usage(usage: Option<&Json>) -> (json: Json)
    ensures
        json@ == usage_view(opt_view(usage)),
{
    let usage = match usage {
        Some(usage) => usage,
        None => {
            return Json::Null;
        },
    };
    let prompt = tokens_at(usage, "input_tokens", "prompt_tokens");
    let completion = tokens_at(usage, "output_tokens", "completion_tokens");
    let total = match usage.u64_at("total_tokens") {
        Some(total) => total,
        None => prompt.wrapping_add(completion),
    };
    let mut map = JsonMap::new();
    map.insert("prompt_tokens", Json::count(prompt));
    map.insert("completion_tokens", Json::count(completion));
    map.insert("total_tokens", Json::count(total));
    Json::Object(map)
}

/// What the output of an answer gives for a chat: the text, the tool calls, and how many of them
/// had to be given an identifier.
pub struct ReplyView {
    pub content: Seq<char>,
    pub calls: Seq<JsonView>,
    pub named: nat,
}

/// The text of a part of a message; a part of another kind has none.
pub open spec fn part_text(part: JsonView) -> Seq<char> {
    if part.str_at("type"@) == Some("output_text"@) || part.str_at("type"@) == Some("text"@) {
        or_default(part.str_at("text"@), Seq::empty())
    } else {
        Seq::empty()
    }
}

/// The texts of parts, one after the other.
pub open spec fn parts_text(parts: Seq<JsonView>) -> Seq<char>
    decreases parts.len(),
{
    if parts.len() == 0 {
        Seq::empty()
    } else {
        parts_text(parts.drop_last()) + part_text(parts.last())
    }
}

/// The identifier of a function call in an answer.
pub open spec fn call_id(item: JsonView) -> Option<JsonView> {
    or_view(item.get("call_id"@), item.get("id"@))
}

/// A function call as chat completions have it.
pub open spec fn tool_call(item: JsonView, id: JsonView) -> JsonView {
    JsonView::Object(
        no_fields().insert("id"@, id).insert("type"@, json_str("function"@)).insert(
            "function"@,
            JsonView::Object(
                no_fields().insert(
                    "name"@,
                    or_default(item.get("name"@), json_str(Seq::empty())),
                ).insert("arguments"@, or_default(item.get("arguments"@), json_str("{}"@))),
            ),
        ),
    )
}

/// What an answer gives for a chat after one more item. A call without an identifier is given the
/// next of `ids`.
pub open spec fn reply_step(reply: ReplyView, item: JsonView, ids: Seq<Seq<char>>) -> ReplyView {
    if item.str_at("type"@) == Some("message"@) {
        ReplyView { content: reply.content + parts_text(item.items_at("content"@)), ..reply }
    } else if item.str_at("type"@) == Some("function_call"@) {
        match call_id(item) {
            Some(id) => ReplyView { calls: reply.calls.push(tool_call(item, id)), ..reply },
            None => ReplyView {
                calls: reply.calls.push(tool_call(item, json_str(ids[reply.named as int]))),
                named: reply.named + 1,
                ..reply
            },
        }
    } else {
        reply
    }
}

/// What the items of an answer give for a chat.
pub open spec fn reply_after(items: Seq<JsonView>, ids: Seq<Seq<char>>) -> ReplyView
    decreases items.len(),
{
    if items.len() == 0 {
        ReplyView { content: Seq::empty(), calls: Seq::empty(), named: 0 }
    } else {
        reply_step(reply_after(items.drop_last(), ids), items.last(), ids)
    }
}

/// How many function calls of an answer have no identifier.
pub open spec fn unnamed_items(items: Seq<JsonView>) -> nat
    decreases items.len(),
{
    if items.len() == 0 {
        0
    } else {
        let before = unnamed_items(items.drop_last());
        if items.last().str_at("type"@) == Some("function_call"@) && call_id(items.last()) is None {
            before + 1
        } else {
            before
        }
    }
}

/// The message of the assistant that a reply is.
pub open spec fn reply_message(reply: ReplyView) -> JsonView {
    let base = no_fields().insert("role"@, json_str("assistant"@)).insert(
        "content"@,
        if reply.calls.len() > 0 && reply.content.len() == 0 {
            JsonView::Null
        } else {
            json_str(reply.content)
        },
    );
    JsonView::Object(
        if reply.calls.len() > 0 {
            base.insert("tool_calls"@, JsonView::Array(reply.calls))
        } else {
            base
        },
    )
}

/// The chat completion that an answer is: `ids` and `id` stand for identifiers that it does not
/// have, and `created` is the time in seconds.
pub open spec fn chat_view(
    response: JsonView,
    model: Seq<char>,
    ids: Seq<Seq<char>>,
    id: Seq<char>,
    created: i64,
) -> JsonView {
    let reply = reply_after(response.items_at("output"@), ids);
    let choice = JsonView::Object(
        no_fields().insert("index"@, json_u64(0)).insert("message"@, reply_message(reply)).insert(
            "finish_reason"@,
            json_str(
                if reply.calls.len() > 0 {
                    "tool_calls"@
                } else {
                    "stop"@
                },
            ),
        ),
    );
    JsonView::Object(
        no_fields().insert("id"@, or_default(response.get("id"@), json_str(id))).insert(
            "object"@,
            json_str("chat.completion"@),
        ).insert("created"@, json_i64(created)).insert(
            "model"@,
            or_default(response.get("model"@), json_str(model)),
        ).insert("choices"@, JsonView::Array(seq![choice])).insert(
            "usage"@,
            usage_view(response.get("usage"@)),
        ),
    )
}

proof fn lemma_reply_named(items: Seq<JsonView>, ids: Seq<Seq<char>>)
    ensures
        reply_after(items, ids).named == unnamed_items(items),
    decreases items.len(),
{
    if items.len() > 0 {
        lemma_reply_named(items.drop_last(), ids);
        reveal_strlit("message");
        reveal_strlit("function_call");
        assert("message"@.len() != "function_call"@.len());
    }
}

proof fn lemma_unnamed_items_take(items: Seq<JsonView>, i: int)
    requires
        0 <= i <= items.len(),
    ensures
        unnamed_items(items.take(i)) <= unnamed_items(items),
    decreases items.len(),
{
    if i < items.len() {
        lemma_unnamed_items_take(items.drop_last(), i);
        assert(items.drop_last().take(i) =~= items.take(i));
    } else {
        assert(items.take(i) =~= items);
    }
}

/// Adds the texts of parts to `content`.
fn add_parts(content: &mut String, parts: &Vec<Json>)
    ensures
        final(content)@ == old(content)@ + parts_text(items_view(parts@)),
{
    let ghost start = content@;
    let mut i: usize = 0;
    proof {
        lemma_items_whole(parts@);
        assert(start + Seq::<char>::empty() =~= start);
    }
    while i < parts.len()
        invariant
            i <= parts@.len(),
            content@ == start + parts_text(items_view(parts@).take(i as int)),
        decreases parts@.len() - i,
    {
        proof {
            lemma_items_take(parts@, i as int);
        }
        let ghost before = content@;
        if str_at_is(&parts[i], "type", "output_text") || str_at_is(&parts[i], "type", "text") {
            if let Some(text) = parts[i].str_at("text") {
                content.append(text);
            }
        }
        assert(content@ =~= before + part_text(parts@[i as int]@));
        i = i + 1;
        assert(content@ =~= start + parts_text(items_view(parts@).take(i as int)));
    }
}

/// A function call as chat completions have it.
fn tool_call_json(item: &Json, id: Json) -> (call: Json)
    ensures
        call@ == tool_call(item@, id@),
{
    let mut function = JsonMap::new();
    proof {
        reveal_strlit("");
        assert(""@ =~= Seq::<char>::empty());
    }
    function.insert("name", copy_or(item.get("name"), Json::text("")));
    function.insert("arguments", copy_or(item.get("arguments"), Json::text("{}")));
    let mut map = JsonMap::new();
    map.insert("id", id);
    map.insert("type", Json::text("function"));
    map.insert("function", Json::Object(function));
    Json::Object(map)
}

/// What an answer gives for a chat.
struct Reply {
    content: String,
    calls: Vec<Json>,
    named: usize,
}

impl Reply {
    spec fn view(&self) -> ReplyView {
        ReplyView {
            content: self.content@,
            calls: items_view(self.calls@),
            named: self.named as nat,
        }
    }
}

/// What the items of an answer give for a chat.
fn read_reply(items: &Vec<Json>, ids: &Vec<String>) -> (reply: Reply)
    requires
        unnamed_items(items_view(items@)) <= ids@.len(),
    ensures
        reply@ == reply_after(items_view(items@), texts(ids@)),
{
    let ghost all = items_view(items@);
    let total = ids.len();
    let mut reply = Reply { content: String::new(), calls: Vec::new(), named: 0 };
    let mut i: usize = 0;
    proof {
        lemma_items_whole(items@);
        assert(items_view(reply.calls@) =~= Seq::<JsonView>::empty());
        assert(reply.content@ =~= Seq::<char>::empty());
    }
    while i < items.len()
        invariant
            i <= items@.len(),
            all == items_view(items@),
            total == ids@.len(),
            unnamed_items(all) <= ids@.len(),
            reply@ == reply_after(all.take(i as int), texts(ids@)),
        decreases items@.len() - i,
    {
        proof {
            lemma_items_take(items@, i as int);
            lemma_reply_named(all.take(i as int), texts(ids@));
            lemma_unnamed_items_take(all, i + 1);
        }
        let item = &items[i];
        if str_at_is(item, "type", "message") {
            let ghost before = reply.content@;
            assert(before + Seq::<char>::empty() =~= before);
            if let Some(parts) = item.array_at("content") {
                add_parts(&mut reply.content, parts);
            }
        } else if str_at_is(item, "type", "function_call") {
            let found = match item.get("call_id") {
                Some(id) => Some(id),
                None => item.get("id"),
            };
            let id = match found {
                Some(id) => id.clone(),
                None => {
                    let id = Json::text(ids[reply.named].as_str());
                    reply.named = reply.named + 1;
                    id
                },
            };
            let call = tool_call_json(item, id);
            let ghost before = reply.calls@;
            reply.calls.push(call);
            proof {
                lemma_items_push(before, call);
            }
        }
        i = i + 1;
    }
    reply
}

/// The chat completion that an answer is. An identifier that the answer does not have is the next of
/// `ids` for a call, and `id` for the answer itself; `created` is the time in seconds.
pub fn response_to_chat_with(
    response: &Json,
    requested_model: &str,
    ids: &Vec<String>,
    id: &str,
    created: i64,
) -> (chat: Json)
    requires
        unnamed_items(response@.items_at("output"@)) <= ids@.len(),
    ensures
        chat@ == chat_view(response@, requested_model@, texts(ids@), id@, created),
{
    let none: Vec<Json> = Vec::new();
    assert(items_view(none@) =~= Seq::<JsonView>::empty());
    let reply = read_reply(
        match response.array_at("output") {
            Some(items) => items,
            None => &none,
        },
        ids,
    );
    let has_calls = reply.calls.len() > 0;
    let mut message = JsonMap::new();
    message.insert("role", Json::text("assistant"));
    message.insert(
        "content",
        if has_calls && reply.content.as_str().is_empty() {
            Json::Null
        } else {
            Json::String(reply.content)
        },
    );
    if has_calls {
        message.insert("tool_calls", Json::Array(reply.calls));
    }
    let mut choice = JsonMap::new();
    choice.insert("index", Json::count(0));
    choice.insert("message", Json::Object(message));
    choice.insert(
        "finish_reason",
        Json::text(
            if has_calls {
                "tool_calls"
            } else {
                "stop"
            },
        ),
    );
    let ghost choice_json = Json::Object(choice);
    let mut choices: Vec<Json> = Vec::new();
    choices.push(Json::Object(choice));
    assert(items_view(choices@) =~= seq![choice_json@]);
    let mut map = JsonMap::new();
    map.insert("id", copy_or(response.get("id"), Json::text(id)));
    map.insert("object", Json::text("chat.completion"));
    map.insert("created", Json::integer(created));
    map.insert("model", copy_or(response.get("model"), Json::text(requested_model)));
    map.insert("choices", Json::Array(choices));
    map.insert("usage", chat_usage(response.get("usage")));
    Json::Object(map)
}

/// Random identifiers for the function calls of an answer that have none.
fn item_ids(items: &Vec<Json>) -> (ids: Vec<String>)
    ensures
        ids@.len() == unnamed_items(items_view(items@)),
        random_ids(texts(ids@), "call"@),
{
    let ghost all = items_view(items@);
    let mut ids: Vec<String> = Vec::new();
    let mut i: usize = 0;
    proof {
        lemma_items_whole(items@);
    }
    while i < items.len()
        invariant
            i <= items@.len(),
            all == items_view(items@),
            ids@.len() == unnamed_items(all.take(i as int)),
            random_ids(texts(ids@), "call"@),
        decreases items@.len() - i,
    {
        proof {
            lemma_items_take(items@, i as int);
        }
        let item = &items[i];
        if str_at_is(item, "type", "function_call") && item.get("call_id").is_none() && item.get(
            "id",
        ).is_none() {
            let ghost held = ids@;
            let id = random_id("call");
            ids.push(id);
            assert(texts(ids@) =~= texts(held).push(id@));
        }
        i = i + 1;
    }
    ids
}

/// The chat completion that an answer is, made now. Identifiers that the answer does not have are
/// random.
pub fn response_to_chat(response: &Json, requested_model: &str) -> (chat: Json)
    ensures
        exists|ids: Seq<Seq<char>>, id: Seq<char>, created: i64|
            {
                &&& ids.len() == unnamed_items(response@.items_at("output"@))
                &&& random_ids(ids, "call"@)
                &&& is_random_id(id, "chatcmpl"@)
                &&& created >= 0
                &&& chat@ == #[trigger] chat_view(response@, requested_model@, ids, id, created)
            },
{
    let none: Vec<Json> = Vec::new();
    assert(items_view(none@) =~= Seq::<JsonView>::empty());
    let ids = item_ids(
        match response.array_at("output") {
            Some(items) => items,
            None => &none,
        },
    );
    let id = random_id("chatcmpl");
    let created = current_time();
    response_to_chat_with(response, requested_model, &ids, id.as_str(), created.secs)
}

/// A failure ends an answer: whatever follows, its message is the outcome.
pub proof fn law_failure_ends_the_answer(
    before: Seq<(Seq<char>, JsonView)>,
    payload: JsonView,
    after: Seq<(Seq<char>, JsonView)>,
)
    requires
        collect_after(before) is Ok,
    ensures
        collected(before.push(("response.failed"@, payload)) + after) == Err::<JsonView, Seq<char>>(
            failure_message(payload),
        ),
{
    let first = before.push(("response.failed"@, payload));
    assert(first.drop_last() =~= before);
    assert((first + after).take(first.len() as int) =~= first);
    lemma_collect_prefix(first + after, first.len() as int);
}

/// The text of the part `ci` of the item `oi` of an output.
pub open spec fn text_at(output: Seq<JsonView>, oi: int, ci: int) -> Seq<char> {
    if ci < item_at(output, oi).items_at("content"@).len() {
        or_default(item_at(output, oi).items_at("content"@)[ci].str_at("text"@), Seq::empty())
    } else {
        Seq::empty()
    }
}

proof fn lemma_delta_kinds()
    ensures
        "response.output_text.delta"@ != "response.output_item.added"@,
        "response.output_text.delta"@ != "response.output_item.done"@,
        "response.output_text.delta"@ != "response.failed"@,
        "content"@ != "text"@,
        "text"@ != "type"@,
{
    reveal_strlit("response.output_text.delta");
    reveal_strlit("response.output_item.added");
    reveal_strlit("response.output_item.done");
    reveal_strlit("response.failed");
    reveal_strlit("content");
    reveal_strlit("text");
    reveal_strlit("type");
    assert("response.output_text.delta"@[16] != "response.output_item.added"@[16]);
    assert("response.output_text.delta"@.len() == 26);
    assert("response.output_item.done"@.len() == 25);
    assert("response.failed"@.len() == 15);
    assert("content"@.len() != "text"@.len());
    assert("text"@[1] != "type"@[1]);
}

/// A piece of text is added to the end of the text that it belongs to, and every other item stays
/// as it is.
pub proof fn law_text_is_appended(output: Seq<JsonView>, payload: JsonView)
    requires
        fits(output, "response.output_text.delta"@, payload),
    ensures
        ({
            let oi = index_of(payload, "output_index"@, 0) as int;
            let ci = index_of(payload, "content_index"@, 0) as int;
            let next = output_step(output, "response.output_text.delta"@, payload);
            &&& text_at(next, oi, ci) == text_at(output, oi, ci) + delta_of(payload)
            &&& forall|other: int|
                other >= 0 && other != oi ==> item_at(next, other) == item_at(output, other)
        }),
{
    lemma_delta_kinds();
    let oi = index_of(payload, "output_index"@, 0) as int;
    let ci = index_of(payload, "content_index"@, 0) as int;
    let next = output_step(output, "response.output_text.delta"@, payload);
    let message = message_at(output, oi);
    let parts = padded_parts(message.items_at("content"@), ci + 1);
    let changed = message_with_delta(message, ci, delta_of(payload));
    assert(item_at(next, oi) == changed);
    assert(changed.items_at("content"@) == parts.update(ci, part_with_delta(parts[ci], delta_of(payload))));
    assert(part_with_delta(parts[ci], delta_of(payload)).str_at("text"@) == Some(
        or_default(parts[ci].str_at("text"@), Seq::empty()) + delta_of(payload),
    ));
    if item_at(output, oi) is Null {
        assert(message.items_at("content"@) =~= Seq::<JsonView>::empty());
    }
    if ci < message.items_at("content"@).len() {
        assert(parts[ci] == message.items_at("content"@)[ci]);
    } else {
        assert(parts[ci] == empty_part());
        assert(empty_part().str_at("text"@) == Some(Seq::<char>::empty()));
    }
    assert(or_default(parts[ci].str_at("text"@), Seq::empty()) == text_at(output, oi, ci));
}

/// Texts, one after the other.
pub open spec fn concat(list: Seq<Seq<char>>) -> Seq<char>
    decreases list.len(),
{
    if list.len() == 0 {
        Seq::empty()
    } else {
        concat(list.drop_last()) + list.last()
    }
}

/// Whether a payload is a piece of the first text of the first item.
pub open spec fn first_text_piece(entry: (Seq<char>, JsonView)) -> bool {
    &&& entry.0 == "response.output_text.delta"@
    &&& index_of(entry.1, "output_index"@, 0) == 0
    &&& index_of(entry.1, "content_index"@, 0) == 0
    &&& !(entry.1.get("response"@) matches Some(JsonView::Object(_)))
}

/// The deltas of payloads.
pub open spec fn deltas(payloads: Seq<(Seq<char>, JsonView)>) -> Seq<Seq<char>> {
    payloads.map_values(|entry: (Seq<char>, JsonView)| delta_of(entry.1))
}

/// A message of the assistant with one text.
pub open spec fn text_message(text: Seq<char>) -> JsonView {
    JsonView::Object(
        no_fields().insert("type"@, json_str("message"@)).insert("role"@, json_str("assistant"@)).insert(
            "content"@,
            JsonView::Array(
                seq![
                    JsonView::Object(
                        no_fields().insert("type"@, json_str("output_text"@)).insert(
                            "text"@,
                            json_str(text),
                        ),
                    ),
                ],
            ),
        ),
    )
}

proof fn lemma_text_message_delta(text: Seq<char>, delta: Seq<char>)
    ensures
        message_with_delta(text_message(text), 0, delta) == text_message(text + delta),
        takes_text(text_message(text), 0),
        message_with_delta(empty_message(), 0, delta) == text_message(delta),
        takes_text(empty_message(), 0),
{
    lemma_delta_kinds();
    let part = JsonView::Object(
        no_fields().insert("type"@, json_str("output_text"@)).insert("text"@, json_str(text)),
    );
    let fields = text_message(text)->Object_0;
    assert(text_message(text).items_at("content"@) =~= seq![part]);
    let parts = padded_parts(text_message(text).items_at("content"@), 1);
    assert(parts =~= seq![part]);
    let longer = part_with_delta(part, delta);
    let target = JsonView::Object(
        no_fields().insert("type"@, json_str("output_text"@)).insert("text"@, json_str(text + delta)),
    );
    assert(longer->Object_0 =~= target->Object_0);
    assert(parts.update(0, longer) =~= seq![target]);
    assert(fields.insert("content"@, JsonView::Array(seq![target])) =~= text_message(
        text + delta,
    )->Object_0);

    let none = empty_message();
    assert(none.items_at("content"@) =~= Seq::<JsonView>::empty());
    let fresh = padded_parts(none.items_at("content"@), 1);
    assert(fresh =~= seq![empty_part()]);
    assert(Seq::<char>::empty() + delta =~= delta);
    let first = part_with_delta(empty_part(), delta);
    let goal = JsonView::Object(
        no_fields().insert("type"@, json_str("output_text"@)).insert("text"@, json_str(delta)),
    );
    assert(first->Object_0 =~= goal->Object_0);
    assert(fresh.update(0, first) =~= seq![goal]);
    assert(none->Object_0.insert("content"@, JsonView::Array(seq![goal])) =~= text_message(
        delta,
    )->Object_0);
}

proof fn lemma_text_stream(payloads: Seq<(Seq<char>, JsonView)>)
    requires
        payloads.len() > 0,
        forall|i: int| 0 <= i < payloads.len() ==> first_text_piece(#[trigger] payloads[i]),
    ensures
        collectable(payloads),
        collect_after(payloads) == Ok::<CollectView, Seq<char>>(
            CollectView {
                response: no_fields(),
                output: seq![text_message(concat(deltas(payloads)))],
            },
        ),
    decreases payloads.len(),
{
    lemma_delta_kinds();
    let before = payloads.drop_last();
    let entry = payloads[payloads.len() - 1];
    let delta = delta_of(entry.1);
    assert(first_text_piece(entry));
    assert(deltas(payloads).drop_last() =~= deltas(before));
    assert(deltas(payloads).last() == delta);
    if before.len() == 0 {
        assert(deltas(before) =~= Seq::<Seq<char>>::empty());
        assert(collectable(before));
        assert(collect_after(before) is Ok);
        assert(concat(deltas(before)) =~= Seq::<char>::empty());
        assert(concat(deltas(payloads)) =~= delta);
        lemma_text_message_delta(Seq::empty(), delta);
        let output = Seq::<JsonView>::empty();
        assert(with_item_at(output, 0, text_message(delta)) =~= seq![text_message(delta)]);
    } else {
        assert forall|i: int| 0 <= i < before.len() implies first_text_piece(#[trigger] before[i]) by {
            assert(first_text_piece(payloads[i]));
        }
        lemma_text_stream(before);
        let text = concat(deltas(before));
        lemma_text_message_delta(text, delta);
        let output = seq![text_message(text)];
        assert(message_at(output, 0) == text_message(text));
        assert(with_item_at(output, 0, text_message(text + delta)) =~= seq![
            text_message(text + delta),
        ]);
    }
}

/// A text that is sent in pieces comes out whole: the answer is one message with the pieces one
/// after the other.
pub proof fn law_text_pieces_come_out_whole(payloads: Seq<(Seq<char>, JsonView)>)
    requires
        payloads.len() > 0,
        forall|i: int| 0 <= i < payloads.len() ==> first_text_piece(#[trigger] payloads[i]),
    ensures
        collectable(payloads),
        collected(payloads) == Ok::<JsonView, Seq<char>>(
            JsonView::Object(
                no_fields().insert(
                    "output"@,
                    JsonView::Array(seq![text_message(concat(deltas(payloads)))]),
                ),
            ),
        ),
{
    lemma_text_stream(payloads);
    let output = seq![text_message(concat(deltas(payloads)))];
    assert(output.drop_last() =~= Seq::<JsonView>::empty());
    assert(without_nulls(output.drop_last()) =~= Seq::<JsonView>::empty());
    assert(without_nulls(output) =~= output);
}

pub(crate) proof fn lemma_chat_text(
    text: Seq<char>,
    model: Seq<char>,
    ids: Seq<Seq<char>>,
    id: Seq<char>,
    created: i64,
)
    ensures
        ({
            let answer = JsonView::Object(
                no_fields().insert("output"@, JsonView::Array(seq![text_message(text)])),
            );
            let chat = chat_view(answer, model, ids, id, created);
            chat.items_at("choices"@)[0].str_at2("message"@, "content"@) == Some(text)
        }),
{
    lemma_delta_kinds();
    reveal_strlit("choices");
    reveal_strlit("usage");
    reveal_strlit("finish_reason");
    reveal_strlit("message");
    reveal_strlit("tool_calls");
    reveal_strlit("role");
    reveal_strlit("content");
    reveal_strlit("type");
    assert("choices"@.len() != "usage"@.len());
    assert("finish_reason"@.len() != "message"@.len());
    assert("content"@.len() == 7 && "role"@.len() == 4 && "type"@.len() == 4);
    assert("type"@[0] != "role"@[0]);
    let items = seq![text_message(text)];
    let parts = text_message(text).items_at("content"@);
    assert(parts.len() == 1);
    let short = parts.drop_last();
    assert(short =~= Seq::<JsonView>::empty());
    assert(part_text(parts[0]) == text);
    assert(parts_text(short) == Seq::<char>::empty());
    assert(parts_text(parts) == parts_text(short) + part_text(parts.last()));
    assert(parts_text(parts) =~= text);
    let none = items.drop_last();
    assert(none =~= Seq::<JsonView>::empty());
    let reply = reply_after(items, ids);
    assert(reply == reply_step(reply_after(none, ids), text_message(text), ids));
    assert(reply.content =~= text);
    assert(reply.calls =~= Seq::<JsonView>::empty());
}

/// An item that is done stands in the output as it was sent, and every other item stays as it is.
pub proof fn law_done_item_is_placed(output: Seq<JsonView>, payload: JsonView, item: JsonView)
    requires
        payload.get("item"@) == Some(item),
    ensures
        ({
            let index = index_of(payload, "output_index"@, 0) as int;
            let next = output_step(output, "response.output_item.done"@, payload);
            &&& item_at(next, index) == item
            &&& forall|other: int|
                other >= 0 && other != index ==> item_at(next, other) == item_at(output, other)
        }),
{
    reveal_strlit("response.output_item.done");
    reveal_strlit("response.output_item.added");
    assert("response.output_item.done"@.len() != "response.output_item.added"@.len());
}

/// A chat completion has tool calls exactly if it says that they are why it ended.
pub proof fn law_finish_reason(
    response: JsonView,
    model: Seq<char>,
    ids: Seq<Seq<char>>,
    id: Seq<char>,
    created: i64,
)
    ensures
        ({
            let choice = chat_view(response, model, ids, id, created).items_at("choices"@)[0];
            choice.str_at("finish_reason"@) == Some("tool_calls"@) <==> choice.get2(
                "message"@,
                "tool_calls"@,
            ) is Some
        }),
{
    reveal_strlit("choices");
    reveal_strlit("usage");
    reveal_strlit("finish_reason");
    reveal_strlit("message");
    reveal_strlit("tool_calls");
    reveal_strlit("stop");
    reveal_strlit("role");
    reveal_strlit("content");
    assert("choices"@.len() != "usage"@.len());
    assert("finish_reason"@.len() != "message"@.len());
    assert("tool_calls"@.len() != "stop"@.len());
    assert("tool_calls"@.len() != "role"@.len());
    assert("tool_calls"@.len() != "content"@.len());
}

/// Whether an event has a response with the field `key`.
pub open spec fn has_response_field(payload: JsonView, key: Seq<char>) -> bool {
    payload.get2("response"@, key) is Some
}

proof fn lemma_response_fields(payloads: Seq<(Seq<char>, JsonView)>, key: Seq<char>, i: int)
    requires
        collect_after(payloads) is Ok,
    ensures
        0 <= i < payloads.len() && has_response_field(payloads[i].1, key) && (forall|k: int|
            i < k < payloads.len() ==> !has_response_field((#[trigger] payloads[k]).1, key))
            ==> field(collect_after(payloads)->Ok_0.response, key) == payloads[i].1.get2(
            "response"@,
            key,
        ),
        (forall|k: int|
            0 <= k < payloads.len() ==> !has_response_field((#[trigger] payloads[k]).1, key))
            ==> field(collect_after(payloads)->Ok_0.response, key) is None,
    decreases payloads.len(),
{
    if payloads.len() > 0 {
        let short = payloads.drop_last();
        let last = payloads[payloads.len() - 1];
        lemma_response_fields(short, key, i);
        assert(forall|k: int| 0 <= k < short.len() ==> short[k] == payloads[k]);
        if !has_response_field(last.1, key) {
            assert(field(collect_after(payloads)->Ok_0.response, key) == field(
                collect_after(short)->Ok_0.response,
                key,
            ));
            if forall|k: int|
                0 <= k < payloads.len() ==> !has_response_field((#[trigger] payloads[k]).1, key) {
                assert forall|k: int| 0 <= k < short.len() implies !has_response_field(
                    (#[trigger] short[k]).1,
                    key,
                ) by {
                    assert(!has_response_field(payloads[k].1, key));
                }
            }
            if 0 <= i < short.len() && (forall|k: int|
                i < k < payloads.len() ==> !has_response_field((#[trigger] payloads[k]).1, key)) {
                assert forall|k: int| i < k < short.len() implies !has_response_field(
                    (#[trigger] short[k]).1,
                    key,
                ) by {
                    assert(!has_response_field(payloads[k].1, key));
                }
            }
        } else {
            assert(field(collect_after(payloads)->Ok_0.response, key) == last.1.get2(
                "response"@,
                key,
            ));
        }
    }
}

/// Later news of a response replaces earlier news: every field of the answer but the output is what
/// the last event whose response has that field says, and a field that no event has is not there.
pub proof fn law_last_news_counts(
    payloads: Seq<(Seq<char>, JsonView)>,
    key: Seq<char>,
    i: int,
)
    requires
        collected(payloads) is Ok,
        key != "output"@,
    ensures
        0 <= i < payloads.len() && has_response_field(payloads[i].1, key) && (forall|k: int|
            i < k < payloads.len() ==> !has_response_field((#[trigger] payloads[k]).1, key))
            ==> collected(payloads)->Ok_0.get(key) == payloads[i].1.get2("response"@, key),
        (forall|k: int|
            0 <= k < payloads.len() ==> !has_response_field((#[trigger] payloads[k]).1, key))
            ==> collected(payloads)->Ok_0.get(key) is None,
{
    lemma_response_fields(payloads, key, i);
    let state = collect_after(payloads)->Ok_0;
    assert(collected_response(state).get(key) == field(state.response, key));
}

/// An answer that ends with its completed response has every field of that response as it was sent,
/// but for an output that is empty or no list, which what was collected takes the place of.
pub proof fn law_completed_response_stands(
    payloads: Seq<(Seq<char>, JsonView)>,
    key: Seq<char>,
)
    requires
        payloads.len() > 0,
        collected(payloads) is Ok,
        payloads.last().0 == "response.completed"@,
        has_response_field(payloads.last().1, key),
        key == "output"@ ==> payloads.last().1.get("response"@)->0.items_at(key).len() > 0,
    ensures
        collected(payloads)->Ok_0.get(key) == payloads.last().1.get2("response"@, key),
{
    lemma_response_fields(payloads, key, payloads.len() - 1);
    let state = collect_after(payloads)->Ok_0;
    if key != "output"@ {
        assert(collected_response(state).get(key) == field(state.response, key));
    }
}

/// The items of a list that are not null, by their places: `places` are in order, and lead to every
/// item that is not null.
pub open spec fn picks_items(
    items: Seq<JsonView>,
    picked: Seq<JsonView>,
    places: Seq<int>,
) -> bool {
    &&& places.len() == picked.len()
    &&& forall|i: int|
        #![trigger places[i]]
        0 <= i < places.len() ==> 0 <= places[i] < items.len() && picked[i] == items[places[i]]
            && !(picked[i] is Null)
    &&& forall|i: int, j: int|
        0 <= i < j < places.len() ==> (#[trigger] places[i]) < (#[trigger] places[j])
    &&& forall|k: int|
        0 <= k < items.len() && !((#[trigger] items[k]) is Null) ==> places.contains(k)
}

proof fn lemma_without_nulls(items: Seq<JsonView>) -> (places: Seq<int>)
    ensures
        picks_items(items, without_nulls(items), places),
    decreases items.len(),
{
    if items.len() == 0 {
        Seq::empty()
    } else {
        let short = items.drop_last();
        let places = lemma_without_nulls(short);
        if items.last() is Null {
            assert forall|k: int| 0 <= k < items.len() && !((#[trigger] items[k]) is Null) implies
                places.contains(k) by {
                assert(short[k] == items[k]);
            }
            places
        } else {
            let all = places.push(items.len() - 1);
            assert forall|k: int| 0 <= k < items.len() && !((#[trigger] items[k]) is Null) implies
                all.contains(k) by {
                if k < short.len() {
                    assert(short[k] == items[k]);
                    assert(places.contains(k));
                    let i = choose|i: int| 0 <= i < places.len() && places[i] == k;
                    assert(all[i] == k);
                } else {
                    assert(all[all.len() - 1] == k);
                }
            }
            all
        }
    }
}

/// Where no response has an output of its own, the output of the answer is the items that were
/// collected, in the order of their indexes and without the gaps.
pub proof fn law_collected_items_are_the_output(payloads: Seq<(Seq<char>, JsonView)>)
    requires
        collected(payloads) is Ok,
        forall|k: int|
            0 <= k < payloads.len() ==> !has_response_field((#[trigger] payloads[k]).1, "output"@),
    ensures
        collected(payloads)->Ok_0.get("output"@) matches Some(JsonView::Array(_)),
        exists|places: Seq<int>| #[trigger]
            picks_items(
                collect_after(payloads)->Ok_0.output,
                collected(payloads)->Ok_0.items_at("output"@),
                places,
            ),
{
    lemma_response_fields(payloads, "output"@, 0);
    let state = collect_after(payloads)->Ok_0;
    let places = lemma_without_nulls(state.output);
    assert(collected(payloads)->Ok_0.items_at("output"@) == without_nulls(state.output));
    assert(picks_items(state.output, collected(payloads)->Ok_0.items_at("output"@), places));
}

/// Whether `after` is `before` but for what stands at `at`: what is missing before it is null.
pub open spec fn differs_only_at(before: Seq<JsonView>, after: Seq<JsonView>, at: int) -> bool {
    &&& after.len() == if at < before.len() {
        before.len() as int
    } else {
        at + 1
    }
    &&& forall|k: int|
        0 <= k < after.len() && k != at ==> (#[trigger] after[k]) == if k < before.len() {
            before[k]
        } else {
            JsonView::Null
        }
}

proof fn lemma_collect_kinds()
    ensures
        "response.output_item.added"@ != "response.output_item.done"@,
        "response.output_item.added"@ != "response.output_text.delta"@,
        "response.output_item.added"@ != "response.function_call_arguments.delta"@,
        "response.output_item.added"@ != "response.failed"@,
        "response.output_item.done"@ != "response.output_text.delta"@,
        "response.output_item.done"@ != "response.function_call_arguments.delta"@,
        "response.output_item.done"@ != "response.failed"@,
        "response.output_text.delta"@ != "response.function_call_arguments.delta"@,
        "response.output_text.delta"@ != "response.failed"@,
        "response.function_call_arguments.delta"@ != "response.failed"@,
{
    reveal_strlit("response.output_item.added");
    reveal_strlit("response.output_item.done");
    reveal_strlit("response.output_text.delta");
    reveal_strlit("response.function_call_arguments.delta");
    reveal_strlit("response.failed");
    assert("response.output_item.added"@.len() == 26 && "response.output_item.done"@.len() == 25);
    assert("response.output_text.delta"@.len() == 26);
    assert("response.function_call_arguments.delta"@.len() == 38 && "response.failed"@.len() == 15);
    assert("response.output_item.added"@[16] != "response.output_text.delta"@[16]);
}

/// An item that is added, or done, stands at its output index as it was sent, and everything else
/// stays. An item that is added without an index comes behind all others.
pub proof fn law_items_stand_at_their_index(
    payloads: Seq<(Seq<char>, JsonView)>,
    kind: Seq<char>,
    payload: JsonView,
    item: JsonView,
    index: u64,
)
    requires
        collect_after(payloads) is Ok,
        kind == "response.output_item.added"@ || kind == "response.output_item.done"@,
        payload.get("item"@) == Some(item),
        index < usize::MAX,
        payload.u64_at("output_index"@) == Some(index) || (payload.u64_at("output_index"@) is None
            && index == if kind == "response.output_item.added"@ {
            collect_after(payloads)->Ok_0.output.len()
        } else {
            0
        }),
    ensures
        fits(collect_after(payloads)->Ok_0.output, kind, payload),
        ({
            let before = collect_after(payloads)->Ok_0.output;
            let after = collect_after(payloads.push((kind, payload)));
            &&& after is Ok
            &&& after->Ok_0.output.len() > index
            &&& after->Ok_0.output[index as int] == item
            &&& differs_only_at(before, after->Ok_0.output, index as int)
        }),
{
    lemma_collect_kinds();
    assert(payloads.push((kind, payload)).drop_last() =~= payloads);
}

/// A piece of arguments is added to the end of the arguments of the item at its output index, of
/// which nothing else changes; where there is no item, it begins a function call. Every other item
/// stays.
pub proof fn law_arguments_are_appended(
    payloads: Seq<(Seq<char>, JsonView)>,
    payload: JsonView,
    piece: Seq<char>,
    index: u64,
)
    requires
        collect_after(payloads) is Ok,
        payload.str_at("delta"@) == Some(piece),
        index < usize::MAX,
        payload.u64_at("output_index"@) == Some(index) || (payload.u64_at("output_index"@) is None
            && index == 0),
    ensures
        ({
            let output = collect_after(payloads)->Ok_0.output;
            fits(output, "response.function_call_arguments.delta"@, payload) <==> (index
                >= output.len() || output[index as int] is Null || output[index as int] is Object)
        }),
        ({
            let before = collect_after(payloads)->Ok_0.output;
            let after = collect_after(
                payloads.push(("response.function_call_arguments.delta"@, payload)),
            );
            let made = after->Ok_0.output[index as int];
            &&& after is Ok
            &&& differs_only_at(before, after->Ok_0.output, index as int)
            &&& index >= before.len() || before[index as int] is Null ==> {
                &&& made.str_at("type"@) == Some("function_call"@)
                &&& made.str_at("arguments"@) == Some(piece)
            }
            &&& index < before.len() && before[index as int] is Object ==> {
                &&& made.str_at("arguments"@) == Some(
                    match before[index as int].str_at("arguments"@) {
                        Some(arguments) => arguments + piece,
                        None => piece,
                    },
                )
                &&& forall|key: Seq<char>|
                    key != "arguments"@ ==> (#[trigger] made.get(key)) == before[index as int].get(
                        key,
                    )
            }
        }),
{
    lemma_collect_kinds();
    reveal_strlit("type");
    reveal_strlit("arguments");
    assert("type"@.len() == 4 && "arguments"@.len() == 9);
    let event = ("response.function_call_arguments.delta"@, payload);
    assert(payloads.push(event).drop_last() =~= payloads);
    assert(Seq::<char>::empty() + piece =~= piece);
}

/// A piece of text is added to the end of the text at its two indexes, of which nothing else changes;
/// where there is no item, it begins a message. Every other item, and every other part of this one,
/// stays.
pub proof fn law_text_grows_at_its_index(
    payloads: Seq<(Seq<char>, JsonView)>,
    payload: JsonView,
    piece: Seq<char>,
    index: u64,
    place: u64,
)
    requires
        collect_after(payloads) is Ok,
        payload.str_at("delta"@) == Some(piece),
        index < usize::MAX,
        place < usize::MAX,
        payload.u64_at("output_index"@) == Some(index) || (payload.u64_at("output_index"@) is None
            && index == 0),
        payload.u64_at("content_index"@) == Some(place) || (payload.u64_at("content_index"@) is None
            && place == 0),
        ({
            let output = collect_after(payloads)->Ok_0.output;
            let item = output[index as int];
            index < output.len() ==> item is Null || (item is Object && (item.get("content"@) is None
                || item.get("content"@)->0 is Array) && (place < item.items_at("content"@).len()
                ==> item.items_at("content"@)[place as int] is Object))
        }),
    ensures
        fits(collect_after(payloads)->Ok_0.output, "response.output_text.delta"@, payload),
        ({
            let before = collect_after(payloads)->Ok_0.output;
            let after = collect_after(payloads.push(("response.output_text.delta"@, payload)));
            let made = after->Ok_0.output[index as int];
            let parts = made.items_at("content"@);
            let held = index < before.len() && before[index as int] is Object;
            let old_parts = if held {
                before[index as int].items_at("content"@)
            } else {
                Seq::empty()
            };
            &&& after is Ok
            &&& differs_only_at(before, after->Ok_0.output, index as int)
            &&& !held ==> made.str_at("type"@) == Some("message"@) && made.str_at("role"@) == Some(
                "assistant"@,
            )
            &&& held ==> forall|key: Seq<char>|
                key != "content"@ ==> (#[trigger] made.get(key)) == before[index as int].get(key)
            &&& parts.len() > place
            &&& place < old_parts.len() ==> parts[place as int].str_at("text"@) == Some(
                match old_parts[place as int].str_at("text"@) {
                    Some(text) => text + piece,
                    None => piece,
                },
            )
            &&& place >= old_parts.len() ==> parts[place as int].str_at("text"@) == Some(piece)
                && parts[place as int].str_at("type"@) == Some("output_text"@)
            &&& forall|k: int|
                0 <= k < old_parts.len() && k != place ==> (#[trigger] parts[k]) == old_parts[k]
        }),
{
    lemma_collect_kinds();
    reveal_strlit("type");
    reveal_strlit("role");
    reveal_strlit("content");
    reveal_strlit("text");
    assert("type"@.len() == 4 && "role"@.len() == 4 && "content"@.len() == 7 && "text"@.len() == 4);
    assert("type"@[0] != "role"@[0]);
    assert("type"@[1] != "text"@[1]);
    assert("role"@[0] != "text"@[0]);
    let before = collect_after(payloads)->Ok_0.output;
    let event = ("response.output_text.delta"@, payload);
    assert(payloads.push(event).drop_last() =~= payloads);
    assert(Seq::<char>::empty() + piece =~= piece);
    let message = message_at(before, index as int);
    let filled = padded_parts(message.items_at("content"@), place + 1);
    let changed = message_with_delta(message, place as int, piece);
    assert(changed.items_at("content"@) == filled.update(
        place as int,
        part_with_delta(filled[place as int], piece),
    ));
    if item_at(before, index as int) is Null {
        assert(message.items_at("content"@) =~= Seq::<JsonView>::empty());
    }
    if place >= message.items_at("content"@).len() {
        assert(filled[place as int] == empty_part());
    }
}

/// An event of any other kind leaves the items as they are.
pub proof fn law_other_events_leave_the_items(
    payloads: Seq<(Seq<char>, JsonView)>,
    kind: Seq<char>,
    payload: JsonView,
)
    requires
        collect_after(payloads) is Ok,
        kind != "response.output_item.added"@,
        kind != "response.output_item.done"@,
        kind != "response.output_text.delta"@,
        kind != "response.function_call_arguments.delta"@,
        kind != "response.failed"@,
    ensures
        fits(collect_after(payloads)->Ok_0.output, kind, payload),
        collect_after(payloads.push((kind, payload))) is Ok,
        collect_after(payloads.push((kind, payload)))->Ok_0.output == collect_after(
            payloads,
        )->Ok_0.output,
{
    assert(payloads.push((kind, payload)).drop_last() =~= payloads);
}

/// The token counts of a chat completion are those of the response, under the names that chats have;
/// the total is the one that was sent, or else the sum.
pub proof fn law_tokens_are_carried_over(usage: JsonView, prompt: u64, completion: u64)
    requires
        usage.u64_at("input_tokens"@) == Some(prompt) || (usage.get("input_tokens"@) is None
            && usage.u64_at("prompt_tokens"@) == Some(prompt)) || (usage.get("input_tokens"@) is None
            && usage.get("prompt_tokens"@) is None && prompt == 0),
        usage.u64_at("output_tokens"@) == Some(completion) || (usage.get("output_tokens"@) is None
            && usage.u64_at("completion_tokens"@) == Some(completion)) || (usage.get(
            "output_tokens"@,
        ) is None && usage.get("completion_tokens"@) is None && completion == 0),
    ensures
        usage_view(None) is Null,
        ({
            let counts = usage_view(Some(usage));
            &&& counts.u64_at("prompt_tokens"@) == Some(prompt)
            &&& counts.u64_at("completion_tokens"@) == Some(completion)
            &&& usage.u64_at("total_tokens"@) is Some ==> counts.u64_at("total_tokens"@)
                == usage.u64_at("total_tokens"@)
            &&& usage.u64_at("total_tokens"@) is None && prompt + completion <= u64::MAX
                ==> counts.u64_at("total_tokens"@) == Some((prompt + completion) as u64)
        }),
{
    reveal_strlit("prompt_tokens");
    reveal_strlit("completion_tokens");
    reveal_strlit("total_tokens");
    reveal_strlit("input_tokens");
    reveal_strlit("output_tokens");
    assert("prompt_tokens"@.len() == 13 && "completion_tokens"@.len() == 17);
    assert("total_tokens"@.len() == 12 && "input_tokens"@.len() == 12);
    assert("output_tokens"@.len() == 13);
    assert("total_tokens"@[0] != "input_tokens"@[0]);
    assert("prompt_tokens"@[0] != "output_tokens"@[0]);
}

/// A chat completion has the identity of the answer, and what the caller gives only where the answer
/// says nothing; it has one choice.
pub proof fn law_completion_bears_the_identity(
    response: JsonView,
    model: Seq<char>,
    ids: Seq<Seq<char>>,
    id: Seq<char>,
    created: i64,
)
    ensures
        ({
            let chat = chat_view(response, model, ids, id, created);
            &&& response.get("id"@) is Some ==> chat.get("id"@) == response.get("id"@)
            &&& response.get("id"@) is None ==> chat.str_at("id"@) == Some(id)
            &&& response.get("model"@) is Some ==> chat.get("model"@) == response.get("model"@)
            &&& response.get("model"@) is None ==> chat.str_at("model"@) == Some(model)
            &&& chat.str_at("object"@) == Some("chat.completion"@)
            &&& chat.get("created"@) == Some(json_i64(created))
            &&& chat.items_at("choices"@).len() == 1
            &&& chat.items_at("choices"@)[0].get("index"@) == Some(json_u64(0))
            &&& chat.items_at("choices"@)[0].str_at2("message"@, "role"@) == Some("assistant"@)
            &&& chat.get("usage"@) == Some(usage_view(response.get("usage"@)))
        }),
{
    reveal_strlit("id");
    reveal_strlit("object");
    reveal_strlit("created");
    reveal_strlit("model");
    reveal_strlit("choices");
    reveal_strlit("usage");
    reveal_strlit("index");
    reveal_strlit("message");
    reveal_strlit("finish_reason");
    reveal_strlit("role");
    reveal_strlit("content");
    reveal_strlit("tool_calls");
    assert("id"@.len() == 2 && "object"@.len() == 6 && "created"@.len() == 7);
    assert("model"@.len() == 5 && "choices"@.len() == 7 && "usage"@.len() == 5);
    assert("index"@.len() == 5 && "message"@.len() == 7 && "finish_reason"@.len() == 13);
    assert("role"@.len() == 4 && "content"@.len() == 7 && "tool_calls"@.len() == 10);
    assert("model"@[0] != "usage"@[0]);
    assert("model"@[0] != "index"@[0]);
    assert("usage"@[0] != "index"@[0]);
    assert("created"@[1] != "choices"@[1]);
    assert("created"@[0] != "message"@[0]);
    assert("created"@[1] != "content"@[1]);
    assert("choices"@[0] != "message"@[0]);
    assert("choices"@[1] != "content"@[1]);
    assert("message"@[0] != "content"@[0]);
}

/// The text of a chat completion; empty where its content is null.
pub open spec fn told_text(chat: JsonView) -> Seq<char> {
    match chat.items_at("choices"@)[0].str_at2("message"@, "content"@) {
        Some(text) => text,
        None => Seq::empty(),
    }
}

/// The tool calls of a chat completion.
pub open spec fn told_calls(chat: JsonView) -> Seq<JsonView> {
    match chat.items_at("choices"@)[0].get("message"@) {
        Some(message) => message.items_at("tool_calls"@),
        None => Seq::empty(),
    }
}

proof fn lemma_told(
    response: JsonView,
    model: Seq<char>,
    ids: Seq<Seq<char>>,
    id: Seq<char>,
    created: i64,
)
    ensures
        ({
            let reply = reply_after(response.items_at("output"@), ids);
            let chat = chat_view(response, model, ids, id, created);
            &&& told_text(chat) == reply.content
            &&& told_calls(chat) == reply.calls
            &&& chat.items_at("choices"@)[0].get2("message"@, "content"@) == Some(
                if reply.calls.len() > 0 && reply.content.len() == 0 {
                    JsonView::Null
                } else {
                    JsonView::String(reply.content)
                },
            )
        }),
{
    reveal_strlit("id");
    reveal_strlit("object");
    reveal_strlit("created");
    reveal_strlit("model");
    reveal_strlit("choices");
    reveal_strlit("usage");
    reveal_strlit("index");
    reveal_strlit("message");
    reveal_strlit("finish_reason");
    reveal_strlit("role");
    reveal_strlit("content");
    reveal_strlit("tool_calls");
    assert("id"@.len() == 2 && "object"@.len() == 6 && "created"@.len() == 7);
    assert("model"@.len() == 5 && "choices"@.len() == 7 && "usage"@.len() == 5);
    assert("index"@.len() == 5 && "message"@.len() == 7 && "finish_reason"@.len() == 13);
    assert("role"@.len() == 4 && "content"@.len() == 7 && "tool_calls"@.len() == 10);
    assert("model"@[0] != "usage"@[0]);
    assert("model"@[0] != "index"@[0]);
    assert("usage"@[0] != "index"@[0]);
    assert("created"@[1] != "choices"@[1]);
    assert("created"@[0] != "message"@[0]);
    assert("created"@[1] != "content"@[1]);
    assert("choices"@[0] != "message"@[0]);
    assert("choices"@[1] != "content"@[1]);
    assert("message"@[0] != "content"@[0]);
    let reply = reply_after(response.items_at("output"@), ids);
    let chat = chat_view(response, model, ids, id, created);
    assert(chat.items_at("choices"@)[0].get("message"@) == Some(reply_message(reply)));
    if reply.content.len() == 0 {
        assert(reply.content =~= Seq::<char>::empty());
    }
    if reply.calls.len() == 0 {
        assert(reply.calls =~= Seq::<JsonView>::empty());
    }
}

/// The text of a message is the texts of its parts in their order; a part of another type than a
/// text adds nothing.
pub proof fn law_parts_are_joined(parts: Seq<JsonView>, part: JsonView)
    ensures
        parts_text(Seq::empty()) == Seq::<char>::empty(),
        parts_text(parts.push(part)) == parts_text(parts) + (if part.str_at("type"@) == Some(
            "output_text"@,
        ) || part.str_at("type"@) == Some("text"@) {
            match part.str_at("text"@) {
                Some(text) => text,
                None => Seq::empty(),
            }
        } else {
            Seq::empty()
        }),
{
    assert(parts.push(part).drop_last() =~= parts);
}

/// A chat completion tells the items of an answer in their order: a message adds its text, a function
/// call adds a tool call with its identifier, name and arguments, and any other item adds nothing.
pub proof fn law_items_are_told_in_order(
    short: JsonView,
    long: JsonView,
    item: JsonView,
    model: Seq<char>,
    ids: Seq<Seq<char>>,
    id: Seq<char>,
    created: i64,
)
    requires
        long.items_at("output"@) == short.items_at("output"@).push(item),
    ensures
        ({
            let before = chat_view(short, model, ids, id, created);
            let after = chat_view(long, model, ids, id, created);
            &&& short.items_at("output"@).len() == 0 ==> told_text(before).len() == 0 && told_calls(
                before,
            ).len() == 0
            &&& item.str_at("type"@) == Some("message"@) ==> {
                &&& told_text(after) == told_text(before) + parts_text(item.items_at("content"@))
                &&& told_calls(after) == told_calls(before)
            }
            &&& item.str_at("type"@) == Some("function_call"@) ==> {
                let call = told_calls(after).last();
                &&& told_text(after) == told_text(before)
                &&& told_calls(after).len() == told_calls(before).len() + 1
                &&& told_calls(after).drop_last() == told_calls(before)
                &&& call.str_at("type"@) == Some("function"@)
                &&& item.get("call_id"@) is Some ==> call.get("id"@) == item.get("call_id"@)
                &&& item.get("call_id"@) is None && item.get("id"@) is Some ==> call.get("id"@)
                    == item.get("id"@)
                &&& item.get("call_id"@) is None && item.get("id"@) is None ==> call.str_at("id"@)
                    == Some(ids[unnamed_items(short.items_at("output"@)) as int])
                &&& item.get("name"@) is Some ==> call.get2("function"@, "name"@) == item.get(
                    "name"@,
                )
                &&& item.get("arguments"@) is Some ==> call.get2("function"@, "arguments"@)
                    == item.get("arguments"@)
                &&& item.get("name"@) is None ==> call.str_at2("function"@, "name"@) == Some(
                    Seq::<char>::empty(),
                )
                &&& item.get("arguments"@) is None ==> call.str_at2("function"@, "arguments"@)
                    == Some("{}"@)
            }
            &&& item.str_at("type"@) != Some("message"@) && item.str_at("type"@) != Some(
                "function_call"@,
            ) ==> told_text(after) == told_text(before) && told_calls(after) == told_calls(before)
        }),
{
    lemma_told(short, model, ids, id, created);
    lemma_told(long, model, ids, id, created);
    lemma_reply_named(short.items_at("output"@), ids);
    reveal_strlit("message");
    reveal_strlit("function_call");
    reveal_strlit("id");
    reveal_strlit("type");
    reveal_strlit("function");
    reveal_strlit("name");
    reveal_strlit("arguments");
    assert("message"@.len() == 7 && "function_call"@.len() == 13 && "id"@.len() == 2);
    assert("type"@.len() == 4 && "function"@.len() == 8 && "name"@.len() == 4);
    assert("arguments"@.len() == 9);
    assert("type"@[0] != "name"@[0]);
    let items = short.items_at("output"@);
    assert(items.push(item).drop_last() =~= items);
    let calls = reply_after(items, ids).calls;
    if item.str_at("type"@) == Some("function_call"@) {
        let more = reply_after(items.push(item), ids).calls;
        assert(more.drop_last() =~= calls);
    }
}

/// The content of a completion is null exactly if there are tool calls and no text, and it ends for
/// its tool calls if it has any.
pub proof fn law_content_is_null_beside_calls_alone(
    response: JsonView,
    model: Seq<char>,
    ids: Seq<Seq<char>>,
    id: Seq<char>,
    created: i64,
)
    ensures
        ({
            let chat = chat_view(response, model, ids, id, created);
            let content = chat.items_at("choices"@)[0].get2("message"@, "content"@);
            &&& content == Some(JsonView::Null) <==> told_calls(chat).len() > 0 && told_text(
                chat,
            ).len() == 0
            &&& content == Some(JsonView::Null) || content == Some(
                JsonView::String(told_text(chat)),
            )
            &&& told_calls(chat).len() == 0 ==> chat.items_at("choices"@)[0].str_at("finish_reason"@)
                == Some("stop"@)
            &&& told_calls(chat).len() > 0 ==> chat.items_at("choices"@)[0].str_at("finish_reason"@)
                == Some("tool_calls"@)
        }),
{
    lemma_told(response, model, ids, id, created);
    reveal_strlit("choices");
    reveal_strlit("usage");
    assert("choices"@.len() != "usage"@.len());
}

/// The events of an answer are read in their order: one with JSON data gives its payload, with the
/// type that the payload says or else the name of the event; the end mark gives nothing.
pub proof fn law_events_are_read_in_order(events: Seq<EventView>, event: EventView)
    ensures
        payloads_of(Seq::empty()) == Seq::<(Seq<char>, JsonView)>::empty(),
        event.data.len() == 0 || event.data == "[DONE]"@ || parsed(event.data) is Err
            ==> payloads_of(events.push(event)) == payloads_of(events),
        event.data.len() > 0 && event.data != "[DONE]"@ && parsed(event.data) is Ok ==> ({
            let payload = parsed(event.data)->Ok_0;
            payloads_of(events.push(event)) == payloads_of(events).push(
                (
                    match payload.str_at("type"@) {
                        Some(kind) => kind,
                        None => event.event,
                    },
                    payload,
                ),
            )
        }),
{
    assert(events.push(event).drop_last() =~= events);
}

/// An output of its own that a response has stands in the answer: the last one that was sent, unless
/// it is empty or no list; then what was collected stands in its place.
pub proof fn law_own_output_stands(payloads: Seq<(Seq<char>, JsonView)>, i: int)
    requires
        collected(payloads) is Ok,
        0 <= i < payloads.len(),
        has_response_field(payloads[i].1, "output"@),
        forall|k: int|
            i < k < payloads.len() ==> !has_response_field((#[trigger] payloads[k]).1, "output"@),
    ensures
        ({
            let own = payloads[i].1.get2("response"@, "output"@)->0;
            let items = payloads[i].1.get("response"@)->0.items_at("output"@);
            let answer = collected(payloads)->Ok_0;
            &&& items.len() > 0 ==> answer.get("output"@) == Some(own)
            &&& items.len() == 0 ==> exists|places: Seq<int>| #[trigger]
                picks_items(
                    collect_after(payloads)->Ok_0.output,
                    answer.items_at("output"@),
                    places,
                )
        }),
{
    lemma_response_fields(payloads, "output"@, i);
    let state = collect_after(payloads)->Ok_0;
    let places = lemma_without_nulls(state.output);
    let answer = collected(payloads)->Ok_0;
    if payloads[i].1.get("response"@)->0.items_at("output"@).len() == 0 {
        assert(answer.items_at("output"@) == without_nulls(state.output));
        assert(picks_items(state.output, answer.items_at("output"@), places));
    }
}

}
