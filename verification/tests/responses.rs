//! Tests of answers: collecting a stream, and turning it into chat completions.

use ai_proxy::chat_stream::{chat_chunk, ChatStream};
use ai_proxy::json::{parse_json, print_json, Json};
use ai_proxy::responses::{
    chat_usage, collect_payloads, collect_responses_events, ensure_message, event_kind,
    read_payloads, response_to_chat, response_to_chat_with, set_index,
    try_collect_responses_events,
};
use ai_proxy::sse::SseEvent;

fn doc(text: &str) -> Json {
    parse_json(text).unwrap()
}

fn event(name: &str, data: &str) -> SseEvent {
    SseEvent { event: name.to_owned(), data: data.to_owned() }
}

fn events(list: &[&str]) -> Vec<SseEvent> {
    list.iter().map(|data| event("message", data)).collect()
}

fn collected(list: &[&str]) -> String {
    print_json(&collect_responses_events(events(list)).unwrap())
}

#[test]
fn aggregates_text() {
    let events = vec![SseEvent {
        event: "message".into(),
        data: print_json(&doc("{\"type\":\"response.output_text.delta\",\"delta\":\"hi\"}")),
    }];
    let out = collect_responses_events(events).unwrap().to_value();
    assert_eq!(out.pointer("/output/0/content/0/text"), Some(&serde_json::Value::from("hi")));
}

#[test]
fn pieces_of_text_are_put_together() {
    assert_eq!(
        collected(&[
            "{\"type\":\"response.created\",\"response\":{\"id\":\"r\",\"output\":[],\"model\":\"m\"}}",
            "{\"type\":\"response.output_text.delta\",\"output_index\":1,\"content_index\":1,\"delta\":\"a\"}",
            "{\"type\":\"response.output_text.delta\",\"output_index\":1,\"content_index\":1,\"delta\":\"b\"}",
            "{\"type\":\"response.output_text.delta\",\"output_index\":1,\"content_index\":1}",
            "",
            "[DONE]",
            "no document",
        ]),
        "{\"id\":\"r\",\"model\":\"m\",\"output\":[{\"content\":[{\"text\":\"\",\"type\":\"output_text\"},{\"text\":\"ab\",\"type\":\"output_text\"}],\"role\":\"assistant\",\"type\":\"message\"}]}"
    );
}

#[test]
fn items_are_placed_and_arguments_put_together() {
    assert_eq!(
        collected(&[
            "{\"type\":\"response.output_item.added\",\"item\":{\"type\":\"function_call\",\"name\":\"f\"}}",
            "{\"type\":\"response.function_call_arguments.delta\",\"delta\":\"{\"}",
            "{\"type\":\"response.function_call_arguments.delta\",\"delta\":\"}\"}",
            "{\"type\":\"response.function_call_arguments.delta\",\"output_index\":2,\"delta\":\"x\"}",
            "{\"type\":\"response.output_item.done\",\"output_index\":3,\"item\":{\"type\":\"message\"}}",
        ]),
        "{\"output\":[{\"arguments\":\"{}\",\"name\":\"f\",\"type\":\"function_call\"},{\"arguments\":\"x\",\"type\":\"function_call\"},{\"type\":\"message\"}]}"
    );
    // An item that is done without a place is the first one.
    assert_eq!(
        collected(&[
            "{\"type\":\"response.output_item.added\",\"item\":1}",
            "{\"type\":\"response.output_item.added\",\"item\":2}",
            "{\"type\":\"response.output_item.done\",\"item\":3}",
        ]),
        "{\"output\":[3,2]}"
    );
}

#[test]
fn the_output_of_the_answer_itself_counts() {
    assert_eq!(
        collected(&[
            "{\"type\":\"response.output_text.delta\",\"delta\":\"a\"}",
            "{\"type\":\"response.completed\",\"response\":{\"output\":[5]}}",
        ]),
        "{\"output\":[5]}"
    );
}

#[test]
fn a_failure_is_an_error() {
    assert_eq!(
        collect_responses_events(events(&[
            "{\"type\":\"response.failed\",\"error\":{\"message\":\"no\"}}",
            "{\"type\":\"response.completed\"}",
        ]))
        .unwrap_err(),
        "no"
    );
    let failed = vec![event("response.failed", "{}")];
    assert_eq!(collect_responses_events(failed).unwrap_err(), "Upstream response failed");
}

#[test]
fn what_cannot_be_collected_is_told_apart() {
    // A piece of text for an item that is no object.
    assert!(try_collect_responses_events(events(&[
        "{\"type\":\"response.output_item.added\",\"item\":1}",
        "{\"type\":\"response.output_text.delta\",\"delta\":\"a\"}",
    ]))
    .is_none());
    assert!(try_collect_responses_events(events(&[
        "{\"type\":\"response.output_item.added\",\"item\":{\"content\":1}}",
        "{\"type\":\"response.output_text.delta\",\"delta\":\"a\"}",
    ]))
    .is_none());
    let fine = try_collect_responses_events(events(&["{\"response\":{\"id\":1}}"]));
    assert_eq!(print_json(&fine.unwrap().unwrap()), "{\"id\":1,\"output\":[]}");
}

#[test]
fn payloads_have_a_kind() {
    let list = vec![
        event("named", "{\"type\":\"own\"}"),
        event("named", "{\"type\":5}"),
        event("named", ""),
        event("named", "[DONE]"),
        event("named", "{"),
    ];
    let kinds: Vec<String> = read_payloads(&list).into_iter().map(|found| found.0).collect();
    assert_eq!(kinds, vec!["own", "named"]);
    assert_eq!(event_kind(&list[0], &doc("{}")), "named");
    let none: Vec<(String, Json)> = Vec::new();
    assert_eq!(print_json(&collect_payloads(&none).unwrap()), "{\"output\":[]}");
}

#[test]
fn places_are_filled_up() {
    let mut list = vec![Json::Bool(true)];
    set_index(&mut list, 2, Json::count(1));
    set_index(&mut list, 0, Json::count(2));
    assert_eq!(print_json(&Json::Array(list)), "[2,null,1]");
    let list = vec![Json::Null, Json::count(4)];
    assert_eq!(
        print_json(&ensure_message(&list, 0)),
        "{\"content\":[],\"role\":\"assistant\",\"type\":\"message\"}"
    );
    assert_eq!(print_json(&ensure_message(&list, 1)), "4");
    assert_eq!(
        print_json(&ensure_message(&list, 9)),
        "{\"content\":[],\"role\":\"assistant\",\"type\":\"message\"}"
    );
}

#[test]
fn usage_is_counted() {
    assert!(chat_usage(None).is_null());
    assert_eq!(
        print_json(&chat_usage(Some(&doc("{\"input_tokens\":3,\"output_tokens\":4}")))),
        "{\"completion_tokens\":4,\"prompt_tokens\":3,\"total_tokens\":7}"
    );
    assert_eq!(
        print_json(&chat_usage(Some(&doc("{\"prompt_tokens\":3,\"completion_tokens\":4,\"total_tokens\":9}")))),
        "{\"completion_tokens\":4,\"prompt_tokens\":3,\"total_tokens\":9}"
    );
    assert_eq!(
        print_json(&chat_usage(Some(&doc("{\"input_tokens\":\"x\",\"prompt_tokens\":4}")))),
        "{\"completion_tokens\":0,\"prompt_tokens\":0,\"total_tokens\":0}"
    );
}

#[test]
fn an_answer_becomes_a_chat_completion() {
    let answer = doc("{\"id\":\"r\",\"model\":\"m\",\"output\":[{\"type\":\"message\",\"content\":[{\"type\":\"output_text\",\"text\":\"a\"},{\"type\":\"text\",\"text\":\"b\"},{\"type\":\"other\",\"text\":\"c\"}]}],\"usage\":{\"input_tokens\":1,\"output_tokens\":2}}");
    assert_eq!(
        print_json(&response_to_chat_with(&answer, "asked", &vec![], "fresh", 5)),
        "{\"choices\":[{\"finish_reason\":\"stop\",\"index\":0,\"message\":{\"content\":\"ab\",\"role\":\"assistant\"}}],\"created\":5,\"id\":\"r\",\"model\":\"m\",\"object\":\"chat.completion\",\"usage\":{\"completion_tokens\":2,\"prompt_tokens\":1,\"total_tokens\":3}}"
    );
    let calls = doc("{\"output\":[{\"type\":\"function_call\",\"call_id\":\"c\",\"name\":\"f\",\"arguments\":\"{1}\"},{\"type\":\"function_call\",\"id\":\"i\"},{\"type\":\"function_call\"}]}");
    assert_eq!(
        print_json(&response_to_chat_with(&calls, "asked", &vec!["call_1".to_owned()], "fresh", 5)),
        "{\"choices\":[{\"finish_reason\":\"tool_calls\",\"index\":0,\"message\":{\"content\":null,\"role\":\"assistant\",\"tool_calls\":[{\"function\":{\"arguments\":\"{1}\",\"name\":\"f\"},\"id\":\"c\",\"type\":\"function\"},{\"function\":{\"arguments\":\"{}\",\"name\":\"\"},\"id\":\"i\",\"type\":\"function\"},{\"function\":{\"arguments\":\"{}\",\"name\":\"\"},\"id\":\"call_1\",\"type\":\"function\"}]}}],\"created\":5,\"id\":\"fresh\",\"model\":\"asked\",\"object\":\"chat.completion\",\"usage\":null}"
    );
    let drawn = response_to_chat(&calls, "asked").to_value();
    assert!(drawn["id"].as_str().unwrap().starts_with("chatcmpl_"));
    assert!(drawn["created"].as_i64().unwrap() > 1_700_000_000);
    let id = drawn.pointer("/choices/0/message/tool_calls/2/id").unwrap();
    assert!(id.as_str().unwrap().starts_with("call_"));
}

fn stream() -> ChatStream {
    ChatStream::with_identity("c".to_owned(), 5, "m".to_owned())
}

fn frame(delta: &str, finish: &str) -> String {
    format!(
        "data: {{\"choices\":[{{\"delta\":{delta},\"finish_reason\":{finish},\"index\":0}}],\"created\":5,\"id\":\"c\",\"model\":\"m\",\"object\":\"chat.completion.chunk\"}}\n\n"
    )
}

#[test]
fn a_chunk_has_usage_where_it_is_known() {
    assert_eq!(
        print_json(&chat_chunk("c", 5, "m", doc("{}"), Json::text("stop"), Some(&doc("{\"input_tokens\":1}")))),
        "{\"choices\":[{\"delta\":{},\"finish_reason\":\"stop\",\"index\":0}],\"created\":5,\"id\":\"c\",\"model\":\"m\",\"object\":\"chat.completion.chunk\",\"usage\":{\"completion_tokens\":0,\"prompt_tokens\":1,\"total_tokens\":1}}"
    );
}

#[test]
fn text_is_streamed() {
    let mut chat = stream();
    assert_eq!(chat.first_frame(), frame("{\"role\":\"assistant\"}", "null"));
    let frames = chat.push(
        b"data: {\"type\":\"response.output_text.delta\",\"delta\":\"a\"}\n\ndata: nothing\n\ndata: {\"type\":\"response.output_te",
    );
    assert_eq!(frames, vec![frame("{\"content\":\"a\"}", "null")]);
    let frames = chat.push(
        b"xt.delta\",\"delta\":\"b\"}\n\nevent: response.completed\ndata: {\"response\":{\"usage\":{\"input_tokens\":2}}}\n\n",
    );
    assert_eq!(frames.len(), 2);
    assert_eq!(frames[0], frame("{\"content\":\"b\"}", "null"));
    assert!(frames[1].contains("\"finish_reason\":\"stop\""));
    assert!(frames[1].contains("\"prompt_tokens\":2"));
    assert_eq!(chat.finish(), "data: [DONE]\n\n");
}

#[test]
fn calls_are_streamed() {
    let mut chat = stream();
    let frames = chat.push(
        b"data: {\"type\":\"response.output_item.added\",\"output_index\":7,\"item\":{\"type\":\"function_call\",\"call_id\":\"k\",\"name\":\"f\"}}\n\ndata: {\"type\":\"response.function_call_arguments.delta\",\"output_index\":7,\"delta\":\"{}\"}\n\ndata: {\"type\":\"response.output_item.done\",\"output_index\":7,\"item\":{\"type\":\"function_call\",\"arguments\":\"{}\"}}\n\ndata: {\"type\":\"response.output_item.added\",\"index\":9,\"item\":{\"type\":\"function_call\"}}\n\ndata: {\"type\":\"response.output_item.done\",\"index\":9,\"item\":{\"type\":\"function_call\",\"arguments\":\"whole\"}}\n\n",
    );
    assert_eq!(frames.len(), 4);
    assert_eq!(
        frames[0],
        frame("{\"tool_calls\":[{\"function\":{\"arguments\":\"\",\"name\":\"f\"},\"id\":\"k\",\"index\":0,\"type\":\"function\"}]}", "null")
    );
    assert_eq!(
        frames[1],
        frame("{\"tool_calls\":[{\"function\":{\"arguments\":\"{}\"},\"index\":0}]}", "null")
    );
    assert!(frames[2].contains("\"id\":\"call_"));
    assert!(frames[2].contains("\"index\":1,\"type\":\"function\""));
    assert_eq!(
        frames[3],
        frame("{\"tool_calls\":[{\"function\":{\"arguments\":\"whole\"},\"index\":1}]}", "null")
    );
    assert_eq!(chat.finish(), format!("{}data: [DONE]\n\n", frame("{}", "\"tool_calls\"")));
}

#[test]
fn a_failure_ends_the_stream() {
    let mut chat = stream();
    let chunk = chat.step("response.failed", &doc("{\"error\":{\"message\":\"no\"}}"), "unused");
    let expected = frame("{\"content\":\"\\n[no]\"}", "\"stop\"");
    assert_eq!(format!("data: {}\n\n", print_json(&chunk.unwrap())), expected);
    assert_eq!(chat.finish(), "data: [DONE]\n\n");

    let mut incomplete = stream();
    let chunk = incomplete.step("response.incomplete", &doc("{}"), "unused").unwrap();
    assert!(print_json(&chunk).contains("\\n[Upstream response failed]"));
    assert!(incomplete.step("response.created", &doc("{}"), "unused").is_none());
}

#[test]
fn streamed_and_whole_texts_agree() {
    let mut chat = stream();
    let mut streamed = String::new();
    let mut list = Vec::new();
    for piece in ["Hel", "lo", "", " world"] {
        let text = format!("{{\"type\":\"response.output_text.delta\",\"delta\":\"{piece}\"}}");
        let chunk = chat.step("response.output_text.delta", &doc(&text), "unused").unwrap();
        let added = chunk.to_value().pointer("/choices/0/delta/content").unwrap().clone();
        streamed.push_str(added.as_str().unwrap());
        list.push(event("message", &text));
    }
    let answer = collect_responses_events(list).unwrap();
    let whole = response_to_chat_with(&answer, "m", &vec![], "c", 5).to_value();
    assert_eq!(streamed, "Hello world");
    assert_eq!(whole.pointer("/choices/0/message/content").unwrap(), "Hello world");
}

#[test]
fn arguments_are_sent_once() {
    let done = doc("{\"item\":{\"type\":\"function_call\",\"arguments\":\"{}\"}}");
    let mut chat = stream();
    assert!(chat.step("response.output_item.done", &done, "unused").is_some());
    let piece = doc("{\"delta\":\"{\"}");
    assert!(chat.step("response.function_call_arguments.delta", &piece, "unused").is_some());
    assert!(chat.step("response.output_item.done", &done, "unused").is_none());
}

#[test]
fn a_stream_that_breaks_off_is_ended() {
    assert_eq!(stream().finish(), format!("{}data: [DONE]\n\n", frame("{}", "\"stop\"")));
    let drawn = ChatStream::new("m".to_owned()).first_frame();
    assert!(drawn.contains("\"id\":\"chatcmpl_"));
}
