//! Tests of requests: answers, chats and models.

use ai_proxy::convert::{
    build_responses_request, build_responses_request_with, call_ids_of, convert_tool,
    convert_tool_choice, extract_text, normalize_models, normalize_responses_request,
    reasoning_effort,
};
use ai_proxy::json::{parse_json, print_json, Json};

fn doc(text: &str) -> Json {
    parse_json(text).unwrap()
}

fn shown(json: &Json) -> String {
    print_json(json)
}

#[test]
fn converts_chat_tools() {
    let input = doc("{\"model\":\"gpt\", \"messages\":[{\"role\":\"assistant\",\"tool_calls\":[{\"id\":\"c1\",\"type\":\"function\",\"function\":{\"name\":\"go\",\"arguments\":\"{}\"}}]},{\"role\":\"tool\",\"tool_call_id\":\"c1\",\"content\":\"ok\"}]}");
    let out = build_responses_request(&input).unwrap().to_value();
    assert_eq!(out.pointer("/input/0/type"), Some(&serde_json::Value::from("function_call")));
    assert_eq!(
        out.pointer("/input/1/type"),
        Some(&serde_json::Value::from("function_call_output"))
    );
}

#[test]
fn a_request_for_an_answer_is_normalized() {
    let body = doc("{\"input\":\"Hi\",\"model\":\"m\",\"store\":true,\"stream\":false,\"temperature\":1,\"top_p\":1,\"metadata\":{},\"user\":\"u\",\"max_output_tokens\":3,\"reasoning\":{\"effort\":\"low\"}}");
    let normalized = normalize_responses_request(&body);
    assert_eq!(
        shown(&normalized),
        "{\"input\":[{\"content\":\"Hi\",\"role\":\"user\"}],\"model\":\"m\",\"reasoning\":{\"effort\":\"low\"},\"store\":false,\"stream\":true}"
    );
    assert_eq!(shown(&normalize_responses_request(&normalized)), shown(&normalized));
    assert_eq!(shown(&normalize_responses_request(&doc("[1]"))), "{\"store\":false,\"stream\":true}");
    assert_eq!(
        shown(&normalize_responses_request(&doc("{\"input\":[1]}"))),
        "{\"input\":[1],\"store\":false,\"stream\":true}"
    );
}

#[test]
fn the_effort_is_found_in_three_places() {
    assert_eq!(
        reasoning_effort(&doc("{\"reasoning\":{\"effort\":\"a\"},\"reasoningEffort\":\"b\"}")),
        Some("a".to_owned())
    );
    assert_eq!(
        reasoning_effort(&doc("{\"reasoning\":{\"effort\":1},\"reasoningEffort\":\"b\",\"reasoning_effort\":\"c\"}")),
        Some("b".to_owned())
    );
    assert_eq!(reasoning_effort(&doc("{\"reasoning_effort\":\"c\"}")), Some("c".to_owned()));
    assert_eq!(reasoning_effort(&doc("{}")), None);
}

#[test]
fn a_chat_becomes_a_request() {
    let chat = doc("{\"model\":\"m\",\"stream\":true,\"messages\":[{\"role\":\"system\",\"content\":\"one\"},{\"role\":\"developer\",\"content\":[\"two\",{\"type\":\"text\",\"text\":\"three\"},{\"type\":\"input_text\",\"text\":\"\"},7]},{\"role\":\"system\",\"content\":null},{\"content\":\"hi\"},{\"role\":\"assistant\",\"content\":\"ho\",\"tool_calls\":[{\"type\":\"other\"},{\"type\":\"function\"}]},{\"role\":\"tool\",\"content\":\"out\"}],\"tools\":[{\"type\":\"function\",\"function\":{\"name\":\"go\"}},{\"type\":\"web\"}],\"tool_choice\":{\"type\":\"function\",\"function\":{\"name\":\"go\"}},\"parallel_tool_calls\":true,\"reasoning\":{\"effort\":\"low\"},\"temperature\":1}");
    let made = build_responses_request_with(&chat, &vec!["call_1".to_owned()]).unwrap();
    assert_eq!(
        shown(&made),
        "{\"input\":[{\"content\":\"hi\",\"role\":\"user\"},{\"content\":\"ho\",\"role\":\"assistant\"},{\"arguments\":\"{}\",\"call_id\":\"call_1\",\"name\":\"unknown_function\",\"type\":\"function_call\"},{\"call_id\":\"unknown_call\",\"output\":\"out\",\"type\":\"function_call_output\"}],\"instructions\":\"one\\n\\ntwo\\nthree\",\"model\":\"m\",\"parallel_tool_calls\":true,\"reasoning\":{\"effort\":\"low\"},\"store\":false,\"stream\":true,\"tool_choice\":{\"name\":\"go\",\"type\":\"function\"},\"tools\":[{\"description\":null,\"name\":\"go\",\"parameters\":{\"properties\":{},\"type\":\"object\"},\"type\":\"function\"},{\"type\":\"web\"}]}"
    );
    let ids = call_ids_of(&chat);
    assert_eq!(ids.len(), 1);
    assert!(ids[0].starts_with("call_"));
    let drawn = build_responses_request(&chat).unwrap().to_value();
    let id = drawn.pointer("/input/2/call_id").unwrap().as_str().unwrap().to_owned();
    assert!(id.starts_with("call_"));
    assert_eq!(id.len(), 21);
}

#[test]
fn an_empty_chat_becomes_an_empty_request() {
    assert_eq!(
        shown(&build_responses_request(&doc("{}")).unwrap()),
        "{\"input\":[],\"model\":null,\"store\":false,\"stream\":false}"
    );
}

#[test]
fn other_content_is_refused() {
    let chat = doc("{\"messages\":[{\"content\":[{\"type\":\"image_url\"},{\"text\":\"no type\"}]},{\"content\":5},{\"content\":true},{\"content\":{}}]}");
    assert_eq!(
        build_responses_request(&chat).unwrap_err(),
        vec!["image_url", "unknown", "number", "boolean", "object"]
    );
}

#[test]
fn text_is_extracted() {
    let mut unsupported = Vec::new();
    assert_eq!(extract_text(None, &mut unsupported), "");
    assert_eq!(extract_text(Some(&doc("\"x\"")), &mut unsupported), "x");
    assert_eq!(
        extract_text(
            Some(&doc("[{\"type\":\"output_text\",\"text\":\"a\"},\"\",\"b\",{\"type\":\"text\"}]")),
            &mut unsupported
        ),
        "a\nb"
    );
    assert!(unsupported.is_empty());
}

#[test]
fn tools_are_converted() {
    assert_eq!(
        shown(&convert_tool(&doc("{\"type\":\"function\",\"function\":{\"name\":\"f\",\"description\":\"d\",\"parameters\":{\"x\":1}}}"))),
        "{\"description\":\"d\",\"name\":\"f\",\"parameters\":{\"x\":1},\"type\":\"function\"}"
    );
    assert_eq!(shown(&convert_tool(&doc("{\"type\":\"web\"}"))), "{\"type\":\"web\"}");
    assert_eq!(
        shown(&convert_tool_choice(&doc("{\"type\":\"function\",\"function\":{\"name\":\"f\"}}"))),
        "{\"name\":\"f\",\"type\":\"function\"}"
    );
    assert_eq!(shown(&convert_tool_choice(&doc("\"auto\""))), "\"auto\"");
    assert_eq!(shown(&convert_tool_choice(&doc("{\"type\":\"function\"}"))), "{\"type\":\"function\"}");
}

#[test]
fn models_become_a_list() {
    assert_eq!(
        shown(&normalize_models(&doc("{\"models\":[{\"slug\":\"a\"},{\"id\":\"b\",\"slug\":\"c\",\"created\":5,\"owned_by\":\"me\"},{\"name\":\"d\"},{},3]}"))),
        "{\"data\":[{\"created\":0,\"id\":\"a\",\"object\":\"model\",\"owned_by\":\"chatgpt\"},{\"created\":5,\"id\":\"b\",\"object\":\"model\",\"owned_by\":\"me\"},{\"created\":0,\"id\":\"d\",\"object\":\"model\",\"owned_by\":\"chatgpt\"}],\"object\":\"list\"}"
    );
    let list = doc("{\"object\":\"list\",\"data\":[{\"x\":1}],\"more\":2}");
    assert_eq!(shown(&normalize_models(&list)), shown(&list));
    assert_eq!(
        shown(&normalize_models(&doc("[{\"id\":\"a\"}]"))),
        "{\"data\":[{\"created\":0,\"id\":\"a\",\"object\":\"model\",\"owned_by\":\"chatgpt\"}],\"object\":\"list\"}"
    );
    assert_eq!(shown(&normalize_models(&doc("5"))), "{\"data\":[],\"object\":\"list\"}");
}
