//! Tests of documents: reading, writing, merging and sorting.

use ai_proxy::json::{parse_json, parse_json_bytes, print_json, Json, JsonMap};
use ai_proxy::merge::deep_merge;
use ai_proxy::order::{sort_and_dedup, sorted_positions};

fn doc(text: &str) -> Json {
    parse_json(text).unwrap()
}

fn texts(list: &[&str]) -> Vec<String> {
    list.iter().map(|text| text.to_string()).collect()
}

#[test]
fn documents_are_written_as_they_are_read() {
    for text in [
        "null",
        "true",
        "-7",
        "18446744073709551615",
        "-9223372036854775808",
        "1.5",
        "1e-7",
        "-0.0",
        "\"a\\\"\\\\\\n\\u0001é😀\"",
        "[]",
        "{}",
        "[1,[2,{\"a\":null}],\"x\"]",
        "{\"a\":1,\"b\":{\"c\":[false]}}",
    ] {
        assert_eq!(print_json(&doc(text)), text);
        assert_eq!(print_json(&Json::from_value(doc(text).to_value())), text);
        assert_eq!(print_json(&parse_json_bytes(text.as_bytes()).unwrap()), text);
    }
}

#[test]
fn objects_are_written_in_order_and_the_last_of_two_values_counts() {
    assert_eq!(print_json(&doc("{\"b\":1,\"a\":2,\"b\":3}")), "{\"a\":2,\"b\":3}");
}

#[test]
fn what_is_no_document_is_refused() {
    assert_eq!(
        parse_json("{\"a\":}").unwrap_err(),
        serde_json::from_str::<serde_json::Value>("{\"a\":}").unwrap_err().to_string()
    );
    assert!(parse_json("").is_err());
    assert!(parse_json_bytes(b"\"\xff\"").is_err());
}

#[test]
fn numbers_are_read_as_what_they_are() {
    assert_eq!(doc("5").as_u64(), Some(5));
    assert_eq!(doc("5").as_i64(), Some(5));
    assert_eq!(doc("-5").as_u64(), None);
    assert_eq!(doc("-5").as_i64(), Some(-5));
    assert_eq!(doc("18446744073709551615").as_u64(), Some(u64::MAX));
    assert_eq!(doc("18446744073709551615").as_i64(), None);
    assert_eq!(doc("5.0").as_u64(), None);
    assert_eq!(doc("\"5\"").as_u64(), None);
    assert_eq!(print_json(&Json::count(7)), "7");
    assert_eq!(print_json(&Json::integer(-7)), "-7");
    assert_eq!(print_json(&Json::integer(7)), "7");
    assert_eq!(Json::integer(7).as_u64(), Some(7));
}

#[test]
fn fields_are_found() {
    let document = doc("{\"a\":{\"b\":\"x\"},\"n\":3,\"t\":true,\"l\":[1]}");
    assert_eq!(document.str_at2("a", "b"), Some("x"));
    assert_eq!(document.str_at("a"), None);
    assert_eq!(document.u64_at("n"), Some(3));
    assert!(document.bool_at("t"));
    assert!(!document.bool_at("n"));
    assert_eq!(document.array_at("l").unwrap().len(), 1);
    assert!(document.get("missing").is_none());
    assert!(doc("[1]").get("a").is_none());
    assert!(Json::opt_text(None).is_null());
    assert_eq!(Json::opt_text(Some("x")).as_str(), Some("x"));
}

#[test]
fn a_map_holds_one_value_for_a_key() {
    let mut map = JsonMap::new();
    map.insert("b", Json::count(1));
    map.insert("a", Json::count(2));
    map.insert("b", Json::count(3));
    assert_eq!(map.get("b").unwrap().as_u64(), Some(3));
    let names: Vec<String> = map.listing().into_iter().map(|entry| entry.0).collect();
    assert_eq!(names, texts(&["a", "b"]));
    let mut other = JsonMap::new();
    other.insert("a", Json::Null);
    other.insert("c", Json::Bool(true));
    map.extend(other);
    assert_eq!(print_json(&Json::Object(map.clone())), "{\"a\":null,\"b\":3,\"c\":true}");
    map.remove("a");
    map.remove("z");
    assert_eq!(print_json(&Json::Object(map)), "{\"b\":3,\"c\":true}");
}

#[test]
fn an_overlay_wins_field_by_field() {
    let mut base = doc("{\"a\":{\"x\":1,\"y\":2},\"b\":[1,2],\"c\":3}");
    deep_merge(&mut base, doc("{\"a\":{\"y\":9,\"z\":{}},\"b\":[7],\"d\":null}"));
    assert_eq!(print_json(&base), "{\"a\":{\"x\":1,\"y\":9,\"z\":{}},\"b\":[7],\"c\":3,\"d\":null}");
    let mut text = doc("\"old\"");
    deep_merge(&mut text, doc("{\"a\":1}"));
    assert_eq!(print_json(&text), "{\"a\":1}");
    let mut object = doc("{\"a\":1}");
    deep_merge(&mut object, doc("null"));
    assert_eq!(print_json(&object), "null");
}

#[test]
fn texts_are_sorted_as_characters() {
    let list = texts(&["b", "a", "", "é", "ab", "b", "z", "\u{10000}", "\u{ffff}"]);
    let mut expected = list.clone();
    expected.sort();
    let sorted: Vec<String> =
        sorted_positions(&list).into_iter().map(|at| list[at].clone()).collect();
    assert_eq!(sorted, expected);
    expected.dedup();
    assert_eq!(sort_and_dedup(&list), expected);
    // What came first stays first among equals.
    assert_eq!(sorted_positions(&texts(&["x", "a", "x", "a"])), vec![1, 3, 0, 2]);
}
