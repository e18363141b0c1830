use airouter_proxy::json::{parse_json, Json, JsonShape, RawJson};
use airouter_proxy::rewrite::{patch_pairs, rename_pairs, rewrite_body, rewrite_fields};
use serde_json::Value;

fn json(text: &str) -> Json {
    parse_json(text).unwrap()
}

fn text_of(bytes: &[u8]) -> &str {
    std::str::from_utf8(bytes).unwrap()
}

fn pair(key: &str, text: &str) -> (String, String) {
    (key.to_string(), text.to_string())
}

#[test]
fn rename_field() {
    let out = rewrite_body(
        br#"{"model":"m","max_tokens":2048}"#,
        &rename_pairs(&json(r#"{"max_tokens": "max_completion_tokens"}"#)),
        &[],
    )
    .unwrap();
    let v: Value = serde_json::from_slice(&out).unwrap();
    assert!(v.get("max_tokens").is_none());
    assert_eq!(v["max_completion_tokens"], 2048);
}

#[test]
fn rename_then_patch() {
    let out = rewrite_body(
        br#"{"max_tokens":100}"#,
        &rename_pairs(&json(r#"{"max_tokens": "max_completion_tokens"}"#)),
        &patch_pairs(&json(r#"{"max_completion_tokens": 8192}"#)),
    )
    .unwrap();
    let v: Value = serde_json::from_slice(&out).unwrap();
    assert_eq!(v["max_completion_tokens"], 8192);
    assert!(v.get("max_tokens").is_none());
}

#[test]
fn patch_merge_and_remove() {
    let out = rewrite_body(
        br#"{"model":"old","stream":true}"#,
        &[],
        &patch_pairs(&json(r#"{"model": "new", "extra": 1, "stream": null}"#)),
    )
    .unwrap();
    let v: Value = serde_json::from_slice(&out).unwrap();
    assert_eq!(v["model"], "new");
    assert_eq!(v["extra"], 1);
    assert!(v.get("stream").is_none());
}

#[test]
fn nested_bytes_pass_through_untouched() {
    let out = rewrite_body(
        br#"{"max_tokens":1,"tools":[{"z":1.50,"a":{"b":[3,2]}}]}"#,
        &rename_pairs(&json(r#"{"max_tokens": "max_completion_tokens"}"#)),
        &[],
    )
    .unwrap();
    let out = std::str::from_utf8(&out).unwrap();
    assert!(out.contains(r#"{"z":1.50,"a":{"b":[3,2]}}"#), "{out}");
}

#[test]
fn nothing_to_rewrite_returns_none() {
    let patch = patch_pairs(&json(r#"{"model": "new"}"#));
    assert!(rewrite_body(br#"{"model":"old"}"#, &[], &[]).is_none());
    assert!(rewrite_body(b"not json", &[], &patch).is_none());
    assert!(rewrite_body(br#"[1,2]"#, &[], &patch).is_none());
    assert!(rewrite_body(
        br#"{"a":1}"#,
        &rename_pairs(&json("null")),
        &patch_pairs(&json("[1, 2]")),
    )
    .is_none());
}

#[test]
fn rewritten_body_is_written_key_by_key() {
    let out = rewrite_body(
        br#" { "b" : [ 1, 2 ] , "a" : "A" } "#,
        &rename_pairs(&json(r#"{"b": "c\"d"}"#)),
        &patch_pairs(&json(r#"{"e": {"y": 1.50, "x": [ ]}}"#)),
    )
    .unwrap();
    assert_eq!(
        text_of(&out),
        r#"{"a":"A","c\"d":[ 1, 2 ],"e":{"x":[],"y":1.5}}"#
    );
}

#[test]
fn keys_ascend_by_their_bytes() {
    let patch = patch_pairs(&json(r#"{"z": null}"#));
    let out = rewrite_body(
        "{\"\u{e9}\":1, \"b\":2,\t\"B\":3, \"\":4, \"\u{10000}\":5, \"\u{ffff}\":6, \"ba\":7}".as_bytes(),
        &[],
        &patch,
    )
    .unwrap();
    assert_eq!(
        text_of(&out),
        "{\"\":4,\"B\":3,\"b\":2,\"ba\":7,\"\u{e9}\":1,\"\u{ffff}\":6,\"\u{10000}\":5}"
    );
    assert_eq!(rewrite_body(br#" { "z" : 1 } "#, &[], &patch).unwrap(), b"{}");
}

#[test]
fn keys_are_escaped_as_json_strings() {
    let to = "\u{8}\t\n\u{c}\r\u{0}\u{1f}\"\\/\u{7f}\u{e9}";
    let out = rewrite_body(br#"{"a":1}"#, &[pair("a", to)], &[]).unwrap();
    assert_eq!(
        text_of(&out),
        "{\"\\b\\t\\n\\f\\r\\u0000\\u001f\\\"\\\\/\u{7f}\u{e9}\":1}"
    );
}

#[test]
fn order_and_spacing_of_a_body_make_no_difference() {
    let rename = [pair("a", "m")];
    let patch = patch_pairs(&json(r#"{"n": 0}"#));
    let plain = rewrite_body(br#"{"a":[1, 2],"b":"x"}"#, &rename, &patch).unwrap();
    let other = rewrite_body(b"\n{ \"b\" : \"x\",\"a\":\t[1, 2] }", &rename, &patch).unwrap();
    assert_eq!(plain, other);
    assert_eq!(text_of(&plain), r#"{"b":"x","m":[1, 2],"n":0}"#);
}

#[test]
fn a_key_that_occurs_twice_keeps_its_last_value() {
    let patch = patch_pairs(&json(r#"{"x": 1}"#));
    let out = rewrite_body(br#"{"a":1,"a":2}"#, &[], &patch).unwrap();
    assert_eq!(text_of(&out), r#"{"a":2,"x":1}"#);
}

#[test]
fn renamings_run_in_turn() {
    let rename = rename_pairs(&json(r#"{"a": "b", "b": "c"}"#));
    let out = rewrite_body(br#"{"a":1,"b":2}"#, &rename, &[]).unwrap();
    assert_eq!(text_of(&out), r#"{"c":1}"#);
    let swapped = [pair("b", "c"), pair("a", "b")];
    let out = rewrite_body(br#"{"a":1,"b":2}"#, &swapped, &[]).unwrap();
    assert_eq!(text_of(&out), r#"{"b":1,"c":2}"#);
}

#[test]
fn renaming_an_absent_field_changes_nothing() {
    let out = rewrite_body(br#"{"a":1}"#, &[pair("x", "a")], &[]).unwrap();
    assert_eq!(text_of(&out), r#"{"a":1}"#);
    let out = rewrite_body(br#"{"a":1}"#, &[pair("a", "a")], &[]).unwrap();
    assert_eq!(text_of(&out), r#"{"a":1}"#);
}

#[test]
fn patching_twice_is_patching_once() {
    let patch = patch_pairs(&json(r#"{"a": null, "b": [true], "c": "x"}"#));
    let once = rewrite_body(br#"{"a":1,"z":0}"#, &[], &patch).unwrap();
    let twice = rewrite_body(&once, &[], &patch).unwrap();
    assert_eq!(text_of(&once), r#"{"b":[true],"c":"x","z":0}"#);
    assert_eq!(once, twice);
}

#[test]
fn fields_are_renamed_and_patched() {
    let fields = vec![pair("a", "1"), pair("b", "2"), pair("c", "3")];
    let mut out = rewrite_fields(
        fields,
        &[pair("a", "d")],
        &[
            ("b".to_string(), None),
            ("c".to_string(), RawJson::new("4")),
            ("e".to_string(), RawJson::new("5")),
        ],
    );
    out.sort();
    assert_eq!(out, vec![pair("c", "4"), pair("d", "1"), pair("e", "5")]);
}

#[test]
fn pairs_follow_the_configuration() {
    let rename = rename_pairs(&json(r#"{"b": "y", "a": "x", "n": 1}"#));
    assert_eq!(rename, vec![pair("a", "x"), pair("b", "y")]);
    let patch = patch_pairs(&json(r#"{"s": "q\"", "n": null, "o": { "k": [1, 2.0] }}"#));
    let shown: Vec<(&str, Option<&str>)> = patch
        .iter()
        .map(|(key, raw)| (key.as_str(), raw.as_ref().map(|raw| raw.get())))
        .collect();
    assert_eq!(
        shown,
        vec![
            ("n", None),
            ("o", Some(r#"{"k":[1,2.0]}"#)),
            ("s", Some(r#""q\"""#)),
        ]
    );
}

#[test]
fn raw_json_keeps_the_text_of_one_value() {
    assert_eq!(RawJson::new(" [1, 2] ").unwrap().get(), "[1, 2]");
    assert!(RawJson::new("1 2").is_none());
    assert!(RawJson::new("").is_none());
    assert!(RawJson::new("null").unwrap().is_null());
    assert!(!RawJson::new("\"null\"").unwrap().is_null());
    assert_eq!(RawJson::new("1.50").unwrap().clone().get(), "1.50");
}

#[test]
fn json_is_told_apart() {
    assert!(matches!(json("null"), JsonShape::Null));
    assert!(matches!(json("3"), JsonShape::Other));
    assert!(matches!(json("\"x\""), JsonShape::Other));
    match json(r#"{"k": "v"}"#) {
        JsonShape::Object(entries) => {
            assert_eq!(entries.len(), 1);
            assert_eq!(entries[0].0, "k");
            assert_eq!(entries[0].1.text.as_deref(), Some("v"));
            assert_eq!(entries[0].1.raw.get(), "\"v\"");
        }
        _ => panic!("not an object"),
    }
    let message = parse_json("{").unwrap_err();
    assert_eq!(message, "EOF while parsing an object at line 1 column 1");
}
