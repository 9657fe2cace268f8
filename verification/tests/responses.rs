//! From script values to replies.

use mq_http::number::{clamp, whole};
use mq_http::reply::{build_reply, Body, Reply};
use mq_http::response::{can_answer, runtime_value_to_json, runtime_value_to_response};
use mq_http::value::{read_value, Content, ScriptValue};
use mq_lang::{Ident, RuntimeValue};
use serde_json::Value;
use std::collections::BTreeMap;

fn text(content: &str) -> RuntimeValue {
    RuntimeValue::String(content.to_string())
}

fn dict(entries: Vec<(&str, RuntimeValue)>) -> RuntimeValue {
    let map: BTreeMap<Ident, RuntimeValue> = entries
        .into_iter()
        .map(|(k, v)| (Ident::new(k), v))
        .collect();
    RuntimeValue::Dict(map)
}

fn to_json(value: &RuntimeValue) -> Value {
    runtime_value_to_json(&read_value(value))
}

fn respond(value: RuntimeValue, format: &str) -> Reply {
    let value = read_value(&value);
    assert!(can_answer(&value));
    runtime_value_to_response(&value, format)
}

fn header<'a>(reply: &'a Reply, name: &str) -> Option<&'a str> {
    reply
        .headers
        .iter()
        .find(|h| h.0 == name)
        .map(|h| h.1.as_str())
}

fn body_string(reply: &Reply) -> &str {
    match &reply.body {
        Body::Text(text) => text,
        Body::Events(_) => panic!("an event stream"),
    }
}

#[test]
fn test_to_json_primitives() {
    assert_eq!(to_json(&text("hello")), Value::from("hello"));
    assert_eq!(to_json(&RuntimeValue::Boolean(true)), Value::from(true));
    assert_eq!(to_json(&RuntimeValue::Boolean(false)), Value::from(false));
}

#[test]
fn test_to_json_number_integer() {
    for n in [42i64, -1i64] {
        let value = RuntimeValue::Number(n.into());
        assert_eq!(to_json(&value), Value::from(n));
    }
}

#[test]
fn test_to_json_number_float() {
    let json_val = to_json(&RuntimeValue::Number(3i64.into()));
    assert_eq!(json_val, Value::from(3));
}

#[test]
fn test_to_json_array() {
    let value = RuntimeValue::Array(vec![
        RuntimeValue::Number(1i64.into()),
        RuntimeValue::String("two".into()),
        RuntimeValue::Boolean(false),
    ]);
    assert_eq!(
        to_json(&value),
        Value::Array(vec![
            Value::from(1),
            Value::from("two"),
            Value::from(false)
        ])
    );
}

#[test]
fn test_to_json_null_for_unknown_types() {
    assert_eq!(to_json(&RuntimeValue::NONE), Value::Null);
}

#[test]
fn fractions_and_large_numbers_stay_floats() {
    assert_eq!(
        to_json(&RuntimeValue::Number(1.5f64.into())),
        Value::from(1.5f64)
    );
    assert_eq!(
        to_json(&RuntimeValue::Number(9007199254740991f64.into())),
        Value::from(9007199254740991i64)
    );
    assert_eq!(
        to_json(&RuntimeValue::Number(9007199254740992f64.into())),
        Value::from(9007199254740992f64)
    );
    assert_eq!(
        to_json(&RuntimeValue::Number((-0.0f64).into())),
        Value::from(0)
    );
    assert_eq!(
        to_json(&RuntimeValue::Number(f64::INFINITY.into())),
        Value::Null
    );
    assert_eq!(to_json(&RuntimeValue::Number(f64::NAN.into())), Value::Null);
}

#[test]
fn doubles_are_read_by_their_bits() {
    for n in [
        0.0f64,
        1.0,
        -1.0,
        2.0,
        200.0,
        -4503599627370497.0,
        9007199254740991.0,
        123456.0,
    ] {
        assert_eq!(whole(n.to_bits()), Some(n as i64));
    }
    for n in [
        0.5f64,
        -0.25,
        f64::MIN_POSITIVE,
        5e-324,
        1e300,
        9007199254740992.0,
        4503599627370495.5,
        f64::NAN,
        f64::NEG_INFINITY,
    ] {
        assert_eq!(whole(n.to_bits()), None);
    }
    for n in [
        0.0f64,
        -0.0,
        0.99,
        1.0,
        -7.0,
        200.9,
        404.0,
        65534.5,
        65535.0,
        65536.0,
        1e20,
        f64::NAN,
        f64::INFINITY,
        f64::NEG_INFINITY,
        -f64::NAN,
    ] {
        assert_eq!(clamp(n.to_bits()), n as u16);
    }
}

#[test]
fn dicts_become_objects() {
    let value = dict(vec![
        ("a", RuntimeValue::Number(1i64.into())),
        ("b", RuntimeValue::Array(vec![RuntimeValue::NONE])),
    ]);
    let json = to_json(&value);
    assert_eq!(json["a"], 1);
    assert_eq!(json["b"], Value::Array(vec![Value::Null]));
    assert_eq!(json.as_object().unwrap().len(), 2);
}

#[test]
fn test_string_response_content_type() {
    let cases = [
        ("json", "application/json"),
        ("markdown", "text/markdown; charset=utf-8"),
        ("text", "text/plain; charset=utf-8"),
        ("html", "text/html; charset=utf-8"),
    ];
    for (format, expected_ct) in cases {
        let resp = respond(RuntimeValue::String("body".into()), format);
        assert_eq!(header(&resp, "content-type"), Some(expected_ct));
        assert_eq!(body_string(&resp), "body");
        assert_eq!(resp.status, 200);
    }
}

#[test]
fn test_dict_response_status() {
    let value = dict(vec![
        ("status", RuntimeValue::Number(201i64.into())),
        ("body", RuntimeValue::String("created".into())),
    ]);
    let resp = respond(value, "json");
    assert_eq!(resp.status, 201);
    assert_eq!(body_string(&resp), "created");
}

#[test]
fn test_dict_response_custom_header() {
    let value = dict(vec![
        ("status", RuntimeValue::Number(200i64.into())),
        (
            "headers",
            dict(vec![("x-custom", RuntimeValue::String("value42".into()))]),
        ),
        ("body", RuntimeValue::String("ok".into())),
    ]);
    let resp = respond(value, "json");
    assert_eq!(header(&resp, "x-custom"), Some("value42"));
}

#[test]
fn test_dict_without_status_treated_as_json() {
    // A dict with no "status"/"body"/"headers" keys is treated as plain JSON
    let value = dict(vec![("foo", RuntimeValue::String("bar".into()))]);
    let resp = respond(value, "json");
    assert_eq!(resp.status, 200);
    let parsed: serde_json::Value = serde_json::from_str(body_string(&resp)).unwrap();
    assert_eq!(parsed["foo"], "bar");
}

#[test]
fn test_array_response_is_json() {
    let value = RuntimeValue::Array(vec![
        RuntimeValue::Number(1i64.into()),
        RuntimeValue::Number(2i64.into()),
    ]);
    let resp = respond(value, "markdown");
    assert_eq!(header(&resp, "content-type"), Some("application/json"));
    let parsed: serde_json::Value = serde_json::from_str(body_string(&resp)).unwrap();
    assert_eq!(parsed, Value::Array(vec![Value::from(1), Value::from(2)]));
}

#[test]
fn test_dict_response_sets_cookie() {
    let value = dict(vec![
        ("status", RuntimeValue::Number(200i64.into())),
        (
            "cookies",
            dict(vec![("session", RuntimeValue::String("abc123".into()))]),
        ),
        ("body", RuntimeValue::String("ok".into())),
    ]);
    let resp = respond(value, "json");
    let cookie = header(&resp, "set-cookie").unwrap();
    assert!(cookie.contains("session=abc123"));
    assert_eq!(cookie, "session=abc123");
}

#[test]
fn plain_dicts_are_json_in_every_format() {
    for format in ["json", "text", "markdown", "html", "other"] {
        let resp = respond(dict(vec![("foo", text("bar"))]), format);
        assert_eq!(header(&resp, "content-type"), Some("application/json"));
        assert_eq!(body_string(&resp), "{\"foo\":\"bar\"}");
    }
}

#[test]
fn bad_statuses_become_success() {
    for status in [
        RuntimeValue::Number(99i64.into()),
        RuntimeValue::Number(1000i64.into()),
        RuntimeValue::Number((-1i64).into()),
        RuntimeValue::Number(f64::NAN.into()),
        text("404"),
    ] {
        let resp = respond(dict(vec![("status", status)]), "json");
        assert_eq!(resp.status, 200);
        assert_eq!(body_string(&resp), "");
    }
    for (n, expected) in [(100.0, 100), (999.0, 999), (404.7, 404)] {
        let resp = respond(
            dict(vec![("status", RuntimeValue::Number(f64::into(n)))]),
            "json",
        );
        assert_eq!(resp.status, expected);
    }
}

#[test]
fn a_bad_header_empties_the_reply() {
    for (name, content) in [
        ("x y", "ok"),
        ("", "ok"),
        ("x-ok", "line\nbreak"),
        ("x-ok", "\u{7f}"),
        ("é", "ok"),
    ] {
        let value = dict(vec![
            ("status", RuntimeValue::Number(404i64.into())),
            ("headers", dict(vec![(name, text(content))])),
            ("body", text("gone")),
        ]);
        let resp = respond(value, "json");
        assert_eq!(resp.status, 200);
        assert!(resp.headers.is_empty());
        assert_eq!(body_string(&resp), "");
    }
}

#[test]
fn header_names_are_lowered_and_values_kept() {
    let value = dict(vec![(
        "headers",
        dict(vec![("X-Custom_1", text("Wert\té"))]),
    )]);
    let resp = respond(value, "json");
    assert_eq!(
        resp.headers,
        vec![("x-custom_1".to_string(), "Wert\té".to_string())]
    );
}

#[test]
fn long_header_names_are_refused() {
    let asked = vec![("a".repeat(65535), "1".to_string())];
    assert_eq!(build_reply(204, &asked, String::new()).status, 204);
    let asked = vec![("a".repeat(65536), "1".to_string())];
    assert_eq!(build_reply(204, &asked, String::new()).status, 200);
}

#[test]
fn header_values_show_other_values_as_text() {
    let value = dict(vec![(
        "headers",
        dict(vec![("x-n", RuntimeValue::Number(7i64.into()))]),
    )]);
    assert_eq!(header(&respond(value, "json"), "x-n"), Some("7"));
}

#[test]
fn described_bodies_bring_their_type() {
    let value = dict(vec![("body", dict(vec![("k", text("v"))]))]);
    let resp = respond(value, "html");
    assert_eq!(header(&resp, "content-type"), Some("application/json"));
    assert_eq!(body_string(&resp), "{\"k\":\"v\"}");

    let value = dict(vec![("body", RuntimeValue::Array(vec![text("v")]))]);
    let resp = respond(value, "html");
    assert_eq!(header(&resp, "content-type"), Some("application/json"));
    assert_eq!(body_string(&resp), "[\"v\"]");

    let value = dict(vec![("body", RuntimeValue::Number(5i64.into()))]);
    let resp = respond(value, "html");
    assert_eq!(header(&resp, "content-type"), None);
    assert_eq!(body_string(&resp), "5");
}

fn heading() -> RuntimeValue {
    let node = mq_markdown::Markdown::from_markdown_str("# Title").unwrap().nodes[0].clone();
    RuntimeValue::from(node)
}

#[test]
fn markdown_is_rendered_for_html_only() {
    for (format, content_type, body) in [
        ("text", "text/plain; charset=utf-8", "# Title\n"),
        ("markdown", "text/markdown; charset=utf-8", "# Title\n"),
        ("html", "text/html; charset=utf-8", "<h1>Title</h1>"),
        ("json", "text/html; charset=utf-8", "<h1>Title</h1>"),
    ] {
        let resp = respond(heading(), format);
        assert_eq!(header(&resp, "content-type"), Some(content_type));
        assert_eq!(body_string(&resp).trim_end(), body.trim_end());
        let resp = respond(dict(vec![("body", heading())]), format);
        assert_eq!(header(&resp, "content-type"), Some(content_type));
        assert_eq!(body_string(&resp).trim_end(), body.trim_end());
    }
}

#[test]
fn other_values_are_shown_as_text() {
    for (value, body) in [
        (RuntimeValue::Number(12i64.into()), "12"),
        (RuntimeValue::Boolean(true), "true"),
        (RuntimeValue::NONE, ""),
        (RuntimeValue::Symbol(Ident::new("sym")), ":sym"),
    ] {
        let resp = respond(value, "json");
        assert_eq!(
            header(&resp, "content-type"),
            Some("text/plain; charset=utf-8")
        );
        assert_eq!(body_string(&resp), body);
    }
}

#[test]
fn event_lists_become_event_streams() {
    let value = dict(vec![
        (
            "sse",
            RuntimeValue::Array(vec![
                dict(vec![("data", text("a\nb")), ("event", text("done"))]),
                dict(vec![
                    ("data", dict(vec![("n", RuntimeValue::Number(1i64.into()))])),
                    ("id", text("7")),
                ]),
                text("plain"),
                dict(vec![("event", RuntimeValue::Boolean(true))]),
            ]),
        ),
        ("status", RuntimeValue::Number(404i64.into())),
    ]);
    let resp = respond(value, "json");
    assert_eq!(resp.status, 200);
    assert_eq!(
        resp.headers,
        vec![
            ("content-type".to_string(), "text/event-stream".to_string()),
            ("cache-control".to_string(), "no-cache".to_string()),
        ]
    );
    let events = match resp.body {
        Body::Events(events) => events,
        Body::Text(_) => panic!("a text"),
    };
    assert_eq!(events.len(), 4);
    assert_eq!(events[0].data.as_deref(), Some("a\nb"));
    assert_eq!(events[0].event.as_deref(), Some("done"));
    assert_eq!(events[0].id, None);
    assert_eq!(events[1].data.as_deref(), Some("{\"n\":1}"));
    assert_eq!(events[1].id.as_deref(), Some("7"));
    assert_eq!(events[2].data.as_deref(), Some("plain"));
    assert_eq!(events[3].data, None);
    assert_eq!(events[3].event, None);
}

#[test]
fn events_that_break_lines_cannot_be_sent() {
    for (field, content) in [
        ("event", "a\nb"),
        ("event", "a\rb"),
        ("id", "a\nb"),
        ("id", "a\rb"),
        ("id", "a\0b"),
    ] {
        let value = dict(vec![(
            "sse",
            RuntimeValue::Array(vec![dict(vec![(field, text(content))])]),
        )]);
        assert!(!can_answer(&read_value(&value)));
    }
    let value = dict(vec![(
        "sse",
        RuntimeValue::Array(vec![dict(vec![("event", text("a\0b"))])]),
    )]);
    assert!(can_answer(&read_value(&value)));
}

#[test]
fn a_dict_under_sse_is_no_event_list() {
    let resp = respond(dict(vec![("sse", text("x"))]), "json");
    assert_eq!(body_string(&resp), "{\"sse\":\"x\"}");
}

#[test]
fn values_can_be_written_by_hand() {
    let value = ScriptValue {
        content: Content::Text("hi".to_string()),
        text: "hi".to_string(),
    };
    let resp = runtime_value_to_response(&value, "text");
    assert_eq!(body_string(&resp), "hi");
}

#[test]
fn reading_keeps_every_level() {
    let value = dict(vec![("list", RuntimeValue::Array(vec![text("x")]))]);
    match read_value(&value).content {
        Content::Dict(entries) => {
            assert_eq!(entries.len(), 1);
            assert_eq!(entries[0].0, "list");
            assert!(matches!(&entries[0].1.content, Content::Array(items)
                if matches!(&items[0].content, Content::Text(t) if t == "x")));
        }
        _ => panic!("no dictionary"),
    }
}

/// What the builder of the web server makes of the headers.
fn is_built(asked: &[(String, String)]) -> bool {
    let mut builder = axum::http::Response::builder().status(204);
    for (name, value) in asked {
        builder = builder.header(name.as_str(), value.as_str());
    }
    builder.body(()).is_ok()
}

#[test]
fn header_tables_have_an_end() {
    let mut asked: Vec<(String, String)> = (0..24_576)
        .map(|i| (format!("X-Header-{i}"), "1".to_string()))
        .collect();
    assert!(is_built(&asked));
    let reply = build_reply(204, &asked, "x".into());
    assert_eq!(reply.status, 204);
    assert_eq!(reply.headers.len(), 24_576);
    assert_eq!(reply.headers[7].0, "x-header-7");

    // A full table takes no name twice either.
    asked.push(("x-header-7".into(), "2".into()));
    assert!(!is_built(&asked));
    let reply = build_reply(204, &asked, "x".into());
    assert_eq!(reply.status, 200);
    assert!(reply.headers.is_empty());
    assert_eq!(body_string(&reply), "");

    // Names that differ in case only are one name.
    let mut asked: Vec<(String, String)> = (0..30_000)
        .map(|i| (["Set-Cookie", "set-cookie"][i % 2].to_string(), format!("{i}")))
        .collect();
    assert!(is_built(&asked));
    assert_eq!(build_reply(204, &asked, "x".into()).headers.len(), 30_000);
    asked.push(("a b".into(), "1".into()));
    assert!(!is_built(&asked));
    assert_eq!(build_reply(204, &asked, "x".into()).status, 200);
}

#[test]
fn numbers_in_json_are_their_doubles() {
    let list = RuntimeValue::Array(vec![
        RuntimeValue::Number(0.1.into()),
        RuntimeValue::Number(f64::INFINITY.into()),
        RuntimeValue::Number(1e300.into()),
    ]);
    let json = to_json(&list);
    assert_eq!(json[0].as_f64(), Some(0.1));
    assert!(json[1].is_null());
    assert_eq!(json[2].as_f64(), Some(1e300));
}
