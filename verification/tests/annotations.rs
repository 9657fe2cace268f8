//! Annotations above `def`s, and routes in scripts.

use mq_http::annotation::{build_annotation, parse_func_annotations};
use mq_http::route::{extract_routes, inject_pipe_after_top_level_end};

#[test]
fn test_annotation_summary() {
    let cases = [
        (
            "# @summary Health check\ndef handle_health(_):\n  http::ok(\"\")\nend",
            "handle_health",
            Some("Health check"),
        ),
        (
            "# @summary   Leading spaces trimmed  \ndef my_fn(_):\nend",
            "my_fn",
            Some("Leading spaces trimmed"),
        ),
        ("def no_annotation(_):\nend", "no_annotation", None),
    ];
    for (script, func, expected) in cases {
        let annotations = parse_func_annotations(script);
        assert_eq!(
            annotations.get(func).and_then(|a| a.summary.as_deref()),
            expected
        );
    }
}

#[test]
fn test_annotation_tags() {
    let cases: [(&str, &str, &[&str]); 3] = [
        (
            "# @tag health\n# @tag api\ndef fn1(_):\nend",
            "fn1",
            &["health", "api"],
        ),
        ("# @tag only_one\ndef fn2(_):\nend", "fn2", &["only_one"]),
        ("def fn3(_):\nend", "fn3", &[]),
    ];
    for (script, func, expected_tags) in cases {
        let annotations = parse_func_annotations(script);
        let tags: Vec<&str> = annotations
            .get(func)
            .map(|a| a.tags.iter().map(String::as_str).collect())
            .unwrap_or_default();
        assert_eq!(tags, expected_tags);
    }
}

#[test]
fn test_annotation_param_full() {
    let script = "# @param name query string true \"User name\"\ndef handle(_):\nend";
    let annotations = parse_func_annotations(script);
    let param = &annotations.get("handle").unwrap().params[0];
    assert_eq!(param.name, "name");
    assert_eq!(param.location, "query");
    assert_eq!(param.schema_type, "string");
    assert!(param.required);
    assert_eq!(param.description, "User name");
}

#[test]
fn test_annotation_response() {
    let cases = [
        (
            "# @response 200 application/json \"OK\"\ndef h(_):\nend",
            "h",
            "200",
            Some("application/json"),
            "OK",
        ),
        (
            "# @response 404 \"Not found\"\ndef h2(_):\nend",
            "h2",
            "404",
            None,
            "Not found",
        ),
        ("# @response 204\ndef h3(_):\nend", "h3", "204", None, ""),
    ];
    for (script, func, expected_status, expected_ct, expected_desc) in cases {
        let annotations = parse_func_annotations(script);
        let resp = &annotations.get(func).unwrap().responses[0];
        assert_eq!(resp.status, expected_status);
        assert_eq!(resp.content_type.as_deref(), expected_ct);
        assert_eq!(resp.description, expected_desc);
    }
}

#[test]
fn test_annotation_reset_on_blank_line() {
    // Blank line between annotation block and def → annotations NOT associated
    let script = "# @summary Orphaned\n\ndef fn_after_blank(_):\nend";
    let annotations = parse_func_annotations(script);
    assert!(annotations
        .get("fn_after_blank")
        .and_then(|a| a.summary.as_ref())
        .is_none());
}

#[test]
fn test_annotation_multiple_functions() {
    let script = "# @summary First\ndef fn_a(_):\nend\n# @summary Second\ndef fn_b(_):\nend";
    let annotations = parse_func_annotations(script);
    assert_eq!(
        annotations.get("fn_a").unwrap().summary.as_deref(),
        Some("First")
    );
    assert_eq!(
        annotations.get("fn_b").unwrap().summary.as_deref(),
        Some("Second")
    );
}

#[test]
fn plain_comments_keep_a_block_together() {
    let script = "# @summary S\n# just a note\n#\n# @tag t\ndef f(_):\nend";
    let annotations = parse_func_annotations(script);
    let ann = annotations.get("f").unwrap();
    assert_eq!(ann.summary.as_deref(), Some("S"));
    assert_eq!(ann.tags, vec!["t"]);
}

#[test]
fn other_lines_drop_a_block() {
    let script = "# @summary S\nlet x = 1\ndef f(_):\nend";
    assert!(parse_func_annotations(script).get("f").is_none());
}

#[test]
fn a_comment_without_a_space_is_no_comment_line() {
    let script = "# @summary S\n#x\ndef f(_):\nend";
    assert!(parse_func_annotations(script).get("f").is_none());
}

#[test]
fn def_name_ends_at_space_or_parenthesis() {
    let script = "# @summary S\ndef spaced : 1;\n# @summary T\ndef called(x): x;";
    let annotations = parse_func_annotations(script);
    assert_eq!(
        annotations.get("spaced").unwrap().summary.as_deref(),
        Some("S")
    );
    assert_eq!(
        annotations.get("called").unwrap().summary.as_deref(),
        Some("T")
    );
}

fn lines(list: &[&str]) -> Vec<String> {
    list.iter().map(|l| l.to_string()).collect()
}

#[test]
fn param_defaults() {
    let ann = build_annotation(&lines(&["param id"]));
    assert_eq!(ann.params[0].name, "id");
    assert_eq!(ann.params[0].location, "query");
    assert_eq!(ann.params[0].schema_type, "string");
    assert!(!ann.params[0].required);
    assert_eq!(ann.params[0].description, "");
}

#[test]
fn param_description_may_have_spaces() {
    let ann = build_annotation(&lines(&["param id path integer yes \"The id of it\""]));
    assert_eq!(ann.params[0].location, "path");
    assert_eq!(ann.params[0].schema_type, "integer");
    assert!(!ann.params[0].required);
    assert_eq!(ann.params[0].description, "The id of it");
}

#[test]
fn response_forms() {
    let ann = build_annotation(&lines(&[
        "response 200 text/html",
        "response 201 Created",
        "response 202 text/plain  \"All good\" ",
        "response",
    ]));
    assert_eq!(ann.responses[0].content_type.as_deref(), Some("text/html"));
    assert_eq!(ann.responses[0].description, "");
    assert_eq!(ann.responses[1].content_type, None);
    assert_eq!(ann.responses[1].description, "Created");
    assert_eq!(ann.responses[2].content_type.as_deref(), Some("text/plain"));
    assert_eq!(ann.responses[2].description, "All good");
    assert_eq!(ann.responses[3].status, "");
}

#[test]
fn later_summary_wins_and_descriptions_add_up() {
    let ann = build_annotation(&lines(&[
        "summary One",
        "description a",
        "summary Two",
        "description b",
        "unknown x",
    ]));
    assert_eq!(ann.summary.as_deref(), Some("Two"));
    assert_eq!(ann.description, vec!["a", "b"]);
    assert!(ann.tags.is_empty());
}

#[test]
fn test_extract_method_routes() {
    let cases = [
        ("http::get_route(r, \"/\", fn(r): handle(r);)", "GET", "/"),
        (
            "http::post_route(r, \"/items\", fn(r): h(r);)",
            "POST",
            "/items",
        ),
        ("http::put_route(r, \"/x\", fn(r): h(r);)", "PUT", "/x"),
        ("http::patch_route(r, \"/y\", fn(r): h(r);)", "PATCH", "/y"),
        (
            "http::delete_route(r, \"/z\", fn(r): h(r);)",
            "DELETE",
            "/z",
        ),
    ];
    for (script, expected_method, expected_path) in cases {
        let routes = extract_routes(script);
        assert_eq!(routes.len(), 1);
        assert_eq!(routes[0].0, expected_method);
        assert_eq!(routes[0].1, expected_path);
    }
}

#[test]
fn test_extract_route_handler_name() {
    let script = "http::get_route(r, \"/health\", fn(r): handle_health(r);)";
    let routes = extract_routes(script);
    assert_eq!(routes[0].2.as_deref(), Some("handle_health"));
}

#[test]
fn test_extract_generic_route() {
    let script = r#"http::route(r, "DELETE", "/items", fn(r): del(r);)"#;
    let routes = extract_routes(script);
    assert_eq!(routes.len(), 1);
    assert_eq!(routes[0].0, "DELETE");
    assert_eq!(routes[0].1, "/items");
}

#[test]
fn test_extract_multiple_routes() {
    let script = "http::dispatch(req, [\n  fn(r): http::get_route(r, \"/a\", fn(r): h_a(r););,\n  fn(r): http::post_route(r, \"/b\", fn(r): h_b(r););,\n  fn(r): http::delete_route(r, \"/c\", fn(r): h_c(r););,\n])";
    let routes = extract_routes(script);
    assert_eq!(routes.len(), 3);
    let paths: Vec<&str> = routes.iter().map(|r| r.1.as_str()).collect();
    assert_eq!(paths, vec!["/a", "/b", "/c"]);
}

#[test]
fn test_extract_no_routes() {
    assert!(extract_routes("def handle(_):\n  http::ok(\"\")\nend").is_empty());
}

#[test]
fn a_route_without_a_path_is_none() {
    assert!(extract_routes("http::get_route(r, fn(r): h(r);)").is_empty());
    assert!(extract_routes("http::route(r, \"GET\", fn(r): h(r);)").is_empty());
}

#[test]
fn pipes_follow_outermost_ends() {
    let script = "def a():\n  def b():\n  end\nend\nx";
    assert_eq!(
        inject_pipe_after_top_level_end(script),
        "def a():\n  def b():\n  end\nend\n|\nx\n"
    );
}

#[test]
fn no_def_no_pipe() {
    assert_eq!(inject_pipe_after_top_level_end("a\r\nend\nb"), "a\nend\nb\n");
    assert_eq!(inject_pipe_after_top_level_end(""), "");
}

#[test]
fn pipes_follow_no_inner_end() {
    assert_eq!(
        inject_pipe_after_top_level_end(
            "def f(x):\n  let g = fn(y):\n    y\n  end\n  | g(x)\nend\nh(1)"
        ),
        "def f(x):\n  let g = fn(y):\n    y\n  end\n  | g(x)\nend\n|\nh(1)\n"
    );
    let inner = [
        "let g = fn(y) do\n    y\n  end",
        "let g = -> (y):\n    y\n  end",
        "foreach (y, x):\n    y\n  end",
        "while (y) do\n    y\n  end",
        "loop:\n    break\n  end",
        "match (x):\n    | 1: \"end\"\n    | _: 2\n  end",
        "do\n    1\n  end",
        "quote do\n    1\n  end",
        "let a = [\n    fn(y):\n      y\n    end\n  ]",
        "let s = \"def\n  fn\" # def do\n  end_of(x)",
        "let s = s\"fn ${x} do\" | x.end | my-end | end_",
    ];
    for block in inner {
        let script = format!("def f(x):\n  {block}\nend\nh(1)\n");
        assert_eq!(
            inject_pipe_after_top_level_end(&script),
            format!("def f(x):\n  {block}\nend\n|\nh(1)\n")
        );
    }
}

#[test]
fn pipes_follow_every_kind_of_block() {
    for head in ["def f(x) do", "macro m(x) do", "module m:", "loop do", "match (x) do"] {
        let script = format!("{head}\n  1\nend\nh(1)\n");
        assert_eq!(
            inject_pipe_after_top_level_end(&script),
            format!("{head}\n  1\nend\n|\nh(1)\n")
        );
    }
}

#[test]
fn blocks_closed_on_their_line_do_not_count() {
    let script = "def f(x): x;\ndef g(x): fn(y): y;;\ndef h(x): do x end;\nend\n";
    assert_eq!(inject_pipe_after_top_level_end(script), script);
    let script = "def f(x): x;\ndef g(x):\n  let k = fn(y): y;\n  | k(x)\nend\nh(1)\n";
    assert_eq!(
        inject_pipe_after_top_level_end(script),
        "def f(x): x;\ndef g(x):\n  let k = fn(y): y;\n  | k(x)\nend\n|\nh(1)\n"
    );
}

#[test]
fn ends_in_brackets_are_not_at_the_top() {
    let script = "a([\n  fn(y):\n    y\n  end\n])\n";
    assert_eq!(inject_pipe_after_top_level_end(script), script);
}

#[test]
fn open_strings_are_parsed_to_their_end() {
    for script in ["s\"a", "s\"a ${b", "\"a", "s\"a\\", "# a", "s\""] {
        assert_eq!(extract_routes(script).len(), 0);
    }
    let script = "http::get_route(r, \"/a\", fn(r): f(r);) | s\"a";
    let routes = extract_routes(script);
    assert!(routes.len() <= 1);
    let routes = extract_routes("http::get_route(r, \"/a\", fn(r): f(r);) # s\"a");
    assert_eq!(
        routes,
        vec![("GET".to_string(), "/a".to_string(), Some("f".to_string()))]
    );
}

#[test]
fn ends_close_no_brackets_of_their_own() {
    for script in ["(\nend\n", "[\nend\nend\n", "{\n;\nend\n", "a)\nend\n"] {
        assert_eq!(inject_pipe_after_top_level_end(script), script);
    }
}

#[test]
fn ends_close_the_brackets_left_open_inside() {
    for body in ["foo(x", "foo(x))", "map(xs, fn(x): x)", "[x, {y", "x]", "\"\nend\n\""] {
        let script = format!("def f(x):\n  {body}\nend\nhttp::get_route(r, \"/a\", f)\n");
        assert_eq!(
            inject_pipe_after_top_level_end(&script),
            format!("def f(x):\n  {body}\nend\n|\nhttp::get_route(r, \"/a\", f)\n")
        );
    }
}

#[test]
fn routes_behind_an_unfinished_call_are_found() {
    let script = "def f(x):\n  map(xs, fn(x): x)\nend\nhttp::get_route(r, \"/a\", fn(r): f(r);)\n";
    let routes = extract_routes(script);
    assert_eq!(
        routes,
        vec![("GET".to_string(), "/a".to_string(), Some("f".to_string()))]
    );
}

fn summary(script: &str, name: &str) -> Option<String> {
    parse_func_annotations(script)
        .get(name)
        .and_then(|annotation| annotation.summary.clone())
}

#[test]
fn the_last_annotated_def_counts() {
    let first = "# @summary one\ndef f(x):\n";
    let second = "  # note\n# @summary two\n#\n  def f x:\n";
    let bare = "def f(x):\n";
    assert_eq!(summary(&format!("{first}{bare}"), "f").as_deref(), Some("one"));
    assert_eq!(
        summary(&format!("{first}{second}{bare}"), "f").as_deref(),
        Some("two")
    );
    assert_eq!(summary(bare, "f"), None);
    assert_eq!(summary("# @summary one\nx\ndef f(x):\n", "f"), None);
}

#[test]
fn blank_lines_split_scripts() {
    let a = "# @summary a\ndef f(x):\n# @summary a\ndef g(x):\n# @summary lost\r";
    let b = "def h(x):\n# @summary b\ndef g(x):";
    let whole = format!("{a}\n\n{b}");
    assert_eq!(summary(&whole, "f").as_deref(), Some("a"));
    assert_eq!(summary(&whole, "g").as_deref(), Some("b"));
    assert_eq!(summary(&whole, "h"), None);
}
