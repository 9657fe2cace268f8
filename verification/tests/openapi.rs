//! OpenAPI documents of scripts.

use mq_http::openapi::{build_openapi_json, parse_script, swagger_ui_html};

#[test]
fn test_parse_script_links_annotations_to_routes() {
    let script = "# @summary Health check\n# @tag health\ndef handle_health(_):\n  http::json_ok({\"status\": \"ok\"})\nend\n\nhttp::dispatch(req, [\n  fn(r): http::get_route(r, \"/health\", fn(r): handle_health(r););,\n])";
    let routes = parse_script(script);
    assert_eq!(routes.len(), 1);
    assert_eq!(routes[0].method, "GET");
    assert_eq!(routes[0].path, "/health");
    assert_eq!(
        routes[0].annotation.summary.as_deref(),
        Some("Health check")
    );
    assert_eq!(routes[0].annotation.tags, vec!["health"]);
}

#[test]
fn test_parse_script_route_without_annotation() {
    let script = "http::get_route(r, \"/bare\", fn(r): h(r);)";
    let routes = parse_script(script);
    assert_eq!(routes.len(), 1);
    assert!(routes[0].annotation.summary.is_none());
    assert!(routes[0].annotation.tags.is_empty());
}

#[test]
fn test_openapi_json_structure() {
    let routes = parse_script("");
    let spec = build_openapi_json("My API", "2.0.0", &routes);
    assert_eq!(spec["openapi"], "3.0.3");
    assert_eq!(spec["info"]["title"], "My API");
    assert_eq!(spec["info"]["version"], "2.0.0");
}

#[test]
fn test_openapi_json_default_response() {
    let script = "http::get_route(r, \"/ping\", fn(r): h(r);)";
    let routes = parse_script(script);
    let spec = build_openapi_json("T", "1", &routes);
    assert_eq!(
        spec["paths"]["/ping"]["get"]["responses"]["200"]["description"],
        "Success"
    );
}

#[test]
fn test_openapi_json_with_full_annotations() {
    let script = "# @summary List items\n# @tag items\n# @param page query integer false \"Page number\"\n# @response 200 application/json \"Item list\"\n# @response 400 \"Bad request\"\ndef handle_list(_):\nend\nhttp::get_route(r, \"/items\", fn(r): handle_list(r);)";
    let routes = parse_script(script);
    let spec = build_openapi_json("T", "1", &routes);
    let op = &spec["paths"]["/items"]["get"];

    assert_eq!(op["summary"], "List items");
    assert_eq!(op["tags"][0], "items");
    assert_eq!(op["parameters"][0]["name"], "page");
    assert_eq!(op["parameters"][0]["in"], "query");
    assert_eq!(op["parameters"][0]["schema"]["type"], "integer");
    assert_eq!(op["responses"]["200"]["description"], "Item list");
    assert_eq!(op["responses"]["400"]["description"], "Bad request");
    assert_eq!(
        op["responses"]["200"]["content"]["application/json"]["schema"]["type"],
        "object"
    );
    assert!(op["responses"]["400"].get("content").is_none());
    assert_eq!(op["parameters"][0]["required"], false);
    assert_eq!(op["parameters"][0]["description"], "Page number");
}

#[test]
fn test_openapi_json_method_lowercase() {
    let cases = [
        ("GET", "get"),
        ("POST", "post"),
        ("PUT", "put"),
        ("PATCH", "patch"),
        ("DELETE", "delete"),
    ];
    for (script_method_keyword, expected_json_key) in cases {
        let method_lower = script_method_keyword.to_lowercase();
        let script = format!("http::{method_lower}_route(r, \"/x\", fn(r): h(r);)");
        let routes = parse_script(&script);
        let spec = build_openapi_json("T", "1", &routes);
        assert!(spec["paths"]["/x"][expected_json_key].is_object());
    }
}

#[test]
fn document_text_is_exact() {
    let script = "# @summary S\n# @description one\n# @description two\ndef h(_):\nend\nhttp::get_route(r, \"/p\", fn(r): h(r);)";
    let spec = build_openapi_json("T", "1", &parse_script(script));
    assert_eq!(
        spec.to_string(),
        "{\"openapi\":\"3.0.3\",\"info\":{\"title\":\"T\",\"version\":\"1\"},\"paths\":{\"/p\":{\"get\":{\"summary\":\"S\",\"description\":\"one\\ntwo\",\"responses\":{\"200\":{\"description\":\"Success\"}}}}}}"
    );
}

#[test]
fn one_path_holds_several_methods_and_the_last_of_one_wins() {
    let script = "# @summary first\ndef a(_):\nend\n# @summary second\ndef b(_):\nend\nhttp::dispatch(req, [\n  fn(r): http::get_route(r, \"/p\", fn(r): a(r););,\n  fn(r): http::post_route(r, \"/p\", fn(r): a(r););,\n  fn(r): http::route(r, \"Get\", \"/p\", fn(r): b(r););,\n])";
    let routes = parse_script(script);
    assert_eq!(routes.len(), 3);
    let spec = build_openapi_json("T", "1", &routes);
    assert_eq!(spec["paths"]["/p"]["get"]["summary"], "second");
    assert_eq!(spec["paths"]["/p"]["post"]["summary"], "first");
}

#[test]
fn swagger_page_names_the_title_and_the_document() {
    let page = swagger_ui_html("My <API>");
    assert!(page.starts_with("<!DOCTYPE html>\n<html lang=\"en\">\n"));
    assert!(page.contains("<title>My <API> — API Docs</title>"));
    assert!(page.contains("url: \"/_openapi.json\","));
    assert!(page.contains("body { margin: 0; }"));
    assert!(page.ends_with("</html>"));
}
