//! What scripts see of requests, and how they are run.

use mq_http::body::{body_kind, parse_body, BodyKind};
use mq_http::cli::Args;
use mq_http::engine::{
    create_engine, load_raw_files, raw_file_paths, read_outcome, FileRead, Outcome, ScriptEngine,
};
use mq_http::handler::{
    call_code, call_plan, call_step, handler, openapi_json_handler, script_code, script_plan,
    script_step, swagger_ui_handler, Start, Step,
};
use mq_http::reply::{Body, Reply};
use mq_http::request::{build_request_value, read_request, RequestParts};
use mq_http::response::runtime_value_to_json;
use mq_http::value::{read_value, Content, ScriptValue};
use mq_lang::RuntimeValue;

fn options() -> Args {
    Args {
        script: None,
        command: None,
        port: 3000,
        addr: "127.0.0.1".into(),
        format: "text".into(),
        module_directories: None,
        args: None,
        raw_file: None,
        reload: false,
        otel_endpoint: None,
        otel_service_name: "test".into(),
        tls_cert: None,
        tls_key: None,
        stdin: false,
        docs: false,
        docs_title: "Test API".into(),
        docs_version: "0.1.0".into(),
        cors_origins: None,
        timeout: None,
        rate_limit: None,
        api_key: None,
        basic_auth: None,
        request_id: false,
        socket: None,
    }
}

fn request() -> RequestParts {
    RequestParts {
        method: "POST".into(),
        path: "/echo".into(),
        uri: "/echo?q=1".into(),
        scheme: None,
        version: "HTTP/1.1".into(),
        query: vec![("q".into(), "1".into())],
        headers: vec![
            ("content-type".into(), b"application/json".to_vec()),
            ("cookie".into(), b"a=1; b = 2 ;c;d=x=y".to_vec()),
            ("x-twice".into(), b"one".to_vec()),
            ("x-twice".into(), b"two".to_vec()),
            ("x-bytes".into(), vec![0xff]),
        ],
        body: b"{\"n\": 1.5, \"ok\": true}".to_vec(),
    }
}

#[test]
fn fields_are_read() {
    let fields = read_request(&request(), "9.9.9.9:1");
    assert_eq!(fields.scheme, "http");
    assert_eq!(fields.remote_addr, "9.9.9.9:1");
    assert_eq!(fields.content_type, "application/json");
    assert_eq!(fields.headers.len(), 5);
    assert_eq!(fields.headers[4], ("x-bytes".to_string(), String::new()));
    assert_eq!(
        fields.cookies,
        vec![
            ("a".to_string(), "1".to_string()),
            ("b ".to_string(), " 2".to_string()),
            ("d".to_string(), "x=y".to_string()),
        ]
    );
    assert_eq!(fields.body, "{\"n\": 1.5, \"ok\": true}");
}

#[test]
fn request_values_have_all_fields() {
    let made = build_request_value(&request(), "9.9.9.9:1");
    let json = runtime_value_to_json(&read_value(&made));
    assert_eq!(json.as_object().unwrap().len(), 10);
    assert_eq!(json["method"], "POST");
    assert_eq!(json["path"], "/echo");
    assert_eq!(json["uri"], "/echo?q=1");
    assert_eq!(json["version"], "HTTP/1.1");
    assert_eq!(json["scheme"], "http");
    assert_eq!(json["remote_addr"], "9.9.9.9:1");
    assert_eq!(json["query"]["q"], "1");
    assert_eq!(json["headers"]["x-twice"], "two");
    assert_eq!(json["cookies"]["a"], "1");
    assert_eq!(json["body"]["n"], 1.5);
    assert_eq!(json["body"]["ok"], true);
}

#[test]
fn the_scheme_of_the_uri_counts() {
    let mut parts = request();
    parts.scheme = Some("https".into());
    assert_eq!(read_request(&parts, "x").scheme, "https");
}

#[test]
fn broken_utf8_is_replaced() {
    let mut parts = request();
    parts.body = vec![b'a', 0xff, b'b'];
    assert_eq!(read_request(&parts, "x").body, "a\u{fffd}b");
}

fn parsed(body: &str, content_type: &str) -> serde_json::Value {
    runtime_value_to_json(&read_value(&parse_body(body, content_type)))
}

#[test]
fn bodies_are_read_by_their_type() {
    assert_eq!(
        parsed("[1, null]", "application/json; charset=utf-8").to_string(),
        "[1,null]"
    );
    let form = parsed("a=1&b=x+y&a=2", "application/x-www-form-urlencoded");
    assert_eq!(form["a"], "2");
    assert_eq!(form["b"], "x y");
    for content_type in ["application/yaml", "text/yaml"] {
        let yaml = parsed("a: 1\nb: [x, y]\n---\nc: 2", content_type);
        assert_eq!(yaml["a"], 1);
        assert_eq!(yaml["b"][1], "y");
        assert!(yaml.get("c").is_none());
    }
    let toml = parsed("a = 1\n[t]\nb = \"x\"\n", "application/toml");
    assert_eq!(toml["a"], 1);
    assert_eq!(toml["t"]["b"], "x");
    assert_eq!(parsed("a = 1", "text/plain"), "a = 1");
    assert_eq!(parsed("{}", ""), "{}");
}

#[test]
fn bodies_that_do_not_parse_stay_texts() {
    for (body, content_type) in [
        ("{", "application/json"),
        ("a: [", "application/yaml"),
        ("", "application/yaml"),
        ("= 1", "application/toml"),
    ] {
        assert_eq!(parsed(body, content_type), body);
    }
}

#[test]
fn content_types_are_searched() {
    assert_eq!(body_kind("application/json"), BodyKind::Json);
    assert_eq!(
        body_kind("x application/x-www-form-urlencoded y"),
        BodyKind::Form
    );
    assert_eq!(
        body_kind("application/yaml, application/json"),
        BodyKind::Json
    );
    assert_eq!(body_kind("application/toml"), BodyKind::Toml);
    assert_eq!(body_kind("Application/JSON"), BodyKind::Plain);
}

#[test]
fn json_bodies_come_back() {
    let sent = "{\"b\":[1,2.5,\"x\",null,false],\"a\":{\"c\":9007199254740991}}";
    let got = parsed(sent, "application/json");
    let expected: serde_json::Value = serde_json::from_str(sent).unwrap();
    assert_eq!(got, expected);
    assert_eq!(parsed("2.0", "application/json"), 2);
}

#[test]
fn numbers_in_bodies_are_doubles() {
    let yaml = parsed("a: 1.5\nb: -2.5e3\nc: .inf\nd: 9007199254740993", "text/yaml");
    assert_eq!(yaml["a"], 1.5);
    assert_eq!(yaml["b"], -2500);
    assert!(yaml["c"].is_null());
    assert_eq!(yaml["d"].as_f64(), Some(9007199254740992.0));
    let json = parsed("[9007199254740993, 18446744073709551615]", "application/json");
    assert_eq!(json[0].as_f64(), Some(9007199254740992.0));
    assert_eq!(json[1].as_f64(), Some(18446744073709551616.0));
}

#[test]
fn code_wraps_the_script() {
    assert_eq!(script_code("x"), "let req = . | x");
    assert_eq!(call_code("x"), "let req = . | let _h = (x) | _h(req)");
}

fn evaluate(mut engine: ScriptEngine, code: &str, input: &RuntimeValue) -> Outcome {
    let result = engine.engine.eval(code, std::iter::once(input.clone()));
    read_outcome(result.map(|values| values.values().clone()))
}

fn begin(script: &str) -> Step {
    match handler(&options(), Some(script), &request(), "9.9.9.9:1", &vec![]) {
        Start::Run {
            script_engine,
            code,
            request,
        } => {
            assert_eq!(code, script_code(script));
            script_step(evaluate(script_engine, &code, &request), request, "text")
        }
        Start::Reply(_) => panic!("nothing to run"),
    }
}

fn call(script: &str, req: &RuntimeValue) -> Reply {
    let (engine, code) = call_plan(&options(), script, &vec![]);
    assert_eq!(code, call_code(script));
    replied(call_step(evaluate(engine, &code, req), "text"))
}

fn replied(step: Step) -> Reply {
    match step {
        Step::Reply(reply) => reply,
        Step::CallHandler(_) => panic!("a function"),
        Step::Unsendable => panic!("unsendable"),
    }
}

fn body_text(reply: &Reply) -> &str {
    match &reply.body {
        Body::Text(text) => text,
        Body::Events(_) => panic!("an event stream"),
    }
}

#[test]
fn scripts_answer_requests() {
    let reply = replied(begin("req[\"path\"] + \"!\""));
    assert_eq!(reply.status, 200);
    assert_eq!(body_text(&reply), "/echo!");
}

#[test]
fn functions_are_called_with_the_request() {
    let script = "fn(r): r[\"method\"];";
    match begin(script) {
        Step::CallHandler(req) => assert_eq!(body_text(&call(script, &req)), "POST"),
        _ => panic!("not called"),
    }
}

#[test]
fn missing_scripts_are_an_error() {
    match handler(&options(), None, &request(), "x", &vec![]) {
        Start::Reply(reply) => {
            assert_eq!(reply.status, 500);
            assert_eq!(body_text(&reply), "Script not loaded");
        }
        Start::Run { .. } => panic!("there is no script"),
    }
}

#[test]
fn failing_scripts_are_an_error() {
    let reply = replied(begin("no_such_function()"));
    assert_eq!(reply.status, 500);
    assert!(body_text(&reply).starts_with("Script error: "));
    let reply = call("fn(r): no_such_function();", &RuntimeValue::NONE);
    assert_eq!(reply.status, 500);
    assert!(body_text(&reply).starts_with("Function call error: "));
}

fn plain_value(text: &str) -> ScriptValue {
    ScriptValue {
        content: Content::Text(text.into()),
        text: text.into(),
    }
}

#[test]
fn the_last_value_counts() {
    let outcome = Outcome::Values(vec![plain_value("a"), plain_value("b")]);
    let reply = replied(script_step(outcome, RuntimeValue::NONE, "text"));
    assert_eq!(body_text(&reply), "b");
    let reply = replied(script_step(
        Outcome::Values(vec![]),
        RuntimeValue::NONE,
        "text",
    ));
    assert_eq!(reply.status, 200);
    assert_eq!(body_text(&reply), "");
    let reply = replied(call_step(Outcome::Failed("why".into()), "text"));
    assert_eq!(body_text(&reply), "Function call error: why");
    let function = ScriptValue {
        content: Content::Function,
        text: "function/1".into(),
    };
    let reply = replied(call_step(Outcome::Values(vec![function]), "text"));
    assert_eq!(body_text(&reply), "function/1");
}

#[test]
fn unsendable_events_are_told_apart() {
    let event = ScriptValue {
        content: Content::Dict(vec![("event".into(), plain_value("a\nb"))]),
        text: String::new(),
    };
    let list = ScriptValue {
        content: Content::Array(vec![event]),
        text: String::new(),
    };
    let value = ScriptValue {
        content: Content::Dict(vec![("sse".into(), list)]),
        text: String::new(),
    };
    let step = script_step(Outcome::Values(vec![value]), RuntimeValue::NONE, "text");
    assert!(matches!(step, Step::Unsendable));
}

#[test]
fn settings_name_texts_for_scripts() {
    let mut args = options();
    args.args = Some(vec![
        "greeting".into(),
        "hello".into(),
        "greeting".into(),
        "hi".into(),
        "left_over".into(),
    ]);
    args.raw_file = Some(vec![
        "one".into(),
        "1.txt".into(),
        "two".into(),
        "2.txt".into(),
        "three".into(),
        "3.txt".into(),
        "odd".into(),
    ]);
    assert_eq!(raw_file_paths(&args), vec!["1.txt", "2.txt", "3.txt"]);
    let reads = vec![
        FileRead::Missing,
        FileRead::Content("second".into()),
        FileRead::Failed,
    ];
    let mut engine = create_engine(&args);
    assert_eq!(load_raw_files(&mut engine, &args, &reads), Err(2));
    let outcome = evaluate(engine, "greeting + two", &RuntimeValue::String("".into()));
    match outcome {
        Outcome::Values(values) => assert_eq!(values[0].text, "hisecond"),
        Outcome::Failed(text) => panic!("{text}"),
    }
    let mut engine = create_engine(&args);
    assert_eq!(load_raw_files(&mut engine, &args, &vec![]), Ok(()));
    let outcome = evaluate(engine, "two", &RuntimeValue::String("".into()));
    assert!(matches!(outcome, Outcome::Failed(_)));
    let (engine, code) = script_plan(&args, "greeting + two + req", &reads);
    let outcome = evaluate(engine, &code, &RuntimeValue::String("!".into()));
    assert!(matches!(outcome, Outcome::Values(values) if values[0].text == "hisecond!"));
    let (engine, code) = call_plan(&args, "fn(r): two + r;", &reads);
    let outcome = evaluate(engine, &code, &RuntimeValue::String("?".into()));
    assert!(matches!(outcome, Outcome::Values(values) if values[0].text == "second?"));
}

#[test]
fn module_directories_are_searched() {
    let mut args = options();
    args.module_directories = Some(vec!["/no/such/directory".into()]);
    let outcome = evaluate(
        create_engine(&args),
        "import \"no_such_module\"",
        &RuntimeValue::String("".into()),
    );
    assert!(matches!(outcome, Outcome::Failed(_)));
}

#[test]
fn documents_are_served() {
    let args = options();
    let reply = openapi_json_handler(&args, Some(""));
    assert_eq!(reply.headers[0].1, "application/json");
    assert_eq!(
        body_text(&reply),
        "{\"openapi\":\"3.0.3\",\"info\":{\"title\":\"Test API\",\"version\":\"0.1.0\"},\"paths\":{}}"
    );
    assert_eq!(openapi_json_handler(&args, None).status, 500);
    let page = swagger_ui_handler(&args);
    assert_eq!(page.headers[0].1, "text/html; charset=utf-8");
    assert!(body_text(&page).contains("<title>Test API — API Docs</title>"));
}
