//! What is done to every request.

use mq_http::cli::Args;
use mq_http::middleware::{
    judge, middleware, next_request_id, number_headers, peer_ip, timeout_response, with_id,
    Verdict,
};
use mq_http::reply::{plain_reply, Body};
use mq_http::state::AppState;

fn settings() -> Args {
    Args {
        script: None,
        command: Some("1".into()),
        port: 3000,
        addr: "127.0.0.1".into(),
        format: "json".into(),
        module_directories: None,
        args: None,
        raw_file: None,
        reload: false,
        otel_endpoint: None,
        otel_service_name: "test".into(),
        tls_cert: None,
        tls_key: None,
        stdin: false,
        docs: false,
        docs_title: "Test API".into(),
        docs_version: "0.1.0".into(),
        cors_origins: None,
        timeout: None,
        rate_limit: None,
        api_key: None,
        basic_auth: None,
        request_id: false,
        socket: None,
    }
}

#[test]
fn requests_beyond_the_limit_are_turned_away() {
    let mut args = settings();
    args.rate_limit = Some(1);
    args.request_id = true;
    args.timeout = Some(9);
    args.api_key = Some("k".into());
    let mut state = AppState::new(args, "1".into());
    let mut counter: u64 = 41;
    let headers = vec![("x-api-key".to_string(), b"k".to_vec())];

    let first = middleware(&mut state, &mut counter, Some("1.1.1.1"), &headers);
    assert_eq!(first.request_id.as_deref(), Some("41"));
    assert!(matches!(
        first.verdict,
        Verdict::Forward { timeout: Some(9) }
    ));

    let second = middleware(&mut state, &mut counter, Some("1.1.1.1"), &headers);
    assert_eq!(counter, 43);
    match second.verdict {
        Verdict::Refuse(reply) => {
            assert_eq!(reply.status, 429);
            assert_eq!(
                reply.headers,
                vec![
                    (
                        "content-type".to_string(),
                        "text/plain; charset=utf-8".to_string()
                    ),
                    ("retry-after".to_string(), "1".to_string()),
                    ("x-request-id".to_string(), "42".to_string()),
                ]
            );
            assert!(matches!(&reply.body, Body::Text(t) if t == "Too Many Requests"));
        }
        Verdict::Forward { .. } => panic!("let through"),
    }

    // The limit goes before the credentials.
    let third = middleware(&mut state, &mut counter, Some("1.1.1.1"), &vec![]);
    assert!(matches!(third.verdict, Verdict::Refuse(reply) if reply.status == 429));
    let other = middleware(&mut state, &mut counter, None, &vec![]);
    assert!(matches!(other.verdict, Verdict::Refuse(reply) if reply.status == 401));
}

#[test]
fn nothing_is_asked_for_by_default() {
    let mut state = AppState::new(settings(), "1".into());
    let mut counter: u64 = 7;
    let passage = middleware(&mut state, &mut counter, None, &vec![]);
    assert_eq!(passage.request_id, None);
    assert_eq!(counter, 7);
    assert!(matches!(
        passage.verdict,
        Verdict::Forward { timeout: None }
    ));
}

#[test]
fn judge_takes_both_answers_of_the_limiter() {
    let args = settings();
    assert!(matches!(
        judge(&args, &vec![], true, &None),
        Verdict::Forward { timeout: None }
    ));
    assert!(matches!(
        judge(&args, &vec![], false, &None),
        Verdict::Refuse(reply) if reply.status == 429
    ));
}

#[test]
fn the_counter_starts_over() {
    let mut args = settings();
    args.request_id = true;
    let mut counter: u64 = u64::MAX;
    assert_eq!(
        next_request_id(&args, &mut counter).as_deref(),
        Some("18446744073709551615")
    );
    assert_eq!(next_request_id(&args, &mut counter).as_deref(), Some("0"));
    assert_eq!(counter, 1);
}

#[test]
fn numbers_replace_earlier_ones() {
    let mut reply = plain_reply(200, "x".into());
    reply.headers.push(("x-request-id".into(), "1".into()));
    reply.headers.push(("x-request-id".into(), "2".into()));
    let marked = with_id(reply, &Some("3".to_string()));
    assert_eq!(marked.headers.len(), 2);
    assert_eq!(
        marked.headers[1],
        ("x-request-id".to_string(), "3".to_string())
    );
}

#[test]
fn slow_requests_time_out() {
    let reply = timeout_response(&Some("5".to_string()));
    assert_eq!(reply.status, 408);
    assert!(matches!(&reply.body, Body::Text(t) if t == "Request timed out"));
    assert_eq!(reply.headers[1].1, "5");
}

#[test]
fn clients_without_an_address_are_local() {
    assert_eq!(peer_ip(None), "127.0.0.1");
    assert_eq!(peer_ip(Some("::1")), "::1");
}

#[test]
fn reloading_keeps_the_script_that_cannot_be_read() {
    let mut state = AppState::new(settings(), "old".into());
    assert!(state.rate_limiter.is_none());
    state.reload(None);
    assert_eq!(state.script_content.as_deref(), Some("old"));
    state.reload(Some("new".into()));
    assert_eq!(state.script_content.as_deref(), Some("new"));
}

fn header(name: &str, value: &str) -> (String, Vec<u8>) {
    (name.to_string(), value.as_bytes().to_vec())
}

#[test]
fn requests_are_handed_on_with_their_number() {
    let mut args = settings();
    args.request_id = true;
    let mut state = AppState::new(args, "1".into());
    let mut counter: u64 = 41;
    let headers = vec![
        header("x-request-id", "forged"),
        header("host", "h"),
        header("x-request-id", "twice"),
    ];
    let passage = middleware(&mut state, &mut counter, None, &headers);
    assert_eq!(
        passage.headers,
        vec![header("host", "h"), header("x-request-id", "41")]
    );
    assert_eq!(counter, 42);
    let returned = vec![header("x-request-id", "own"), header("content-type", "a")];
    assert_eq!(
        number_headers(&returned, &passage.request_id),
        vec![header("content-type", "a"), header("x-request-id", "41")]
    );
}

#[test]
fn requests_without_a_number_are_handed_on_as_they_are() {
    let mut state = AppState::new(settings(), "1".into());
    let mut counter: u64 = 41;
    let headers = vec![header("x-request-id", "own"), header("host", "h")];
    let passage = middleware(&mut state, &mut counter, None, &headers);
    assert_eq!(passage.headers, headers);
    assert_eq!(number_headers(&headers, &None), headers);
    assert_eq!(counter, 41);
}
