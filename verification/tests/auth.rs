//! API keys and basic credentials.

use base64::engine::general_purpose::STANDARD;
use base64::Engine;
use mq_http::auth::{auth_error_response, basic_credentials, bearer_token, check_auth};
use mq_http::cli::Args;
use mq_http::reply::Body;

fn default_args() -> Args {
    Args {
        script: None,
        command: None,
        port: 3000,
        addr: "127.0.0.1".into(),
        format: "json".into(),
        module_directories: None,
        args: None,
        raw_file: None,
        reload: false,
        otel_endpoint: None,
        otel_service_name: "test".into(),
        tls_cert: None,
        tls_key: None,
        stdin: false,
        docs: false,
        docs_title: "Test API".into(),
        docs_version: "0.1.0".into(),
        cors_origins: None,
        timeout: None,
        rate_limit: None,
        api_key: None,
        basic_auth: None,
        request_id: false,
        socket: None,
    }
}

fn headers(list: &[(&str, &str)]) -> Vec<(String, Vec<u8>)> {
    list.iter()
        .map(|(name, content)| (name.to_string(), content.as_bytes().to_vec()))
        .collect()
}

fn basic_header(user: &str, pass: &str) -> String {
    let encoded = STANDARD.encode(format!("{user}:{pass}"));
    format!("Basic {encoded}")
}

fn bearer_header(token: &str) -> String {
    format!("Bearer {token}")
}

#[test]
fn test_bearer_token() {
    let cases = [
        ("Bearer token123", Some("token123")),
        ("Bearer ", Some("")),
        ("Basic dXNlcjpwYXNz", None),
        ("Token abc", None),
    ];
    for (auth_header, expected) in cases {
        let request = headers(&[("authorization", auth_header)]);
        assert_eq!(bearer_token(&request).as_deref(), expected);
    }
}

#[test]
fn test_auth_disabled_always_passes() {
    let args = default_args();
    let request = headers(&[]);
    assert!(check_auth(&args, &request));
}

#[test]
fn test_auth_api_key_via_header() {
    let cases = [
        (Some("x-api-key"), "secret", true),
        (Some("x-api-key"), "wrong", false),
        (None, "", false), // no header → rejected
    ];
    for (header_name, header_value, expected) in cases {
        let mut args = default_args();
        args.api_key = Some("secret".into());
        let request = match header_name {
            Some(name) => headers(&[(name, header_value)]),
            None => headers(&[]),
        };
        assert_eq!(check_auth(&args, &request), expected);
    }
}

#[test]
fn test_auth_api_key_via_bearer() {
    for (token, expected) in [("secret", true), ("wrong", false)] {
        let mut args = default_args();
        args.api_key = Some("secret".into());
        let request = headers(&[("authorization", bearer_header(token).as_str())]);
        assert_eq!(check_auth(&args, &request), expected);
    }
}

#[test]
fn test_auth_basic() {
    let cases = [
        ("admin", "pass", true),
        ("admin", "wrong", false),
        ("other", "pass", false),
    ];
    for (user, pass, expected) in cases {
        let mut args = default_args();
        args.basic_auth = Some("admin:pass".into());
        let request = headers(&[("authorization", basic_header(user, pass).as_str())]);
        assert_eq!(check_auth(&args, &request), expected);
    }
}

#[test]
fn test_auth_basic_no_header_rejected() {
    let mut args = default_args();
    args.basic_auth = Some("admin:pass".into());
    let request = headers(&[]);
    assert!(!check_auth(&args, &request));
}

/// Either valid API key or valid Basic credentials should grant access.
#[test]
fn test_auth_both_configured() {
    let cases = [
        (Some("x-api-key"), "secret", None, "", true),
        (None, "", Some(("admin", "pass")), "admin:pass", true),
        (None, "", Some(("admin", "wrong")), "admin:pass", false),
    ];
    for (api_key_header, api_key_value, basic_creds, configured_basic, expected) in cases {
        let mut args = default_args();
        args.api_key = Some("secret".into());
        args.basic_auth = Some(configured_basic.into());

        let mut request = Vec::new();
        if let Some(name) = api_key_header {
            request.extend(headers(&[(name, api_key_value)]));
        }
        if let Some((u, p)) = basic_creds {
            request.extend(headers(&[("authorization", basic_header(u, p).as_str())]));
        }
        assert_eq!(check_auth(&args, &request), expected);
    }
}

#[test]
fn credentials_are_decoded() {
    let request = headers(&[("authorization", "Basic dXNlcjpww6Rzcw==")]);
    assert_eq!(basic_credentials(&request).as_deref(), Some("user:päss"));
    for bad in ["Basic dXNlcjpwYXNz=", "Basic !", "Basic /w==", "basic dQ=="] {
        assert_eq!(
            basic_credentials(&headers(&[("authorization", bad)])),
            None
        );
    }
}

#[test]
fn only_the_first_header_of_a_name_counts() {
    let mut args = default_args();
    args.api_key = Some("secret".into());
    let request = headers(&[("x-api-key", "wrong"), ("x-api-key", "secret")]);
    assert!(!check_auth(&args, &request));
}

#[test]
fn headers_beyond_ascii_do_not_count() {
    let mut args = default_args();
    args.api_key = Some("sécret".into());
    let request = headers(&[("x-api-key", "sécret")]);
    assert!(!check_auth(&args, &request));
}

#[test]
fn refusals_ask_for_basic_credentials() {
    let mut args = default_args();
    let plain = auth_error_response(&args);
    assert_eq!(plain.status, 401);
    assert_eq!(plain.headers.len(), 1);
    assert!(matches!(&plain.body, Body::Text(text) if text == "Unauthorized"));

    args.basic_auth = Some("admin:pass".into());
    let asking = auth_error_response(&args);
    assert_eq!(asking.status, 401);
    assert_eq!(
        asking.headers[1],
        (
            "www-authenticate".to_string(),
            "Basic realm=\"mq-http\"".to_string()
        )
    );
}
