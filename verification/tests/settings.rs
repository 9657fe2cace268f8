//! The settings of the server.

use mq_http::cli::{
    accept_stdin, bind_address, check_tls, choose_port, parse_port, script_source, transport, Args,
    ScriptSource, StartError, Transport,
};
use mq_http::cors::{cors_policy, CorsPolicy};

fn given() -> Args {
    Args {
        script: None,
        command: None,
        port: 3000,
        addr: "127.0.0.1".into(),
        format: "markdown".into(),
        module_directories: None,
        args: None,
        raw_file: None,
        reload: false,
        otel_endpoint: None,
        otel_service_name: "mq-http".into(),
        tls_cert: None,
        tls_key: None,
        stdin: false,
        docs: false,
        docs_title: "API".into(),
        docs_version: "0.1.0".into(),
        cors_origins: None,
        timeout: None,
        rate_limit: None,
        api_key: None,
        basic_auth: None,
        request_id: false,
        socket: None,
    }
}

#[test]
fn commands_go_before_files_and_files_before_stdin() {
    let mut args = given();
    assert!(matches!(script_source(&args, false), ScriptSource::Missing));
    assert!(matches!(script_source(&args, true), ScriptSource::Stdin));
    args.stdin = true;
    assert!(matches!(script_source(&args, false), ScriptSource::Stdin));
    args.script = Some("a.mq".into());
    assert!(matches!(script_source(&args, true), ScriptSource::File(p) if p.ends_with("a.mq")));
    args.command = Some("1".into());
    assert!(matches!(script_source(&args, true), ScriptSource::Command(c) if c == "1"));
}

#[test]
fn blank_stdin_is_no_script() {
    assert_eq!(accept_stdin(" 1 \n".into()), Ok(" 1 \n".into()));
    assert_eq!(
        accept_stdin(" \n\t".into()),
        Err(StartError::EmptyStdin)
    );
    assert_eq!(accept_stdin("".into()), Err(StartError::EmptyStdin));
}

#[test]
fn messages_name_the_options() {
    assert_eq!(
        StartError::HalfTls.message(),
        "Both --tls-cert and --tls-key must be provided together"
    );
    assert_eq!(
        StartError::EmptyStdin.message(),
        "No script provided via stdin"
    );
    assert_eq!(
        StartError::NoScript.message(),
        "No script provided. Use a script file path, -c 'script', or pipe a script via stdin"
    );
}

#[test]
fn tls_needs_both_files() {
    let mut args = given();
    assert_eq!(check_tls(&args), Ok(()));
    assert!(matches!(transport(&args), Transport::Tcp));
    args.tls_cert = Some("c.pem".into());
    assert_eq!(check_tls(&args), Err(StartError::HalfTls));
    args.tls_key = Some("k.pem".into());
    assert_eq!(check_tls(&args), Ok(()));
    assert!(
        matches!(transport(&args), Transport::Tls(c, k) if c.ends_with("c.pem") && k.ends_with("k.pem"))
    );
    args.socket = Some("/tmp/s".into());
    assert!(matches!(transport(&args), Transport::Unix(p) if p.ends_with("s")));
}

#[test]
fn ports_are_read_like_numbers() {
    for s in [
        "0", "8080", "+80", "65535", "65536", "007", "99999999999", "", "+", "-1", " 1", "1x",
        "++1",
    ] {
        assert_eq!(parse_port(s), s.parse::<u16>().ok());
    }
}

#[test]
fn the_environment_goes_before_the_settings() {
    let args = given();
    assert_eq!(choose_port(Some("81"), &args), 81);
    assert_eq!(choose_port(Some("x"), &args), 3000);
    assert_eq!(choose_port(None, &args), 3000);
    assert_eq!(bind_address(Some("0.0.0.0"), &args, 81), "0.0.0.0:81");
    assert_eq!(bind_address(None, &args, 3000), "127.0.0.1:3000");
}

#[test]
fn cors_has_three_policies() {
    assert!(matches!(cors_policy(None), CorsPolicy::Closed));
    assert!(matches!(cors_policy(Some("*")), CorsPolicy::Permissive));
    match cors_policy(Some("https://a.example , b\u{1}ad,https://c.example,")) {
        CorsPolicy::Origins(list) => {
            assert_eq!(list, vec!["https://a.example", "https://c.example", ""])
        }
        _ => panic!("no list"),
    }
}
