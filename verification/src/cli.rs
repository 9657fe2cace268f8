//! The settings of the server, and what follows from them before it starts.

use vstd::prelude::*;

use crate::text;
use crate::text::{chars_of, decimal, trim, Trim};

verus! {

/// A path of the file system.
#[verifier::external_type_specification]
#[verifier::external_body]
pub struct ExPathBuf(std::path::PathBuf);

/// The settings of the server.
#[derive(Clone, Debug)]
pub struct Args {
    /// Path to the mq script
    pub script: Option<std::path::PathBuf>,
    /// Execute mq script from string
    pub command: Option<String>,
    /// Port to listen on
    pub port: u16,
    /// Bind address
    pub addr: String,
    /// Default output format (markdown, html, text, json)
    pub format: String,
    /// Search modules from the directory
    pub module_directories: Option<Vec<std::path::PathBuf>>,
    /// Sets string that can be referenced at runtime
    pub args: Option<Vec<String>>,
    /// Sets file contents that can be referenced at runtime
    pub raw_file: Option<Vec<String>>,
    /// Automatically reload the script when it changes
    pub reload: bool,
    /// OpenTelemetry OTLP endpoint (e.g., http://localhost:4318)
    pub otel_endpoint: Option<String>,
    /// OpenTelemetry service name
    pub otel_service_name: String,
    /// Path to TLS certificate file (PEM)
    pub tls_cert: Option<std::path::PathBuf>,
    /// Path to TLS private key file (PEM)
    pub tls_key: Option<std::path::PathBuf>,
    /// Read the mq script from stdin
    pub stdin: bool,
    /// Enable /_docs (Swagger UI) and /_openapi.json endpoints
    pub docs: bool,
    /// API title shown in Swagger UI (requires --docs)
    pub docs_title: String,
    /// API version shown in Swagger UI (requires --docs)
    pub docs_version: String,
    /// Allowed CORS origins (comma-separated). Use '*' to allow all origins.
    pub cors_origins: Option<String>,
    /// Request timeout in seconds
    pub timeout: Option<u64>,
    /// Rate limit: max requests per second per IP
    pub rate_limit: Option<u32>,
    /// Required API key (via X-Api-Key header or Authorization: Bearer <key>)
    pub api_key: Option<String>,
    /// Required Basic auth credentials in user:password format
    pub basic_auth: Option<String>,
    /// Attach X-Request-Id to every response
    pub request_id: bool,
    /// Path to a Unix domain socket to listen on (mutually exclusive with --port/--addr)
    pub socket: Option<std::path::PathBuf>,
}

/// Where the script comes from.
#[derive(Debug)]
pub enum ScriptSource<'a> {
    /// The script itself.
    Command(&'a String),
    /// A file that holds the script.
    File(&'a std::path::PathBuf),
    /// The standard input.
    Stdin,
    /// Nowhere.
    Missing,
}

/// Where the script comes from: a script on the command line goes before a file, and a file
/// before the standard input, which counts where it is asked for or is not a terminal.
pub open spec fn source_of<'a>(args: &'a Args, stdin_piped: bool) -> ScriptSource<'a> {
    match args.command {
        Some(command) => ScriptSource::Command(&command),
        None => match args.script {
            Some(path) => ScriptSource::File(&path),
            None => if args.stdin || stdin_piped {
                ScriptSource::Stdin
            } else {
                ScriptSource::Missing
            },
        },
    }
}

/// Where the script comes from.
pub fn script_source<'a>(args: &'a Args, stdin_piped: bool) -> (source: ScriptSource<'a>)
    ensures
        source == source_of(args, stdin_piped),
{
    if let Some(command) = &args.command {
        ScriptSource::Command(command)
    } else if let Some(path) = &args.script {
        ScriptSource::File(path)
    } else if args.stdin || stdin_piped {
        ScriptSource::Stdin
    } else {
        ScriptSource::Missing
    }
}

/// Why the server does not start.
#[derive(Debug, Clone, Copy, PartialEq, Eq, Structural)]
pub enum StartError {
    /// Only one of the TLS certificate and the TLS key is given.
    HalfTls,
    /// The standard input has no script.
    EmptyStdin,
    /// There is no script.
    NoScript,
}

impl StartError {
    /// What is said of the error.
    pub open spec fn said(self) -> Seq<char> {
        match self {
            StartError::HalfTls => "Both --tls-cert and --tls-key must be provided together"@,
            StartError::EmptyStdin => "No script provided via stdin"@,
            StartError::NoScript =>
                "No script provided. Use a script file path, -c 'script', or pipe a script via stdin"@,
        }
    }

    /// The message of the error.
    pub fn message(self) -> (message: &'static str)
        ensures
            message@ == self.said(),
    {
        match self {
            StartError::HalfTls => "Both --tls-cert and --tls-key must be provided together",
            StartError::EmptyStdin => "No script provided via stdin",
            StartError::NoScript =>
                "No script provided. Use a script file path, -c 'script', or pipe a script via stdin",
        }
    }
}

/// Take the script that was read from the standard input, which must have more than white space.
pub fn accept_stdin(content: String) -> (script: Result<String, StartError>)
    ensures
        match script {
            Ok(script) => script@ == content@ && text::trimmed(content@, Trim::White).len() > 0,
            Err(error) => error == StartError::EmptyStdin && text::trimmed(
                content@,
                Trim::White,
            ).len() == 0,
        },
{
    let chars = chars_of(content.as_str());
    if trim(&chars, Trim::White).len() == 0 {
        Err(StartError::EmptyStdin)
    } else {
        Ok(content)
    }
}

/// Check that the TLS certificate and the TLS key are given together or not at all.
pub fn check_tls(args: &Args) -> (checked: Result<(), StartError>)
    ensures
        match checked {
            Ok(_) => args.tls_cert is Some == args.tls_key is Some,
            Err(error) => error == StartError::HalfTls && args.tls_cert is Some
                != args.tls_key is Some,
        },
{
    if args.tls_cert.is_some() != args.tls_key.is_some() {
        Err(StartError::HalfTls)
    } else {
        Ok(())
    }
}

/// What is listened on.
#[derive(Debug)]
pub enum Transport<'a> {
    /// A Unix domain socket.
    Unix(&'a std::path::PathBuf),
    /// An address, with TLS by a certificate and a key.
    Tls(&'a std::path::PathBuf, &'a std::path::PathBuf),
    /// An address, without TLS.
    Tcp,
}

/// What is listened on: a socket goes before an address, and TLS needs a certificate and a key.
pub open spec fn transport_of<'a>(args: &'a Args) -> Transport<'a> {
    match args.socket {
        Some(path) => Transport::Unix(&path),
        None => match (args.tls_cert, args.tls_key) {
            (Some(cert), Some(key)) => Transport::Tls(&cert, &key),
            _ => Transport::Tcp,
        },
    }
}

/// What is listened on.
pub fn transport<'a>(args: &'a Args) -> (chosen: Transport<'a>)
    ensures
        chosen == transport_of(args),
{
    if let Some(path) = &args.socket {
        return Transport::Unix(path);
    }
    match (&args.tls_cert, &args.tls_key) {
        (Some(cert), Some(key)) => Transport::Tls(cert, key),
        _ => Transport::Tcp,
    }
}

/// Whether a text is made of decimal digits, at least one.
pub open spec fn is_digits(s: Seq<char>) -> bool {
    &&& s.len() > 0
    &&& forall|i: int| 0 <= i < s.len() ==> '0' <= #[trigger] s[i] <= '9'
}

/// The number that decimal digits write.
pub open spec fn digits_value(s: Seq<char>) -> nat
    decreases s.len(),
{
    if s.len() == 0 {
        0
    } else {
        digits_value(s.drop_last()) * 10 + (s.last() as nat - '0' as nat) as nat
    }
}

/// The port that a text writes: digits, perhaps after a plus sign, for a number of sixteen bits.
pub open spec fn port_of(s: Seq<char>) -> Option<u16> {
    let digits = if s.len() > 0 && s[0] == '+' {
        s.skip(1)
    } else {
        s
    };
    if is_digits(digits) && digits_value(digits) <= 0xffff {
        Some(digits_value(digits) as u16)
    } else {
        None
    }
}

/// The digits that are left make a number no smaller.
proof fn lemma_digits_grow(s: Seq<char>, n: int)
    requires
        0 <= n <= s.len(),
    ensures
        digits_value(s.take(n)) <= digits_value(s),
    decreases s.len() - n,
{
    if n < s.len() {
        lemma_digits_grow(s, n + 1);
        assert(s.take(n + 1).drop_last() =~= s.take(n));
    } else {
        assert(s.take(n) =~= s);
    }
}

/// Read a port.
pub fn parse_port(s: &str) -> (port: Option<u16>)
    ensures
        port == port_of(s@),
{
    let chars = chars_of(s);
    let start: usize = if chars.len() > 0 && chars[0] == '+' {
        1
    } else {
        0
    };
    let ghost digits = s@.skip(start as int);
    assert(s@.skip(0) =~= s@);
    if start == chars.len() {
        return None;
    }
    let mut value: u32 = 0;
    let mut i: usize = start;
    assert(digits.take(0) =~= seq![]);
    while i < chars.len()
        invariant
            start <= 1,
            start <= i <= chars@.len(),
            chars@ == s@,
            digits == s@.skip(start as int),
            forall|j: int| 0 <= j < i - start ==> '0' <= #[trigger] digits[j] <= '9',
            value == digits_value(digits.take(i - start)),
            value <= 0xffff,
            digits == (if s@.len() > 0 && s@[0] == '+' {
                s@.skip(1)
            } else {
                s@
            }),
        decreases chars@.len() - i,
    {
        let c = chars[i];
        assert(digits[i - start] == c);
        if c < '0' || c > '9' {
            return None;
        }
        proof {
            assert(digits.take(i - start + 1).drop_last() =~= digits.take(i - start));
            assert(digits.take(i - start + 1).last() == c);
            lemma_digits_grow(digits, i - start + 1);
        }
        value = value * 10 + (c as u32 - '0' as u32);
        if value > 0xffff {
            return None;
        }
        i += 1;
    }
    assert(digits.take(digits.len() as int) =~= digits);
    Some(value as u16)
}

/// The port to listen on: that of the environment, where it has a good one, or that of the
/// settings.
pub fn choose_port(env: Option<&str>, args: &Args) -> (port: u16)
    ensures
        port == (match env {
            Some(env) => match port_of(env@) {
                Some(port) => port,
                None => args.port,
            },
            None => args.port,
        }),
{
    if let Some(env) = env {
        if let Some(port) = parse_port(env) {
            return port;
        }
    }
    args.port
}

/// The address to listen on: that of the environment, where it has one, or that of the settings;
/// and the port.
pub fn bind_address(env: Option<&str>, args: &Args, port: u16) -> (address: String)
    ensures
        address@ == (match env {
            Some(env) => env@,
            None => args.addr@,
        }) + ":"@ + text::decimal_of(port as nat),
{
    let mut address = match env {
        Some(env) => env.to_owned(),
        None => args.addr.clone(),
    };
    address.append(":");
    address.append(decimal(port as u64).as_str());
    address
}

/// A script on the command line goes before a file, and a file before the standard input; that
/// counts where it is asked for or has something piped into it, and otherwise there is no script.
pub proof fn law_script_sources(args: Args, stdin_piped: bool)
    ensures
        args.command matches Some(command) ==> source_of(&args, stdin_piped)
            == ScriptSource::Command(&command),
        args.command is None && args.script is Some ==> source_of(&args, stdin_piped)
            == ScriptSource::File(&args.script->0),
        args.command is None && args.script is None && (args.stdin || stdin_piped) ==> source_of(
            &args,
            stdin_piped,
        ) == ScriptSource::Stdin,
        args.command is None && args.script is None && !args.stdin && !stdin_piped ==> source_of(
            &args,
            stdin_piped,
        ) == ScriptSource::Missing,
{
}

/// A socket goes before an address; TLS takes a certificate and a key, and where one of them is
/// not given there is none.
pub proof fn law_transports(args: Args)
    ensures
        args.socket matches Some(path) ==> transport_of(&args) == Transport::Unix(&path),
        args.socket is None && args.tls_cert is Some && args.tls_key is Some ==> transport_of(&args)
            == Transport::Tls(&args.tls_cert->0, &args.tls_key->0),
        args.socket is None && (args.tls_cert is None || args.tls_key is None) ==> transport_of(
            &args,
        ) == Transport::Tcp,
{
}

/// What is said of each error.
pub proof fn law_error_messages()
    ensures
        StartError::HalfTls.said() == "Both --tls-cert and --tls-key must be provided together"@,
        StartError::EmptyStdin.said() == "No script provided via stdin"@,
        StartError::NoScript.said()
            == "No script provided. Use a script file path, -c 'script', or pipe a script via stdin"@,
{
}

/// The digits of a number write that number.
proof fn lemma_decimal_digits(n: nat)
    ensures
        is_digits(text::decimal_of(n)),
        digits_value(text::decimal_of(n)) == n,
    decreases n,
{
    let all = text::decimal_of(n);
    if n >= 10 {
        lemma_decimal_digits(n / 10);
        let before = text::decimal_of(n / 10);
        assert(all.drop_last() =~= before);
        assert forall|i: int| 0 <= i < all.len() implies '0' <= #[trigger] all[i] <= '9' by {
            if i < before.len() {
                assert(all[i] == before[i]);
            }
        }
    } else {
        assert(all.drop_last() =~= seq![]);
        assert(digits_value(all.drop_last()) == 0);
    }
}

/// Every port is read back as it is written in decimal, with or without a plus sign in front of
/// it; a larger number is no port, nor is a text with anything but digits in it.
pub proof fn law_ports(n: nat, s: Seq<char>, i: int)
    ensures
        n <= 65535 ==> port_of(text::decimal_of(n)) == Some(n as u16),
        n <= 65535 ==> port_of(seq!['+'] + text::decimal_of(n)) == Some(n as u16),
        n > 65535 ==> port_of(text::decimal_of(n)) is None,
        0 < i < s.len() && !('0' <= s[i] <= '9') ==> port_of(s) is None,
        s.len() > 0 && s[0] != '+' && !('0' <= s[0] <= '9') ==> port_of(s) is None,
        s.len() == 0 ==> port_of(s) is None,
        port_of(seq!['+']) is None,
{
    lemma_decimal_digits(n);
    let plain = text::decimal_of(n);
    assert((seq!['+'] + plain).skip(1) =~= plain);
    assert(plain[0] != '+') by {
        assert('0' <= plain[0] <= '9');
    }
    if 0 < i < s.len() && s[0] == '+' {
        assert(s.skip(1)[i - 1] == s[i]);
    }
    assert(seq!['+'].skip(1) =~= seq![]);
}

/// A zero in front of digits changes nothing of what they write, and a digit behind them makes it
/// ten times as much and the digit.
pub proof fn law_digits(s: Seq<char>, d: nat)
    requires
        d < 10,
    ensures
        digits_value(s.push((48 + d) as char)) == 10 * digits_value(s) + d,
        digits_value(Seq::<char>::empty()) == 0,
{
    assert(s.push((48 + d) as char).drop_last() =~= s);
}

/// Zeros in front of digits do not count.
pub proof fn law_zeros_in_front(s: Seq<char>)
    ensures
        digits_value(seq!['0'] + s) == digits_value(s),
        is_digits(s) ==> port_of(seq!['0'] + s) == port_of(s),
    decreases s.len(),
{
    let all = seq!['0'] + s;
    if s.len() == 0 {
        assert(all.drop_last() =~= s);
        assert(digits_value(all.drop_last()) == 0);
    } else {
        assert(all.drop_last() =~= seq!['0'] + s.drop_last());
        law_zeros_in_front(s.drop_last());
    }
    if is_digits(s) {
        assert(is_digits(all));
        assert('0' <= s[0] <= '9');
    }
}

} // verus!
