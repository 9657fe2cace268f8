//! What holds of the results of the public functions, stated of the calls themselves.

use vstd::hash_map::StringHashMap;
use vstd::prelude::*;

use crate::annotation;
use crate::annotation::{build_annotation, parse_func_annotations, FuncAnnotation};
use crate::auth;
use crate::auth::{auth_error_response, basic_credentials, bearer_token, check_auth};
use crate::body;
use crate::body::{body_kind, parse_body, BodyKind};
use crate::cli;
use crate::cli::{
    accept_stdin, bind_address, check_tls, choose_port, parse_port, script_source, transport, Args,
    ScriptSource, StartError, Transport,
};
use crate::cors;
use crate::cors::{cors_policy, CorsPolicy};
use crate::engine;
use crate::engine::{
    create_engine, load_raw_files, raw_file_paths, read_outcome, FileRead, Outcome, ScriptEngine,
};
use crate::handler;
use crate::handler::{
    call_plan, call_step, openapi_json_handler, script_plan, script_step, swagger_ui_handler, Start,
    Step,
};
use crate::json;
use crate::middleware;
use crate::middleware::{
    judge, next_request_id, number_headers, peer_ip, timeout_response, with_id, Passage, Verdict,
};
use crate::number;
use crate::openapi;
use crate::openapi::{build_openapi_json, parse_script, swagger_ui_html, RouteEntry};
use crate::rate_limit;
use crate::rate_limit::RateLimiter;
use crate::reply;
use crate::reply::{build_reply, Reply};
use crate::request;
use crate::request::{build_request_value, find_header, read_request, RequestFields, RequestParts};
use crate::response;
use crate::response::{can_answer, runtime_value_to_json, runtime_value_to_response};
use crate::route;
use crate::route::{collect_routes, extract_routes, inject_pipe_after_top_level_end};
use crate::state::AppState;
use crate::syntax;
use crate::syntax::{SyntaxKind, SyntaxNode};
use crate::text;
use crate::text::Trim;
use crate::value;
use crate::value::{read_value, ScriptValue};
use crate::watch;
use crate::watch::{Debounce, WatchAction, WatchEvent};

verus! {

/// A block of annotation lines that ends in a description, a summary or a tag gives all that the
/// line says, with the spaces in it and without the white space around it.
pub proof fn law_annotation_says_all(
    lines: Vec<String>,
    built: FuncAnnotation,
    before: Seq<char>,
    said: Seq<char>,
    behind: Seq<char>,
)
    requires
        call_ensures(build_annotation, (&lines,), built),
        lines@.len() > 0,
        text::is_all_taken(before, Trim::White),
        text::is_all_taken(behind, Trim::White),
        text::has_clean_ends(said, Trim::White),
    ensures
        lines@.last()@ == annotation::written("description"@, before, said, behind)
            ==> built.description@.len() > 0 && built.description@.last()@ == said,
        lines@.last()@ == annotation::written("tag"@, before, said, behind) ==> built.tags@.len()
            > 0 && built.tags@.last()@ == said,
        lines@.last()@ == annotation::written("summary"@, before, said, behind) ==> (
        built.summary matches Some(summary) && summary@ == said),
{
    let views = text::string_views(lines@);
    annotation::law_said_in_full(views.drop_last(), before, said, behind);
    assert(views.drop_last().push(views.last()) =~= views);
    assert(views.last() == lines@.last()@);
    assert(built@ == annotation::annotation_of(views));
    annotation::law_annotation_view(built, built.description@.len() - 1);
    annotation::law_annotation_view(built, built.tags@.len() - 1);
}

/// The table of a script has the annotation of each function that has one, and of no other: what the
/// lines in the comments directly above its last annotated `def` say.
pub proof fn law_table_of_script(
    content: &str,
    table: StringHashMap<FuncAnnotation>,
    name: Seq<char>,
    i: int,
)
    requires
        call_ensures(parse_func_annotations, (content,), table),
    ensures
        table@.contains_key(name) <==> exists|k: int| #[trigger]
            annotation::is_annotated_def(text::lines_of(content@), k, name),
        annotation::is_last_annotated_def(text::lines_of(content@), i, name) ==> table@[name]@
            == annotation::annotation_of(annotation::said_above(text::lines_of(content@), i)),
{
    annotation::law_last_annotated_def_counts(content@, name);
    annotation::law_table_view(table@, name);
}

/// Every route of a list that no later one overrides is in the document, under its path and its
/// method in lower case, and each parameter of its annotation with its name, its place, its type,
/// its description and whether it is required.
pub proof fn law_document_has_parameters(
    title: &str,
    version: &str,
    routes: &[RouteEntry],
    document: serde_json::Value,
    i: int,
    k: int,
)
    requires
        call_ensures(build_openapi_json, (title, version, routes), document),
        openapi::is_not_overridden(openapi::entry_views(routes@), i),
        0 <= k < routes@[i].annotation.params@.len(),
    ensures
        ({
            let param = routes@[i].annotation.params@[k];
            let found = openapi::at(
                openapi::documented(json::json_view(document), routes@[i]@),
                "parameters"@,
            );
            &&& found matches Some(json::JsonView::Array(list)) && {
                let item = Some(list[k]);
                &&& list.len() == routes@[i].annotation.params@.len()
                &&& openapi::at(item, "name"@) == Some(json::JsonView::Text(param.name@))
                &&& openapi::at(item, "in"@) == Some(json::JsonView::Text(param.location@))
                &&& openapi::at(item, "required"@) == Some(json::JsonView::Bool(param.required))
                &&& openapi::at(item, "description"@) == Some(
                    json::JsonView::Text(param.description@),
                )
                &&& openapi::at(openapi::at(item, "schema"@), "type"@) == Some(
                    json::JsonView::Text(param.schema_type@),
                )
            }
        }),
{
    let views = openapi::entry_views(routes@);
    openapi::law_entry_views(routes@, i);
    openapi::law_parameters_are_documented(title@, version@, views, i, k);
    annotation::law_annotation_view(routes@[i].annotation, k);
}

/// A document has the title and the version that it was asked for, and of each route that no later
/// one overrides the summary, the tags and the responses.
pub proof fn law_document_says_all(
    title: &str,
    version: &str,
    routes: &[RouteEntry],
    document: serde_json::Value,
    i: int,
    k: int,
)
    requires
        call_ensures(build_openapi_json, (title, version, routes), document),
    ensures
        ({
            let whole = Some(json::json_view(document));
            &&& openapi::at(whole, "openapi"@) == Some(json::JsonView::Text("3.0.3"@))
            &&& openapi::at(openapi::at(whole, "info"@), "title"@) == Some(
                json::JsonView::Text(title@),
            )
            &&& openapi::at(openapi::at(whole, "info"@), "version"@) == Some(
                json::JsonView::Text(version@),
            )
        }),
        openapi::is_not_overridden(openapi::entry_views(routes@), i) ==> {
            let operation = openapi::documented(json::json_view(document), routes@[i]@);
            let ann = routes@[i]@.annotation;
            &&& match ann.summary {
                Some(summary) => openapi::at(operation, "summary"@) == Some(
                    json::JsonView::Text(summary),
                ),
                None => openapi::at(operation, "summary"@) is None,
            }
            &&& ann.description.len() > 0 ==> openapi::at(operation, "description"@) == Some(
                json::JsonView::Text(text::joined(ann.description, seq!['\n'])),
            )
            &&& 0 <= k < ann.tags.len() ==> (openapi::at(operation, "tags"@) matches Some(
                json::JsonView::Array(tags),
            ) && tags.len() == ann.tags.len() && tags[k] == json::JsonView::Text(ann.tags[k]))
            &&& 0 <= k < ann.responses.len() && (forall|j: int|
                k < j < ann.responses.len() ==> (#[trigger] ann.responses[j]).status
                    != ann.responses[k].status) ==> openapi::at(
                openapi::at(openapi::at(operation, "responses"@), ann.responses[k].status),
                "description"@,
            ) == Some(json::JsonView::Text(ann.responses[k].description))
            &&& ann.responses.len() == 0 ==> openapi::at(
                openapi::at(openapi::at(operation, "responses"@), "200"@),
                "description"@,
            ) == Some(json::JsonView::Text("Success"@))
        },
{
    let views = openapi::entry_views(routes@);
    openapi::law_document_heads(title@, version@, views, "paths"@);
    if openapi::is_not_overridden(views, i) {
        openapi::law_entry_views(routes@, i);
        openapi::law_annotation_is_documented(title@, version@, views, i, "summary"@);
        openapi::law_responses_are_documented(title@, version@, views, i, k, "200"@);
    }
}

/// The entries of a script are its routes in their order, each with its method and its path, and
/// with the annotation that the script gives its handler, if it gives one.
pub proof fn law_entries_of_script(
    content: &str,
    entries: Vec<RouteEntry>,
    routes: Vec<(String, String, Option<String>)>,
    i: int,
)
    requires
        call_ensures(parse_script, (content,), entries),
        call_ensures(extract_routes, (content,), routes),
    ensures
        entries@.len() == routes@.len(),
        0 <= i < routes@.len() ==> {
            &&& entries@[i].method@ == routes@[i].0@
            &&& entries@[i].path@ == routes@[i].1@
            &&& routes@[i].2 matches Some(name) ==> (annotation::annotations_of(
                content@,
            ).contains_key(name@) ==> entries@[i].annotation@ == annotation::annotations_of(
                content@,
            )[name@])
        },
{
    openapi::law_entry_views(entries@, i);
    route::law_route_views(routes@, i);
    if 0 <= i < routes@.len() {
        openapi::law_one_entry_per_route(
            route::route_views(routes@),
            annotation::annotations_of(content@),
            i,
        );
    }
}

/// The routes of a script are those of what it is parsed as, and a script with pipes is the script
/// with nothing but pipes behind its top-level `end`s.
pub proof fn law_routes_of_script(
    content: &str,
    routes: Vec<(String, String, Option<String>)>,
    piped: String,
)
    ensures
        call_ensures(extract_routes, (content,), routes) ==> route::route_views(routes@)
            == route::routes_of(
            syntax::parsed_forest(route::piped(content@) + seq!['\n', '#', '{']),
        ),
        call_ensures(inject_pipe_after_top_level_end, (content,), piped) ==> piped@
            == route::with_pipes(
            text::lines_of(content@),
            route::pipe_marks(text::lines_of(content@)),
        ),
{
    syntax::law_closed(route::piped(content@));
    route::law_only_pipes_are_added(text::lines_of(content@));
}

/// A described reply whose headers can be sent has its body as the dictionary has it, whatever its
/// status: a text as it stands, and a dictionary or a list as JSON.
pub proof fn law_reply_has_body(
    value: ScriptValue,
    entries: Seq<(Seq<char>, value::ValueView)>,
    format: &str,
    sent: Reply,
)
    requires
        call_ensures(runtime_value_to_response, (&value, format), sent),
        response::is_described(value@, entries),
        reply::can_be_sent(response::asked_headers(entries, format@)),
    ensures
        sent.body matches reply::Body::Text(body) && match json::get(entries, "body"@) {
            Some(given) => match given.content {
                value::ContentView::Text(said) => body@ == said,
                value::ContentView::Dict(_) => body@ == json::json_text(response::json_of(given)),
                value::ContentView::Array(_) => body@ == json::json_text(response::json_of(given)),
                value::ContentView::Markdown { text, html } => body@ == (if format@ == "text"@
                    || format@ == "markdown"@ {
                    text
                } else {
                    html
                }),
                _ => body@ == given.text,
            },
            None => body@.len() == 0,
        },
        match json::get(entries, "status"@) {
            Some(status) => status.content matches value::ContentView::Number { bits, .. } ==> (100
                <= number::clamped(bits) <= 999 ==> sent.status == number::clamped(
                bits,
            )),
            None => sent.status == 200,
        },
{
    response::law_described_body(value@, entries, format@);
    response::law_described_status_is_sent(value@, entries, format@);
    reply::law_reply_view(sent, 0);
}

/// A text is sent as it stands, and what is sent is told apart by the value alone, as its model
/// says.
pub proof fn law_reply_to_value(value: ScriptValue, format: &str, sent: Reply, said: String)
    requires
        call_ensures(runtime_value_to_response, (&value, format), sent),
    ensures
        sent@ == response::reply_of(value@, format@),
        value.content == value::Content::Text(said) ==> sent.status == 200 && (
        sent.body matches reply::Body::Text(body) && body@ == said@),
{
    value::lemma_view(value);
    reply::law_reply_view(sent, 0);
    if value.content == value::Content::Text(said) {
        response::law_text_is_sent_as_it_is(value@, said@, format@);
    }
}

/// A reply that is asked for is made as it is asked for.
pub proof fn law_reply_is_built(
    status: u16,
    asked: Vec<(String, String)>,
    body: String,
    sent: Reply,
    i: int,
)
    requires
        call_ensures(build_reply, (status, &asked, body), sent),
        reply::can_be_sent(text::pair_views(asked@)),
    ensures
        sent.status == status,
        sent.body matches reply::Body::Text(said) && said@ == body@,
        sent.headers@.len() == asked@.len(),
        0 <= i < asked@.len() ==> sent.headers@[i].0@ == reply::lowered(asked@[i].0@)
            && sent.headers@[i].1@ == asked@[i].1@,
{
    reply::law_reply_is_as_asked(status, text::pair_views(asked@), body@, i);
    reply::law_reply_view(sent, i);
}

/// The JSON value of a script value, and whether it can be answered with.
pub proof fn law_values_are_converted(
    value: ScriptValue,
    converted: serde_json::Value,
    ok: bool,
    runtime: mq_lang::RuntimeValue,
    copy: ScriptValue,
)
    ensures
        call_ensures(runtime_value_to_json, (&value,), converted) ==> json::json_view(converted)
            == response::json_of(value@),
        call_ensures(can_answer, (&value,), ok) ==> ok == response::is_answer(value@),
        call_ensures(read_value, (&runtime,), copy) ==> copy@ == value::runtime_view(runtime)
            && value::is_sound(copy@),
{
}

/// What a script sees of a request: its query, every parameter under its name and no others, its
/// headers, its method and its path.
pub proof fn law_request_is_seen(
    parts: RequestParts,
    remote_addr: &str,
    made: mq_lang::RuntimeValue,
    i: int,
    name: Seq<char>,
)
    requires
        call_ensures(build_request_value, (&parts, remote_addr), made),
    ensures
        ({
            let seen = value::runtime_view(made);
            &&& request::field_of(seen, "method"@) == Some(value::text_view(parts.method@))
            &&& request::field_of(seen, "path"@) == Some(value::text_view(parts.path@))
            &&& request::field_of(seen, "uri"@) == Some(value::text_view(parts.uri@))
            &&& request::field_of(seen, "version"@) == Some(value::text_view(parts.version@))
            &&& request::field_of(seen, "remote_addr"@) == Some(value::text_view(remote_addr@))
            &&& 0 <= i < parts.query@.len() && (forall|j: int|
                i < j < parts.query@.len() ==> (#[trigger] parts.query@[j]).0@
                    != parts.query@[i].0@) ==> request::entry_of(
                seen,
                "query"@,
                parts.query@[i].0@,
            ) == Some(value::text_view(parts.query@[i].1@))
            &&& (forall|j: int|
                0 <= j < parts.query@.len() ==> (#[trigger] parts.query@[j]).0@ != name)
                ==> request::entry_of(seen, "query"@, name) is None
            &&& 0 <= i < parts.headers@.len() && (forall|j: int|
                i < j < parts.headers@.len() ==> (#[trigger] parts.headers@[j]).0@
                    != parts.headers@[i].0@) ==> request::entry_of(
                seen,
                "headers"@,
                parts.headers@[i].0@,
            ) is Some
            &&& request::is_request(seen, request::fields_of(parts, remote_addr@))
        }),
{
    let seen = value::runtime_view(made);
    request::law_plain_fields_are_seen(seen, parts, remote_addr@);
    request::law_query_is_seen(seen, parts, remote_addr@, i, name);
    if 0 <= i < parts.headers@.len() {
        let bytes = parts.headers@[i].1@;
        let content = bytes.map_values(|b: u8| b as char);
        request::law_headers_are_seen(seen, parts, remote_addr@, i, name, content);
    }
}

/// The fields of a request are read off it, and a header is found under its name.
pub proof fn law_request_is_read(
    parts: RequestParts,
    remote_addr: &str,
    fields: RequestFields,
    headers: Vec<(String, Vec<u8>)>,
    name: &str,
    found: Option<String>,
)
    ensures
        call_ensures(read_request, (&parts, remote_addr), fields) ==> fields@ == request::fields_of(
            parts,
            remote_addr@,
        ) && text::pair_views(fields.query@) == text::pair_views(parts.query@),
        call_ensures(find_header, (&headers, name), found) ==> text::option_view(found)
            == request::header_under(request::header_views(headers@), name@),
{
    request::law_fields_view(fields);
}

/// A body is read by its content type, and never fails to be.
pub proof fn law_body_is_read(
    body: &str,
    content_type: &str,
    made: mq_lang::RuntimeValue,
    kind: BodyKind,
)
    ensures
        call_ensures(parse_body, (body, content_type), made) ==> body::is_parsed_body(
            value::runtime_view(made),
            body@,
            content_type@,
        ),
        call_ensures(body_kind, (content_type,), kind) ==> kind == body::kind_of(content_type@),
{
}

/// A request passes with the key or with the credentials that the settings ask for, and with
/// nothing else where they ask for any.
pub proof fn law_auth_is_checked(
    args: Args,
    headers: Vec<(String, Vec<u8>)>,
    passed: bool,
    key: String,
    credentials: String,
)
    requires
        call_ensures(check_auth, (&args, &headers), passed),
    ensures
        ({
            let given = request::header_views(headers@);
            &&& args.api_key is None && args.basic_auth is None ==> passed
            &&& args.api_key == Some(key) && args.basic_auth is None ==> (passed
                <==> request::header_under(given, "x-api-key"@) == Some(key@)
                || request::header_under(given, "authorization"@) == Some(
                seq!['B', 'e', 'a', 'r', 'e', 'r', ' '] + key@,
            ))
            &&& args.api_key is None && args.basic_auth == Some(credentials) ==> (passed
                <==> auth::is_authorized(None, Some(credentials@), given))
            &&& args.api_key == Some(key) && args.basic_auth == Some(credentials) ==> (passed
                <==> auth::is_authorized(Some(key@), None, given) || auth::is_authorized(
                None,
                Some(credentials@),
                given,
            ))
        }),
{
    let given = request::header_views(headers@);
    auth::law_key_lets_in(key@, given);
    auth::law_either_will_do(key@, credentials@, given);
}

/// What is shown is read off the headers, and who shows nothing of it is refused.
pub proof fn law_auth_is_read(
    args: Args,
    headers: Vec<(String, Vec<u8>)>,
    token: Option<String>,
    credentials: Option<String>,
    sent: Reply,
)
    ensures
        call_ensures(bearer_token, (&headers,), token) ==> text::option_view(token)
            == auth::bearer_of(request::header_views(headers@)),
        call_ensures(basic_credentials, (&headers,), credentials) ==> text::option_view(credentials)
            == auth::basic_of(request::header_views(headers@)),
        call_ensures(auth_error_response, (&args,), sent) ==> sent.status == 401 && sent@
            == auth::refusal(args.basic_auth),
{
    auth::law_refusal(args.basic_auth);
    reply::law_reply_view(sent, 0);
}

/// A request is judged by the rate limiter first and then by what it shows; one that takes too long
/// is told so; and each reply has the number of its request.
pub proof fn law_requests_are_judged(
    args: Args,
    headers: Vec<(String, Vec<u8>)>,
    let_through: bool,
    id: Option<String>,
    verdict: Verdict,
    late: Reply,
    given: Reply,
    marked: Reply,
    numbered: Vec<(String, Vec<u8>)>,
)
    ensures
        call_ensures(judge, (&args, &headers, let_through, &id), verdict) ==> verdict@
            == middleware::verdict_of(
            args,
            request::header_views(headers@),
            let_through,
            text::option_view(id),
        ),
        call_ensures(timeout_response, (&id,), late) ==> late.status == 408 && late@.body
            == reply::BodyView::Text("Request timed out"@) && (id matches Some(number)
            ==> middleware::carries(late@.headers, number@)),
        call_ensures(with_id, (given, &id), marked) ==> marked.status == given.status && marked@.body
            == given@.body && (id matches Some(number) ==> middleware::carries(
            marked@.headers,
            number@,
        ) && marked@.headers.drop_last() == middleware::without(given@.headers, "x-request-id"@))
            && (id is None ==> marked@ == given@),
        call_ensures(number_headers, (&headers, &id), numbered) ==> (id matches Some(number)
            ==> middleware::carries(
            request::header_views(numbered@),
            vstd::utf8::encode_utf8(number@),
        ) && request::header_views(numbered@).drop_last() == middleware::without(
            request::header_views(headers@),
            "x-request-id"@,
        )) && (id is None ==> request::header_views(numbered@) == request::header_views(headers@)),
{
    middleware::law_own_replies();
    reply::law_reply_view(late, 0);
    reply::law_reply_view(given, 0);
    reply::law_reply_view(marked, 0);
    if let Some(number) = id {
        middleware::law_numbered_once(middleware::timed_out(), number@);
        middleware::law_numbered_once(given@, number@);
        middleware::lemma_numbered_headers(request::header_views(headers@), number@);
    }
}

/// A client is counted by its address, or as this machine where it has none.
pub proof fn law_peers(ip: &str, name: String)
    ensures
        call_ensures(peer_ip, (Some(ip),), name) ==> name@ == ip@,
        call_ensures(peer_ip, (None::<&str>,), name) ==> name@ == "127.0.0.1"@,
{
}

/// A new limiter has the limit that it was asked for and no windows; a server that starts has the
/// script that it was given, and a limiter where the settings ask for one.
pub proof fn law_fresh_state(limit: u32, limiter: RateLimiter, args: Args, script: String, state: AppState)
    ensures
        call_ensures(RateLimiter::new, (limit,), limiter) ==> limiter.limit_per_second == limit && (
        forall|name: Seq<char>| !#[trigger] limiter@.windows.contains_key(name)),
        call_ensures(AppState::new, (args, script), state) ==> state.args == args && (
        state.script_content matches Some(held) && held@ == script@) && (args.rate_limit
            matches Some(wanted) ==> (state.rate_limiter matches Some(made)
            && made.limit_per_second == wanted)) && (args.rate_limit is None ==> state.rate_limiter
            is None),
{
}

/// The port of the environment goes before that of the settings, where it is one; so does the
/// address.
pub proof fn law_where_to_listen(
    env: &str,
    args: Args,
    port: u16,
    parsed: Option<u16>,
    address: String,
    n: nat,
)
    ensures
        call_ensures(parse_port, (env,), parsed) ==> parsed == cli::port_of(env@),
        call_ensures(choose_port, (None::<&str>, &args), port) ==> port == args.port,
        call_ensures(choose_port, (Some(env), &args), port) && env@ == text::decimal_of(n) && n
            <= 65535 ==> port == n,
        call_ensures(choose_port, (Some(env), &args), port) && cli::port_of(env@) is None ==> port
            == args.port,
        call_ensures(bind_address, (None::<&str>, &args, port), address) ==> address@
            == args.addr@ + seq![':'] + text::decimal_of(port as nat),
        call_ensures(bind_address, (Some(env), &args, port), address) ==> address@ == env@ + seq![
            ':',
        ] + text::decimal_of(port as nat),
{
    reveal_strlit(":");
    assert(":"@ =~= seq![':']);
    cli::law_ports(n, env@, 0);
}

/// A certificate and a key are given together or not at all, and a script on the standard input
/// is taken as it is unless it is blank.
pub proof fn law_start_is_checked(
    args: Args,
    checked: Result<(), StartError>,
    content: String,
    script: Result<String, StartError>,
)
    ensures
        call_ensures(check_tls, (&args,), checked) ==> (checked is Ok <==> (args.tls_cert is Some
            <==> args.tls_key is Some)) && (checked matches Err(error) ==> error
            == StartError::HalfTls),
        call_ensures(accept_stdin, (content,), script) ==> (script matches Ok(taken) ==> taken@
            == content@) && (script is Err <==> text::trimmed(content@, Trim::White).len() == 0) && (
        script matches Err(error) ==> error == StartError::EmptyStdin),
{
}

/// Where the script comes from, what is listened on, and who may make cross-origin requests follow
/// from the settings.
pub proof fn law_choices<'a>(
    args: &'a Args,
    piped: bool,
    source: ScriptSource<'a>,
    chosen: Transport<'a>,
    origins: &str,
    policy: CorsPolicy,
)
    ensures
        call_ensures(script_source, (args, piped), source) ==> source == cli::source_of(
            args,
            piped,
        ),
        call_ensures(transport, (args,), chosen) ==> chosen == cli::transport_of(args),
        call_ensures(cors_policy, (Some(origins),), policy) ==> policy@ == cors::policy_of(
            Some(origins@),
        ),
        call_ensures(cors_policy, (None::<&str>,), policy) ==> policy is Closed,
{
    cors::law_policy_view(policy);
}

/// A script is run, and its function called, in an engine with the built-in functions, the modules,
/// the texts and the files that the settings name.
pub proof fn law_scripts_are_prepared(
    args: Args,
    script: &str,
    reads: Vec<FileRead>,
    plan: (ScriptEngine, String),
    made: ScriptEngine,
    paths: Vec<String>,
    i: int,
)
    ensures
        call_ensures(script_plan, (&args, script, &reads), plan) ==> engine::engine_view(plan.0)
            == handler::request_engine(args, engine::read_views(reads@)) && plan.1@
            == "let req = . | "@ + script@,
        call_ensures(call_plan, (&args, script, &reads), plan) ==> engine::engine_view(plan.0)
            == handler::request_engine(args, engine::read_views(reads@)) && plan.1@
            == "let req = . | let _h = ("@ + script@ + ") | _h(req)"@,
        call_ensures(create_engine, (&args,), made) ==> engine::engine_view(made).builtins
            && engine::engine_view(made) == engine::engine_for(args),
        call_ensures(raw_file_paths, (&args,), paths) ==> (args.raw_file matches Some(list)
            ==> paths@.len() == list@.len() / 2 && (0 <= i < paths@.len() ==> paths@[i]@ == list@[2
            * i + 1]@)) && (args.raw_file is None ==> paths@.len() == 0),
{
    if call_ensures(raw_file_paths, (&args,), paths) {
        let views = text::string_views(paths@);
        assert(views.len() == paths@.len());
        if let Some(list) = args.raw_file {
            engine::law_pairs(text::string_views(list@), i);
            if 0 <= i < paths@.len() {
                assert(views[i] == paths@[i]@);
            }
        }
    }
}

/// A request is answered with an error where there is no script. Otherwise the script is run on the
/// value of the request.
pub proof fn law_requests_are_handled(
    args: Args,
    script: &str,
    parts: RequestParts,
    remote_addr: &str,
    reads: Vec<FileRead>,
    start: Start,
)
    ensures
        call_ensures(handler::handler, (&args, None::<&str>, &parts, remote_addr, &reads), start)
            ==> (start matches Start::Reply(sent) && sent.status == 500 && sent@.body
            == reply::BodyView::Text("Script not loaded"@)),
        call_ensures(handler::handler, (&args, Some(script), &parts, remote_addr, &reads), start)
            ==> (start matches Start::Run { script_engine, code, request } && code@
            == "let req = . | "@ + script@ && engine::engine_view(script_engine)
            == handler::request_engine(args, engine::read_views(reads@)) && request::is_request(
            value::runtime_view(request),
            request::fields_of(parts, remote_addr@),
        )),
{
    if let Start::Reply(sent) = start {
        reply::law_reply_view(sent, 0);
    }
}

/// What comes of running a script is read off as it is, and what is done then follows from it.
pub proof fn law_outcomes_are_followed(
    result: Result<Vec<mq_lang::RuntimeValue>, Box<mq_lang::Error>>,
    outcome: Outcome,
    request: mq_lang::RuntimeValue,
    format: &str,
    step: Step,
)
    ensures
        call_ensures(read_outcome, (result,), outcome) ==> outcome@ == engine::evaluated(result),
        call_ensures(script_step, (outcome, request, format), step) ==> step@
            == handler::script_step_of(outcome@, value::runtime_view(request), format@),
        call_ensures(call_step, (outcome, format), step) ==> step@ == handler::call_step_of(
            outcome@,
            format@,
        ),
{
}

/// The document of a script is served with the title and the version of the settings, and so is the
/// page with the title; without a script there is none.
pub proof fn law_documents_are_served(args: Args, script: &str, sent: Reply, page: String)
    ensures
        call_ensures(openapi_json_handler, (&args, Some(script)), sent) ==> sent.status == 200
            && sent@.body == reply::BodyView::Text(
            json::json_text(
                openapi::document_json(
                    args.docs_title@,
                    args.docs_version@,
                    handler::script_entries(script@),
                ),
            ),
        ),
        call_ensures(openapi_json_handler, (&args, None::<&str>), sent) ==> sent.status == 500,
        call_ensures(swagger_ui_handler, (&args,), sent) ==> sent.status == 200 && sent@.headers
            == seq![("content-type"@, "text/html; charset=utf-8"@)] && sent@.body
            == reply::BodyView::Text(openapi::swagger_page(args.docs_title@)),
        call_ensures(swagger_ui_html, (script,), page) ==> page@ == openapi::swagger_page(script@),
{
    reply::law_reply_view(sent, 0);
}

/// A script that was read again takes the place of the old one, whatever it holds; where it could
/// not be read the old one stays. Nothing else changes.
pub proof fn law_script_is_reloaded(state: &mut AppState, read: Option<String>)
    requires
        call_ensures(AppState::reload, (state, read), ()),
    ensures
        read matches Some(content) ==> (final(state).script_content matches Some(held) && held@
            == content@),
        read is None ==> text::option_view(final(state).script_content) == text::option_view(
            old(state).script_content,
        ),
        final(state).args == old(state).args,
        final(state).rate_limiter == old(state).rate_limiter,
{
}

/// A change of the script is acted on unless one was in the fifth of a second before it.
pub proof fn law_changes_are_acted_on(
    debounce: &mut Debounce,
    now: u128,
    action: WatchAction,
)
    requires
        call_ensures(Debounce::on_event, (debounce, WatchEvent::Changed, now), action),
    ensures
        old(debounce).last is None ==> action == WatchAction::Reload,
        old(debounce).last matches Some(last) ==> (action == WatchAction::Reload <==> now >= last
            + 200_000_000) && (action == WatchAction::Ignore <==> now < last + 200_000_000),
        action == WatchAction::Reload ==> final(debounce).last == Some(now),
        action != WatchAction::Reload ==> final(debounce).last == old(debounce).last,
{
    watch::law_what_is_acted_on(old(debounce).last, now);
}

/// What is no change is not acted on, and ends the watching where the file can no longer be
/// watched.
pub proof fn law_other_events(debounce: &mut Debounce, now: u128, action: WatchAction)
    requires
        call_ensures(Debounce::on_event, (debounce, WatchEvent::Other, now), action)
            || call_ensures(Debounce::on_event, (debounce, WatchEvent::Failed, now), action),
    ensures
        action != WatchAction::Reload,
        call_ensures(Debounce::on_event, (debounce, WatchEvent::Other, now), action) ==> action
            == WatchAction::Ignore,
        call_ensures(Debounce::on_event, (debounce, WatchEvent::Failed, now), action) ==> action
            == WatchAction::Stop,
        final(debounce).last == old(debounce).last,
{
    watch::law_what_is_acted_on(old(debounce).last, now);
}

/// A request is let through if and only if its name has no window that began less than a second
/// ago, or has one with room; and where the limit is zero, not at all. It is counted where it is
/// let through.
pub proof fn law_limiter_at(
    limiter: &mut RateLimiter,
    ip: &str,
    now: u128,
    allowed: bool,
    count: u32,
    began: u128,
)
    requires
        call_ensures(RateLimiter::allow_at, (limiter, ip, now), allowed),
    ensures
        final(limiter).limit_per_second == old(limiter).limit_per_second,
        !old(limiter)@.windows.contains_key(ip@) ==> (allowed <==> old(limiter).limit_per_second
            > 0) && final(limiter)@.windows[ip@] == (
            if allowed {
                1u32
            } else {
                0u32
            },
            now,
        ),
        old(limiter)@.windows.contains_key(ip@) && old(limiter)@.windows[ip@] == (count, began)
            && now >= began + 1_000_000_000 ==> (allowed <==> old(limiter).limit_per_second > 0)
            && final(limiter)@.windows[ip@] == (
            if allowed {
                1u32
            } else {
                0u32
            },
            now,
        ),
        old(limiter)@.windows.contains_key(ip@) && old(limiter)@.windows[ip@] == (count, began)
            && began <= now < began + 1_000_000_000 ==> (allowed <==> count
            < old(limiter).limit_per_second) && final(limiter)@.windows[ip@] == (
            if allowed {
                (count + 1) as u32
            } else {
                count
            },
            began,
        ),
{
}

/// The limiter decides by what the clock reads at the call: the nanoseconds since the limiter was
/// made, by which the next call decides too.
pub proof fn law_limiter_reads_clock(limiter: &mut RateLimiter, ip: &str, allowed: bool)
    requires
        call_ensures(RateLimiter::allow, (limiter, ip), allowed),
    ensures
        exists|now: u128| #[trigger]
            old(limiter).windows.may_read(now) && allowed == rate_limit::is_allowed(
                old(limiter)@,
                ip@,
                now,
            ) && final(limiter)@ == rate_limit::after(old(limiter)@, ip@, now),
        final(limiter).windows.made_at() == old(limiter).windows.made_at(),
        final(limiter).limit_per_second == old(limiter).limit_per_second,
{
}

/// Of two requests of one name, the second is let through where a second or more lies between what
/// the clock reads for them, whatever became of the first; they never share a window then.
pub proof fn law_second_apart(
    limiter: &mut RateLimiter,
    then: &mut RateLimiter,
    ip: &str,
    first: u128,
    second: u128,
    allowed: bool,
    again: bool,
)
    requires
        call_ensures(RateLimiter::allow_at, (limiter, ip, first), allowed),
        *then == *final(limiter),
        call_ensures(RateLimiter::allow_at, (then, ip, second), again),
        !old(limiter)@.windows.contains_key(ip@) || first >= old(limiter)@.windows[ip@].1,
        second >= first + 1_000_000_000,
        old(limiter).limit_per_second > 0,
    ensures
        again,
        final(then)@.windows[ip@] == (1u32, second),
{
}

/// Where requests get numbers each gets the one that the counter has, in decimal, and the counter
/// goes on by one; otherwise it stays.
pub proof fn law_numbers_are_given(args: Args, counter: &mut u64, id: Option<String>)
    requires
        call_ensures(next_request_id, (&args, counter), id),
    ensures
        args.request_id ==> (id matches Some(number) && number@ == text::decimal_of(
            *old(counter) as nat,
        )),
        args.request_id && *old(counter) < u64::MAX ==> *final(counter) == *old(counter) + 1,
        args.request_id && *old(counter) == u64::MAX ==> *final(counter) == 0,
        !args.request_id ==> id is None && *final(counter) == *old(counter),
{
}

/// Whatever becomes of a request, it gets the number of the counter where requests get numbers, and
/// is handed on with it in place of any that it came with; one that is turned away is told it. It is
/// handed on only if it shows what is asked for, and then with the time that the settings say.
pub proof fn law_requests_pass(
    state: &mut AppState,
    counter: &mut u64,
    ip: Option<&str>,
    headers: Vec<(String, Vec<u8>)>,
    passage: Passage,
)
    requires
        call_ensures(middleware::middleware, (state, counter, ip, &headers), passage),
    ensures
        final(state).args == old(state).args,
        final(state).script_content == old(state).script_content,
        old(state).args.request_id ==> {
            let number = text::decimal_of(*old(counter) as nat);
            &&& text::option_view(passage.request_id) == Some(number)
            &&& middleware::carries(
                request::header_views(passage.headers@),
                vstd::utf8::encode_utf8(number),
            )
            &&& passage.verdict matches Verdict::Refuse(sent) ==> middleware::carries(
                sent@.headers,
                number,
            )
        },
        !old(state).args.request_id ==> passage.request_id is None && request::header_views(
            passage.headers@,
        ) == request::header_views(headers@) && *final(counter) == *old(counter),
        passage.verdict matches Verdict::Forward { timeout } ==> timeout == old(state).args.timeout
            && auth::is_authorized(
            text::option_view(old(state).args.api_key),
            text::option_view(old(state).args.basic_auth),
            request::header_views(headers@),
        ),
        passage.verdict matches Verdict::Refuse(sent) ==> sent.status == 401 || sent.status == 429,
        old(state).rate_limiter is None && auth::is_authorized(
            text::option_view(old(state).args.api_key),
            text::option_view(old(state).args.basic_auth),
            request::header_views(headers@),
        ) ==> passage.verdict is Forward,
{
    let args = old(state).args;
    let given = request::header_views(headers@);
    let id = middleware::id_of(args, *old(counter));
    let now = choose|now: u128|
        #[trigger] middleware::has_counted(
            old(state).rate_limiter,
            final(state).rate_limiter,
            middleware::name_of(ip),
            now,
        ) && passage.verdict@ == middleware::verdict_of(
            args,
            given,
            middleware::lets_through(old(state).rate_limiter, middleware::name_of(ip), now),
            id,
        );
    let let_through = middleware::lets_through(
        old(state).rate_limiter,
        middleware::name_of(ip),
        now,
    );
    middleware::law_number_goes_everywhere(args, given, let_through, *old(counter), given);
    middleware::law_forwarded_iff_admitted(args, given, let_through, id);
    middleware::law_verdicts(args, given, let_through, id);
    middleware::law_verdict_view(passage.verdict);
    if let Verdict::Refuse(sent) = passage.verdict {
        reply::law_reply_view(sent, 0);
    }
}

/// Files are loaded under their names up to the first that could not be read, which is told.
pub proof fn law_files_are_loaded(
    script_engine: &mut ScriptEngine,
    args: Args,
    reads: Vec<FileRead>,
    done: Result<(), usize>,
)
    requires
        call_ensures(load_raw_files, (script_engine, &args, &reads), done),
    ensures
        engine::engine_view(*final(script_engine)).strings == engine::defined(
            engine::engine_view(*old(script_engine)).strings,
            engine::loaded(engine::given_pairs(args.raw_file), engine::read_views(reads@)),
        ),
        engine::engine_view(*final(script_engine)).builtins == engine::engine_view(
            *old(script_engine),
        ).builtins,
        engine::engine_view(*final(script_engine)).paths == engine::engine_view(
            *old(script_engine),
        ).paths,
        done is Ok <==> engine::first_failed(
            engine::given_pairs(args.raw_file),
            engine::read_views(reads@),
        ) is None,
{
}

/// The routes of a node are added behind those that were found before.
pub proof fn law_routes_are_collected(
    node: SyntaxNode,
    routes: &mut Vec<(String, String, Option<String>)>,
)
    requires
        call_ensures(collect_routes, (&node, routes), ()),
    ensures
        route::route_views(final(routes)@) == route::route_views(old(routes)@) + route::routes_in(
            node@,
        ),
{
}

/// What the text functions give.
pub proof fn law_texts(
    s: &[char],
    other: &[char],
    c: char,
    said: &str,
    by: Trim,
    list: Vec<String>,
    chars: Vec<char>,
    made: String,
    part: &[char],
    parts: Vec<&[char]>,
    n: usize,
    limit: usize,
    yes: bool,
)
    ensures
        call_ensures(text::chars_of, (said,), chars) ==> chars@ == said@,
        call_ensures(text::text_of, (s,), made) ==> made@ == s@,
        call_ensures(text::same_chars, (s, other), yes) ==> (yes <==> s@ == other@),
        call_ensures(text::is_text, (s, said), yes) ==> (yes <==> s@ == said@),
        call_ensures(text::begins_with, (s, said), yes) ==> (yes <==> said@.len() <= s@.len()
            && s@.take(said@.len() as int) == said@),
        call_ensures(text::trim, (s, by), part) ==> part@ == text::trimmed(s@, by),
        call_ensures(text::find, (s, c), n) ==> n <= s@.len() && (n < s@.len() ==> s@[n as int]
            == c) && (forall|i: int| 0 <= i < n ==> s@[i] != c),
        call_ensures(text::split, (s, c, limit), parts) ==> text::slice_views(parts@)
            == text::split_at_most(s@, c, limit as nat),
        call_ensures(text::split_every, (s, c), parts) ==> text::slice_views(parts@)
            == text::split_all(s@, c),
        call_ensures(text::lines, (s,), parts) ==> text::slice_views(parts@) == text::lines_of(s@),
        call_ensures(text::contains, (s, said), yes) ==> (yes <==> text::has_part(s@, said@)),
        call_ensures(text::join, (&list, said), made) ==> made@ == text::joined(
            text::string_views(list@),
            said@,
        ),
{
    text::lemma_first_at(s@, c);
    assert(s@.take(said@.len() as int) =~= s@.subrange(0, said@.len() as int));
}

/// What the functions that others are made of give.
pub proof fn law_parts(
    bits: u64,
    whole: Option<i64>,
    cut: u16,
    content_type: &str,
    body: String,
    status: u16,
    name: &str,
    content: &str,
    sent: Reply,
    node: SyntaxNode,
    found: Option<String>,
    error: StartError,
    message: &'static str,
    script: &str,
    code: String,
)
    ensures
        call_ensures(number::whole, (bits,), whole) ==> match whole {
            Some(n) => number::small_whole(bits) == Some(n as int),
            None => number::small_whole(bits) is None,
        },
        call_ensures(number::clamp, (bits,), cut) ==> cut == number::clamped(bits),
        call_ensures(reply::typed_reply, (content_type, body), sent) ==> sent.status == 200
            && sent@.headers == seq![("content-type"@, content_type@)] && sent@.body
            == reply::BodyView::Text(body@),
        call_ensures(reply::plain_reply, (status, body), sent) ==> sent.status == status
            && sent@.headers == seq![("content-type"@, "text/plain; charset=utf-8"@)] && sent@.body
            == reply::BodyView::Text(body@),
        call_ensures(reply::plain_reply_with, (status, name, content, script), sent) ==> sent.status
            == status && sent@.headers == seq![
            ("content-type"@, "text/plain; charset=utf-8"@),
            (name@, content@),
        ] && sent@.body == reply::BodyView::Text(script@),
        call_ensures(route::extract_string_literal, (&node,), found) ==> text::option_view(found)
            == (if node.kind == SyntaxKind::Literal {
            text::option_view(node.literal)
        } else {
            None
        }),
        call_ensures(route::find_first_call_name, (&node,), found) ==> text::option_view(found)
            == route::first_call(node@),
        call_ensures(StartError::message, (error,), message) ==> message@ == error.said(),
        call_ensures(handler::script_code, (script,), code) ==> code@ == "let req = . | "@
            + script@,
        call_ensures(handler::call_code, (script,), code) ==> code@ == "let req = . | let _h = ("@
            + script@ + ") | _h(req)"@,
{
    reply::law_reply_view(sent, 0);
    syntax::law_node_view(node, 0);
}

/// What lists of nodes, routes, events and entries become.
pub proof fn law_lists(
    nodes: Vec<SyntaxNode>,
    routes: Vec<(String, String, Option<String>)>,
    table: StringHashMap<FuncAnnotation>,
    linked: Vec<RouteEntry>,
    code: &str,
    items: Vec<ScriptValue>,
    sent: Reply,
    entries: Vec<(String, ScriptValue)>,
    value: ScriptValue,
    format: &str,
    pairs: Vec<(String, String)>,
    made: mq_lang::RuntimeValue,
    fields: RequestFields,
    step: Step,
)
    ensures
        call_ensures(syntax::parse_nodes, (code,), nodes) ==> syntax::node_views(nodes@)
            == syntax::parsed_forest(code@ + seq!['\n', '#', '{']),
        call_ensures(route::routes_of_nodes, (&nodes,), routes) ==> route::route_views(routes@)
            == route::routes_of(syntax::node_views(nodes@)),
        call_ensures(openapi::link_routes, (routes, &table), linked) ==> openapi::entry_views(
            linked@,
        ) == openapi::entries_of(route::route_views(routes@), annotation::table_view(table@)),
        call_ensures(response::build_sse_response, (&items,), sent) ==> sent.status == 200
            && sent@.body == reply::BodyView::Events(
            response::events_of(value::value_views(items@)),
        ),
        call_ensures(response::build_dict_response, (&entries, &value, format), sent) ==> sent@
            == response::dict_reply(value@, value::entry_views(entries@), format@),
        call_ensures(value::text_dict, (&pairs,), made) ==> value::is_text_dict(
            value::runtime_view(made),
            text::pair_views(pairs@),
        ),
        call_ensures(request::request_value, (&fields,), made) ==> request::is_request(
            value::runtime_view(made),
            fields@,
        ),
        call_ensures(handler::answer, (&value, format), step) ==> step@ == handler::answer_with(
            value@,
            format@,
        ),
{
    syntax::law_closed(code@);
    reply::law_reply_view(sent, 0);
}

} // verus!
