//! How a request is answered: by the script, or by the function that the script gives.

use vstd::prelude::*;

use crate::annotation;
use crate::cli::Args;
use crate::engine;
use crate::engine::{create_engine, load_raw_files, FileRead, Outcome, ScriptEngine};
use crate::json;
use crate::json::render;
use crate::openapi;
use crate::openapi::{build_openapi_json, parse_script, swagger_ui_html};
use crate::reply;
use crate::reply::{plain_reply, typed_reply, Reply};
use crate::request;
use crate::request::{build_request_value, RequestParts};
use crate::response;
use crate::response::{can_answer, runtime_value_to_response};
use crate::route;
use crate::syntax;
use crate::value;
use crate::value::{Content, ScriptValue};

verus! {

/// What is done once a script has run.
pub enum Step {
    /// Send this reply.
    Reply(Reply),
    /// The script gave a function: call it with this request.
    CallHandler(mq_lang::RuntimeValue),
    /// The script gave an event stream with an event that cannot be written.
    Unsendable,
}

/// The model of a [`Step`].
pub ghost enum StepView {
    Reply(reply::ReplyView),
    CallHandler(value::ValueView),
    Unsendable,
}

impl View for Step {
    type V = StepView;

    open spec fn view(&self) -> StepView {
        match self {
            Step::Reply(sent) => StepView::Reply(sent@),
            Step::CallHandler(request) => StepView::CallHandler(value::runtime_view(*request)),
            Step::Unsendable => StepView::Unsendable,
        }
    }
}

/// The absent value.
pub open spec fn nothing() -> value::ValueView {
    value::ValueView { content: value::ContentView::Nothing, text: seq![] }
}

/// The value that counts of those that a script gives: the last one.
pub open spec fn last_value(values: Seq<value::ValueView>) -> value::ValueView {
    if values.len() > 0 {
        values.last()
    } else {
        nothing()
    }
}

/// How a value is answered with.
pub open spec fn answer_with(value: value::ValueView, format: Seq<char>) -> StepView {
    if response::is_answer(value) {
        StepView::Reply(response::reply_of(value, format))
    } else {
        StepView::Unsendable
    }
}

/// What is done once a script has run: its last value is the answer, unless it is a function,
/// which is called with the request.
pub open spec fn script_step_of(
    outcome: engine::OutcomeView,
    request: value::ValueView,
    format: Seq<char>,
) -> StepView {
    match outcome {
        engine::OutcomeView::Values(values) => if last_value(values).content is Function {
            StepView::CallHandler(request)
        } else {
            answer_with(last_value(values), format)
        },
        engine::OutcomeView::Failed(text) => StepView::Reply(
            reply::plain(500, "Script error: "@ + text),
        ),
    }
}

/// What is done once the function of a script has run: its last value is the answer.
pub open spec fn call_step_of(outcome: engine::OutcomeView, format: Seq<char>) -> StepView {
    match outcome {
        engine::OutcomeView::Values(values) => answer_with(last_value(values), format),
        engine::OutcomeView::Failed(text) => StepView::Reply(
            reply::plain(500, "Function call error: "@ + text),
        ),
    }
}

/// Answer with a value.
pub fn answer(value: &ScriptValue, format: &str) -> (step: Step)
    ensures
        step@ == answer_with(value@, format@),
{
    if can_answer(value) {
        Step::Reply(runtime_value_to_response(value, format))
    } else {
        Step::Unsendable
    }
}

/// The last value, which leaves the list.
fn take_last(values: Vec<ScriptValue>) -> (last: ScriptValue)
    ensures
        last@ == last_value(value::value_views(values@)),
{
    let mut values = values;
    match values.pop() {
        Some(last) => last,
        None => {
            let last = ScriptValue { content: Content::Nothing, text: String::new() };
            proof {
                value::lemma_view(last);
                assert(last.text@ =~= seq![]);
            }
            last
        },
    }
}

/// Decide what is done once a script has run on a request.
pub fn script_step(outcome: Outcome, request: mq_lang::RuntimeValue, format: &str) -> (step: Step)
    ensures
        step@ == script_step_of(outcome@, value::runtime_view(request), format@),
{
    match outcome {
        Outcome::Values(values) => {
            let last = take_last(values);
            proof {
                value::lemma_view(last);
            }
            match &last.content {
                Content::Function => Step::CallHandler(request),
                _ => answer(&last, format),
            }
        },
        Outcome::Failed(text) => {
            let mut said = "Script error: ".to_owned();
            said.append(text.as_str());
            Step::Reply(plain_reply(500, said))
        },
    }
}

/// Decide what is done once the function of a script has run.
pub fn call_step(outcome: Outcome, format: &str) -> (step: Step)
    ensures
        step@ == call_step_of(outcome@, format@),
{
    match outcome {
        Outcome::Values(values) => {
            let last = take_last(values);
            answer(&last, format)
        },
        Outcome::Failed(text) => {
            let mut said = "Function call error: ".to_owned();
            said.append(text.as_str());
            Step::Reply(plain_reply(500, said))
        },
    }
}

/// The engine of a request: the one that the settings ask for, with the files that were read.
pub open spec fn request_engine(args: Args, reads: Seq<engine::ReadView>) -> engine::EngineView {
    engine::EngineView {
        strings: engine::defined(
            engine::engine_for(args).strings,
            engine::loaded(engine::given_pairs(args.raw_file), reads),
        ),
        ..engine::engine_for(args)
    }
}

/// The code that is run for a script, in which the request is named `req`.
pub open spec fn script_code_of(script: Seq<char>) -> Seq<char> {
    "let req = . | "@ + script
}

/// The code that calls the function that a script gives.
pub open spec fn call_code_of(script: Seq<char>) -> Seq<char> {
    "let req = . | let _h = ("@ + script + ") | _h(req)"@
}

/// The code that is run for a script.
pub fn script_code(script: &str) -> (code: String)
    ensures
        code@ == script_code_of(script@),
{
    let mut code = "let req = . | ".to_owned();
    code.append(script);
    code
}

/// The code that calls the function that a script gives.
pub fn call_code(script: &str) -> (code: String)
    ensures
        code@ == call_code_of(script@),
{
    let mut code = "let req = . | let _h = (".to_owned();
    code.append(script);
    code.append(") | _h(req)");
    code
}

/// The engine of a request.
fn prepare_engine(args: &Args, reads: &Vec<FileRead>) -> (made: ScriptEngine)
    ensures
        engine::engine_view(made) == request_engine(*args, engine::read_views(reads@)),
{
    let mut made = create_engine(args);
    let _ = load_raw_files(&mut made, args, reads);
    made
}

/// How a script is run on a request: an engine of its own, and the code to run in it. A file that
/// could not be read ends the loading of files, not the request.
pub fn script_plan(args: &Args, script: &str, reads: &Vec<FileRead>) -> (plan: (
    ScriptEngine,
    String,
))
    ensures
        engine::engine_view(plan.0) == request_engine(*args, engine::read_views(reads@)),
        plan.1@ == script_code_of(script@),
{
    (prepare_engine(args, reads), script_code(script))
}

/// How the function that a script gives is called with a request: an engine of its own, and the
/// code to run in it.
pub fn call_plan(args: &Args, script: &str, reads: &Vec<FileRead>) -> (plan: (
    ScriptEngine,
    String,
))
    ensures
        engine::engine_view(plan.0) == request_engine(*args, engine::read_views(reads@)),
        plan.1@ == call_code_of(script@),
{
    (prepare_engine(args, reads), call_code(script))
}

/// The reply where there is no script.
pub open spec fn not_loaded() -> reply::ReplyView {
    reply::plain(500, "Script not loaded"@)
}

/// What is done first with a request.
pub enum Start {
    /// Send this reply.
    Reply(Reply),
    /// Run this code in this engine, on the value of the request.
    Run { script_engine: ScriptEngine, code: String, request: mq_lang::RuntimeValue },
}

/// Begin to answer a request: make its value, and an engine of its own to run the script in.
pub fn handler(
    args: &Args,
    script: Option<&str>,
    parts: &RequestParts,
    remote_addr: &str,
    reads: &Vec<FileRead>,
) -> (start: Start)
    ensures
        match script {
            None => start matches Start::Reply(sent) && sent@ == not_loaded(),
            Some(script) => start matches Start::Run { script_engine, code, request }
                && engine::engine_view(script_engine) == request_engine(
                *args,
                engine::read_views(reads@),
            ) && code@ == script_code_of(script@) && request::is_request(
                value::runtime_view(request),
                request::fields_of(*parts, remote_addr@),
            ),
        },
{
    match script {
        None => Start::Reply(plain_reply(500, "Script not loaded".to_owned())),
        Some(script) => {
            let request = build_request_value(parts, remote_addr);
            let (script_engine, code) = script_plan(args, script, reads);
            Start::Run { script_engine, code, request }
        },
    }
}

/// The reply with the OpenAPI document of a script.
pub open spec fn document_reply(
    title: Seq<char>,
    version: Seq<char>,
    entries: Seq<openapi::EntryView>,
) -> reply::ReplyView {
    reply::typed(
        "application/json"@,
        json::json_text(openapi::document_json(title, version, entries)),
    )
}

/// The routes of a script, with the annotations of their handlers.
pub open spec fn script_entries(script: Seq<char>) -> Seq<openapi::EntryView> {
    openapi::entries_of(
        route::routes_of(syntax::parsed_forest(syntax::closed(route::piped(script)))),
        annotation::annotations_of(script),
    )
}

/// Answer with the OpenAPI document of the script.
pub fn openapi_json_handler(args: &Args, script: Option<&str>) -> (sent: Reply)
    ensures
        sent@ == (match script {
            None => not_loaded(),
            Some(script) => document_reply(
                args.docs_title@,
                args.docs_version@,
                script_entries(script@),
            ),
        }),
{
    match script {
        None => plain_reply(500, "Script not loaded".to_owned()),
        Some(script) => {
            let entries = parse_script(script);
            let document = build_openapi_json(
                args.docs_title.as_str(),
                args.docs_version.as_str(),
                entries.as_slice(),
            );
            typed_reply("application/json", render(&document))
        },
    }
}

/// Answer with the page of the Swagger UI.
pub fn swagger_ui_handler(args: &Args) -> (sent: Reply)
    ensures
        sent@ == reply::typed(
            "text/html; charset=utf-8"@,
            openapi::swagger_page(args.docs_title@),
        ),
{
    typed_reply("text/html; charset=utf-8", swagger_ui_html(args.docs_title.as_str()))
}

/// A function that a script gives is called with the request of the script, and only a function
/// is; what the call gives is never called again.
pub proof fn law_only_functions_are_called(
    values: Seq<value::ValueView>,
    request: value::ValueView,
    format: Seq<char>,
)
    ensures
        script_step_of(engine::OutcomeView::Values(values), request, format)
            is CallHandler <==> values.len() > 0 && values.last().content is Function,
        script_step_of(
            engine::OutcomeView::Values(values),
            request,
            format,
        ) matches StepView::CallHandler(passed) ==> passed == request,
        !(call_step_of(engine::OutcomeView::Values(values), format) is CallHandler),
{
}

/// A script that gives no value is answered with an empty text.
pub proof fn law_no_value_is_empty_text(request: value::ValueView, format: Seq<char>)
    ensures
        script_step_of(engine::OutcomeView::Values(seq![]), request, format) == StepView::Reply(
            reply::plain(200, seq![]),
        ),
{
}

/// A script is run behind code that names the request `req`; a function that it gives is called
/// with the request.
pub proof fn law_code_around_script(script: Seq<char>)
    ensures
        script_code_of(script).len() == 14 + script.len(),
        script_code_of(script).take(14) == "let req = . | "@,
        script_code_of(script).skip(14) == script,
        call_code_of(script).take(24) == "let req = . | let _h = ("@,
        call_code_of(script).subrange(24, 24int + script.len()) == script,
        call_code_of(script).skip(24int + script.len()) == ") | _h(req)"@,
{
    reveal_strlit("let req = . | ");
    reveal_strlit("let req = . | let _h = (");
    reveal_strlit(") | _h(req)");
    assert(script_code_of(script).take(14) =~= "let req = . | "@);
    assert(script_code_of(script).skip(14) =~= script);
    assert(call_code_of(script).take(24) =~= "let req = . | let _h = ("@);
    assert(call_code_of(script).subrange(24, 24int + script.len()) =~= script);
    assert(call_code_of(script).skip(24int + script.len()) =~= ") | _h(req)"@);
}

/// The engine of a request is the one that the settings ask for, with the files that were read.
pub proof fn law_request_engine(args: Args, reads: Seq<engine::ReadView>)
    ensures
        request_engine(args, reads).builtins == engine::engine_for(args).builtins,
        request_engine(args, reads).paths == engine::engine_for(args).paths,
        request_engine(args, reads).strings == engine::defined(
            engine::engine_for(args).strings,
            engine::loaded(engine::given_pairs(args.raw_file), reads),
        ),
{
}

/// The last value that a script gives is answered with, as any value is; what it gives before is
/// not. A failure is an error of the server that says what went wrong.
pub proof fn law_last_value_is_answered_with(
    values: Seq<value::ValueView>,
    request: value::ValueView,
    format: Seq<char>,
    said: Seq<char>,
)
    ensures
        values.len() > 0 && !(values.last().content is Function) && response::is_answer(
            values.last(),
        ) ==> script_step_of(engine::OutcomeView::Values(values), request, format)
            == StepView::Reply(response::reply_of(values.last(), format)),
        values.len() > 0 && response::is_answer(values.last()) ==> call_step_of(
            engine::OutcomeView::Values(values),
            format,
        ) == StepView::Reply(response::reply_of(values.last(), format)),
        values.len() > 0 && !response::is_answer(values.last()) ==> script_step_of(
            engine::OutcomeView::Values(values),
            request,
            format,
        ) == StepView::Unsendable && call_step_of(engine::OutcomeView::Values(values), format)
            == StepView::Unsendable,
        script_step_of(engine::OutcomeView::Failed(said), request, format) matches StepView::Reply(
            sent,
        ) && sent.status == 500 && sent.body == reply::BodyView::Text("Script error: "@ + said),
        call_step_of(engine::OutcomeView::Failed(said), format) matches StepView::Reply(sent)
            && sent.status == 500 && sent.body == reply::BodyView::Text(
            "Function call error: "@ + said,
        ),
        not_loaded().status == 500,
        not_loaded().body == reply::BodyView::Text("Script not loaded"@),
{
}

/// The document of a script is sent as compact JSON.
pub proof fn law_document_reply(
    title: Seq<char>,
    version: Seq<char>,
    entries: Seq<openapi::EntryView>,
)
    ensures
        document_reply(title, version, entries).status == 200,
        document_reply(title, version, entries).headers == seq![
            ("content-type"@, "application/json"@),
        ],
        document_reply(title, version, entries).body == reply::BodyView::Text(
            json::json_text(openapi::document_json(title, version, entries)),
        ),
{
}

/// The routes of a script are those of what the script is parsed as, with pipes behind its
/// top-level blocks; each has the annotation that the script gives its handler.
pub proof fn law_script_entries(script: Seq<char>, i: int)
    ensures
        ({
            let routes = route::routes_of(
                syntax::parsed_forest(syntax::closed(route::piped(script))),
            );
            &&& script_entries(script).len() == routes.len()
            &&& 0 <= i < routes.len() ==> script_entries(script)[i].method == routes[i].method
            &&& 0 <= i < routes.len() ==> script_entries(script)[i].path == routes[i].path
            &&& 0 <= i < routes.len() ==> (routes[i].handler matches Some(name) ==> (
            annotation::annotations_of(script).contains_key(name) ==> script_entries(
                script,
            )[i].annotation == annotation::annotations_of(script)[name]))
        }),
{
    if 0 <= i < route::routes_of(
        syntax::parsed_forest(syntax::closed(route::piped(script))),
    ).len() {
        openapi::law_one_entry_per_route(
            route::routes_of(syntax::parsed_forest(syntax::closed(route::piped(script)))),
            annotation::annotations_of(script),
            i,
        );
    }
}

/// What a step holds is what its parts hold.
pub proof fn law_step_view(step: Step)
    ensures
        match step {
            Step::Reply(sent) => step@ == StepView::Reply(sent@),
            Step::CallHandler(request) => step@ == StepView::CallHandler(
                value::runtime_view(request),
            ),
            Step::Unsendable => step@ == StepView::Unsendable,
        },
{
}

} // verus!
