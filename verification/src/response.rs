//! From script values to HTTP replies.

use vstd::prelude::*;

use crate::json;
use crate::json::{
    json_array, json_bool, json_int, json_null, json_object, json_string, map_insert, new_map,
    render,
};
use crate::number;
use crate::reply;
use crate::reply::{
    accepts_status, build_reply, plain_reply, typed_reply, Body, Reply, SseEvent,
};
use crate::text;
use crate::value;
use crate::value::{Content, ScriptValue};

verus! {

/// The JSON value of a script value. A small whole number is an integer; what JSON has no word
/// for is null.
pub open spec fn json_of(value: value::ValueView) -> json::JsonView
    decreases value, 0nat,
{
    match value.content {
        value::ContentView::Text(text) => json::JsonView::Text(text),
        value::ContentView::Number { bits, fraction } => match number::small_whole(bits) {
            Some(n) => json::JsonView::Int(n),
            None => fraction,
        },
        value::ContentView::Boolean(flag) => json::JsonView::Bool(flag),
        value::ContentView::Dict(entries) => json::JsonView::Object(
            json_entries(entries, entries.len()),
        ),
        value::ContentView::Array(items) => json::JsonView::Array(
            Seq::new(
                items.len(),
                |i: int|
                    if 0 <= i < items.len() {
                        json_of(items[i])
                    } else {
                        arbitrary()
                    },
            ),
        ),
        _ => json::JsonView::Null,
    }
}

/// The first `n` entries of a dictionary as those of a JSON object.
pub open spec fn json_entries(entries: Seq<(Seq<char>, value::ValueView)>, n: nat) -> Seq<
    (Seq<char>, json::JsonView),
>
    decreases entries, n,
{
    if n == 0 || n > entries.len() {
        seq![]
    } else {
        json::put(
            json_entries(entries, (n - 1) as nat),
            entries[n - 1].0,
            json_of(entries[n - 1].1),
        )
    }
}

/// Convert a script value to a JSON value.
pub fn runtime_value_to_json(value: &ScriptValue) -> (converted: serde_json::Value)
    ensures
        json::json_view(converted) == json_of(value@),
    decreases value@,
{
    let ghost whole = value@;
    proof {
        value::lemma_view(*value);
    }
    match &value.content {
        Content::Text(text) => json_string(text.clone()),
        Content::Number { bits, fraction } => match number::whole(*bits) {
            Some(n) => json_int(n),
            None => fraction.clone(),
        },
        Content::Boolean(flag) => json_bool(*flag),
        Content::Dict(entries) => {
            let mut map = new_map();
            let mut i: usize = 0;
            let ghost views = value::entry_views(entries@);
            proof {
                assert(json::map_view(map) =~= json_entries(views, 0));
            }
            while i < entries.len()
                invariant
                    i <= entries@.len(),
                    whole == value@,
                    whole.content == value::ContentView::Dict(views),
                    views == value::entry_views(entries@),
                    json::map_view(map) == json_entries(views, i as nat),
                decreases entries@.len() - i,
            {
                assert(decreases_to!(whole => whole.content));
                assert(decreases_to!(whole.content => whole.content->Dict_0));
                assert(decreases_to!(views => views[i as int]));
                assert(decreases_to!(views[i as int] => views[i as int].1));
                let item = runtime_value_to_json(&entries[i].1);
                map_insert(&mut map, entries[i].0.clone(), item);
                i += 1;
            }
            json_object(map)
        },
        Content::Array(items) => {
            let mut list: Vec<serde_json::Value> = Vec::new();
            let mut i: usize = 0;
            while i < items.len()
                invariant
                    i <= items@.len(),
                    whole == value@,
                    whole.content == value::ContentView::Array(value::value_views(items@)),
                    list@.len() == i,
                    forall|j: int|
                        0 <= j < i ==> json::json_view(#[trigger] list@[j]) == json_of(
                            items@[j]@,
                        ),
                decreases items@.len() - i,
            {
                let ghost views = value::value_views(items@);
                assert(decreases_to!(whole => whole.content));
                assert(decreases_to!(whole.content => whole.content->Array_0));
                assert(decreases_to!(views => views[i as int]));
                list.push(runtime_value_to_json(&items[i]));
                i += 1;
            }
            proof {
                assert(json::json_views(list@) =~= json_of(value@)->Array_0);
            }
            json_array(list)
        },
        _ => json_null(),
    }
}

/// The compact JSON text of a script value.
pub open spec fn json_text_of(value: value::ValueView) -> Seq<char> {
    json::json_text(json_of(value))
}

fn json_text(value: &ScriptValue) -> (text: String)
    ensures
        text@ == json_text_of(value@),
{
    let converted = runtime_value_to_json(value);
    render(&converted)
}

/// The text of a value, where it is a text.
pub open spec fn text_in(value: Option<value::ValueView>) -> Option<Seq<char>> {
    match value {
        Some(value) => match value.content {
            value::ContentView::Text(text) => Some(text),
            _ => None,
        },
        None => None,
    }
}

/// The event that an item of an event list stands for. A dictionary gives its data, its name and
/// its id; any other value gives its text as data.
pub open spec fn event_of(item: value::ValueView) -> reply::EventView {
    match item.content {
        value::ContentView::Dict(entries) => reply::EventView {
            data: match json::get(entries, "data"@) {
                Some(data) => Some(
                    match data.content {
                        value::ContentView::Text(text) => text,
                        _ => json_text_of(data),
                    },
                ),
                None => None,
            },
            event: text_in(json::get(entries, "event"@)),
            id: text_in(json::get(entries, "id"@)),
        },
        _ => reply::EventView { data: Some(item.text), event: None, id: None },
    }
}

/// The events of an event list.
pub open spec fn events_of(items: Seq<value::ValueView>) -> Seq<reply::EventView> {
    items.map_values(|item: value::ValueView| event_of(item))
}

/// The reply that streams events.
pub open spec fn event_stream(events: Seq<reply::EventView>) -> reply::ReplyView {
    reply::ReplyView {
        status: 200,
        headers: seq![
            ("content-type"@, "text/event-stream"@),
            ("cache-control"@, "no-cache"@),
        ],
        body: reply::BodyView::Events(events),
    }
}

/// Whether a text stays on one line.
pub open spec fn is_one_line(text: Seq<char>) -> bool {
    !text.contains('\n') && !text.contains('\r')
}

/// Whether an event can be written to an event stream: its name and its id each stay on one
/// line, and the id has no null character.
pub open spec fn can_be_sent(event: reply::EventView) -> bool {
    &&& event.event matches Some(name) ==> is_one_line(name)
    &&& event.id matches Some(id) ==> is_one_line(id) && !id.contains('\0')
}

/// Whether all events of a list can be written to an event stream.
pub open spec fn can_all_be_sent(events: Seq<reply::EventView>) -> bool {
    forall|i: int| 0 <= i < events.len() ==> can_be_sent(#[trigger] events[i])
}

/// The value under `key`, if there is one.
fn lookup<'a>(entries: &'a Vec<(String, ScriptValue)>, key: &str) -> (found: Option<
    &'a ScriptValue,
>)
    ensures
        match found {
            Some(found) => json::get(value::entry_views(entries@), key@) == Some(found@),
            None => json::get(value::entry_views(entries@), key@) is None,
        },
{
    let ghost views = value::entry_views(entries@);
    let mut i: usize = 0;
    proof {
        assert(views.skip(0) =~= views);
    }
    while i < entries.len()
        invariant
            i <= entries@.len(),
            views == value::entry_views(entries@),
            json::get(views, key@) == json::get(views.skip(i as int), key@),
        decreases entries@.len() - i,
    {
        assert(views.skip(i as int).drop_first() =~= views.skip(i + 1));
        assert(views.skip(i as int)[0] == views[i as int]);
        if *entries[i].0.as_str() == *key {
            return Some(&entries[i].1);
        }
        i += 1;
    }
    None
}

fn text_under(entries: &Vec<(String, ScriptValue)>, key: &str) -> (text: Option<String>)
    ensures
        text::option_view(text) == text_in(
            json::get(value::entry_views(entries@), key@),
        ),
{
    match lookup(entries, key) {
        Some(found) => {
            proof {
                value::lemma_view(*found);
            }
            match &found.content {
                Content::Text(text) => Some(text.clone()),
                _ => None,
            }
        },
        None => None,
    }
}

fn build_event(item: &ScriptValue) -> (event: SseEvent)
    ensures
        event@ == event_of(item@),
{
    proof {
        value::lemma_view(*item);
    }
    match &item.content {
        Content::Dict(entries) => {
            let data = match lookup(entries, "data") {
                Some(data) => {
                    proof {
                        value::lemma_view(*data);
                    }
                    match &data.content {
                        Content::Text(text) => Some(text.clone()),
                        _ => Some(json_text(data)),
                    }
                },
                None => None,
            };
            SseEvent { data, event: text_under(entries, "event"), id: text_under(entries, "id") }
        },
        _ => SseEvent { data: Some(item.text.clone()), event: None, id: None },
    }
}

/// Make the reply that streams the events of a list.
pub fn build_sse_response(items: &Vec<ScriptValue>) -> (sent: Reply)
    requires
        can_all_be_sent(events_of(value::value_views(items@))),
    ensures
        sent@ == event_stream(events_of(value::value_views(items@))),
{
    let mut events: Vec<SseEvent> = Vec::new();
    let mut i: usize = 0;
    while i < items.len()
        invariant
            i <= items@.len(),
            events@.len() == i,
            forall|j: int| 0 <= j < i ==> (#[trigger] events@[j])@ == event_of(items@[j]@),
        decreases items@.len() - i,
    {
        events.push(build_event(&items[i]));
        i += 1;
    }
    let headers = vec![
        ("content-type".to_owned(), "text/event-stream".to_owned()),
        ("cache-control".to_owned(), "no-cache".to_owned()),
    ];
    let sent = Reply { status: 200, headers, body: Body::Events(events) };
    proof {
        let expected = event_stream(events_of(value::value_views(items@)));
        assert(text::pair_views(headers@) =~= expected.headers);
        assert(reply::event_views(events@) =~= expected.body->Events_0);
    }
    sent
}

/// Whether a text has the character `c`.
fn has_char(text: &str, c: char) -> (found: bool)
    ensures
        found == text@.contains(c),
{
    for d in it: text.chars()
        invariant
            it.seq() == text@,
            forall|j: int| 0 <= j < it.index() ==> text@[j] != c,
    {
        if d == c {
            assert(text@[it.index() as int] == c);
            return true;
        }
    }
    false
}

fn is_sendable_event(event: &SseEvent) -> (ok: bool)
    ensures
        ok == can_be_sent(event@),
{
    if let Some(name) = &event.event {
        if has_char(name.as_str(), '\n') || has_char(name.as_str(), '\r') {
            return false;
        }
    }
    if let Some(id) = &event.id {
        if has_char(id.as_str(), '\n') || has_char(id.as_str(), '\r') || has_char(
            id.as_str(),
            '\0',
        ) {
            return false;
        }
    }
    true
}

/// The items of the event list under `sse`, where a value has one.
pub open spec fn sse_items(value: value::ValueView) -> Option<Seq<value::ValueView>> {
    match value.content {
        value::ContentView::Dict(entries) => match json::get(entries, "sse"@) {
            Some(list) => match list.content {
                value::ContentView::Array(items) => Some(items),
                _ => None,
            },
            None => None,
        },
        _ => None,
    }
}

/// Whether a value can be answered with: if it asks for an event stream, all its events can be
/// written to one.
pub open spec fn is_answer(value: value::ValueView) -> bool {
    sse_items(value) matches Some(items) ==> can_all_be_sent(events_of(items))
}

/// Whether a value can be answered with.
pub fn can_answer(value: &ScriptValue) -> (ok: bool)
    ensures
        ok == is_answer(value@),
{
    proof {
        value::lemma_view(*value);
    }
    if let Content::Dict(entries) = &value.content {
        if let Some(list) = lookup(entries, "sse") {
            proof {
                value::lemma_view(*list);
            }
            if let Content::Array(items) = &list.content {
                let ghost events = events_of(value::value_views(items@));
                let mut i: usize = 0;
                while i < items.len()
                    invariant
                        i <= items@.len(),
                        events == events_of(value::value_views(items@)),
                        sse_items(value@) == Some(value::value_views(items@)),
                        forall|j: int| 0 <= j < i ==> can_be_sent(#[trigger] events[j]),
                    decreases items@.len() - i,
                {
                    let event = build_event(&items[i]);
                    assert(event@ == events[i as int]);
                    if !is_sendable_event(&event) {
                        return false;
                    }
                    i += 1;
                }
            }
        }
    }
    true
}

/// The type of a text in an output format.
pub open spec fn text_type(format: Seq<char>) -> Seq<char> {
    if format == "json"@ {
        "application/json"@
    } else if format == "text"@ {
        "text/plain; charset=utf-8"@
    } else if format == "markdown"@ {
        "text/markdown; charset=utf-8"@
    } else {
        "text/html; charset=utf-8"@
    }
}

/// The type of a Markdown node in an output format.
pub open spec fn markdown_type(format: Seq<char>) -> Seq<char> {
    if format == "text"@ {
        "text/plain; charset=utf-8"@
    } else if format == "markdown"@ {
        "text/markdown; charset=utf-8"@
    } else {
        "text/html; charset=utf-8"@
    }
}

/// What is sent of a Markdown node in an output format: HTML, unless the format asks for text.
pub open spec fn markdown_body(format: Seq<char>, text: Seq<char>, html: Seq<char>) -> Seq<char> {
    if format == "text"@ || format == "markdown"@ {
        text
    } else {
        html
    }
}

/// Whether a dictionary describes a reply.
pub open spec fn describes_reply(entries: Seq<(Seq<char>, value::ValueView)>) -> bool {
    ||| json::get(entries, "status"@) is Some
    ||| json::get(entries, "headers"@) is Some
    ||| json::get(entries, "body"@) is Some
    ||| json::get(entries, "cookies"@) is Some
}

/// The status that a dictionary asks for; success where it asks for none, or for one that there
/// is not.
pub open spec fn status_of(entries: Seq<(Seq<char>, value::ValueView)>) -> u16 {
    match json::get(entries, "status"@) {
        Some(status) => match status.content {
            value::ContentView::Number { bits, .. } => if 100 <= number::clamped(bits) <= 999 {
                number::clamped(bits)
            } else {
                200
            },
            _ => 200,
        },
        None => 200,
    }
}

/// The entries of the dictionary under `key`, none where there is no dictionary.
pub open spec fn dict_under(entries: Seq<(Seq<char>, value::ValueView)>, key: Seq<char>) -> Seq<
    (Seq<char>, value::ValueView),
> {
    match json::get(entries, key) {
        Some(found) => match found.content {
            value::ContentView::Dict(inner) => inner,
            _ => seq![],
        },
        None => seq![],
    }
}

/// The header of an entry under `headers`.
pub open spec fn header_of(entry: (Seq<char>, value::ValueView)) -> (Seq<char>, Seq<char>) {
    (entry.0, entry.1.text)
}

/// The header of an entry under `cookies`.
pub open spec fn cookie_of(entry: (Seq<char>, value::ValueView)) -> (Seq<char>, Seq<char>) {
    ("set-cookie"@, entry.0 + "="@ + entry.1.text)
}

/// The header that the body of a described reply brings with it.
pub open spec fn body_header(body: Option<value::ValueView>, format: Seq<char>) -> Seq<
    (Seq<char>, Seq<char>),
> {
    match body {
        Some(body) => match body.content {
            value::ContentView::Markdown { .. } => seq![("content-type"@, markdown_type(format))],
            value::ContentView::Dict(_) => seq![("content-type"@, "application/json"@)],
            value::ContentView::Array(_) => seq![("content-type"@, "application/json"@)],
            _ => seq![],
        },
        None => seq![],
    }
}

/// The body of a described reply.
pub open spec fn body_text(body: Option<value::ValueView>, format: Seq<char>) -> Seq<char> {
    match body {
        Some(body) => match body.content {
            value::ContentView::Text(text) => text,
            value::ContentView::Markdown { text, html } => markdown_body(format, text, html),
            value::ContentView::Dict(_) => json_text_of(body),
            value::ContentView::Array(_) => json_text_of(body),
            _ => body.text,
        },
        None => seq![],
    }
}

/// The headers that a dictionary asks for: its own ones, its cookies, and the one that its body
/// brings.
pub open spec fn asked_headers(
    entries: Seq<(Seq<char>, value::ValueView)>,
    format: Seq<char>,
) -> Seq<(Seq<char>, Seq<char>)> {
    dict_under(entries, "headers"@).map_values(|e: (Seq<char>, value::ValueView)| header_of(e))
        + dict_under(entries, "cookies"@).map_values(
        |e: (Seq<char>, value::ValueView)| cookie_of(e),
    ) + body_header(json::get(entries, "body"@), format)
}

/// The reply to a dictionary: an event stream, a described reply, or the dictionary as JSON.
pub open spec fn dict_reply(
    value: value::ValueView,
    entries: Seq<(Seq<char>, value::ValueView)>,
    format: Seq<char>,
) -> reply::ReplyView {
    if let Some(items) = sse_items(value) {
        event_stream(events_of(items))
    } else if !describes_reply(entries) {
        reply::typed("application/json"@, json_text_of(value))
    } else {
        reply::built(
            status_of(entries),
            asked_headers(entries, format),
            body_text(json::get(entries, "body"@), format),
        )
    }
}

/// The reply to a script value in an output format.
pub open spec fn reply_of(value: value::ValueView, format: Seq<char>) -> reply::ReplyView {
    match value.content {
        value::ContentView::Text(text) => reply::typed(text_type(format), text),
        value::ContentView::Markdown { text, html } => reply::typed(
            markdown_type(format),
            markdown_body(format, text, html),
        ),
        value::ContentView::Dict(entries) => dict_reply(value, entries, format),
        value::ContentView::Array(_) => reply::typed("application/json"@, json_text_of(value)),
        _ => reply::plain(200, value.text),
    }
}

fn text_type_of(format: &str) -> (content_type: &'static str)
    ensures
        content_type@ == text_type(format@),
{
    if *format == *"json" {
        "application/json"
    } else if *format == *"text" {
        "text/plain; charset=utf-8"
    } else if *format == *"markdown" {
        "text/markdown; charset=utf-8"
    } else {
        "text/html; charset=utf-8"
    }
}

fn markdown_type_of(format: &str) -> (content_type: &'static str)
    ensures
        content_type@ == markdown_type(format@),
{
    if *format == *"text" {
        "text/plain; charset=utf-8"
    } else if *format == *"markdown" {
        "text/markdown; charset=utf-8"
    } else {
        "text/html; charset=utf-8"
    }
}

fn markdown_body_of(format: &str, text: &String, html: &String) -> (body: String)
    ensures
        body@ == markdown_body(format@, text@, html@),
{
    if *format == *"text" || *format == *"markdown" {
        text.clone()
    } else {
        html.clone()
    }
}

fn status_under(entries: &Vec<(String, ScriptValue)>) -> (status: u16)
    ensures
        status == status_of(value::entry_views(entries@)),
{
    if let Some(found) = lookup(entries, "status") {
        proof {
            value::lemma_view(*found);
        }
        if let Content::Number { bits, .. } = &found.content {
            let status = number::clamp(*bits);
            if accepts_status(status) {
                return status;
            }
        }
    }
    200
}

/// Add the headers that the entries under `headers` ask for.
fn push_headers(asked: &mut Vec<(String, String)>, entries: &Vec<(String, ScriptValue)>)
    ensures
        text::pair_views(final(asked)@) == text::pair_views(old(asked)@) + value::entry_views(
            entries@,
        ).map_values(|e: (Seq<char>, value::ValueView)| header_of(e)),
{
    let ghost before = text::pair_views(asked@);
    let ghost wanted = value::entry_views(entries@).map_values(
        |e: (Seq<char>, value::ValueView)| header_of(e),
    );
    let mut i: usize = 0;
    while i < entries.len()
        invariant
            i <= entries@.len(),
            wanted == value::entry_views(entries@).map_values(
                |e: (Seq<char>, value::ValueView)| header_of(e),
            ),
            text::pair_views(asked@) =~= before + wanted.take(i as int),
        decreases entries@.len() - i,
    {
        proof {
            value::lemma_view(entries@[i as int].1);
        }
        let ghost prior = asked@;
        asked.push((entries[i].0.clone(), entries[i].1.text.clone()));
        proof {
            assert(wanted[i as int] == header_of((entries@[i as int].0@, entries@[i as int].1@)));
            assert(text::pair_views(asked@) =~= text::pair_views(prior).push(wanted[i as int]));
            assert(wanted.take(i + 1) =~= wanted.take(i as int).push(wanted[i as int]));
        }
        i += 1;
    }
    assert(wanted.take(entries@.len() as int) =~= wanted);
}

/// Add the headers that the entries under `cookies` ask for.
fn push_cookies(asked: &mut Vec<(String, String)>, entries: &Vec<(String, ScriptValue)>)
    ensures
        text::pair_views(final(asked)@) == text::pair_views(old(asked)@) + value::entry_views(
            entries@,
        ).map_values(|e: (Seq<char>, value::ValueView)| cookie_of(e)),
{
    let ghost before = text::pair_views(asked@);
    let ghost wanted = value::entry_views(entries@).map_values(
        |e: (Seq<char>, value::ValueView)| cookie_of(e),
    );
    let mut i: usize = 0;
    while i < entries.len()
        invariant
            i <= entries@.len(),
            wanted == value::entry_views(entries@).map_values(
                |e: (Seq<char>, value::ValueView)| cookie_of(e),
            ),
            text::pair_views(asked@) =~= before + wanted.take(i as int),
        decreases entries@.len() - i,
    {
        proof {
            value::lemma_view(entries@[i as int].1);
        }
        let mut cookie = entries[i].0.clone();
        cookie.append("=");
        cookie.append(entries[i].1.text.as_str());
        let ghost prior = asked@;
        asked.push(("set-cookie".to_owned(), cookie));
        proof {
            assert(wanted[i as int] == cookie_of((entries@[i as int].0@, entries@[i as int].1@)));
            assert(text::pair_views(asked@) =~= text::pair_views(prior).push(wanted[i as int]));
            assert(wanted.take(i + 1) =~= wanted.take(i as int).push(wanted[i as int]));
        }
        i += 1;
    }
    assert(wanted.take(entries@.len() as int) =~= wanted);
}

/// Make the reply that a dictionary describes.
fn build_described(entries: &Vec<(String, ScriptValue)>, format: &str) -> (sent: Reply)
    ensures
        sent@ == reply::built(
            status_of(value::entry_views(entries@)),
            asked_headers(value::entry_views(entries@), format@),
            body_text(json::get(value::entry_views(entries@), "body"@), format@),
        ),
{
    let status = status_under(entries);
    let mut asked: Vec<(String, String)> = Vec::new();
    if let Some(found) = lookup(entries, "headers") {
        proof {
            value::lemma_view(*found);
        }
        if let Content::Dict(inner) = &found.content {
            push_headers(&mut asked, inner);
        }
    }
    let ghost own = dict_under(value::entry_views(entries@), "headers"@).map_values(
        |e: (Seq<char>, value::ValueView)| header_of(e),
    );
    assert(text::pair_views(asked@) =~= own);
    if let Some(found) = lookup(entries, "cookies") {
        proof {
            value::lemma_view(*found);
        }
        if let Content::Dict(inner) = &found.content {
            push_cookies(&mut asked, inner);
        }
    }
    let ghost with_cookies = own + dict_under(
        value::entry_views(entries@),
        "cookies"@,
    ).map_values(|e: (Seq<char>, value::ValueView)| cookie_of(e));
    assert(text::pair_views(asked@) =~= with_cookies);
    let body = match lookup(entries, "body") {
        Some(found) => {
            proof {
                value::lemma_view(*found);
            }
            match &found.content {
                Content::Text(text) => text.clone(),
                Content::Markdown { text, html } => {
                    asked.push(("content-type".to_owned(), markdown_type_of(format).to_owned()));
                    markdown_body_of(format, text, html)
                },
                Content::Dict(_) => {
                    asked.push(("content-type".to_owned(), "application/json".to_owned()));
                    json_text(found)
                },
                Content::Array(_) => {
                    asked.push(("content-type".to_owned(), "application/json".to_owned()));
                    json_text(found)
                },
                _ => found.text.clone(),
            }
        },
        None => String::new(),
    };
    proof {
        assert(text::pair_views(asked@) =~= asked_headers(value::entry_views(entries@), format@));
        assert(body@ =~= body_text(json::get(value::entry_views(entries@), "body"@), format@));
    }
    build_reply(status, &asked, body)
}

/// Make the reply to a dictionary, whose entries are given too.
pub fn build_dict_response(
    entries: &Vec<(String, ScriptValue)>,
    value: &ScriptValue,
    default_format: &str,
) -> (sent: Reply)
    requires
        value@.content == value::ContentView::Dict(value::entry_views(entries@)),
        is_answer(value@),
    ensures
        sent@ == dict_reply(value@, value::entry_views(entries@), default_format@),
{
    if let Some(list) = lookup(entries, "sse") {
        proof {
            value::lemma_view(*list);
        }
        if let Content::Array(items) = &list.content {
            return build_sse_response(items);
        }
    }
    let describes = lookup(entries, "status").is_some() || lookup(entries, "headers").is_some()
        || lookup(entries, "body").is_some() || lookup(entries, "cookies").is_some();
    if !describes {
        return typed_reply("application/json", json_text(value));
    }
    build_described(entries, default_format)
}

/// Make the reply to a script value that can be answered with.
pub fn runtime_value_to_response(value: &ScriptValue, default_format: &str) -> (sent: Reply)
    requires
        is_answer(value@),
    ensures
        sent@ == reply_of(value@, default_format@),
{
    proof {
        value::lemma_view(*value);
    }
    match &value.content {
        Content::Text(text) => typed_reply(text_type_of(default_format), text.clone()),
        Content::Markdown { text, html } => typed_reply(
            markdown_type_of(default_format),
            markdown_body_of(default_format, text, html),
        ),
        Content::Dict(entries) => build_dict_response(entries, value, default_format),
        Content::Array(_) => typed_reply("application/json", json_text(value)),
        _ => plain_reply(200, value.text.clone()),
    }
}

/// The names and the values of the headers that the library itself writes can be sent.
proof fn lemma_own_headers()
    ensures
        reply::is_header_name("content-type"@) && reply::lowered("content-type"@) == "content-type"@,
        reply::is_header_name("cache-control"@) && reply::lowered("cache-control"@) == "cache-control"@,
        reply::is_header_name("set-cookie"@) && reply::lowered("set-cookie"@) == "set-cookie"@,
        reply::is_header_value("application/json"@),
        reply::is_header_value("text/plain; charset=utf-8"@),
        reply::is_header_value("text/markdown; charset=utf-8"@),
        reply::is_header_value("text/html; charset=utf-8"@),
        reply::is_header_value("text/event-stream"@),
        reply::is_header_value("no-cache"@),
{
    reveal_strlit("content-type");
    assert("content-type"@ =~= seq!['c', 'o', 'n', 't', 'e', 'n', 't', '-', 't', 'y', 'p', 'e']);
    reveal_strlit("cache-control");
    assert("cache-control"@ =~= seq![
            'c', 'a', 'c', 'h', 'e', '-', 'c', 'o', 'n', 't', 'r', 'o', 'l',
        ]);
    reveal_strlit("set-cookie");
    assert("set-cookie"@ =~= seq!['s', 'e', 't', '-', 'c', 'o', 'o', 'k', 'i', 'e']);
    reveal_strlit("application/json");
    assert("application/json"@ =~= seq![
            'a', 'p', 'p', 'l', 'i', 'c', 'a', 't', 'i', 'o', 'n', '/', 'j', 's', 'o', 'n',
        ]);
    reveal_strlit("text/plain; charset=utf-8");
    assert("text/plain; charset=utf-8"@ =~= seq![
            't', 'e', 'x', 't', '/', 'p', 'l', 'a', 'i', 'n', ';', ' ', 'c', 'h', 'a', 'r', 's',
            'e', 't', '=', 'u', 't', 'f', '-', '8',
        ]);
    reveal_strlit("text/markdown; charset=utf-8");
    assert("text/markdown; charset=utf-8"@ =~= seq![
            't', 'e', 'x', 't', '/', 'm', 'a', 'r', 'k', 'd', 'o', 'w', 'n', ';', ' ', 'c', 'h',
            'a', 'r', 's', 'e', 't', '=', 'u', 't', 'f', '-', '8',
        ]);
    reveal_strlit("text/html; charset=utf-8");
    assert("text/html; charset=utf-8"@ =~= seq![
            't', 'e', 'x', 't', '/', 'h', 't', 'm', 'l', ';', ' ', 'c', 'h', 'a', 'r', 's', 'e',
            't', '=', 'u', 't', 'f', '-', '8',
        ]);
    reveal_strlit("text/event-stream");
    assert("text/event-stream"@ =~= seq![
            't', 'e', 'x', 't', '/', 'e', 'v', 'e', 'n', 't', '-', 's', 't', 'r', 'e', 'a', 'm',
        ]);
    reveal_strlit("no-cache");
    assert("no-cache"@ =~= seq!['n', 'o', '-', 'c', 'a', 'c', 'h', 'e']);
    assert(reply::lowered("content-type"@) =~= "content-type"@);
    assert(reply::lowered("cache-control"@) =~= "cache-control"@);
    assert(reply::lowered("set-cookie"@) =~= "set-cookie"@);
}

/// A header name in lower case is a header name, and stays as it is when put in lower case again.
proof fn lemma_lowered_name(name: Seq<char>)
    requires
        reply::is_header_name(name),
    ensures
        reply::is_header_name(reply::lowered(name)),
        reply::lowered(reply::lowered(name)) == reply::lowered(name),
{
    let lower = reply::lowered(name);
    assert forall|i: int| 0 <= i < lower.len() implies reply::is_token_char(#[trigger] lower[i])
        && text::lower_ascii(lower[i]) == lower[i] by {
        assert(reply::is_token_char(name[i]));
    }
    assert(reply::lowered(lower) =~= lower);
}

/// Headers with their names in lower case have the names that they had.
proof fn lemma_names_stay(
    asked: Seq<(Seq<char>, Seq<char>)>,
    sent: Seq<(Seq<char>, Seq<char>)>,
)
    requires
        reply::can_be_sent(asked),
        sent == asked.map_values(|h: (Seq<char>, Seq<char>)| (reply::lowered(h.0), h.1)),
    ensures
        reply::fit_table(sent),
{
    if asked.len() > 0 {
        let lower = |h: (Seq<char>, Seq<char>)| reply::lowered(h.0);
        let a = asked.drop_last().map_values(lower);
        let b = sent.drop_last().map_values(lower);
        assert forall|i: int| 0 <= i < a.len() implies a[i] == #[trigger] b[i] by {
            assert(reply::is_header(asked[i]));
            lemma_lowered_name(asked[i].0);
        }
        assert(a =~= b);
    }
}

/// Every reply to a script value can be sent: its status has three digits, its headers can be sent
/// and have their names in lower case, and its events, if it has any, fit an event stream.
pub proof fn law_replies_can_be_sent(value: value::ValueView, format: Seq<char>)
    requires
        is_answer(value),
    ensures
        100 <= reply_of(value, format).status <= 999,
        reply::can_be_sent(reply_of(value, format).headers),
        forall|i: int|
            0 <= i < reply_of(value, format).headers.len() ==> reply::lowered(
                (#[trigger] reply_of(value, format).headers[i]).0,
            ) == reply_of(value, format).headers[i].0,
        reply_of(value, format).body matches reply::BodyView::Events(events) ==> can_all_be_sent(
            events,
        ),
{
    lemma_own_headers();
    let sent = reply_of(value, format);
    if sent.headers.len() <= reply::TABLE_NAMES {
        reply::lemma_few_fit_table(sent.headers);
    }
    if let value::ContentView::Dict(entries) = value.content {
        let asked = asked_headers(entries, format);
        if sse_items(value) is None && describes_reply(entries) && reply::can_be_sent(asked) {
            assert forall|i: int| 0 <= i < sent.headers.len() implies reply::is_header(
                #[trigger] sent.headers[i],
            ) && reply::lowered(sent.headers[i].0) == sent.headers[i].0 by {
                assert(reply::is_header(asked[i]));
                lemma_lowered_name(asked[i].0);
            }
            lemma_names_stay(asked, sent.headers);
        }
    }
}

/// Arrays, and dictionaries that neither describe a reply nor hold an event list, are always
/// answered as JSON, whatever the output format.
pub proof fn law_plain_data_is_json(value: value::ValueView, format: Seq<char>)
    requires
        value.content is Array || (value.content matches value::ContentView::Dict(entries)
            && !describes_reply(entries) && sse_items(value) is None),
    ensures
        reply_of(value, format) == reply::typed("application/json"@, json_text_of(value)),
{
}

/// A described reply has the status that it asks for, where that is a whole number of three
/// digits and its headers can be sent.
pub proof fn law_described_status(
    value: value::ValueView,
    entries: Seq<(Seq<char>, value::ValueView)>,
    status: value::ValueView,
    n: int,
    format: Seq<char>,
)
    requires
        value.content == value::ContentView::Dict(entries),
        sse_items(value) is None,
        json::get(entries, "status"@) == Some(status),
        status.content matches value::ContentView::Number { bits, .. } && number::small_whole(bits)
            == Some(n),
        100 <= n <= 999,
        reply::can_be_sent(asked_headers(entries, format)),
    ensures
        reply_of(value, format).status == n,
{
    number::law_whole_and_clamp_agree(status.content->Number_bits, n);
}

/// A header that a described reply asks for is on the reply, its name in lower case, where its
/// headers can be sent.
pub proof fn law_described_headers(
    value: value::ValueView,
    entries: Seq<(Seq<char>, value::ValueView)>,
    i: int,
    format: Seq<char>,
)
    requires
        value.content == value::ContentView::Dict(entries),
        sse_items(value) is None,
        reply::can_be_sent(asked_headers(entries, format)),
        0 <= i < dict_under(entries, "headers"@).len(),
    ensures
        reply_of(value, format).headers.contains(
            (
                reply::lowered(dict_under(entries, "headers"@)[i].0),
                dict_under(entries, "headers"@)[i].1.text,
            ),
        ),
{
    let header = dict_under(entries, "headers"@)[i];
    assert(asked_headers(entries, format)[i] == header_of(header));
    assert(reply_of(value, format).headers[i] == (reply::lowered(header.0), header.1.text));
}

/// Each cookie that a described reply sets becomes a `set-cookie` header of its own, where its
/// headers can be sent.
pub proof fn law_described_cookies(
    value: value::ValueView,
    entries: Seq<(Seq<char>, value::ValueView)>,
    i: int,
    format: Seq<char>,
)
    requires
        value.content == value::ContentView::Dict(entries),
        sse_items(value) is None,
        reply::can_be_sent(asked_headers(entries, format)),
        0 <= i < dict_under(entries, "cookies"@).len(),
    ensures
        reply_of(value, format).headers.contains(
            (
                "set-cookie"@,
                dict_under(entries, "cookies"@)[i].0 + "="@ + dict_under(
                    entries,
                    "cookies"@,
                )[i].1.text,
            ),
        ),
{
    lemma_own_headers();
    let cookie = dict_under(entries, "cookies"@)[i];
    let k = dict_under(entries, "headers"@).len() + i;
    assert(asked_headers(entries, format)[k] == cookie_of(cookie));
    assert(reply_of(value, format).headers[k] == cookie_of(cookie));
}

/// A described reply with headers that cannot be sent becomes the empty reply.
pub proof fn law_bad_header_empties_reply(
    value: value::ValueView,
    entries: Seq<(Seq<char>, value::ValueView)>,
    format: Seq<char>,
)
    requires
        value.content == value::ContentView::Dict(entries),
        sse_items(value) is None,
        !reply::can_be_sent(asked_headers(entries, format)),
    ensures
        reply_of(value, format) == reply::empty_reply(),
{
    lemma_own_headers();
    if !describes_reply(entries) {
        assert(asked_headers(entries, format) =~= seq![]);
    }
}

/// The words that dictionaries and output formats are told apart by are different.
proof fn lemma_formats()
    ensures
        "json"@.len() == 4,
        "text"@.len() == 4,
        "json"@[0] == 'j',
        "text"@[0] == 't',
        "markdown"@.len() == 8,
{
    reveal_strlit("json");
    reveal_strlit("text");
    reveal_strlit("markdown");
}

/// A text is answered with as it stands, as a success, with the type that the output format asks
/// for; in any format but `json`, `text` and `markdown` it is HTML.
pub proof fn law_text_is_sent_as_it_is(value: value::ValueView, said: Seq<char>, format: Seq<char>)
    requires
        value.content == value::ContentView::Text(said),
    ensures
        reply_of(value, format).status == 200,
        reply_of(value, format).body == reply::BodyView::Text(said),
        reply_of(value, format).headers.len() == 1,
        reply_of(value, format).headers[0].0 == "content-type"@,
        format == "json"@ ==> reply_of(value, format).headers[0].1 == "application/json"@,
        format == "text"@ ==> reply_of(value, format).headers[0].1 == "text/plain; charset=utf-8"@,
        format == "markdown"@ ==> reply_of(value, format).headers[0].1
            == "text/markdown; charset=utf-8"@,
        format != "json"@ && format != "text"@ && format != "markdown"@ ==> reply_of(
            value,
            format,
        ).headers[0].1 == "text/html; charset=utf-8"@,
{
    lemma_formats();
}

/// A Markdown node is answered with as Markdown in the formats `text` and `markdown`, and as HTML
/// in any other, with the type to match.
pub proof fn law_markdown_is_rendered(
    value: value::ValueView,
    source: Seq<char>,
    html: Seq<char>,
    format: Seq<char>,
)
    requires
        value.content == (value::ContentView::Markdown { text: source, html }),
    ensures
        reply_of(value, format).status == 200,
        reply_of(value, format).headers.len() == 1,
        reply_of(value, format).headers[0].0 == "content-type"@,
        format == "text"@ ==> reply_of(value, format).headers[0].1 == "text/plain; charset=utf-8"@
            && reply_of(value, format).body == reply::BodyView::Text(source),
        format == "markdown"@ ==> reply_of(value, format).headers[0].1
            == "text/markdown; charset=utf-8"@ && reply_of(value, format).body
            == reply::BodyView::Text(source),
        format != "text"@ && format != "markdown"@ ==> reply_of(value, format).headers[0].1
            == "text/html; charset=utf-8"@ && reply_of(value, format).body
            == reply::BodyView::Text(html),
{
    lemma_formats();
}

/// A list is answered with as JSON, and so is a dictionary that neither describes a reply nor has
/// an event list, whatever the format; any other value is answered with as the text that it shows.
pub proof fn law_other_values_are_sent(
    value: value::ValueView,
    entries: Seq<(Seq<char>, value::ValueView)>,
    format: Seq<char>,
)
    ensures
        value.content is Array || (value.content == value::ContentView::Dict(entries) && (json::get(
            entries,
            "sse"@,
        ) matches Some(list) ==> !(list.content is Array)) && json::get(entries, "status"@) is None && json::get(entries, "headers"@) is None
            && json::get(entries, "body"@) is None && json::get(entries, "cookies"@) is None) ==> {
            let sent = reply_of(value, format);
            &&& sent.status == 200
            &&& sent.headers == seq![("content-type"@, "application/json"@)]
            &&& sent.body == reply::BodyView::Text(json::json_text(json_of(value)))
        },
        value.content is Nothing || value.content is Boolean || value.content is Number
            || value.content is Function || value.content is Other ==> {
            let sent = reply_of(value, format);
            &&& sent.status == 200
            &&& sent.headers == seq![("content-type"@, "text/plain; charset=utf-8"@)]
            &&& sent.body == reply::BodyView::Text(value.text)
        },
{
}

/// Whether a dictionary describes a reply: it has no event list, and something under one of the
/// four names.
pub open spec fn is_described(
    value: value::ValueView,
    entries: Seq<(Seq<char>, value::ValueView)>,
) -> bool {
    &&& value.content == value::ContentView::Dict(entries)
    &&& json::get(entries, "sse"@) matches Some(list) ==> !(list.content is Array)
    &&& json::get(entries, "status"@) is Some || json::get(entries, "headers"@) is Some
        || json::get(entries, "body"@) is Some || json::get(entries, "cookies"@) is Some
}

/// A described reply has the body that the dictionary has under `body`, whatever its status: a
/// text as it stands, a dictionary or a list as JSON, a Markdown node as the format asks, and any
/// other value as the text that it shows. It is empty only where there is no body.
pub proof fn law_described_body(
    value: value::ValueView,
    entries: Seq<(Seq<char>, value::ValueView)>,
    format: Seq<char>,
)
    requires
        is_described(value, entries),
        reply::can_be_sent(asked_headers(entries, format)),
    ensures
        reply_of(value, format).body matches reply::BodyView::Text(sent) && match json::get(
            entries,
            "body"@,
        ) {
            Some(body) => match body.content {
                value::ContentView::Text(said) => sent == said,
                value::ContentView::Dict(_) => sent == json::json_text(json_of(body)),
                value::ContentView::Array(_) => sent == json::json_text(json_of(body)),
                value::ContentView::Markdown { text, html } => sent == (if format == "text"@
                    || format == "markdown"@ {
                    text
                } else {
                    html
                }),
                _ => sent == body.text,
            },
            None => sent.len() == 0,
        },
{
}

/// A described reply has the status that the dictionary has under `status`, cut down to a whole
/// number, where that has three digits. It is a success where it does not, where the status is no
/// number, and where there is none.
pub proof fn law_described_status_is_sent(
    value: value::ValueView,
    entries: Seq<(Seq<char>, value::ValueView)>,
    format: Seq<char>,
)
    requires
        is_described(value, entries),
        reply::can_be_sent(asked_headers(entries, format)),
    ensures
        match json::get(entries, "status"@) {
            Some(status) => match status.content {
                value::ContentView::Number { bits, .. } => {
                    &&& 100 <= number::clamped(bits) <= 999 ==> reply_of(value, format).status
                        == number::clamped(bits)
                    &&& number::clamped(bits) < 100 || number::clamped(bits) > 999 ==> reply_of(
                        value,
                        format,
                    ).status == 200
                },
                _ => reply_of(value, format).status == 200,
            },
            None => reply_of(value, format).status == 200,
        },
{
}

/// A described reply has its own headers, then its cookies, and then the type of a body that is a
/// dictionary, a list or a Markdown node; each in its place, and no others. A header has the name
/// and the text of its entry, and a cookie the name, an equals sign and the text of its entry.
pub proof fn law_described_header_list(
    value: value::ValueView,
    entries: Seq<(Seq<char>, value::ValueView)>,
    own: Seq<(Seq<char>, value::ValueView)>,
    cookies: Seq<(Seq<char>, value::ValueView)>,
    format: Seq<char>,
    i: int,
)
    requires
        is_described(value, entries),
        reply::can_be_sent(asked_headers(entries, format)),
        match json::get(entries, "headers"@) {
            Some(found) => if found.content is Dict {
                found.content == value::ContentView::Dict(own)
            } else {
                own.len() == 0
            },
            None => own.len() == 0,
        },
        match json::get(entries, "cookies"@) {
            Some(found) => if found.content is Dict {
                found.content == value::ContentView::Dict(cookies)
            } else {
                cookies.len() == 0
            },
            None => cookies.len() == 0,
        },
    ensures
        ({
            let sent = reply_of(value, format).headers;
            let n = own.len() as int;
            let m = own.len() as int + cookies.len();
            &&& 0 <= i < n ==> sent[i].0 == reply::lowered(own[i].0) && sent[i].1 == own[i].1.text
            &&& n <= i < m ==> sent[i] == (
                "set-cookie"@,
                cookies[i - n].0 + seq!['='] + cookies[i - n].1.text,
            )
            &&& match json::get(entries, "body"@) {
                Some(body) => match body.content {
                    value::ContentView::Dict(_) => sent.len() == m + 1 && sent[m] == (
                        "content-type"@,
                        "application/json"@,
                    ),
                    value::ContentView::Array(_) => sent.len() == m + 1 && sent[m] == (
                        "content-type"@,
                        "application/json"@,
                    ),
                    value::ContentView::Markdown { .. } => sent.len() == m + 1 && sent[m].0
                        == "content-type"@ && sent[m].1 == (if format == "text"@ {
                        "text/plain; charset=utf-8"@
                    } else if format == "markdown"@ {
                        "text/markdown; charset=utf-8"@
                    } else {
                        "text/html; charset=utf-8"@
                    }),
                    _ => sent.len() == m,
                },
                None => sent.len() == m,
            }
        }),
{
    lemma_own_headers();
    reveal_strlit("=");
    assert("="@ =~= seq!['=']);
    let asked = asked_headers(entries, format);
    let n = own.len() as int;
    let m = own.len() as int + cookies.len();
    assert(dict_under(entries, "headers"@) =~= own);
    assert(dict_under(entries, "cookies"@) =~= cookies);
    if 0 <= i < n {
        assert(asked[i] == header_of(own[i]));
    }
    if n <= i < m {
        assert(asked[i] == cookie_of(cookies[i - n]));
    }
    if asked.len() > m {
        assert(asked[m] == body_header(json::get(entries, "body"@), format)[0]);
    }
}

/// A dictionary with a list under `sse` is answered with an event stream: a success without
/// caching, with one event for each item, in their order. A dictionary gives the text under `data`,
/// or the JSON of what is there, and the texts under `event` and `id`; any other item gives the
/// text that it shows.
pub proof fn law_event_list_is_streamed(
    value: value::ValueView,
    entries: Seq<(Seq<char>, value::ValueView)>,
    list: value::ValueView,
    items: Seq<value::ValueView>,
    format: Seq<char>,
    i: int,
)
    requires
        value.content == value::ContentView::Dict(entries),
        json::get(entries, "sse"@) == Some(list),
        list.content == value::ContentView::Array(items),
    ensures
        reply_of(value, format).status == 200,
        reply_of(value, format).headers == seq![
            ("content-type"@, "text/event-stream"@),
            ("cache-control"@, "no-cache"@),
        ],
        reply_of(value, format).body matches reply::BodyView::Events(events) && events.len()
            == items.len() && (0 <= i < items.len() ==> match items[i].content {
            value::ContentView::Dict(inner) => {
                &&& match json::get(inner, "data"@) {
                    Some(data) => match data.content {
                        value::ContentView::Text(said) => events[i].data == Some(said),
                        _ => events[i].data == Some(json::json_text(json_of(data))),
                    },
                    None => events[i].data is None,
                }
                &&& match json::get(inner, "event"@) {
                    Some(name) => match name.content {
                        value::ContentView::Text(said) => events[i].event == Some(said),
                        _ => events[i].event is None,
                    },
                    None => events[i].event is None,
                }
                &&& match json::get(inner, "id"@) {
                    Some(id) => match id.content {
                        value::ContentView::Text(said) => events[i].id == Some(said),
                        _ => events[i].id is None,
                    },
                    None => events[i].id is None,
                }
            },
            _ => events[i].data == Some(items[i].text) && events[i].event is None
                && events[i].id is None,
        }),
{
}

/// A value can be answered with unless it has an event list with a dictionary in it whose name or
/// id is a text with a line break, or whose id is a text with a null character.
pub proof fn law_what_can_be_answered_with(
    value: value::ValueView,
    entries: Seq<(Seq<char>, value::ValueView)>,
    list: value::ValueView,
    items: Seq<value::ValueView>,
    i: int,
)
    ensures
        !(value.content is Dict) ==> is_answer(value),
        value.content == value::ContentView::Dict(entries) && json::get(entries, "sse"@) is None
            ==> is_answer(value),
        value.content == value::ContentView::Dict(entries) && json::get(entries, "sse"@) == Some(
            list,
        ) && !(list.content is Array) ==> is_answer(value),
        value.content == value::ContentView::Dict(entries) && json::get(entries, "sse"@) == Some(
            list,
        ) && list.content == value::ContentView::Array(items) ==> {
            &&& is_answer(value) && 0 <= i < items.len() && items[i].content is Dict ==> {
                let inner = items[i].content->Dict_0;
                &&& json::get(inner, "event"@) matches Some(name) ==> (
                name.content matches value::ContentView::Text(said) ==> !said.contains('\n')
                    && !said.contains('\r'))
                &&& json::get(inner, "id"@) matches Some(id) ==> (
                id.content matches value::ContentView::Text(said) ==> !said.contains('\n')
                    && !said.contains('\r') && !said.contains('\0'))
            }
            &&& (forall|j: int|
                0 <= j < items.len() ==> !((#[trigger] items[j]).content is Dict)) ==> is_answer(
                value,
            )
        },
{
    if value.content == value::ContentView::Dict(entries) && json::get(entries, "sse"@) == Some(
        list,
    ) && list.content == value::ContentView::Array(items) {
        let events = events_of(items);
        if 0 <= i < items.len() {
            assert(events[i] == event_of(items[i]));
            assert(is_answer(value) ==> can_be_sent(events[i]));
        }
        assert forall|j: int| 0 <= j < items.len() && !((#[trigger] items[j]).content is Dict) implies can_be_sent(
            events[j],
        ) by {
            assert(events[j] == event_of(items[j]));
        }
    }
}

/// The JSON value of a script value: a text, a truth value, a number, and item by item a list.
/// A small whole number is an integer, any other finite number the double that it is; what is not
/// a number, a text, a truth value, a list or a dictionary is null.
pub proof fn law_json_of_values(value: value::ValueView, i: int)
    requires
        value::is_sound(value),
    ensures
        value.content matches value::ContentView::Text(said) ==> json_of(value)
            == json::JsonView::Text(said),
        value.content matches value::ContentView::Boolean(flag) ==> json_of(value)
            == json::JsonView::Bool(flag),
        value.content matches value::ContentView::Number { bits, .. } ==> {
            &&& number::small_whole(bits) matches Some(n) ==> json_of(value)
                == json::JsonView::Int(n)
            &&& number::small_whole(bits) is None && number::is_finite(bits) ==> json_of(value)
                == json::JsonView::Float(bits)
            &&& !number::is_finite(bits) ==> json_of(value) == json::JsonView::Null
        },
        value.content matches value::ContentView::Array(items) ==> (json_of(
            value,
        ) matches json::JsonView::Array(list) && list.len() == items.len() && (0 <= i < items.len()
            ==> list[i] == json_of(items[i]))),
        value.content is Nothing || value.content is Markdown || value.content is Function
            || value.content is Other ==> json_of(value) == json::JsonView::Null,
{
    if let value::ContentView::Number { bits, .. } = value.content {
        if !number::is_finite(bits) {
            number::law_finite(bits);
        }
    }
}

/// The JSON value of a dictionary is an object with the dictionary's names, in their order, each
/// with the JSON value of what it had.
pub proof fn law_json_of_dictionary(
    value: value::ValueView,
    entries: Seq<(Seq<char>, value::ValueView)>,
    i: int,
)
    requires
        value.content == value::ContentView::Dict(entries),
        value::distinct(entries),
    ensures
        json_of(value) matches json::JsonView::Object(list) && list.len() == entries.len() && (0
            <= i < entries.len() ==> list[i].0 == entries[i].0 && list[i].1 == json_of(
            entries[i].1,
        )),
{
    lemma_object_entries(entries, entries.len());
}

proof fn lemma_object_entries(entries: Seq<(Seq<char>, value::ValueView)>, n: nat)
    requires
        value::distinct(entries),
        n <= entries.len(),
    ensures
        json_entries(entries, n).len() == n,
        forall|i: int|
            0 <= i < n ==> (#[trigger] json_entries(entries, n)[i]).0 == entries[i].0
                && json_entries(entries, n)[i].1 == json_of(entries[i].1),
    decreases n,
{
    if n > 0 {
        let before = json_entries(entries, (n - 1) as nat);
        let entry = entries[n - 1];
        lemma_object_entries(entries, (n - 1) as nat);
        assert forall|i: int| 0 <= i < before.len() implies (#[trigger] before[i]).0
            != entry.0 by {
            assert(before[i].0 == entries[i].0);
            assert(entries[i].0 != entries[n - 1].0);
        }
        json::lemma_put_new(before, entry.0, json_of(entry.1));
    }
}

/// The headers that a described reply asks for can be sent where the names and the texts under
/// `headers` and the texts under `cookies` can be headers, and the table has room for them: neither
/// the status nor the body makes a difference.
pub proof fn law_good_headers_can_be_sent(
    entries: Seq<(Seq<char>, value::ValueView)>,
    own: Seq<(Seq<char>, value::ValueView)>,
    cookies: Seq<(Seq<char>, value::ValueView)>,
    format: Seq<char>,
)
    requires
        match json::get(entries, "headers"@) {
            Some(found) => if found.content is Dict {
                found.content == value::ContentView::Dict(own)
            } else {
                own.len() == 0
            },
            None => own.len() == 0,
        },
        match json::get(entries, "cookies"@) {
            Some(found) => if found.content is Dict {
                found.content == value::ContentView::Dict(cookies)
            } else {
                cookies.len() == 0
            },
            None => cookies.len() == 0,
        },
        own.len() + cookies.len() < 24_576,
        forall|i: int|
            0 <= i < own.len() ==> reply::is_header_name((#[trigger] own[i]).0)
                && reply::is_header_value(own[i].1.text),
        forall|i: int|
            0 <= i < cookies.len() ==> reply::is_header_value(
                (#[trigger] cookies[i]).0 + seq!['='] + cookies[i].1.text,
            ),
    ensures
        reply::can_be_sent(asked_headers(entries, format)),
{
    lemma_own_headers();
    reveal_strlit("=");
    assert("="@ =~= seq!['=']);
    let asked = asked_headers(entries, format);
    let n = own.len() as int;
    let m = n + cookies.len();
    assert(dict_under(entries, "headers"@) =~= own);
    assert(dict_under(entries, "cookies"@) =~= cookies);
    assert forall|i: int| 0 <= i < asked.len() implies reply::is_header(#[trigger] asked[i]) by {
        if i < n {
            assert(asked[i] == header_of(own[i]));
        } else if i < m {
            assert(asked[i] == cookie_of(cookies[i - n]));
        } else {
            assert(asked[i] == body_header(json::get(entries, "body"@), format)[i - m]);
        }
    }
    reply::lemma_few_fit_table(asked);
}

/// Whether an item of an event list can be written: where it is a dictionary, the text under `event`
/// has no line break, and the text under `id` neither a line break nor a null character.
pub open spec fn can_be_written(item: value::ValueView) -> bool {
    item.content matches value::ContentView::Dict(inner) ==> {
        &&& json::get(inner, "event"@) matches Some(name) ==> (
        name.content matches value::ContentView::Text(said) ==> !said.contains('\n')
            && !said.contains('\r'))
        &&& json::get(inner, "id"@) matches Some(id) ==> (
        id.content matches value::ContentView::Text(said) ==> !said.contains('\n')
            && !said.contains('\r') && !said.contains('\0'))
    }
}

/// A value with an event list can be answered with if and only if every item can be written.
pub proof fn law_events_that_can_be_written(
    value: value::ValueView,
    entries: Seq<(Seq<char>, value::ValueView)>,
    list: value::ValueView,
    items: Seq<value::ValueView>,
)
    requires
        value.content == value::ContentView::Dict(entries),
        json::get(entries, "sse"@) == Some(list),
        list.content == value::ContentView::Array(items),
    ensures
        is_answer(value) <==> forall|i: int|
            0 <= i < items.len() ==> can_be_written(#[trigger] items[i]),
{
    let events = events_of(items);
    assert forall|i: int| 0 <= i < items.len() implies can_be_sent(#[trigger] events[i])
        == can_be_written(items[i]) by {
        assert(events[i] == event_of(items[i]));
    }
    if is_answer(value) {
        assert forall|i: int| 0 <= i < items.len() implies can_be_written(#[trigger] items[i]) by {
            assert(can_be_sent(events[i]));
        }
    }
    if forall|i: int| 0 <= i < items.len() ==> can_be_written(#[trigger] items[i]) {
        assert forall|i: int| 0 <= i < events.len() implies can_be_sent(#[trigger] events[i]) by {
            assert(can_be_written(items[i]));
        }
    }
}

} // verus!
