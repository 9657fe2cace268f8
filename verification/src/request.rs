//! Requests, and the value that a script sees of one.

use vstd::prelude::*;
use vstd::slice::slice_subrange;

use crate::body;
use crate::body::parse_body;
use crate::json;
use crate::text;
use crate::text::{
    chars_of, decode_lossy, find, rest_after, split_every, text_of, trim, Trim,
};
use crate::value;
use crate::value::{dict_value, text_dict, text_value};

verus! {

/// A request as it comes from the network. Header names are in lower case, and one name may occur
/// more than once; header values are bytes.
#[derive(Debug)]
pub struct RequestParts {
    pub method: String,
    pub path: String,
    pub uri: String,
    /// The scheme that the URI names.
    pub scheme: Option<String>,
    pub version: String,
    /// The parameters of the query, one for each name.
    pub query: Vec<(String, String)>,
    pub headers: Vec<(String, Vec<u8>)>,
    pub body: Vec<u8>,
}

/// What a list of headers holds.
pub open spec fn header_views(list: Seq<(String, Vec<u8>)>) -> Seq<(Seq<char>, Seq<u8>)> {
    list.map_values(|h: (String, Vec<u8>)| (h.0@, h.1@))
}

/// Whether bytes are printable ASCII or tabs.
pub open spec fn is_visible(bytes: Seq<u8>) -> bool {
    forall|i: int| 0 <= i < bytes.len() ==> 32 <= (#[trigger] bytes[i]) < 127 || bytes[i] == 9
}

/// The text of a header value, where it is printable ASCII.
pub open spec fn header_text(bytes: Seq<u8>) -> Option<Seq<char>> {
    if is_visible(bytes) {
        Some(bytes.map_values(|b: u8| b as char))
    } else {
        None
    }
}

/// `HeaderValue::to_str` of the `http` crate gives the text of a value of printable ASCII and
/// tabs, and none for another value. Bytes that are no header value at all have none either.
#[verifier::external_body]
pub(crate) fn read_header(bytes: &Vec<u8>) -> (text: Option<String>)
    ensures
        text::option_view(text) == header_text(bytes@),
{
    axum::http::HeaderValue::from_bytes(bytes).ok().and_then(
        |value| value.to_str().ok().map(str::to_owned),
    )
}

/// A text or, where there is none, the empty one.
pub open spec fn or_empty(text: Option<Seq<char>>) -> Seq<char> {
    match text {
        Some(text) => text,
        None => seq![],
    }
}

fn text_or_empty(text: Option<String>) -> (found: String)
    ensures
        found@ == or_empty(text::option_view(text)),
{
    match text {
        Some(text) => text,
        None => {
            let found = String::new();
            assert(found@ =~= seq![]);
            found
        },
    }
}

/// The first header with this name.
pub open spec fn first_header(headers: Seq<(Seq<char>, Seq<u8>)>, name: Seq<char>) -> Option<
    Seq<u8>,
> {
    json::get(headers, name)
}

/// The text of the first header with this name, where there is one and it is printable ASCII.
pub open spec fn header_under(headers: Seq<(Seq<char>, Seq<u8>)>, name: Seq<char>) -> Option<
    Seq<char>,
> {
    match first_header(headers, name) {
        Some(bytes) => header_text(bytes),
        None => None,
    }
}

/// The text of the first header with this name.
pub fn find_header(headers: &Vec<(String, Vec<u8>)>, name: &str) -> (text: Option<String>)
    ensures
        text::option_view(text) == header_under(header_views(headers@), name@),
{
    let ghost views = header_views(headers@);
    let mut i: usize = 0;
    proof {
        assert(views.skip(0) =~= views);
    }
    while i < headers.len()
        invariant
            i <= headers@.len(),
            views == header_views(headers@),
            json::get(views, name@) == json::get(views.skip(i as int), name@),
        decreases headers@.len() - i,
    {
        assert(views.skip(i as int).drop_first() =~= views.skip(i + 1));
        assert(views.skip(i as int)[0] == views[i as int]);
        if *headers[i].0.as_str() == *name {
            return read_header(&headers[i].1);
        }
        i += 1;
    }
    None
}

/// The headers as texts; a value that is not printable ASCII is empty.
pub open spec fn header_texts(headers: Seq<(Seq<char>, Seq<u8>)>) -> Seq<(Seq<char>, Seq<char>)> {
    headers.map_values(|h: (Seq<char>, Seq<u8>)| (h.0, or_empty(header_text(h.1))))
}

/// The cookie that a piece of a cookie header names, where it has an equals sign.
pub open spec fn cookie_in(piece: Seq<char>) -> Option<(Seq<char>, Seq<char>)> {
    text::split_once(text::trimmed(piece, Trim::White), '=')
}

/// The cookies that the pieces of a cookie header name.
pub open spec fn cookies_in(pieces: Seq<Seq<char>>) -> Seq<(Seq<char>, Seq<char>)>
    decreases pieces.len(),
{
    if pieces.len() == 0 {
        seq![]
    } else {
        let before = cookies_in(pieces.drop_last());
        match cookie_in(pieces.last()) {
            Some(cookie) => before.push(cookie),
            None => before,
        }
    }
}

/// The cookies that the headers name, in their order.
pub open spec fn cookies_of(headers: Seq<(Seq<char>, Seq<u8>)>) -> Seq<(Seq<char>, Seq<char>)>
    decreases headers.len(),
{
    if headers.len() == 0 {
        seq![]
    } else {
        let before = cookies_of(headers.drop_last());
        if headers.last().0 == "cookie"@ {
            before + cookies_in(text::split_all(or_empty(header_text(headers.last().1)), ';'))
        } else {
            before
        }
    }
}

/// Add the cookies that a cookie header names.
fn push_cookies(cookies: &mut Vec<(String, String)>, header: &str)
    ensures
        text::pair_views(final(cookies)@) == text::pair_views(old(cookies)@) + cookies_in(
            text::split_all(header@, ';'),
        ),
{
    let ghost before = text::pair_views(cookies@);
    let chars = chars_of(header);
    let pieces = split_every(&chars, ';');
    let ghost views = text::slice_views(pieces@);
    let mut i: usize = 0;
    proof {
        assert(views.take(0) =~= seq![]);
        assert(before + cookies_in(views.take(0)) =~= before);
    }
    while i < pieces.len()
        invariant
            i <= pieces@.len(),
            views == text::slice_views(pieces@),
            text::pair_views(cookies@) == before + cookies_in(views.take(i as int)),
        decreases pieces@.len() - i,
    {
        let ghost prior = cookies@;
        let piece = trim(pieces[i], Trim::White);
        let n = find(piece, '=');
        proof {
            assert(views.take(i + 1).drop_last() =~= views.take(i as int));
            assert(views.take(i + 1).last() == pieces@[i as int]@);
        }
        if n < piece.len() {
            let name = text_of(slice_subrange(piece, 0, n));
            let content = text_of(rest_after(piece, n + 1));
            cookies.push((name, content));
            proof {
                assert(name@ =~= piece@.take(n as int));
                assert(content@ =~= piece@.skip(n + 1));
                assert(text::pair_views(cookies@) =~= text::pair_views(prior).push(
                    (name@, content@),
                ));
                assert(text::pair_views(cookies@) =~= before + cookies_in(views.take(i + 1)));
            }
        }
        i += 1;
    }
    assert(views.take(pieces@.len() as int) =~= views);
}

/// The model of the fields of a request.
pub ghost struct FieldsView {
    pub method: Seq<char>,
    pub path: Seq<char>,
    pub uri: Seq<char>,
    pub version: Seq<char>,
    pub scheme: Seq<char>,
    pub remote_addr: Seq<char>,
    pub query: Seq<(Seq<char>, Seq<char>)>,
    pub headers: Seq<(Seq<char>, Seq<char>)>,
    pub cookies: Seq<(Seq<char>, Seq<char>)>,
    pub body: Seq<char>,
    pub content_type: Seq<char>,
}

/// The fields of a request, as texts. Of several headers or cookies with one name the last counts.
#[derive(Debug)]
pub struct RequestFields {
    pub method: String,
    pub path: String,
    pub uri: String,
    pub version: String,
    pub scheme: String,
    pub remote_addr: String,
    pub query: Vec<(String, String)>,
    pub headers: Vec<(String, String)>,
    pub cookies: Vec<(String, String)>,
    pub body: String,
    pub content_type: String,
}

impl View for RequestFields {
    type V = FieldsView;

    open spec fn view(&self) -> FieldsView {
        FieldsView {
            method: self.method@,
            path: self.path@,
            uri: self.uri@,
            version: self.version@,
            scheme: self.scheme@,
            remote_addr: self.remote_addr@,
            query: text::pair_views(self.query@),
            headers: text::pair_views(self.headers@),
            cookies: text::pair_views(self.cookies@),
            body: self.body@,
            content_type: self.content_type@,
        }
    }
}

/// The fields of a request.
pub open spec fn fields_of(parts: RequestParts, remote_addr: Seq<char>) -> FieldsView {
    FieldsView {
        method: parts.method@,
        path: parts.path@,
        uri: parts.uri@,
        version: parts.version@,
        scheme: match parts.scheme {
            Some(scheme) => scheme@,
            None => "http"@,
        },
        remote_addr,
        query: text::pair_views(parts.query@),
        headers: header_texts(header_views(parts.headers@)),
        cookies: cookies_of(header_views(parts.headers@)),
        body: text::lossy_text(parts.body@),
        content_type: or_empty(header_under(header_views(parts.headers@), "content-type"@)),
    }
}

fn copy_pairs(list: &Vec<(String, String)>) -> (copy: Vec<(String, String)>)
    ensures
        text::pair_views(copy@) == text::pair_views(list@),
{
    let mut copy: Vec<(String, String)> = Vec::new();
    let mut i: usize = 0;
    while i < list.len()
        invariant
            i <= list@.len(),
            copy@.len() == i,
            forall|j: int|
                0 <= j < i ==> (#[trigger] copy@[j]).0@ == list@[j].0@ && copy@[j].1@
                    == list@[j].1@,
        decreases list@.len() - i,
    {
        copy.push((list[i].0.clone(), list[i].1.clone()));
        i += 1;
    }
    assert(text::pair_views(copy@) =~= text::pair_views(list@));
    copy
}

/// Read the fields of a request.
pub fn read_request(parts: &RequestParts, remote_addr: &str) -> (fields: RequestFields)
    ensures
        fields@ == fields_of(*parts, remote_addr@),
{
    let ghost views = header_views(parts.headers@);
    let mut headers: Vec<(String, String)> = Vec::new();
    let mut cookies: Vec<(String, String)> = Vec::new();
    let mut i: usize = 0;
    proof {
        assert(views.take(0) =~= seq![]);
        assert(text::pair_views(headers@) =~= header_texts(views.take(0)));
        assert(text::pair_views(cookies@) =~= cookies_of(views.take(0)));
    }
    while i < parts.headers.len()
        invariant
            i <= parts.headers@.len(),
            views == header_views(parts.headers@),
            text::pair_views(headers@) == header_texts(views.take(i as int)),
            text::pair_views(cookies@) == cookies_of(views.take(i as int)),
        decreases parts.headers@.len() - i,
    {
        let ghost prior = headers@;
        let content = text_or_empty(read_header(&parts.headers[i].1));
        proof {
            assert(views.take(i + 1).drop_last() =~= views.take(i as int));
            assert(views.take(i + 1).last() == views[i as int]);
        }
        if *parts.headers[i].0.as_str() == *"cookie" {
            push_cookies(&mut cookies, content.as_str());
        }
        headers.push((parts.headers[i].0.clone(), content));
        proof {
            assert(text::pair_views(headers@) =~= text::pair_views(prior).push(
                (views[i as int].0, or_empty(header_text(views[i as int].1))),
            ));
            assert(text::pair_views(headers@) =~= header_texts(views.take(i + 1)));
        }
        i += 1;
    }
    proof {
        assert(views.take(parts.headers@.len() as int) =~= views);
    }
    RequestFields {
        method: parts.method.clone(),
        path: parts.path.clone(),
        uri: parts.uri.clone(),
        version: parts.version.clone(),
        scheme: match &parts.scheme {
            Some(scheme) => scheme.clone(),
            None => "http".to_owned(),
        },
        remote_addr: remote_addr.to_owned(),
        query: copy_pairs(&parts.query),
        headers,
        cookies,
        body: decode_lossy(parts.body.as_slice()),
        content_type: text_or_empty(find_header(&parts.headers, "content-type")),
    }
}

/// Whether this is the name of a field of a request value.
pub open spec fn is_field(name: Seq<char>) -> bool {
    ||| name == "method"@
    ||| name == "path"@
    ||| name == "uri"@
    ||| name == "version"@
    ||| name == "scheme"@
    ||| name == "remote_addr"@
    ||| name == "query"@
    ||| name == "headers"@
    ||| name == "cookies"@
    ||| name == "body"@
}

/// Whether a script value is the request with these fields: a dictionary of them, where the
/// query, the headers and the cookies are dictionaries themselves, and the body is read by the
/// content type.
pub open spec fn is_request(value: value::ValueView, fields: FieldsView) -> bool {
    match value.content {
        value::ContentView::Dict(entries) => {
            &&& value::distinct(entries)
            &&& forall|name: Seq<char>|
                (#[trigger] json::get(entries, name) is Some) == is_field(name)
            &&& json::get(entries, "method"@) == Some(value::text_view(fields.method))
            &&& json::get(entries, "path"@) == Some(value::text_view(fields.path))
            &&& json::get(entries, "uri"@) == Some(value::text_view(fields.uri))
            &&& json::get(entries, "version"@) == Some(value::text_view(fields.version))
            &&& json::get(entries, "scheme"@) == Some(value::text_view(fields.scheme))
            &&& json::get(entries, "remote_addr"@) == Some(
                value::text_view(fields.remote_addr),
            )
            &&& json::get(entries, "query"@) matches Some(query) && value::is_text_dict(
                query,
                fields.query,
            )
            &&& json::get(entries, "headers"@) matches Some(headers) && value::is_text_dict(
                headers,
                fields.headers,
            )
            &&& json::get(entries, "cookies"@) matches Some(cookies) && value::is_text_dict(
                cookies,
                fields.cookies,
            )
            &&& json::get(entries, "body"@) matches Some(parsed) && body::is_parsed_body(
                parsed,
                fields.body,
                fields.content_type,
            )
        },
        _ => false,
    }
}

/// Add an entry, which hides those with its name, and no others.
fn put_field(
    entries: &mut Vec<(String, mq_lang::RuntimeValue)>,
    name: &str,
    item: mq_lang::RuntimeValue,
)
    ensures
        forall|key: Seq<char>|
            #[trigger] value::last_of(value::runtime_entries(final(entries)@), key) == (if key
                == name@ {
                Some(value::runtime_view(item))
            } else {
                value::last_of(value::runtime_entries(old(entries)@), key)
            }),
{
    let ghost before = entries@;
    entries.push((name.to_owned(), item));
    proof {
        let added = (name@, value::runtime_view(item));
        assert(value::runtime_entries(entries@) =~= value::runtime_entries(before).push(added));
        value::lemma_last_push(value::runtime_entries(before), added);
    }
}

/// No two fields of a request value have the same name.
proof fn lemma_field_names()
    ensures
        "method"@ != "path"@,
        "method"@ != "uri"@,
        "method"@ != "version"@,
        "method"@ != "scheme"@,
        "method"@ != "remote_addr"@,
        "method"@ != "query"@,
        "method"@ != "headers"@,
        "method"@ != "cookies"@,
        "method"@ != "body"@,
        "path"@ != "uri"@,
        "path"@ != "version"@,
        "path"@ != "scheme"@,
        "path"@ != "remote_addr"@,
        "path"@ != "query"@,
        "path"@ != "headers"@,
        "path"@ != "cookies"@,
        "path"@ != "body"@,
        "uri"@ != "version"@,
        "uri"@ != "scheme"@,
        "uri"@ != "remote_addr"@,
        "uri"@ != "query"@,
        "uri"@ != "headers"@,
        "uri"@ != "cookies"@,
        "uri"@ != "body"@,
        "version"@ != "scheme"@,
        "version"@ != "remote_addr"@,
        "version"@ != "query"@,
        "version"@ != "headers"@,
        "version"@ != "cookies"@,
        "version"@ != "body"@,
        "scheme"@ != "remote_addr"@,
        "scheme"@ != "query"@,
        "scheme"@ != "headers"@,
        "scheme"@ != "cookies"@,
        "scheme"@ != "body"@,
        "remote_addr"@ != "query"@,
        "remote_addr"@ != "headers"@,
        "remote_addr"@ != "cookies"@,
        "remote_addr"@ != "body"@,
        "query"@ != "headers"@,
        "query"@ != "cookies"@,
        "query"@ != "body"@,
        "headers"@ != "cookies"@,
        "headers"@ != "body"@,
        "cookies"@ != "body"@,
{
    reveal_strlit("method");
    assert("method"@.len() == 6);
    reveal_strlit("path");
    assert("path"@.len() == 4);
    reveal_strlit("uri");
    assert("uri"@.len() == 3);
    reveal_strlit("version");
    assert("version"@.len() == 7);
    reveal_strlit("scheme");
    assert("scheme"@.len() == 6);
    reveal_strlit("remote_addr");
    assert("remote_addr"@.len() == 11);
    reveal_strlit("query");
    assert("query"@.len() == 5);
    reveal_strlit("headers");
    assert("headers"@.len() == 7);
    reveal_strlit("cookies");
    assert("cookies"@.len() == 7);
    reveal_strlit("body");
    assert("body"@.len() == 4);
    assert("method"@[0] != "scheme"@[0]);
    assert("path"@[0] != "body"@[0]);
    assert("version"@[0] != "headers"@[0]);
    assert("version"@[0] != "cookies"@[0]);
    assert("headers"@[0] != "cookies"@[0]);
}

/// Make the value of a request with these fields.
pub fn request_value(fields: &RequestFields) -> (made: mq_lang::RuntimeValue)
    ensures
        is_request(value::runtime_view(made), fields@),
{
    let mut entries: Vec<(String, mq_lang::RuntimeValue)> = Vec::new();
    proof {
        lemma_field_names();
        assert(value::runtime_entries(entries@) =~= seq![]);
    }
    put_field(&mut entries, "method", text_value(fields.method.clone()));
    put_field(&mut entries, "path", text_value(fields.path.clone()));
    put_field(&mut entries, "uri", text_value(fields.uri.clone()));
    put_field(&mut entries, "version", text_value(fields.version.clone()));
    put_field(&mut entries, "scheme", text_value(fields.scheme.clone()));
    put_field(&mut entries, "remote_addr", text_value(fields.remote_addr.clone()));
    put_field(&mut entries, "query", text_dict(&fields.query));
    put_field(&mut entries, "headers", text_dict(&fields.headers));
    put_field(&mut entries, "cookies", text_dict(&fields.cookies));
    let parsed = parse_body(fields.body.as_str(), fields.content_type.as_str());
    put_field(&mut entries, "body", parsed);
    let made = dict_value(entries);
    proof {
        let found = value::runtime_view(made).content->Dict_0;
        assert forall|name: Seq<char>|
            (#[trigger] json::get(found, name) is Some) == is_field(name) by {
            assert(value::last_of(value::runtime_entries(entries@), name) is Some == is_field(name));
        }
        assert(json::get(found, "method"@) is Some);
        assert(json::get(found, "path"@) is Some);
        assert(json::get(found, "uri"@) is Some);
        assert(json::get(found, "version"@) is Some);
        assert(json::get(found, "scheme"@) is Some);
        assert(json::get(found, "remote_addr"@) is Some);
        assert(json::get(found, "query"@) is Some);
        assert(json::get(found, "headers"@) is Some);
        assert(json::get(found, "cookies"@) is Some);
        assert(json::get(found, "body"@) is Some);
    }
    made
}

/// Make the value that a script sees of a request.
pub fn build_request_value(parts: &RequestParts, remote_addr: &str) -> (made: mq_lang::RuntimeValue)
    ensures
        is_request(value::runtime_view(made), fields_of(*parts, remote_addr@)),
{
    let fields = read_request(parts, remote_addr);
    request_value(&fields)
}

/// A cookie is read back as it was written, where its name has no equals sign and it has no white
/// space around it.
pub proof fn law_cookie_is_read_back(name: Seq<char>, content: Seq<char>)
    requires
        !name.contains('='),
        text::trimmed(name.push('=') + content, Trim::White) == name.push('=') + content,
    ensures
        cookie_in(name.push('=') + content) == Some((name, content)),
{
    let written = name.push('=') + content;
    let n = text::first_at(written, '=');
    text::lemma_first_at(written, '=');
    assert(written[name.len() as int] == '=');
    if n < name.len() {
        assert(written[n as int] == name[n as int]);
        assert(name.contains('='));
    }
    assert(written.take(name.len() as int) =~= name);
    assert(written.skip(name.len() as int + 1) =~= content);
}

/// Headers that are no cookie headers name no cookies.
pub proof fn law_only_cookie_headers_count(headers: Seq<(Seq<char>, Seq<u8>)>)
    requires
        forall|i: int| 0 <= i < headers.len() ==> (#[trigger] headers[i]).0 != "cookie"@,
    ensures
        cookies_of(headers).len() == 0,
    decreases headers.len(),
{
    if headers.len() > 0 {
        let before = headers.drop_last();
        assert forall|i: int| 0 <= i < before.len() implies (#[trigger] before[i]).0
            != "cookie"@ by {
            assert(before[i] == headers[i]);
        }
        law_only_cookie_headers_count(before);
        assert(headers.last() == headers[headers.len() - 1]);
    }
}

/// What a list of headers holds is what its headers hold, one by one.
pub proof fn law_header_views(list: Seq<(String, Vec<u8>)>, i: int)
    ensures
        header_views(list).len() == list.len(),
        0 <= i < list.len() ==> header_views(list)[i].0 == list[i].0@,
        0 <= i < list.len() ==> header_views(list)[i].1 == list[i].1@,
{
}

/// What the fields of a request hold is what the fields hold, one by one.
pub proof fn law_fields_view(fields: RequestFields)
    ensures
        fields@.method == fields.method@,
        fields@.path == fields.path@,
        fields@.uri == fields.uri@,
        fields@.version == fields.version@,
        fields@.scheme == fields.scheme@,
        fields@.remote_addr == fields.remote_addr@,
        fields@.query == text::pair_views(fields.query@),
        fields@.headers == text::pair_views(fields.headers@),
        fields@.cookies == text::pair_views(fields.cookies@),
        fields@.body == fields.body@,
        fields@.content_type == fields.content_type@,
{
}

/// What a request value has under one of its names.
pub open spec fn field_of(made: value::ValueView, name: Seq<char>) -> Option<value::ValueView> {
    match made.content {
        value::ContentView::Dict(entries) => json::get(entries, name),
        _ => None,
    }
}

/// What a request value has under a name, below one of its own names.
pub open spec fn entry_of(
    made: value::ValueView,
    field: Seq<char>,
    name: Seq<char>,
) -> Option<value::ValueView> {
    match field_of(made, field) {
        Some(found) => field_of(found, name),
        None => None,
    }
}

/// A script sees the method, the path, the URI, the version and the remote address of a request
/// as they came, and the scheme, which is `http` where the URI names none.
pub proof fn law_plain_fields_are_seen(
    made: value::ValueView,
    parts: RequestParts,
    remote_addr: Seq<char>,
)
    requires
        is_request(made, fields_of(parts, remote_addr)),
    ensures
        field_of(made, "method"@) == Some(value::text_view(parts.method@)),
        field_of(made, "path"@) == Some(value::text_view(parts.path@)),
        field_of(made, "uri"@) == Some(value::text_view(parts.uri@)),
        field_of(made, "version"@) == Some(value::text_view(parts.version@)),
        field_of(made, "remote_addr"@) == Some(value::text_view(remote_addr)),
        field_of(made, "scheme"@) == Some(
            value::text_view(
                match parts.scheme {
                    Some(scheme) => scheme@,
                    None => "http"@,
                },
            ),
        ),
        forall|name: Seq<char>|
            name != "method"@ && name != "path"@ && name != "uri"@ && name != "version"@ && name
                != "scheme"@ && name != "remote_addr"@ && name != "query"@ && name != "headers"@
                && name != "cookies"@ && name != "body"@ ==> #[trigger] field_of(made, name)
                is None,
{
    let entries = made.content->Dict_0;
    assert forall|name: Seq<char>|
        name != "method"@ && name != "path"@ && name != "uri"@ && name != "version"@ && name
            != "scheme"@ && name != "remote_addr"@ && name != "query"@ && name != "headers"@ && name
            != "cookies"@ && name != "body"@ implies #[trigger] field_of(made, name) is None by {
        assert(!is_field(name));
        assert(json::get(entries, name) is Some == is_field(name));
    }
}

/// A script sees every parameter of the query under its name, with its content; of several with
/// one name the last. It sees no other names.
pub proof fn law_query_is_seen(
    made: value::ValueView,
    parts: RequestParts,
    remote_addr: Seq<char>,
    i: int,
    name: Seq<char>,
)
    requires
        is_request(made, fields_of(parts, remote_addr)),
    ensures
        0 <= i < parts.query@.len() && (forall|j: int|
            i < j < parts.query@.len() ==> (#[trigger] parts.query@[j]).0@ != parts.query@[i].0@)
            ==> entry_of(made, "query"@, parts.query@[i].0@) == Some(
            value::text_view(parts.query@[i].1@),
        ),
        (forall|j: int| 0 <= j < parts.query@.len() ==> (#[trigger] parts.query@[j]).0@ != name)
            ==> entry_of(made, "query"@, name) is None,
        field_of(made, "query"@) matches Some(query) && query.content is Dict,
{
    let pairs = text::pair_views(parts.query@);
    assert(forall|j: int|
        0 <= j < pairs.len() ==> (#[trigger] pairs[j]).0 == parts.query@[j].0@ && pairs[j].1
            == parts.query@[j].1@);
    let query = field_of(made, "query"@)->0;
    let found = query.content->Dict_0;
    value::lemma_last_entry(pairs, i, name);
    assert(json::get(found, name) is Some == json::get(found, name) is Some);
    if 0 <= i < pairs.len() {
        value::lemma_last_entry(pairs, i, pairs[i].0);
        assert(json::get(found, pairs[i].0) is Some == json::get(found, pairs[i].0) is Some);
    }
}

/// A script sees every header under its name, with the text of its bytes where they are printable
/// ASCII, and an empty text where they are not; of several with one name the last. It sees no
/// other names.
pub proof fn law_headers_are_seen(
    made: value::ValueView,
    parts: RequestParts,
    remote_addr: Seq<char>,
    i: int,
    name: Seq<char>,
    content: Seq<char>,
)
    requires
        is_request(made, fields_of(parts, remote_addr)),
    ensures
        0 <= i < parts.headers@.len() && (forall|j: int|
            i < j < parts.headers@.len() ==> (#[trigger] parts.headers@[j]).0@
                != parts.headers@[i].0@) ==> {
            let bytes = parts.headers@[i].1@;
            &&& (forall|k: int|
                0 <= k < bytes.len() ==> 32 <= (#[trigger] bytes[k]) < 127 || bytes[k] == 9)
                && content.len() == bytes.len() && (forall|k: int|
                0 <= k < bytes.len() ==> (#[trigger] content[k]) as int == bytes[k]) ==> entry_of(
                made,
                "headers"@,
                parts.headers@[i].0@,
            ) == Some(value::text_view(content))
            &&& (exists|k: int|
                0 <= k < bytes.len() && !(32 <= (#[trigger] bytes[k]) < 127 || bytes[k] == 9))
                ==> entry_of(made, "headers"@, parts.headers@[i].0@) == Some(
                value::text_view(seq![]),
            )
        },
        (forall|j: int| 0 <= j < parts.headers@.len() ==> (#[trigger] parts.headers@[j]).0@ != name)
            ==> entry_of(made, "headers"@, name) is None,
{
    let views = header_views(parts.headers@);
    let pairs = header_texts(views);
    assert(forall|j: int|
        0 <= j < pairs.len() ==> (#[trigger] pairs[j]).0 == parts.headers@[j].0@ && pairs[j].1
            == or_empty(header_text(parts.headers@[j].1@)));
    let found = field_of(made, "headers"@)->0.content->Dict_0;
    value::lemma_last_entry(pairs, i, name);
    assert(json::get(found, name) is Some == json::get(found, name) is Some);
    if 0 <= i < pairs.len() {
        let bytes = parts.headers@[i].1@;
        value::lemma_last_entry(pairs, i, pairs[i].0);
        assert(json::get(found, pairs[i].0) is Some == json::get(found, pairs[i].0) is Some);
        if is_visible(bytes) && content.len() == bytes.len() && (forall|k: int|
            0 <= k < bytes.len() ==> (#[trigger] content[k]) as int == bytes[k]) {
            assert(header_text(bytes)->0 =~= content);
        }
    }
}

/// The cookies that pairs of names and contents write into a header: a name, an equals sign and a
/// content, with a semicolon and a space between any two.
pub open spec fn cookie_texts(cookies: Seq<(Seq<char>, Seq<char>)>) -> Seq<Seq<char>> {
    cookies.map_values(|c: (Seq<char>, Seq<char>)| c.0 + seq!['='] + c.1)
}

/// Whether a cookie can be read back: its name has no equals sign, neither part a semicolon, and
/// the two together no white space at their ends.
pub open spec fn is_cookie(cookie: (Seq<char>, Seq<char>)) -> bool {
    &&& !cookie.0.contains('=')
    &&& !cookie.0.contains(';')
    &&& !cookie.1.contains(';')
    &&& text::has_clean_ends(cookie.0 + seq!['='] + cookie.1, Trim::White)
}

/// The pieces of a cookie header, the first without and the others with a space in front.
proof fn lemma_cookie_pieces(cookies: Seq<(Seq<char>, Seq<char>)>)
    requires
        cookies.len() > 0,
        forall|i: int| 0 <= i < cookies.len() ==> is_cookie(#[trigger] cookies[i]),
    ensures
        ({
            let texts = cookie_texts(cookies);
            let pieces = Seq::new(
                texts.len(),
                |i: int|
                    if i == 0 {
                        texts[i]
                    } else {
                        seq![' '] + texts[i]
                    },
            );
            &&& text::joined(texts, seq![';', ' ']) == text::joined(pieces, seq![';'])
            &&& text::split_all(text::joined(texts, seq![';', ' ']), ';') == pieces
            &&& cookies_in(pieces) == cookies
        }),
{
    let texts = cookie_texts(cookies);
    let pieces = Seq::new(
        texts.len(),
        |i: int|
            if i == 0 {
                texts[i]
            } else {
                seq![' '] + texts[i]
            },
    );
    lemma_joined_pieces(texts, pieces);
    assert forall|i: int| 0 <= i < pieces.len() implies !(#[trigger] pieces[i]).contains(';') by {
        assert(is_cookie(cookies[i]));
        if pieces[i].contains(';') {
            let k = choose|k: int| 0 <= k < pieces[i].len() && pieces[i][k] == ';';
            let m = if i == 0 {
                k
            } else {
                k - 1
            };
            assert(m >= 0);
            assert(texts[i][m] == ';');
            if m < cookies[i].0.len() {
                assert(cookies[i].0[m] == ';');
            } else {
                assert(m > cookies[i].0.len());
                assert(cookies[i].1[m - cookies[i].0.len() - 1] == ';');
            }
        }
    }
    text::law_split_undoes_join(pieces, ';');
    lemma_cookies_in(cookies, pieces, cookies.len());
    assert(pieces.take(pieces.len() as int) =~= pieces);
    assert(cookies.take(cookies.len() as int) =~= cookies);
}

/// A semicolon and a space between texts are a semicolon between texts with a space in front.
proof fn lemma_joined_pieces(texts: Seq<Seq<char>>, pieces: Seq<Seq<char>>)
    requires
        texts.len() == pieces.len(),
        texts.len() > 0,
        pieces[0] == texts[0],
        forall|i: int| 0 < i < texts.len() ==> (#[trigger] pieces[i]) == seq![' '] + texts[i],
    ensures
        text::joined(texts, seq![';', ' ']) == text::joined(pieces, seq![';']),
    decreases texts.len(),
{
    if texts.len() > 1 {
        lemma_joined_pieces(texts.drop_last(), pieces.drop_last());
        assert(pieces.last() == seq![' '] + texts.last());
        assert(text::joined(texts, seq![';', ' ']) =~= text::joined(pieces, seq![';']));
    }
}

proof fn lemma_cookies_in(
    cookies: Seq<(Seq<char>, Seq<char>)>,
    pieces: Seq<Seq<char>>,
    n: nat,
)
    requires
        n <= cookies.len(),
        pieces.len() == cookies.len(),
        forall|i: int| 0 <= i < cookies.len() ==> is_cookie(#[trigger] cookies[i]),
        forall|i: int|
            0 <= i < pieces.len() ==> (#[trigger] pieces[i]) == (if i == 0 {
                cookies[i].0 + seq!['='] + cookies[i].1
            } else {
                seq![' '] + (cookies[i].0 + seq!['='] + cookies[i].1)
            }),
    ensures
        cookies_in(pieces.take(n as int)) == cookies.take(n as int),
    decreases n,
{
    if n > 0 {
        let cookie = cookies[n - 1];
        let written = cookie.0 + seq!['='] + cookie.1;
        let none = Seq::<char>::empty();
        lemma_cookies_in(cookies, pieces, (n - 1) as nat);
        assert(pieces.take(n as int).drop_last() =~= pieces.take(n - 1));
        assert(pieces.take(n as int).last() == pieces[n - 1]);
        assert(is_cookie(cookie));
        text::law_trim(none, written, none, Trim::White);
        text::law_trim(seq![' '], written, none, Trim::White);
        assert(none + written + none =~= written);
        assert(seq![' '] + written + none =~= seq![' '] + written);
        text::law_split_once(cookie.0, '=', cookie.1);
        assert(cookies.take(n as int) =~= cookies.take(n - 1).push(cookie));
    } else {
        assert(cookies.take(0) =~= seq![]);
    }
}

/// A script sees every cookie of a request with one cookie header under its name, with its content;
/// of several with one name the last. It sees no other names.
pub proof fn law_cookies_are_seen(
    made: value::ValueView,
    parts: RequestParts,
    remote_addr: Seq<char>,
    header: int,
    cookies: Seq<(Seq<char>, Seq<char>)>,
    i: int,
    name: Seq<char>,
)
    requires
        is_request(made, fields_of(parts, remote_addr)),
        0 <= header < parts.headers@.len(),
        parts.headers@[header].0@ == "cookie"@,
        forall|j: int|
            0 <= j < parts.headers@.len() && j != header ==> (#[trigger] parts.headers@[j]).0@
                != "cookie"@,
        header_text(parts.headers@[header].1@) == Some(
            text::joined(cookie_texts(cookies), seq![';', ' ']),
        ),
        cookies.len() > 0,
        forall|j: int| 0 <= j < cookies.len() ==> is_cookie(#[trigger] cookies[j]),
    ensures
        0 <= i < cookies.len() && (forall|j: int|
            i < j < cookies.len() ==> (#[trigger] cookies[j]).0 != cookies[i].0) ==> entry_of(
            made,
            "cookies"@,
            cookies[i].0,
        ) == Some(value::text_view(cookies[i].1)),
        (forall|j: int| 0 <= j < cookies.len() ==> (#[trigger] cookies[j]).0 != name) ==> entry_of(
            made,
            "cookies"@,
            name,
        ) is None,
{
    let views = header_views(parts.headers@);
    lemma_cookie_pieces(cookies);
    lemma_one_cookie_header(views, header, views.len());
    assert(views.take(views.len() as int) =~= views);
    let found = field_of(made, "cookies"@)->0.content->Dict_0;
    assert(cookies_of(views) == cookies);
    value::lemma_last_entry(cookies, i, name);
    assert(json::get(found, name) is Some == json::get(found, name) is Some);
    if 0 <= i < cookies.len() {
        value::lemma_last_entry(cookies, i, cookies[i].0);
        assert(json::get(found, cookies[i].0) is Some == json::get(found, cookies[i].0) is Some);
    }
}

/// The cookies of headers of which one is a cookie header.
proof fn lemma_one_cookie_header(headers: Seq<(Seq<char>, Seq<u8>)>, header: int, n: nat)
    requires
        0 <= header < headers.len(),
        n <= headers.len(),
        headers[header].0 == "cookie"@,
        forall|j: int|
            0 <= j < headers.len() && j != header ==> (#[trigger] headers[j]).0 != "cookie"@,
    ensures
        cookies_of(headers.take(n as int)) == (if n > header {
            cookies_in(text::split_all(or_empty(header_text(headers[header].1)), ';'))
        } else {
            seq![]
        }),
    decreases n,
{
    let part = headers.take(n as int);
    if n > 0 {
        lemma_one_cookie_header(headers, header, (n - 1) as nat);
        assert(part.drop_last() =~= headers.take(n - 1));
        assert(part.last() == headers[n - 1]);
        let all = cookies_in(text::split_all(or_empty(header_text(headers[header].1)), ';'));
        assert(Seq::<(Seq<char>, Seq<char>)>::empty() + all =~= all);
    }
}

/// A script sees the body of a request, read as UTF-8, by the type that the first `content-type`
/// header names, or without a type where there is no such header or its value is no text.
pub proof fn law_body_is_seen(
    made: value::ValueView,
    parts: RequestParts,
    remote_addr: Seq<char>,
    i: int,
)
    requires
        is_request(made, fields_of(parts, remote_addr)),
    ensures
        field_of(made, "body"@) matches Some(body) && {
            let said = text::lossy_text(parts.body@);
            &&& 0 <= i < parts.headers@.len() && parts.headers@[i].0@ == "content-type"@ && (
            forall|j: int|
                0 <= j < i ==> (#[trigger] parts.headers@[j]).0@ != "content-type"@) ==> match (
            header_text(parts.headers@[i].1@)) {
                Some(content_type) => body::is_parsed_body(body, said, content_type),
                None => body::is_parsed_body(body, said, seq![]),
            }
            &&& (forall|j: int|
                0 <= j < parts.headers@.len() ==> (#[trigger] parts.headers@[j]).0@
                    != "content-type"@) ==> body::is_parsed_body(body, said, seq![])
        },
{
    let views = header_views(parts.headers@);
    json::law_get(views, i, "content-type"@);
    assert(forall|j: int|
        0 <= j < views.len() ==> (#[trigger] views[j]).0 == parts.headers@[j].0@ && views[j].1
            == parts.headers@[j].1@);
}

/// The text of a header value is that of its bytes, one by one, where all of them are printable
/// ASCII or tabs; there is none where one is not.
pub proof fn law_header_text(bytes: Seq<u8>, i: int)
    ensures
        header_text(bytes) is Some <==> (forall|k: int|
            0 <= k < bytes.len() ==> 32 <= (#[trigger] bytes[k]) < 127 || bytes[k] == 9),
        header_text(bytes) matches Some(said) ==> said.len() == bytes.len() && (0 <= i
            < bytes.len() ==> said[i] as int == bytes[i]),
{
}

/// The header under a name is the first that has the name.
pub proof fn law_first_header_counts(
    headers: Seq<(Seq<char>, Seq<u8>)>,
    i: int,
    name: Seq<char>,
)
    ensures
        0 <= i < headers.len() && headers[i].0 == name && (forall|j: int|
            0 <= j < i ==> (#[trigger] headers[j]).0 != name) ==> header_under(headers, name)
            == header_text(headers[i].1),
        (forall|j: int| 0 <= j < headers.len() ==> (#[trigger] headers[j]).0 != name)
            ==> header_under(headers, name) is None,
{
    json::law_get(headers, i, name);
}

/// A piece of a cookie header without an equals sign names no cookie, and each with one names the
/// cookie that it writes, behind those before it.
pub proof fn law_pieces_of_cookie_headers(pieces: Seq<Seq<char>>, piece: Seq<char>)
    requires
        text::has_clean_ends(piece, Trim::White),
    ensures
        !piece.contains('=') ==> cookies_in(pieces.push(piece)) == cookies_in(pieces),
        forall|name: Seq<char>, content: Seq<char>|
            !name.contains('=') && piece == #[trigger] (name + seq!['='] + content) ==> cookies_in(
                pieces.push(piece),
            ) == cookies_in(pieces).push((name, content)),
        cookies_in(seq![]).len() == 0,
{
    let none = Seq::<char>::empty();
    assert(pieces.push(piece).drop_last() =~= pieces);
    assert(none + piece + none =~= piece);
    text::law_trim(none, piece, none, Trim::White);
    if !piece.contains('=') {
        text::law_split_once(piece, '=', none);
    }
    assert forall|name: Seq<char>, content: Seq<char>|
        !name.contains('=') && piece == #[trigger] (name + seq!['='] + content) implies cookies_in(
        pieces.push(piece),
    ) == cookies_in(pieces).push((name, content)) by {
        text::law_split_once(name, '=', content);
    }
}

/// The cookies of several cookie headers come one after another; a cookie header that is no text
/// names none.
pub proof fn law_cookie_headers_add_up(
    headers: Seq<(Seq<char>, Seq<u8>)>,
    header: (Seq<char>, Seq<u8>),
)
    ensures
        cookies_of(seq![]).len() == 0,
        header.0 != "cookie"@ ==> cookies_of(headers.push(header)) == cookies_of(headers),
        header.0 == "cookie"@ ==> match header_text(header.1) {
            Some(said) => cookies_of(headers.push(header)) == cookies_of(headers) + cookies_in(
                text::split_all(said, ';'),
            ),
            None => cookies_of(headers.push(header)) == cookies_of(headers),
        },
{
    assert(headers.push(header).drop_last() =~= headers);
    let none = Seq::<char>::empty();
    assert(!none.contains(';'));
    text::lemma_first_at_none(none, ';');
    assert(text::split_all(none, ';') =~= seq![none]);
    law_pieces_of_cookie_headers(seq![], none);
    assert(Seq::<Seq<char>>::empty().push(none) =~= seq![none]);
    assert(!none.contains('='));
    assert(cookies_in(seq![none]) =~= seq![]);
    assert(cookies_of(headers) + cookies_in(seq![none]) =~= cookies_of(headers));
}

} // verus!
