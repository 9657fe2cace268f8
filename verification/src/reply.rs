//! HTTP replies, as plain values: a status, header fields in their order, and a body.

use vstd::hash_set::StringHashSet;
use vstd::prelude::*;

use crate::text;

verus! {

/// An event of an event stream.
#[derive(Debug)]
pub struct SseEvent {
    pub data: Option<String>,
    pub event: Option<String>,
    pub id: Option<String>,
}

/// The model of an [`SseEvent`].
pub ghost struct EventView {
    pub data: Option<Seq<char>>,
    pub event: Option<Seq<char>>,
    pub id: Option<Seq<char>>,
}

impl View for SseEvent {
    type V = EventView;

    open spec fn view(&self) -> EventView {
        EventView {
            data: text::option_view(self.data),
            event: text::option_view(self.event),
            id: text::option_view(self.id),
        }
    }
}

/// What a list of events holds.
pub open spec fn event_views(list: Seq<SseEvent>) -> Seq<EventView> {
    list.map_values(|e: SseEvent| e@)
}

/// The body of a reply.
#[derive(Debug)]
pub enum Body {
    Text(String),
    /// A stream of server-sent events.
    Events(Vec<SseEvent>),
}

/// The model of a [`Body`].
pub ghost enum BodyView {
    Text(Seq<char>),
    Events(Seq<EventView>),
}

impl View for Body {
    type V = BodyView;

    open spec fn view(&self) -> BodyView {
        match self {
            Body::Text(text) => BodyView::Text(text@),
            Body::Events(events) => BodyView::Events(event_views(events@)),
        }
    }
}

/// A reply to a request. Header names are in lower case, and one name may occur more than once.
#[derive(Debug)]
pub struct Reply {
    pub status: u16,
    pub headers: Vec<(String, String)>,
    pub body: Body,
}

/// The model of a [`Reply`].
pub ghost struct ReplyView {
    pub status: u16,
    pub headers: Seq<(Seq<char>, Seq<char>)>,
    pub body: BodyView,
}

impl View for Reply {
    type V = ReplyView;

    open spec fn view(&self) -> ReplyView {
        ReplyView {
            status: self.status,
            headers: text::pair_views(self.headers@),
            body: self.body@,
        }
    }
}

/// The characters that a header name may be made of.
pub open spec fn is_token_char(c: char) -> bool {
    ||| 'a' <= c <= 'z'
    ||| 'A' <= c <= 'Z'
    ||| '0' <= c <= '9'
    ||| c == '!'
    ||| '#' <= c <= '\''
    ||| c == '*'
    ||| c == '+'
    ||| c == '-'
    ||| c == '.'
    ||| '^' <= c <= '`'
    ||| c == '|'
    ||| c == '~'
}

/// Whether a text can be the name of a header.
pub open spec fn is_header_name(name: Seq<char>) -> bool {
    &&& 1 <= name.len() <= 0xffff
    &&& forall|i: int| 0 <= i < name.len() ==> is_token_char(#[trigger] name[i])
}

/// Whether a text can be the value of a header: it has no control character but the tab.
pub open spec fn is_header_value(value: Seq<char>) -> bool {
    forall|i: int|
        0 <= i < value.len() ==> (#[trigger] value[i]) == '\t' || (value[i] >= ' ' && value[i]
            != '\u{7f}')
}

/// An ASCII text in lower case.
pub open spec fn lowered(s: Seq<char>) -> Seq<char> {
    s.map_values(|c: char| text::lower_ascii(c))
}

/// `HeaderName::from_bytes` of the `http` crate takes names of up to `0xffff` token characters and
/// puts them in lower case; it refuses any other name.
#[verifier::external_body]
fn header_name(name: &str) -> (lower: Option<String>)
    ensures
        lower is Some <==> is_header_name(name@),
        lower matches Some(lower) ==> lower@ == lowered(name@),
{
    axum::http::HeaderName::from_bytes(name.as_bytes()).ok().map(|n| n.as_str().to_owned())
}

/// `HeaderValue::from_str` of the `http` crate refuses control characters but for the tab, and
/// nothing else: the bytes of a character beyond ASCII are all let through.
#[verifier::external_body]
pub(crate) fn accepts_value(value: &str) -> (ok: bool)
    ensures
        ok == is_header_value(value@),
{
    axum::http::HeaderValue::from_str(value).is_ok()
}

/// `StatusCode::from_u16` of the `http` crate takes the numbers of three digits.
#[verifier::external_body]
pub(crate) fn accepts_status(status: u16) -> (ok: bool)
    ensures
        ok == (100 <= status <= 999),
{
    axum::http::StatusCode::from_u16(status).is_ok()
}

/// Whether a header can be sent.
pub open spec fn is_header(header: (Seq<char>, Seq<char>)) -> bool {
    is_header_name(header.0) && is_header_value(header.1)
}

/// Whether all headers of a list can be sent.
pub open spec fn are_headers(asked: Seq<(Seq<char>, Seq<char>)>) -> bool {
    forall|i: int| 0 <= i < asked.len() ==> is_header(#[trigger] asked[i])
}

/// How many different names the header table of a reply has room for.
pub const TABLE_NAMES: usize = 24_576;

/// The different names of a list of headers, in lower case.
pub open spec fn names_of(asked: Seq<(Seq<char>, Seq<char>)>) -> Set<Seq<char>> {
    asked.map_values(|h: (Seq<char>, Seq<char>)| lowered(h.0)).to_set()
}

/// Whether a header table has room for these headers: a full one takes no further header, not
/// even one with a name that it has already.
pub open spec fn fit_table(asked: Seq<(Seq<char>, Seq<char>)>) -> bool {
    asked.len() > 0 ==> names_of(asked.drop_last()).len() < TABLE_NAMES
}

/// Whether these headers can be sent together.
pub open spec fn can_be_sent(asked: Seq<(Seq<char>, Seq<char>)>) -> bool {
    are_headers(asked) && fit_table(asked)
}

/// One more header is one more name, unless the name is there already.
proof fn lemma_names_push(asked: Seq<(Seq<char>, Seq<char>)>, header: (Seq<char>, Seq<char>))
    ensures
        names_of(asked.push(header)) == names_of(asked).insert(lowered(header.0)),
{
    let lower = |h: (Seq<char>, Seq<char>)| lowered(h.0);
    assert(asked.push(header).map_values(lower) =~= asked.map_values(lower).push(
        lowered(header.0),
    ));
    asked.map_values(lower).lemma_push_to_set_commute(lowered(header.0));
}

/// The first headers of a list have no more names than the list.
proof fn lemma_names_take(asked: Seq<(Seq<char>, Seq<char>)>, i: int)
    requires
        0 <= i <= asked.len(),
    ensures
        names_of(asked.take(i)).len() <= names_of(asked).len(),
{
    let lower = |h: (Seq<char>, Seq<char>)| lowered(h.0);
    let all = asked.map_values(lower);
    vstd::seq_lib::seq_to_set_is_finite(all);
    assert forall|name: Seq<char>| names_of(asked.take(i)).contains(name) implies names_of(
        asked,
    ).contains(name) by {
        let part = asked.take(i).map_values(lower);
        let k = choose|k: int| 0 <= k < part.len() && part[k] == name;
        assert(all[k] == name);
    }
    vstd::set_lib::lemma_len_subset(names_of(asked.take(i)), names_of(asked));
}

/// A short list of headers fits the table.
pub proof fn lemma_few_fit_table(asked: Seq<(Seq<char>, Seq<char>)>)
    requires
        asked.len() <= TABLE_NAMES,
    ensures
        fit_table(asked),
{
    if asked.len() > 0 {
        asked.drop_last().map_values(
            |h: (Seq<char>, Seq<char>)| lowered(h.0),
        ).lemma_cardinality_of_set();
    }
}

/// The empty reply, which stands in for one that cannot be sent.
pub open spec fn empty_reply() -> ReplyView {
    ReplyView { status: 200, headers: seq![], body: BodyView::Text(seq![]) }
}

/// The reply with these headers, their names in lower case; the empty reply where they cannot be
/// sent.
pub open spec fn built(
    status: u16,
    asked: Seq<(Seq<char>, Seq<char>)>,
    body: Seq<char>,
) -> ReplyView {
    if can_be_sent(asked) {
        ReplyView {
            status,
            headers: asked.map_values(|h: (Seq<char>, Seq<char>)| (lowered(h.0), h.1)),
            body: BodyView::Text(body),
        }
    } else {
        empty_reply()
    }
}

/// The empty reply, which stands in for one that cannot be sent.
fn nothing_to_send() -> (reply: Reply)
    ensures
        reply@ == empty_reply(),
{
    let reply = Reply { status: 200, headers: Vec::new(), body: Body::Text(String::new()) };
    proof {
        assert(text::pair_views(reply.headers@) =~= seq![]);
    }
    reply
}

/// Make the reply with these headers, or the empty reply where they cannot be sent.
///
/// The table that a server keeps headers in gives up earlier where thousands of their names are
/// made to collide in it; it is then for the server to send the empty reply.
pub fn build_reply(status: u16, asked: &Vec<(String, String)>, body: String) -> (reply: Reply)
    ensures
        reply@ == built(status, text::pair_views(asked@), body@),
{
    let ghost views = text::pair_views(asked@);
    let mut headers: Vec<(String, String)> = Vec::new();
    let mut names = StringHashSet::new();
    let mut i: usize = 0;
    proof {
        assert(names_of(views.take(0)) =~= names@);
    }
    while i < asked.len()
        invariant
            i <= asked@.len(),
            views == text::pair_views(asked@),
            headers@.len() == i,
            names@ == names_of(views.take(i as int)),
            fit_table(views.take(i as int)),
            forall|j: int|
                0 <= j < i ==> is_header(#[trigger] views[j]) && headers@[j].0@ == lowered(
                    views[j].0,
                ) && headers@[j].1@ == views[j].1,
        decreases asked@.len() - i,
    {
        let ghost header = views[i as int];
        assert(header == (asked@[i as int].0@, asked@[i as int].1@));
        if names.len() >= TABLE_NAMES {
            proof {
                let before = views.drop_last();
                assert(before.take(i as int) =~= views.take(i as int));
                lemma_names_take(before, i as int);
            }
            return nothing_to_send();
        }
        let name = header_name(asked[i].0.as_str());
        if name.is_none() || !accepts_value(asked[i].1.as_str()) {
            assert(!is_header(header));
            return nothing_to_send();
        }
        proof {
            assert(views.take(i + 1) =~= views.take(i as int).push(header));
            assert(views.take(i + 1).drop_last() =~= views.take(i as int));
            lemma_names_push(views.take(i as int), header);
        }
        let name = name.unwrap();
        names.insert(name.clone());
        headers.push((name, asked[i].1.clone()));
        i += 1;
    }
    let reply = Reply { status, headers, body: Body::Text(body) };
    proof {
        assert(views.take(asked@.len() as int) =~= views);
        assert(text::pair_views(headers@) =~= built(status, views, body@).headers);
    }
    reply
}

/// A successful reply with a body of the given type.
pub open spec fn typed(content_type: Seq<char>, body: Seq<char>) -> ReplyView {
    ReplyView {
        status: 200,
        headers: seq![("content-type"@, content_type)],
        body: BodyView::Text(body),
    }
}

/// A reply with a plain text.
pub open spec fn plain(status: u16, body: Seq<char>) -> ReplyView {
    ReplyView {
        status,
        headers: seq![("content-type"@, "text/plain; charset=utf-8"@)],
        body: BodyView::Text(body),
    }
}

/// A reply with a plain text and one more header.
pub open spec fn plain_with(
    status: u16,
    name: Seq<char>,
    value: Seq<char>,
    body: Seq<char>,
) -> ReplyView {
    ReplyView {
        status,
        headers: seq![("content-type"@, "text/plain; charset=utf-8"@), (name, value)],
        body: BodyView::Text(body),
    }
}

/// Make a successful reply with a body of the given type.
pub fn typed_reply(content_type: &str, body: String) -> (reply: Reply)
    ensures
        reply@ == typed(content_type@, body@),
{
    let headers = vec![("content-type".to_owned(), content_type.to_owned())];
    let reply = Reply { status: 200, headers, body: Body::Text(body) };
    proof {
        assert(text::pair_views(headers@) =~= seq![("content-type"@, content_type@)]);
    }
    reply
}

/// Make a reply with a plain text.
pub fn plain_reply(status: u16, body: String) -> (reply: Reply)
    ensures
        reply@ == plain(status, body@),
{
    let mut reply = typed_reply("text/plain; charset=utf-8", body);
    reply.status = status;
    reply
}

/// Make a reply with a plain text and one more header.
pub fn plain_reply_with(status: u16, name: &str, value: &str, body: &str) -> (reply: Reply)
    ensures
        reply@ == plain_with(status, name@, value@, body@),
{
    let mut reply = plain_reply(status, body.to_owned());
    let ghost before = reply.headers@;
    reply.headers.push((name.to_owned(), value.to_owned()));
    proof {
        assert(text::pair_views(before) =~= plain(status, body@).headers);
        assert(text::pair_views(reply.headers@) =~= text::pair_views(before).push((name@, value@)));
        assert(text::pair_views(reply.headers@) =~= plain_with(status, name@, value@, body@).headers);
    }
    reply
}

/// What a reply holds is what its parts hold.
pub proof fn law_reply_view(reply: Reply, i: int)
    ensures
        reply@.status == reply.status,
        reply@.headers.len() == reply.headers@.len(),
        0 <= i < reply.headers@.len() ==> reply@.headers[i].0 == reply.headers@[i].0@,
        0 <= i < reply.headers@.len() ==> reply@.headers[i].1 == reply.headers@[i].1@,
        match reply.body {
            Body::Text(text) => reply@.body == BodyView::Text(text@),
            Body::Events(events) => reply@.body matches BodyView::Events(views) && views.len()
                == events@.len() && (0 <= i < events@.len() ==> views[i].data == text::option_view(
                events@[i].data,
            ) && views[i].event == text::option_view(events@[i].event) && views[i].id
                == text::option_view(events@[i].id)),
        },
{
}

/// Putting a text in lower case moves the letters from `A` to `Z` and changes nothing else.
pub proof fn law_lowered(s: Seq<char>, i: int)
    ensures
        lowered(s).len() == s.len(),
        0 <= i < s.len() && 'A' <= s[i] <= 'Z' ==> lowered(s)[i] as int == s[i] as int + 32,
        0 <= i < s.len() && !('A' <= s[i] <= 'Z') ==> lowered(s)[i] == s[i],
{
}

/// A reply is made of the status, the headers and the body that are asked for, whatever they are:
/// all headers in their order, their names in lower case and their values as they stand, and all
/// of the body. Where a header cannot be sent, nothing of it is.
pub proof fn law_reply_is_as_asked(
    status: u16,
    asked: Seq<(Seq<char>, Seq<char>)>,
    body: Seq<char>,
    i: int,
)
    ensures
        can_be_sent(asked) ==> {
            let sent = built(status, asked, body);
            &&& sent.status == status
            &&& sent.body == BodyView::Text(body)
            &&& sent.headers.len() == asked.len()
            &&& 0 <= i < asked.len() ==> sent.headers[i].0 == lowered(asked[i].0)
            &&& 0 <= i < asked.len() ==> sent.headers[i].1 == asked[i].1
        },
        !can_be_sent(asked) ==> {
            let sent = built(status, asked, body);
            &&& sent.status == 200
            &&& sent.headers.len() == 0
            &&& sent.body == BodyView::Text(seq![])
        },
{
}

/// Up to 24,576 valid headers can be sent, and more where they repeat their names.
pub proof fn law_headers_that_can_be_sent(asked: Seq<(Seq<char>, Seq<char>)>)
    requires
        forall|i: int|
            0 <= i < asked.len() ==> is_header_name((#[trigger] asked[i]).0) && is_header_value(
                asked[i].1,
            ),
    ensures
        asked.len() <= 24_576 ==> can_be_sent(asked),
        can_be_sent(asked) <==> asked.len() == 0 || asked.drop_last().map_values(
            |h: (Seq<char>, Seq<char>)| lowered(h.0),
        ).to_set().len() < 24_576,
{
    if asked.len() <= 24_576 {
        lemma_few_fit_table(asked);
    }
}

/// A reply of a type is a success with that type, and with the body that it is given.
pub proof fn law_typed_reply(content_type: Seq<char>, body: Seq<char>)
    ensures
        typed(content_type, body).status == 200,
        typed(content_type, body).headers.len() == 1,
        typed(content_type, body).headers[0] == ("content-type"@, content_type),
        typed(content_type, body).body == BodyView::Text(body),
{
}

/// A plain reply has the status and the body that it is given, as plain text, and the one header
/// more that it is given, if any.
pub proof fn law_plain_reply(status: u16, name: Seq<char>, content: Seq<char>, body: Seq<char>)
    ensures
        plain(status, body).status == status,
        plain(status, body).headers.len() == 1,
        plain(status, body).headers[0] == ("content-type"@, "text/plain; charset=utf-8"@),
        plain(status, body).body == BodyView::Text(body),
        plain_with(status, name, content, body).status == status,
        plain_with(status, name, content, body).headers.len() == 2,
        plain_with(status, name, content, body).headers[0] == (
            "content-type"@,
            "text/plain; charset=utf-8"@,
        ),
        plain_with(status, name, content, body).headers[1] == (name, content),
        plain_with(status, name, content, body).body == BodyView::Text(body),
{
}

} // verus!
