//! What is done to every request before it is answered: it gets a number, and may be turned away.

use vstd::prelude::*;

use crate::auth;
use crate::auth::{auth_error_response, check_auth};
use crate::cli::Args;
use crate::json;
use crate::rate_limit;
use crate::rate_limit::RateLimiter;
use crate::reply;
use crate::reply::{accepts_value, plain_reply, plain_reply_with, Reply};
use crate::request;
use crate::state::AppState;
use crate::text;
use crate::text::decimal;

verus! {

/// What becomes of a request.
pub enum Verdict {
    /// It is turned away with this reply.
    Refuse(Reply),
    /// It is answered, within so many seconds where there is a limit.
    Forward { timeout: Option<u64> },
}

/// The model of a [`Verdict`].
pub ghost enum VerdictView {
    Refuse(reply::ReplyView),
    Forward { timeout: Option<u64> },
}

impl View for Verdict {
    type V = VerdictView;

    open spec fn view(&self) -> VerdictView {
        match self {
            Verdict::Refuse(sent) => VerdictView::Refuse(sent@),
            Verdict::Forward { timeout } => VerdictView::Forward { timeout: *timeout },
        }
    }
}

/// What becomes of a request, the number that it gets, and the headers that it is handed on with
/// where it is not turned away.
pub struct Passage {
    pub request_id: Option<String>,
    pub headers: Vec<(String, Vec<u8>)>,
    pub verdict: Verdict,
}

/// The number of a request, where requests get one.
pub open spec fn id_of(args: Args, counter: u64) -> Option<Seq<char>> {
    if args.request_id {
        Some(text::decimal_of(counter as nat))
    } else {
        None
    }
}

/// The counter after a request.
pub open spec fn counter_after(args: Args, counter: u64) -> u64 {
    if !args.request_id {
        counter
    } else if counter == u64::MAX {
        0
    } else {
        (counter + 1) as u64
    }
}

/// A number in decimal is made of digits.
proof fn lemma_decimal_digits(n: nat)
    ensures
        forall|i: int|
            0 <= i < text::decimal_of(n).len() ==> '0' <= (#[trigger] text::decimal_of(n)[i])
                <= '9',
    decreases n,
{
    if n >= 10 {
        lemma_decimal_digits(n / 10);
        let before = text::decimal_of(n / 10);
        let all = text::decimal_of(n);
        assert forall|i: int| 0 <= i < all.len() implies '0' <= (#[trigger] all[i]) <= '9' by {
            if i < before.len() {
                assert(all[i] == before[i]);
            }
        }
    }
}

/// Give a request its number, where requests get one, and count it.
pub fn next_request_id(args: &Args, counter: &mut u64) -> (id: Option<String>)
    ensures
        text::option_view(id) == id_of(*args, *old(counter)),
        *final(counter) == counter_after(*args, *old(counter)),
{
    if !args.request_id {
        return None;
    }
    let id = decimal(*counter);
    proof {
        lemma_decimal_digits(*counter as nat);
    }
    *counter = if *counter == u64::MAX {
        0
    } else {
        *counter + 1
    };
    if accepts_value(id.as_str()) {
        Some(id)
    } else {
        None
    }
}

/// The headers without those of this name.
pub open spec fn without<V>(headers: Seq<(Seq<char>, V)>, name: Seq<char>) -> Seq<(Seq<char>, V)>
    decreases headers.len(),
{
    if headers.len() == 0 {
        seq![]
    } else {
        let before = without(headers.drop_last(), name);
        if headers.last().0 == name {
            before
        } else {
            before.push(headers.last())
        }
    }
}

/// The headers of a request or of a reply with the number of the request, where it has one, in
/// place of any that they have already.
pub open spec fn numbered_headers(
    headers: Seq<(Seq<char>, Seq<u8>)>,
    id: Option<Seq<char>>,
) -> Seq<(Seq<char>, Seq<u8>)> {
    match id {
        Some(id) => without(headers, "x-request-id"@).push(
            ("x-request-id"@, vstd::utf8::encode_utf8(id)),
        ),
        None => headers,
    }
}

/// Put the number of a request among headers: those of the request that is handed on, or those of
/// the reply that comes back.
pub fn number_headers(headers: &Vec<(String, Vec<u8>)>, id: &Option<String>) -> (marked: Vec<
    (String, Vec<u8>),
>)
    ensures
        request::header_views(marked@) == numbered_headers(
            request::header_views(headers@),
            text::option_view(*id),
        ),
{
    let ghost views = request::header_views(headers@);
    let mut marked: Vec<(String, Vec<u8>)> = Vec::new();
    let mut i: usize = 0;
    let ghost kept = |n: int|
        if id is Some {
            without(views.take(n), "x-request-id"@)
        } else {
            views.take(n)
        };
    proof {
        assert(views.take(0) =~= seq![]);
        assert(request::header_views(marked@) =~= kept(0));
    }
    while i < headers.len()
        invariant
            i <= headers@.len(),
            views == request::header_views(headers@),
            kept == (|n: int|
                if id is Some {
                    without(views.take(n), "x-request-id"@)
                } else {
                    views.take(n)
                }),
            request::header_views(marked@) == kept(i as int),
        decreases headers@.len() - i,
    {
        let ghost prior = marked@;
        proof {
            assert(views.take(i + 1).drop_last() =~= views.take(i as int));
            assert(views.take(i + 1) =~= views.take(i as int).push(views[i as int]));
            assert(views.take(i + 1).last() == views[i as int]);
        }
        if id.is_none() || !(*headers[i].0.as_str() == *"x-request-id") {
            let bytes = headers[i].1.clone();
            assert(bytes@ =~= headers@[i as int].1@);
            marked.push((headers[i].0.clone(), bytes));
            assert(request::header_views(marked@) =~= request::header_views(prior).push(
                views[i as int],
            ));
        }
        i += 1;
    }
    assert(views.take(headers@.len() as int) =~= views);
    if let Some(id) = id {
        let ghost prior = marked@;
        marked.push(("x-request-id".to_owned(), id.as_str().as_bytes_vec()));
        assert(request::header_views(marked@) =~= request::header_views(prior).push(
            ("x-request-id"@, vstd::utf8::encode_utf8(id@)),
        ));
    }
    marked
}

/// A reply with the number of its request, where it has one, in place of any that it has already.
pub open spec fn numbered(sent: reply::ReplyView, id: Option<Seq<char>>) -> reply::ReplyView {
    match id {
        Some(id) => reply::ReplyView {
            headers: without(sent.headers, "x-request-id"@).push(("x-request-id"@, id)),
            ..sent
        },
        None => sent,
    }
}

/// Put the number of a request on its reply.
pub fn with_id(sent: Reply, id: &Option<String>) -> (marked: Reply)
    ensures
        marked@ == numbered(sent@, text::option_view(*id)),
{
    let id = match id {
        Some(id) => id,
        None => return sent,
    };
    let ghost views = text::pair_views(sent.headers@);
    let mut headers: Vec<(String, String)> = Vec::new();
    let mut i: usize = 0;
    proof {
        assert(views.take(0) =~= seq![]);
        assert(text::pair_views(headers@) =~= without(views.take(0), "x-request-id"@));
    }
    while i < sent.headers.len()
        invariant
            i <= sent.headers@.len(),
            views == text::pair_views(sent.headers@),
            text::pair_views(headers@) == without(views.take(i as int), "x-request-id"@),
        decreases sent.headers@.len() - i,
    {
        let ghost prior = headers@;
        proof {
            assert(views.take(i + 1).drop_last() =~= views.take(i as int));
            assert(views.take(i + 1).last() == views[i as int]);
        }
        if !(*sent.headers[i].0.as_str() == *"x-request-id") {
            headers.push((sent.headers[i].0.clone(), sent.headers[i].1.clone()));
            assert(text::pair_views(headers@) =~= text::pair_views(prior).push(views[i as int]));
        }
        i += 1;
    }
    let ghost prior = headers@;
    headers.push(("x-request-id".to_owned(), id.clone()));
    proof {
        assert(views.take(sent.headers@.len() as int) =~= views);
        assert(text::pair_views(headers@) =~= text::pair_views(prior).push(
            ("x-request-id"@, id@),
        ));
    }
    Reply { status: sent.status, headers, body: sent.body }
}

/// The reply to a request beyond the rate limit.
pub open spec fn too_many() -> reply::ReplyView {
    reply::plain_with(429, "retry-after"@, "1"@, "Too Many Requests"@)
}

/// The reply to a request that takes too long.
pub open spec fn timed_out() -> reply::ReplyView {
    reply::plain(408, "Request timed out"@)
}

/// The reply to a request that takes too long, with the number of the request.
pub fn timeout_response(id: &Option<String>) -> (sent: Reply)
    ensures
        sent@ == numbered(timed_out(), text::option_view(*id)),
{
    with_id(plain_reply(408, "Request timed out".to_owned()), id)
}

/// What becomes of a request that the rate limiter lets through or not: one beyond the rate limit
/// is turned away, and then one that shows nothing of what is asked for.
pub open spec fn verdict_of(
    args: Args,
    headers: Seq<(Seq<char>, Seq<u8>)>,
    let_through: bool,
    id: Option<Seq<char>>,
) -> VerdictView {
    if !let_through {
        VerdictView::Refuse(numbered(too_many(), id))
    } else if !auth::is_authorized(
        text::option_view(args.api_key),
        text::option_view(args.basic_auth),
        headers,
    ) {
        VerdictView::Refuse(numbered(auth::refusal(args.basic_auth), id))
    } else {
        VerdictView::Forward { timeout: args.timeout }
    }
}

/// Decide what becomes of a request that the rate limiter lets through or not.
pub fn judge(
    args: &Args,
    headers: &Vec<(String, Vec<u8>)>,
    let_through: bool,
    id: &Option<String>,
) -> (verdict: Verdict)
    ensures
        verdict@ == verdict_of(
            *args,
            request::header_views(headers@),
            let_through,
            text::option_view(*id),
        ),
{
    if !let_through {
        let sent = plain_reply_with(429, "retry-after", "1", "Too Many Requests");
        return Verdict::Refuse(with_id(sent, id));
    }
    if (args.api_key.is_some() || args.basic_auth.is_some()) && !check_auth(args, headers) {
        return Verdict::Refuse(with_id(auth_error_response(args), id));
    }
    Verdict::Forward { timeout: args.timeout }
}

/// The name that a client is counted under: its address, or that of this machine where it has
/// none.
pub open spec fn name_of(ip: Option<&str>) -> Seq<char> {
    match ip {
        Some(ip) => ip@,
        None => "127.0.0.1"@,
    }
}

/// The name that a client is counted under.
pub fn peer_ip(ip: Option<&str>) -> (name: String)
    ensures
        name@ == name_of(ip),
{
    match ip {
        Some(ip) => ip.to_owned(),
        None => "127.0.0.1".to_owned(),
    }
}

/// Whether the rate limiter, if there is one, lets a request through.
pub open spec fn lets_through(limiter: Option<RateLimiter>, name: Seq<char>, now: u128) -> bool {
    match limiter {
        Some(limiter) => rate_limit::is_allowed(limiter@, name, now),
        None => true,
    }
}

/// Whether a rate limiter, if there is one, has counted a request at what its clock reads.
pub open spec fn has_counted(
    before: Option<RateLimiter>,
    counted: Option<RateLimiter>,
    name: Seq<char>,
    now: u128,
) -> bool {
    match (before, counted) {
        (Some(before), Some(counted)) => before.windows.may_read(now)
            && counted.windows.made_at() == before.windows.made_at() && counted@
            == rate_limit::after(before@, name, now),
        (None, None) => true,
        _ => false,
    }
}

/// Decide what becomes of a request: number it, hold it to the rate limit, and check what it
/// shows.
pub fn middleware(
    state: &mut AppState,
    counter: &mut u64,
    ip: Option<&str>,
    headers: &Vec<(String, Vec<u8>)>,
) -> (passage: Passage)
    requires
        old(state).is_valid(),
    ensures
        final(state).is_valid(),
        final(state).args == old(state).args,
        final(state).script_content == old(state).script_content,
        text::option_view(passage.request_id) == id_of(old(state).args, *old(counter)),
        *final(counter) == counter_after(old(state).args, *old(counter)),
        request::header_views(passage.headers@) == numbered_headers(
            request::header_views(headers@),
            id_of(old(state).args, *old(counter)),
        ),
        exists|now: u128|
            #[trigger] has_counted(
                old(state).rate_limiter,
                final(state).rate_limiter,
                name_of(ip),
                now,
            ) && passage.verdict@ == verdict_of(
                old(state).args,
                request::header_views(headers@),
                lets_through(old(state).rate_limiter, name_of(ip), now),
                id_of(old(state).args, *old(counter)),
            ),
{
    let ghost before = state.rate_limiter;
    let request_id = next_request_id(&state.args, counter);
    let let_through = match &mut state.rate_limiter {
        Some(limiter) => {
            let name = peer_ip(ip);
            limiter.allow(name.as_str())
        },
        None => true,
    };
    proof {
        match before {
            Some(limiter) => {
                let now = choose|now: u128| #[trigger]
                    limiter.windows.may_read(now) && let_through == rate_limit::is_allowed(
                        limiter@,
                        name_of(ip),
                        now,
                    ) && state.rate_limiter->0@ == rate_limit::after(
                        limiter@,
                        name_of(ip),
                        now,
                    );
                assert(has_counted(before, state.rate_limiter, name_of(ip), now));
            },
            None => {
                assert(has_counted(before, state.rate_limiter, name_of(ip), 0));
            },
        }
    }
    let verdict = judge(&state.args, headers, let_through, &request_id);
    let handed_on = number_headers(headers, &request_id);
    Passage { request_id, headers: handed_on, verdict }
}

/// No header of a name is left without those of the name.
proof fn lemma_without<V>(headers: Seq<(Seq<char>, V)>, name: Seq<char>)
    ensures
        json::lacks(without(headers, name), name),
    decreases headers.len(),
{
    if headers.len() > 0 {
        lemma_without(headers.drop_last(), name);
        let before = without(headers.drop_last(), name);
        let all = without(headers, name);
        assert forall|i: int| 0 <= i < all.len() implies (#[trigger] all[i]).0 != name by {
            if i < before.len() {
                assert(all[i] == before[i]);
            }
        }
    }
}

/// A reply to a numbered request has that number, once, and all else that it had.
pub proof fn law_numbered_once(sent: reply::ReplyView, id: Seq<char>)
    ensures
        numbered(sent, Some(id)).headers.last() == ("x-request-id"@, id),
        json::lacks(numbered(sent, Some(id)).headers.drop_last(), "x-request-id"@),
        numbered(sent, Some(id)).headers.drop_last() == without(sent.headers, "x-request-id"@),
        numbered(sent, None) == sent,
        numbered(sent, Some(id)).status == sent.status,
        numbered(sent, Some(id)).body == sent.body,
{
    lemma_without(sent.headers, "x-request-id"@);
    assert(numbered(sent, Some(id)).headers.drop_last() =~= without(
        sent.headers,
        "x-request-id"@,
    ));
}

/// Whether headers have this number, once and no other.
pub open spec fn carries<V>(headers: Seq<(Seq<char>, V)>, number: V) -> bool {
    &&& headers.len() > 0
    &&& headers.last() == ("x-request-id"@, number)
    &&& json::lacks(headers.drop_last(), "x-request-id"@)
}

/// Headers that are numbered have the number, once; the other headers stay as they are.
pub proof fn lemma_numbered_headers(headers: Seq<(Seq<char>, Seq<u8>)>, id: Seq<char>)
    ensures
        carries(numbered_headers(headers, Some(id)), vstd::utf8::encode_utf8(id)),
        numbered_headers(headers, Some(id)).drop_last() == without(headers, "x-request-id"@),
{
    lemma_without(headers, "x-request-id"@);
    assert(numbered_headers(headers, Some(id)).drop_last() =~= without(headers, "x-request-id"@));
}

/// Where requests get numbers, whatever the reply is, turned away, too late or what came back
/// with `returned` headers, it has the number of the request, and so has the request that is
/// handed on, each in place of any other; and the counter goes on by one. Otherwise the counter
/// and the headers stay as they are.
pub proof fn law_number_goes_everywhere(
    args: Args,
    headers: Seq<(Seq<char>, Seq<u8>)>,
    let_through: bool,
    counter: u64,
    returned: Seq<(Seq<char>, Seq<u8>)>,
)
    ensures
        args.request_id ==> {
            let number = text::decimal_of(counter as nat);
            let bytes = vstd::utf8::encode_utf8(number);
            let id = id_of(args, counter);
            &&& id == Some(number)
            &&& verdict_of(args, headers, let_through, id) matches VerdictView::Refuse(sent)
                ==> carries(sent.headers, number)
            &&& carries(numbered(timed_out(), id).headers, number)
            &&& carries(numbered_headers(returned, id), bytes)
            &&& numbered_headers(returned, id).drop_last() == without(returned, "x-request-id"@)
            &&& carries(numbered_headers(headers, id), bytes)
            &&& numbered_headers(headers, id).drop_last() == without(headers, "x-request-id"@)
            &&& counter_after(args, counter) == (counter + 1) % 0x1_0000_0000_0000_0000
        },
        !args.request_id ==> {
            let id = id_of(args, counter);
            &&& id is None
            &&& numbered(timed_out(), id) == timed_out()
            &&& numbered_headers(returned, id) == returned
            &&& numbered_headers(headers, id) == headers
            &&& counter_after(args, counter) == counter
        },
{
    let number = text::decimal_of(counter as nat);
    law_numbered_once(too_many(), number);
    law_numbered_once(auth::refusal(args.basic_auth), number);
    law_numbered_once(timed_out(), number);
    lemma_numbered_headers(returned, number);
    lemma_numbered_headers(headers, number);
}

/// A header value of printable ASCII is read back as it was written.
proof fn lemma_ascii_bytes(chars: Seq<char>)
    requires
        forall|i: int| 0 <= i < chars.len() ==> ' ' <= (#[trigger] chars[i]) < '\u{7f}',
    ensures
        request::header_text(vstd::utf8::encode_utf8(chars)) == Some(chars),
{
    vstd::utf8::is_ascii_chars_encode_utf8(chars);
    let bytes = vstd::utf8::encode_utf8(chars);
    assert(bytes.map_values(|b: u8| b as char) =~= chars);
}

/// What is found in headers is found behind others that lack its name.
proof fn lemma_found_last<V>(headers: Seq<(Seq<char>, V)>, name: Seq<char>, value: V)
    requires
        json::lacks(headers, name),
    ensures
        json::get(headers.push((name, value)), name) == Some(value),
    decreases headers.len(),
{
    let all = headers.push((name, value));
    if headers.len() > 0 {
        let rest = headers.drop_first();
        assert(all[0] == headers[0]);
        assert forall|i: int| 0 <= i < rest.len() implies (#[trigger] rest[i]).0 != name by {
            assert(rest[i] == headers[i + 1]);
        }
        assert(all.drop_first() =~= rest.push((name, value)));
        lemma_found_last(rest, name, value);
    }
}

/// Where requests get numbers, whoever reads the `x-request-id` of the request that is handed on
/// reads its number in decimal, whatever the client sent.
pub proof fn law_number_is_read_back(
    args: Args,
    headers: Seq<(Seq<char>, Seq<u8>)>,
    counter: u64,
)
    requires
        args.request_id,
    ensures
        request::header_under(
            numbered_headers(headers, id_of(args, counter)),
            "x-request-id"@,
        ) == Some(text::decimal_of(counter as nat)),
{
    let number = text::decimal_of(counter as nat);
    lemma_decimal_digits(counter as nat);
    lemma_ascii_bytes(number);
    lemma_without(headers, "x-request-id"@);
    lemma_found_last(
        without(headers, "x-request-id"@),
        "x-request-id"@,
        vstd::utf8::encode_utf8(number),
    );
}

/// The counter after some requests.
pub open spec fn counter_after_many(args: Args, counter: u64, requests: nat) -> u64
    decreases requests,
{
    if requests == 0 {
        counter
    } else {
        counter_after(args, counter_after_many(args, counter, (requests - 1) as nat))
    }
}

/// The counter has gone on by the number of requests.
proof fn lemma_counter_after_many(args: Args, counter: u64, requests: nat)
    requires
        args.request_id,
    ensures
        counter_after_many(args, counter, requests) == (counter + requests)
            % 0x1_0000_0000_0000_0000,
    decreases requests,
{
    if requests > 0 {
        lemma_counter_after_many(args, counter, (requests - 1) as nat);
    }
}

/// Where requests get numbers, no two requests get the same one before the counter has gone round,
/// which takes `2^64` requests.
pub proof fn law_no_number_twice(args: Args, counter: u64, i: nat, j: nat)
    requires
        args.request_id,
        i < j < i + 0x1_0000_0000_0000_0000,
    ensures
        id_of(args, counter_after_many(args, counter, i)) != id_of(
            args,
            counter_after_many(args, counter, j),
        ),
{
    lemma_counter_after_many(args, counter, i);
    lemma_counter_after_many(args, counter, j);
    law_numbers_differ(
        counter_after_many(args, counter, i) as nat,
        counter_after_many(args, counter, j) as nat,
    );
}

/// A request is answered if and only if the rate limiter lets it through and it shows what is
/// asked for; the rate limit goes before the credentials.
pub proof fn law_forwarded_iff_admitted(
    args: Args,
    headers: Seq<(Seq<char>, Seq<u8>)>,
    let_through: bool,
    id: Option<Seq<char>>,
)
    ensures
        verdict_of(args, headers, let_through, id) is Forward <==> let_through
            && auth::is_authorized(
            text::option_view(args.api_key),
            text::option_view(args.basic_auth),
            headers,
        ),
        !let_through ==> verdict_of(args, headers, let_through, id) == VerdictView::Refuse(
            numbered(too_many(), id),
        ),
{
}

/// No two numbers have the same digits, so no two requests get the same number until the counter
/// starts over.
pub proof fn law_numbers_differ(a: nat, b: nat)
    requires
        a != b,
    ensures
        text::decimal_of(a) != text::decimal_of(b),
    decreases a + b,
{
    let x = text::decimal_of(a);
    let y = text::decimal_of(b);
    lemma_decimal_not_empty(a / 10);
    lemma_decimal_not_empty(b / 10);
    if a >= 10 && b >= 10 {
        if a / 10 != b / 10 {
            law_numbers_differ(a / 10, b / 10);
            assert(x.drop_last() =~= text::decimal_of(a / 10));
            assert(y.drop_last() =~= text::decimal_of(b / 10));
        } else {
            assert(x.last() == text::digit_char(a % 10));
            assert(y.last() == text::digit_char(b % 10));
        }
    } else if a < 10 && b < 10 {
        assert(x[0] == text::digit_char(a));
        assert(y[0] == text::digit_char(b));
    } else if a >= 10 {
        assert(x.len() > y.len());
    } else {
        assert(y.len() > x.len());
    }
}

/// A number has a digit.
proof fn lemma_decimal_not_empty(n: nat)
    ensures
        text::decimal_of(n).len() > 0,
{
}

/// A request beyond the rate limit is told to come back after a second, and one that takes too long
/// that it has timed out.
pub proof fn law_own_replies()
    ensures
        too_many().status == 429,
        too_many().body == reply::BodyView::Text("Too Many Requests"@),
        too_many().headers == seq![
            ("content-type"@, "text/plain; charset=utf-8"@),
            ("retry-after"@, "1"@),
        ],
        timed_out().status == 408,
        timed_out().body == reply::BodyView::Text("Request timed out"@),
        timed_out().headers == seq![("content-type"@, "text/plain; charset=utf-8"@)],
{
}

/// A request that is answered is given the time that the settings say; one that shows nothing of
/// what is asked for is refused as unauthorized, and one beyond the rate limit as one too many.
pub proof fn law_verdicts(
    args: Args,
    headers: Seq<(Seq<char>, Seq<u8>)>,
    let_through: bool,
    id: Option<Seq<char>>,
)
    ensures
        match verdict_of(args, headers, let_through, id) {
            VerdictView::Forward { timeout } => let_through && timeout == args.timeout,
            VerdictView::Refuse(sent) => sent.status == (if let_through {
                401u16
            } else {
                429u16
            }) && sent.body == reply::BodyView::Text(
                if let_through {
                    "Unauthorized"@
                } else {
                    "Too Many Requests"@
                },
            ),
        },
        !let_through ==> verdict_of(args, headers, let_through, id) == VerdictView::Refuse(
            numbered(too_many(), id),
        ),
        let_through && !auth::is_authorized(
            text::option_view(args.api_key),
            text::option_view(args.basic_auth),
            headers,
        ) ==> verdict_of(args, headers, let_through, id) == VerdictView::Refuse(
            numbered(auth::refusal(args.basic_auth), id),
        ),
        args.api_key is None && args.basic_auth is None && let_through ==> verdict_of(
            args,
            headers,
            let_through,
            id,
        ) is Forward,
{
    auth::law_refusal(args.basic_auth);
}

/// Without a rate limiter every request is let through; a client without an address is counted as
/// this machine, and any other by its address.
pub proof fn law_who_is_counted(limiter: RateLimiter, name: Seq<char>, ip: &str, now: u128)
    ensures
        lets_through(None, name, now),
        lets_through(Some(limiter), name, now) <==> rate_limit::is_allowed(limiter@, name, now),
        name_of(Some(ip)) == ip@,
        name_of(None) == "127.0.0.1"@,
{
}

/// Headers without those of a name have all the others, in their order.
pub proof fn law_without_keeps_others<V>(
    headers: Seq<(Seq<char>, V)>,
    header: (Seq<char>, V),
    name: Seq<char>,
)
    ensures
        without(Seq::<(Seq<char>, V)>::empty(), name).len() == 0,
        header.0 == name ==> without(headers.push(header), name) == without(headers, name),
        header.0 != name ==> without(headers.push(header), name) == without(headers, name).push(
            header,
        ),
{
    assert(headers.push(header).drop_last() =~= headers);
}

/// What a verdict holds is what its parts hold.
pub proof fn law_verdict_view(verdict: Verdict)
    ensures
        match verdict {
            Verdict::Refuse(sent) => verdict@ == VerdictView::Refuse(sent@),
            Verdict::Forward { timeout } => verdict@ == (VerdictView::Forward { timeout }),
        },
{
}

} // verus!
