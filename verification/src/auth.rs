//! Who may make requests: those who show the API key, or the basic credentials.

use vstd::prelude::*;

use crate::cli::Args;
use crate::reply;
use crate::reply::{plain_reply, plain_reply_with, Reply};
use crate::request;
use crate::request::find_header;
use crate::text;
use crate::text::{begins_with, chars_of, decode, rest_after, text_of};

verus! {

/// What comes after a prefix.
pub open spec fn after_prefix(text: Seq<char>, prefix: Seq<char>) -> Option<Seq<char>> {
    if prefix.is_prefix_of(text) {
        Some(text.skip(prefix.len() as int))
    } else {
        None
    }
}

/// What the authorization header has after the name of this scheme.
pub open spec fn authorization(headers: Seq<(Seq<char>, Seq<u8>)>, scheme: Seq<char>) -> Option<
    Seq<char>,
> {
    match request::header_under(headers, "authorization"@) {
        Some(text) => after_prefix(text, scheme),
        None => None,
    }
}

/// The token of a bearer.
pub open spec fn bearer_of(headers: Seq<(Seq<char>, Seq<u8>)>) -> Option<Seq<char>> {
    authorization(headers, "Bearer "@)
}

/// What the standard engine of the `base64` crate decodes a text to.
pub uninterp spec fn base64_bytes(encoded: Seq<char>) -> Option<Seq<u8>>;

/// `STANDARD.decode` of the `base64` crate decodes padded base64 of the standard alphabet. Which
/// bytes it makes of a text is named only.
#[verifier::external_body]
fn decode_base64(encoded: &str) -> (bytes: Option<Vec<u8>>)
    ensures
        bytes is Some <==> base64_bytes(encoded@) is Some,
        bytes matches Some(bytes) ==> bytes@ == base64_bytes(encoded@)->0,
{
    base64::Engine::decode(&base64::engine::general_purpose::STANDARD, encoded).ok()
}

/// The text that bytes encode, where they are UTF-8.
pub open spec fn utf8_text(bytes: Option<Seq<u8>>) -> Option<Seq<char>> {
    match bytes {
        Some(bytes) => if vstd::utf8::valid_utf8(bytes) {
            Some(vstd::utf8::decode_utf8(bytes))
        } else {
            None
        },
        None => None,
    }
}

/// The basic credentials, in the form `user:password`.
pub open spec fn basic_of(headers: Seq<(Seq<char>, Seq<u8>)>) -> Option<Seq<char>> {
    match authorization(headers, "Basic "@) {
        Some(encoded) => utf8_text(base64_bytes(encoded)),
        None => None,
    }
}

/// Whether a request shows this API key, in a header of its own or as the token of a bearer.
pub open spec fn shows_key(headers: Seq<(Seq<char>, Seq<u8>)>, key: Seq<char>) -> bool {
    request::header_under(headers, "x-api-key"@) == Some(key) || bearer_of(headers) == Some(key)
}

/// Whether a request shows one of the things that are asked for, if anything is.
pub open spec fn is_authorized(
    api_key: Option<Seq<char>>,
    basic_auth: Option<Seq<char>>,
    headers: Seq<(Seq<char>, Seq<u8>)>,
) -> bool {
    ||| api_key is None && basic_auth is None
    ||| api_key matches Some(key) && shows_key(headers, key)
    ||| basic_auth matches Some(credentials) && basic_of(headers) == Some(credentials)
}

/// What the authorization header has after the name of this scheme.
fn find_authorization(headers: &Vec<(String, Vec<u8>)>, scheme: &str) -> (found: Option<String>)
    ensures
        text::option_view(found) == authorization(request::header_views(headers@), scheme@),
{
    match find_header(headers, "authorization") {
        Some(content) => {
            let chars = chars_of(content.as_str());
            if begins_with(&chars, scheme) {
                let n = chars_of(scheme).len();
                let found = text_of(rest_after(&chars, n));
                assert(found@ =~= content@.skip(scheme@.len() as int));
                Some(found)
            } else {
                None
            }
        },
        None => None,
    }
}

/// The token of a bearer.
pub fn bearer_token(headers: &Vec<(String, Vec<u8>)>) -> (token: Option<String>)
    ensures
        text::option_view(token) == bearer_of(request::header_views(headers@)),
{
    find_authorization(headers, "Bearer ")
}

/// The basic credentials, in the form `user:password`.
pub fn basic_credentials(headers: &Vec<(String, Vec<u8>)>) -> (credentials: Option<String>)
    ensures
        text::option_view(credentials) == basic_of(request::header_views(headers@)),
{
    match find_authorization(headers, "Basic ") {
        Some(encoded) => match decode_base64(encoded.as_str()) {
            Some(bytes) => decode(bytes),
            None => None,
        },
        None => None,
    }
}

/// Whether a text is there and is the expected one.
fn is_expected(given: Option<String>, expected: &String) -> (same: bool)
    ensures
        same == (text::option_view(given) == Some(expected@)),
{
    match given {
        Some(given) => *given.as_str() == *expected.as_str(),
        None => false,
    }
}

/// Check that a request shows the API key or the basic credentials that the settings ask for.
pub fn check_auth(args: &Args, headers: &Vec<(String, Vec<u8>)>) -> (passed: bool)
    ensures
        passed == is_authorized(
            text::option_view(args.api_key),
            text::option_view(args.basic_auth),
            request::header_views(headers@),
        ),
{
    if let Some(expected) = &args.api_key {
        if is_expected(find_header(headers, "x-api-key"), expected) {
            return true;
        }
        if is_expected(bearer_token(headers), expected) {
            return true;
        }
        if args.basic_auth.is_none() {
            return false;
        }
    }
    if let Some(expected) = &args.basic_auth {
        return is_expected(basic_credentials(headers), expected);
    }
    true
}

/// The reply to a request that may not be made. It asks for basic credentials where there are
/// any.
pub open spec fn refusal(basic_auth: Option<String>) -> reply::ReplyView {
    if basic_auth is Some {
        reply::plain_with(
            401,
            "www-authenticate"@,
            "Basic realm=\"mq-http\""@,
            "Unauthorized"@,
        )
    } else {
        reply::plain(401, "Unauthorized"@)
    }
}

/// The reply to a request that may not be made.
pub fn auth_error_response(args: &Args) -> (sent: Reply)
    ensures
        sent@ == refusal(args.basic_auth),
{
    if args.basic_auth.is_some() {
        plain_reply_with(401, "www-authenticate", "Basic realm=\"mq-http\"", "Unauthorized")
    } else {
        plain_reply(401, "Unauthorized".to_owned())
    }
}

/// Where neither a key nor credentials are asked for, every request may be made.
pub proof fn law_open_without_auth(headers: Seq<(Seq<char>, Seq<u8>)>)
    ensures
        is_authorized(None, None, headers),
{
}

/// Where both a key and credentials are asked for, either of them will do.
pub proof fn law_either_will_do(
    key: Seq<char>,
    credentials: Seq<char>,
    headers: Seq<(Seq<char>, Seq<u8>)>,
)
    ensures
        is_authorized(Some(key), Some(credentials), headers) <==> is_authorized(
            Some(key),
            None,
            headers,
        ) || is_authorized(None, Some(credentials), headers),
{
}

/// A request that shows neither an API key nor an authorization may not be made where anything is
/// asked for.
pub proof fn law_nothing_shown_is_refused(
    api_key: Option<Seq<char>>,
    basic_auth: Option<Seq<char>>,
    headers: Seq<(Seq<char>, Seq<u8>)>,
)
    requires
        api_key is Some || basic_auth is Some,
        request::header_under(headers, "x-api-key"@) is None,
        request::header_under(headers, "authorization"@) is None,
    ensures
        !is_authorized(api_key, basic_auth, headers),
{
}

/// The names of the two schemes.
proof fn lemma_schemes()
    ensures
        "Bearer "@ =~= seq!['B', 'e', 'a', 'r', 'e', 'r', ' '],
        "Basic "@ =~= seq!['B', 'a', 's', 'i', 'c', ' '],
{
    reveal_strlit("Bearer ");
    reveal_strlit("Basic ");
}

/// Where only a key is asked for, a request may be made if and only if its `x-api-key` header is
/// the key, or its `authorization` header the word `Bearer`, a space and the key.
pub proof fn law_key_lets_in(key: Seq<char>, headers: Seq<(Seq<char>, Seq<u8>)>)
    ensures
        is_authorized(Some(key), None, headers) <==> request::header_under(headers, "x-api-key"@)
            == Some(key) || request::header_under(headers, "authorization"@) == Some(
            seq!['B', 'e', 'a', 'r', 'e', 'r', ' '] + key,
        ),
{
    lemma_schemes();
    let scheme = "Bearer "@;
    if let Some(given) = request::header_under(headers, "authorization"@) {
        if scheme.is_prefix_of(given) {
            assert(given =~= scheme + given.skip(scheme.len() as int));
        }
        assert((scheme + key).skip(scheme.len() as int) =~= key);
        assert(scheme =~= (scheme + key).subrange(0, scheme.len() as int));
    }
}

/// Where only credentials are asked for, a request may be made if and only if its `authorization`
/// header is the word `Basic`, a space and a text that is the base64 of bytes that are the
/// credentials in UTF-8.
pub proof fn law_credentials_let_in(
    credentials: Seq<char>,
    headers: Seq<(Seq<char>, Seq<u8>)>,
    encoded: Seq<char>,
)
    ensures
        request::header_under(headers, "authorization"@) == Some(
            seq!['B', 'a', 's', 'i', 'c', ' '] + encoded,
        ) ==> (is_authorized(None, Some(credentials), headers) <==> (base64_bytes(
            encoded,
        ) matches Some(bytes) && vstd::utf8::valid_utf8(bytes) && vstd::utf8::decode_utf8(bytes)
            == credentials)),
        is_authorized(None, Some(credentials), headers) ==> (request::header_under(
            headers,
            "authorization"@,
        ) matches Some(given) && given.len() >= 6 && given.take(6) == seq![
            'B',
            'a',
            's',
            'i',
            'c',
            ' ',
        ]),
{
    lemma_schemes();
    let scheme = "Basic "@;
    if let Some(given) = request::header_under(headers, "authorization"@) {
        if scheme.is_prefix_of(given) {
            assert(given.take(6) =~= scheme);
        }
        if given == seq!['B', 'a', 's', 'i', 'c', ' '] + encoded {
            assert(given =~= scheme + encoded);
            assert(given.skip(scheme.len() as int) =~= encoded);
            assert(scheme =~= given.subrange(0, scheme.len() as int));
        }
    }
}

/// A request that may not be made is refused as unauthorized; it is asked for basic credentials
/// where there are any, and only then.
pub proof fn law_refusal(basic_auth: Option<String>)
    ensures
        refusal(basic_auth).status == 401,
        refusal(basic_auth).body == reply::BodyView::Text("Unauthorized"@),
        refusal(basic_auth).headers.len() > 0,
        refusal(basic_auth).headers[0] == ("content-type"@, "text/plain; charset=utf-8"@),
        basic_auth is None ==> refusal(basic_auth).headers.len() == 1,
        basic_auth is Some ==> refusal(basic_auth).headers.len() == 2
            && refusal(basic_auth).headers[1] == (
            "www-authenticate"@,
            "Basic realm=\"mq-http\""@,
        ),
{
}

} // verus!
