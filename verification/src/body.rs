//! Request bodies, parsed by their content type.

use vstd::prelude::*;

use crate::json;
use crate::number;
use crate::response;
use crate::text;
use crate::text::{chars_of, contains};
use crate::value;
use crate::value::{text_dict, text_value};

verus! {

/// How a body is read.
#[derive(Debug, Clone, Copy, PartialEq, Eq, Structural)]
pub enum BodyKind {
    Json,
    Form,
    Yaml,
    Toml,
    Plain,
}

/// How a body of this content type is read.
pub open spec fn kind_of(content_type: Seq<char>) -> BodyKind {
    if text::has_part(content_type, "application/json"@) {
        BodyKind::Json
    } else if text::has_part(content_type, "application/x-www-form-urlencoded"@) {
        BodyKind::Form
    } else if text::has_part(content_type, "application/yaml"@) || text::has_part(
        content_type,
        "text/yaml"@,
    ) {
        BodyKind::Yaml
    } else if text::has_part(content_type, "application/toml"@) {
        BodyKind::Toml
    } else {
        BodyKind::Plain
    }
}

/// How a body of this content type is read.
pub fn body_kind(content_type: &str) -> (kind: BodyKind)
    ensures
        kind == kind_of(content_type@),
{
    let chars = chars_of(content_type);
    if contains(&chars, "application/json") {
        BodyKind::Json
    } else if contains(&chars, "application/x-www-form-urlencoded") {
        BodyKind::Form
    } else if contains(&chars, "application/yaml") || contains(&chars, "text/yaml") {
        BodyKind::Yaml
    } else if contains(&chars, "application/toml") {
        BodyKind::Toml
    } else {
        BodyKind::Plain
    }
}

/// The bits of the double that a `RuntimeValue` is made of for a whole number.
pub uninterp spec fn whole_bits(n: int) -> u64;

/// The bits of the double that a `RuntimeValue` is made of for the literal of a fractional number;
/// none where the literal is of no double.
pub uninterp spec fn real_bits(literal: Seq<char>) -> Option<u64>;

/// Whether a script value is the double with these bits.
pub open spec fn is_double(value: value::ValueView, bits: u64) -> bool {
    value.content == (value::ContentView::Number { bits, fraction: value::double_json(bits) })
}

/// Whether a script value holds the whole number `n`: the double that `rounded` turns it into,
/// which is `n` itself up to `2^53`.
pub open spec fn holds_int(value: value::ValueView, n: int, rounded: spec_fn(int) -> u64) -> bool {
    &&& is_double(value, rounded(n))
    &&& number::is_finite(rounded(n))
    &&& -0x20_0000_0000_0000 < n < 0x20_0000_0000_0000 ==> number::small_whole(rounded(n)) == Some(
        n,
    )
}

/// Whether a script value holds what a JSON value holds, with each whole number turned into a
/// double by `rounded`. An object is a dictionary with the object's keys, in any order.
pub open spec fn holds_json(
    value: value::ValueView,
    wanted: json::JsonView,
    rounded: spec_fn(int) -> u64,
) -> bool
    decreases wanted,
{
    match wanted {
        json::JsonView::Null => value.content is Nothing,
        json::JsonView::Bool(flag) => value.content == value::ContentView::Boolean(flag),
        json::JsonView::Int(n) => holds_int(value, n, rounded),
        json::JsonView::Float(bits) => is_double(value, bits),
        json::JsonView::Text(text) => value == value::text_view(text),
        json::JsonView::Array(list) => match value.content {
            value::ContentView::Array(items) => {
                &&& items.len() == list.len()
                &&& forall|i: int|
                    0 <= i < list.len() ==> holds_json(items[i], #[trigger] list[i], rounded)
            },
            _ => false,
        },
        json::JsonView::Object(list) => match value.content {
            value::ContentView::Dict(entries) => {
                &&& value::distinct(entries)
                &&& entries.len() == list.len()
                &&& forall|i: int|
                    0 <= i < list.len() ==> (json::get(
                        entries,
                        (#[trigger] list[i]).0,
                    ) matches Some(item) && holds_json(item, list[i].1, rounded))
            },
            _ => false,
        },
    }
}

/// What `serde_json::from_str` makes of a text.
pub uninterp spec fn parsed_json(body: Seq<char>) -> Option<json::JsonView>;

/// `serde_json::from_str` parses a JSON document. Which value it makes of a text is named only.
#[verifier::external_body]
fn parse_json(body: &str) -> (parsed: Option<serde_json::Value>)
    ensures
        parsed is Some <==> parsed_json(body@) is Some,
        parsed matches Some(parsed) ==> json::json_view(parsed) == parsed_json(body@)->0,
{
    serde_json::from_str::<serde_json::Value>(body).ok()
}

/// `RuntimeValue::from` a JSON value holds what the JSON value holds. A number becomes a double:
/// a whole number up to `2^53` itself, and a larger one what is named only.
#[verifier::external_body]
fn value_from_json(parsed: serde_json::Value) -> (made: mq_lang::RuntimeValue)
    ensures
        holds_json(
            value::runtime_view(made),
            json::json_view(parsed),
            |n: int| whole_bits(n),
        ),
{
    mq_lang::RuntimeValue::from(parsed)
}

/// What `serde_urlencoded::from_str` makes of a text: the fields of a form, one for each name.
pub uninterp spec fn parsed_form(body: Seq<char>) -> Option<Seq<(Seq<char>, Seq<char>)>>;

/// `serde_urlencoded::from_str` parses the fields of a form; in a map of them each name occurs
/// once. Which fields it makes of a text is named only.
#[verifier::external_body]
fn parse_form(body: &str) -> (parsed: Option<Vec<(String, String)>>)
    ensures
        parsed is Some <==> parsed_form(body@) is Some,
        parsed matches Some(parsed) ==> text::pair_views(parsed@) == parsed_form(body@)->0,
        parsed matches Some(parsed) ==> value::distinct(text::pair_views(parsed@)),
{
    serde_urlencoded::from_str::<std::collections::BTreeMap<String, String>>(body).ok().map(
        |fields| fields.into_iter().collect(),
    )
}

/// The model of a YAML value.
pub ghost enum YamlView {
    Null,
    /// What is no value of its declared type.
    BadValue,
    /// A reference to an anchor that there is not.
    Alias(usize),
    Bool(bool),
    Int(i64),
    /// A fractional number, as it is written.
    Real(Seq<char>),
    Text(Seq<char>),
    Array(Seq<YamlView>),
    Hash(Seq<(YamlView, YamlView)>),
}

/// A YAML value of `yaml_rust2`.
#[verifier::external_type_specification]
#[verifier::external_body]
pub struct ExYaml(yaml_rust2::Yaml);

/// What a YAML value holds.
pub uninterp spec fn yaml_view(document: yaml_rust2::Yaml) -> YamlView;

/// What the `Debug` of a YAML value writes.
pub uninterp spec fn yaml_debug(document: YamlView) -> Seq<char>;

/// The name that a pair of a hash is entered under: its key, where that is a text, and what the
/// key is written as otherwise.
pub open spec fn yaml_name(key: YamlView, written: spec_fn(YamlView) -> Seq<char>) -> Seq<char> {
    match key {
        YamlView::Text(text) => text,
        _ => written(key),
    }
}

/// Whether a script value holds what a YAML value holds. The pairs of a hash are the entries of a
/// dictionary, in any order; of several pairs with one name the last counts. A whole number is
/// turned into a double by `rounded`, and the literal of a fractional one by `read`.
pub open spec fn holds_yaml(
    value: value::ValueView,
    wanted: YamlView,
    written: spec_fn(YamlView) -> Seq<char>,
    rounded: spec_fn(int) -> u64,
    read: spec_fn(Seq<char>) -> Option<u64>,
) -> bool
    decreases wanted,
{
    match wanted {
        YamlView::Null => value.content is Nothing,
        YamlView::BadValue => value.content is Nothing,
        YamlView::Alias(_) => value.content is Nothing,
        YamlView::Bool(flag) => value.content == value::ContentView::Boolean(flag),
        YamlView::Int(n) => holds_int(value, n as int, rounded),
        YamlView::Real(literal) => match read(literal) {
            Some(bits) => is_double(value, bits),
            None => value.content is Nothing,
        },
        YamlView::Text(text) => value == value::text_view(text),
        YamlView::Array(list) => match value.content {
            value::ContentView::Array(items) => {
                &&& items.len() == list.len()
                &&& forall|i: int|
                    0 <= i < list.len() ==> holds_yaml(
                        items[i],
                        #[trigger] list[i],
                        written,
                        rounded,
                        read,
                    )
            },
            _ => false,
        },
        YamlView::Hash(list) => match value.content {
            value::ContentView::Dict(entries) => {
                &&& value::distinct(entries)
                &&& forall|i: int|
                    0 <= i < entries.len() ==> has_name(list, (#[trigger] entries[i]).0, written)
                &&& forall|i: int|
                    0 <= i < list.len() && is_last_name(list, i, written) ==> (json::get(
                        entries,
                        yaml_name((#[trigger] list[i]).0, written),
                    ) matches Some(item) && holds_yaml(item, list[i].1, written, rounded, read))
            },
            _ => false,
        },
    }
}

/// Whether a pair of a hash is entered under this name.
pub open spec fn has_name(
    list: Seq<(YamlView, YamlView)>,
    name: Seq<char>,
    written: spec_fn(YamlView) -> Seq<char>,
) -> bool {
    exists|i: int| 0 <= i < list.len() && yaml_name((#[trigger] list[i]).0, written) == name
}

/// Whether no later pair of a hash has the name of this one.
pub open spec fn is_last_name(
    list: Seq<(YamlView, YamlView)>,
    i: int,
    written: spec_fn(YamlView) -> Seq<char>,
) -> bool {
    forall|j: int|
        i < j < list.len() ==> yaml_name((#[trigger] list[j]).0, written) != yaml_name(
            list[i].0,
            written,
        )
}

/// What `YamlLoader::load_from_str` makes of a text: the documents in it.
pub uninterp spec fn parsed_yaml(body: Seq<char>) -> Option<Seq<YamlView>>;

/// What a list of YAML values holds.
pub open spec fn yaml_views(list: Seq<yaml_rust2::Yaml>) -> Seq<YamlView> {
    list.map_values(|d: yaml_rust2::Yaml| yaml_view(d))
}

/// `YamlLoader::load_from_str` parses the documents of a YAML text. Which ones it makes of a text
/// is named only.
#[verifier::external_body]
fn parse_yaml(body: &str) -> (parsed: Option<Vec<yaml_rust2::Yaml>>)
    ensures
        parsed is Some <==> parsed_yaml(body@) is Some,
        parsed matches Some(parsed) ==> yaml_views(parsed@) == parsed_yaml(body@)->0,
{
    yaml_rust2::YamlLoader::load_from_str(body).ok()
}

/// `RuntimeValue::from` a YAML value holds what the YAML value holds. Which double it makes of a
/// fractional number, and of a whole one beyond `2^53`, is named only.
#[verifier::external_body]
fn value_from_yaml(document: &yaml_rust2::Yaml) -> (made: mq_lang::RuntimeValue)
    ensures
        holds_yaml(
            value::runtime_view(made),
            yaml_view(*document),
            |key: YamlView| yaml_debug(key),
            |n: int| whole_bits(n),
            |literal: Seq<char>| real_bits(literal),
        ),
{
    mq_lang::RuntimeValue::from(document.clone())
}

/// A TOML document of the `toml` crate.
#[verifier::external_type_specification]
#[verifier::external_body]
pub struct ExToml(toml::Value);

/// What the `FromStr` of `toml::Value` makes of a text.
pub uninterp spec fn parsed_toml(body: Seq<char>) -> Option<toml::Value>;

/// What `serde_json::to_value` makes of a TOML document.
pub uninterp spec fn toml_json(document: toml::Value) -> Option<json::JsonView>;

/// The `FromStr` of `toml::Value` parses a TOML document. Which one it makes of a text is named
/// only.
#[verifier::external_body]
fn parse_toml(body: &str) -> (parsed: Option<toml::Value>)
    ensures
        parsed == parsed_toml(body@),
{
    body.parse::<toml::Value>().ok()
}

/// `serde_json::to_value` writes a TOML document as JSON. Which JSON value that is, is named
/// only.
#[verifier::external_body]
fn json_from_toml(document: toml::Value) -> (written: Option<serde_json::Value>)
    ensures
        written is Some <==> toml_json(document) is Some,
        written matches Some(written) ==> json::json_view(written) == toml_json(document)->0,
{
    serde_json::to_value(document).ok()
}

/// The JSON value of a TOML text, where it has one.
pub open spec fn json_of_toml(body: Seq<char>) -> Option<json::JsonView> {
    match parsed_toml(body) {
        Some(document) => toml_json(document),
        None => None,
    }
}

/// The first document of a YAML text, where it has one.
pub open spec fn first_yaml(body: Seq<char>) -> Option<YamlView> {
    match parsed_yaml(body) {
        Some(documents) => if documents.len() > 0 {
            Some(documents[0])
        } else {
            None
        },
        None => None,
    }
}

/// Whether a script value is what a body of this content type is read as: what its parser makes
/// of it, or the body as a text where the parser makes nothing of it.
pub open spec fn is_parsed_body(
    value: value::ValueView,
    body: Seq<char>,
    content_type: Seq<char>,
) -> bool {
    match kind_of(content_type) {
        BodyKind::Json => match parsed_json(body) {
            Some(wanted) => holds_json(value, wanted, |n: int| whole_bits(n)),
            None => value == value::text_view(body),
        },
        BodyKind::Form => match parsed_form(body) {
            Some(fields) => value::is_text_dict(value, fields),
            None => value == value::text_view(body),
        },
        BodyKind::Yaml => match first_yaml(body) {
            Some(wanted) => holds_yaml(
                value,
                wanted,
                |key: YamlView| yaml_debug(key),
                |n: int| whole_bits(n),
                |literal: Seq<char>| real_bits(literal),
            ),
            None => value == value::text_view(body),
        },
        BodyKind::Toml => match json_of_toml(body) {
            Some(wanted) => holds_json(value, wanted, |n: int| whole_bits(n)),
            None => value == value::text_view(body),
        },
        BodyKind::Plain => value == value::text_view(body),
    }
}

/// Read a body by its content type.
pub fn parse_body(body: &str, content_type: &str) -> (made: mq_lang::RuntimeValue)
    ensures
        is_parsed_body(value::runtime_view(made), body@, content_type@),
{
    match body_kind(content_type) {
        BodyKind::Json => match parse_json(body) {
            Some(parsed) => value_from_json(parsed),
            None => text_value(body.to_owned()),
        },
        BodyKind::Form => match parse_form(body) {
            Some(fields) => text_dict(&fields),
            None => text_value(body.to_owned()),
        },
        BodyKind::Yaml => match parse_yaml(body) {
            Some(documents) => if documents.len() > 0 {
                assert(yaml_views(documents@)[0] == yaml_view(documents@[0]));
                value_from_yaml(&documents[0])
            } else {
                text_value(body.to_owned())
            },
            None => text_value(body.to_owned()),
        },
        BodyKind::Toml => match parse_toml(body) {
            Some(document) => match json_from_toml(document) {
                Some(written) => value_from_json(written),
                None => text_value(body.to_owned()),
            },
            None => text_value(body.to_owned()),
        },
        BodyKind::Plain => text_value(body.to_owned()),
    }
}

/// A body that is not JSON, a form, YAML or TOML is read as a text, and so is one that its parser
/// makes nothing of.
pub proof fn law_unparsed_body_is_text(
    value: value::ValueView,
    body: Seq<char>,
    content_type: Seq<char>,
)
    requires
        is_parsed_body(value, body, content_type),
        match kind_of(content_type) {
            BodyKind::Json => parsed_json(body) is None,
            BodyKind::Form => parsed_form(body) is None,
            BodyKind::Yaml => first_yaml(body) is None,
            BodyKind::Toml => json_of_toml(body) is None,
            BodyKind::Plain => true,
        },
    ensures
        value == value::text_view(body),
{
}

/// Whether a JSON value has only numbers that a double holds as they are.
pub open spec fn is_exact(sent: json::JsonView) -> bool
    decreases sent,
{
    match sent {
        json::JsonView::Int(n) => -0x20_0000_0000_0000 < n < 0x20_0000_0000_0000,
        json::JsonView::Float(bits) => number::is_finite(bits),
        json::JsonView::Array(list) => forall|i: int|
            0 <= i < list.len() ==> is_exact(#[trigger] list[i]),
        json::JsonView::Object(list) => forall|i: int|
            0 <= i < list.len() ==> is_exact((#[trigger] list[i]).1),
        _ => true,
    }
}

/// Whether two JSON values say the same: the order of an object's keys does not count, nor
/// whether a small whole number is written with a fraction.
pub open spec fn same_data(got: json::JsonView, sent: json::JsonView) -> bool
    decreases sent,
{
    match sent {
        json::JsonView::Float(bits) => match number::small_whole(bits) {
            Some(n) => got == json::JsonView::Int(n),
            None => got == sent,
        },
        json::JsonView::Array(list) => match got {
            json::JsonView::Array(items) => {
                &&& items.len() == list.len()
                &&& forall|i: int| 0 <= i < list.len() ==> same_data(items[i], #[trigger] list[i])
            },
            _ => false,
        },
        json::JsonView::Object(list) => match got {
            json::JsonView::Object(entries) => {
                &&& entries.len() == list.len()
                &&& forall|i: int|
                    0 <= i < list.len() ==> (json::get(
                        entries,
                        (#[trigger] list[i]).0,
                    ) matches Some(item) && same_data(item, list[i].1))
            },
            _ => false,
        },
        _ => got == sent,
    }
}

/// What is found among entries with one more at the end.
proof fn lemma_get_push<V>(entries: Seq<(Seq<char>, V)>, entry: (Seq<char>, V), key: Seq<char>)
    ensures
        json::get(entries.push(entry), key) == (match json::get(entries, key) {
            Some(found) => Some(found),
            None => if entry.0 == key {
                Some(entry.1)
            } else {
                None
            },
        }),
    decreases entries.len(),
{
    let all = entries.push(entry);
    if entries.len() == 0 {
        assert(all.drop_first() =~= entries);
    } else {
        assert(all.drop_first() =~= entries.drop_first().push(entry));
        lemma_get_push(entries.drop_first(), entry, key);
    }
}

/// Nothing is found under a key that no entry has.
proof fn lemma_get_lacking<V>(entries: Seq<(Seq<char>, V)>, key: Seq<char>)
    requires
        json::lacks(entries, key),
    ensures
        json::get(entries, key) is None,
    decreases entries.len(),
{
    if entries.len() > 0 {
        let rest = entries.drop_first();
        assert forall|i: int| 0 <= i < rest.len() implies (#[trigger] rest[i]).0 != key by {
            assert(rest[i] == entries[i + 1]);
        }
        lemma_get_lacking(rest, key);
    }
}

/// The entries of a JSON object are those of the dictionary that it comes from.
proof fn lemma_json_entries(entries: Seq<(Seq<char>, value::ValueView)>, n: nat)
    requires
        value::distinct(entries),
        n <= entries.len(),
    ensures
        response::json_entries(entries, n).len() == n,
        forall|i: int|
            0 <= i < n ==> (#[trigger] response::json_entries(entries, n)[i]).0 == entries[i].0,
        forall|key: Seq<char>|
            #[trigger] json::get(response::json_entries(entries, n), key) == (match json::get(
                entries.take(n as int),
                key,
            ) {
                Some(found) => Some(response::json_of(found)),
                None => None,
            }),
    decreases n,
{
    if n == 0 {
        assert(entries.take(0) =~= seq![]);
    } else {
        let m = (n - 1) as nat;
        let before = response::json_entries(entries, m);
        let entry = entries[n - 1];
        lemma_json_entries(entries, m);
        assert(json::lacks(before, entry.0)) by {
            assert forall|i: int| 0 <= i < before.len() implies (#[trigger] before[i]).0
                != entry.0 by {
                assert(before[i].0 == entries[i].0);
                assert(entries[i].0 != entries[n - 1].0);
            }
        }
        json::lemma_put_new(before, entry.0, response::json_of(entry.1));
        assert(entries.take(n as int) =~= entries.take(m as int).push(entry));
        let taken = entries.take(m as int);
        assert(json::lacks(taken, entry.0)) by {
            assert forall|i: int| 0 <= i < taken.len() implies (#[trigger] taken[i]).0
                != entry.0 by {
                assert(taken[i] == entries[i]);
                assert(entries[i].0 != entries[n - 1].0);
            }
        }
        lemma_get_lacking(taken, entry.0);
        assert forall|key: Seq<char>|
            #[trigger] json::get(response::json_entries(entries, n), key) == (match json::get(
                entries.take(n as int),
                key,
            ) {
                Some(found) => Some(response::json_of(found)),
                None => None,
            }) by {
            lemma_get_push(taken, entry, key);
            json::lemma_get_put(before, entry.0, response::json_of(entry.1), key);
        }
        assert forall|i: int| 0 <= i < n implies (#[trigger] response::json_entries(
            entries,
            n,
        )[i]).0 == entries[i].0 by {
            if i < m {
                assert(response::json_entries(entries, n)[i] == before[i]);
            }
        }
    }
}

/// A script that answers with the JSON body that it was sent says the same as the body, but for
/// whole numbers beyond `2^53`, which a double does not hold.
pub proof fn law_json_body_comes_back(
    value: value::ValueView,
    sent: json::JsonView,
    rounded: spec_fn(int) -> u64,
)
    requires
        holds_json(value, sent, rounded),
        is_exact(sent),
    ensures
        same_data(response::json_of(value), sent),
    decreases sent,
{
    match sent {
        json::JsonView::Array(list) => {
            let items = value.content->Array_0;
            assert forall|i: int| 0 <= i < list.len() implies same_data(
                response::json_of(items[i]),
                #[trigger] list[i],
            ) by {
                law_json_body_comes_back(items[i], list[i], rounded);
            }
        },
        json::JsonView::Object(list) => {
            let entries = value.content->Dict_0;
            lemma_json_entries(entries, entries.len());
            assert(entries.take(entries.len() as int) =~= entries);
            let got = response::json_entries(entries, entries.len());
            assert forall|i: int| 0 <= i < list.len() implies (json::get(
                got,
                (#[trigger] list[i]).0,
            ) matches Some(item) && same_data(item, list[i].1)) by {
                let found = json::get(entries, list[i].0)->0;
                assert(holds_json(found, list[i].1, rounded));
                law_json_body_comes_back(found, list[i].1, rounded);
            }
        },
        _ => {},
    }
}

/// A body is read by what its content type names, whatever stands around the name: JSON goes before
/// a form, a form before YAML, and YAML before TOML; where none is named it is plain.
pub proof fn law_kinds(content_type: Seq<char>)
    ensures
        ({
            let json = text::has_part(content_type, "application/json"@);
            let form = text::has_part(content_type, "application/x-www-form-urlencoded"@);
            let yaml = text::has_part(content_type, "application/yaml"@) || text::has_part(
                content_type,
                "text/yaml"@,
            );
            let toml = text::has_part(content_type, "application/toml"@);
            &&& json ==> kind_of(content_type) == BodyKind::Json
            &&& !json && form ==> kind_of(content_type) == BodyKind::Form
            &&& !json && !form && yaml ==> kind_of(content_type) == BodyKind::Yaml
            &&& !json && !form && !yaml && toml ==> kind_of(content_type) == BodyKind::Toml
            &&& !json && !form && !yaml && !toml ==> kind_of(content_type) == BodyKind::Plain
        }),
{
}

/// A part occurs in a text wherever it stands in it, and only in a text that has all of it.
pub proof fn law_has_part(before: Seq<char>, part: Seq<char>, behind: Seq<char>, s: Seq<char>)
    ensures
        text::has_part(before + part + behind, part),
        text::has_part(s, part) ==> exists|i: int|
            0 <= i && i + part.len() <= s.len() && #[trigger] s.subrange(i, i + part.len()) == part,
{
    let whole = before + part + behind;
    assert(whole.subrange(before.len() as int, before.len() as int + part.len()) =~= part);
}

/// A body of JSON is read as the value that it stands for: nothing for null, a truth value, a text,
/// a list item by item, a number as a double, and an object as a dictionary with its names.
pub proof fn law_json_is_read(
    value: value::ValueView,
    body: Seq<char>,
    content_type: Seq<char>,
    wanted: json::JsonView,
    i: int,
)
    requires
        is_parsed_body(value, body, content_type),
        text::has_part(content_type, "application/json"@),
        parsed_json(body) == Some(wanted),
    ensures
        wanted is Null ==> value.content is Nothing,
        wanted matches json::JsonView::Bool(flag) ==> value.content == value::ContentView::Boolean(
            flag,
        ),
        wanted matches json::JsonView::Text(said) ==> value == value::text_view(said),
        wanted matches json::JsonView::Float(bits) ==> (
        value.content matches value::ContentView::Number { bits: read, .. } && read == bits),
        wanted matches json::JsonView::Int(n) ==> (
        value.content matches value::ContentView::Number { bits: read, .. } && read == whole_bits(n)
            && (-0x20_0000_0000_0000 < n < 0x20_0000_0000_0000 ==> number::small_whole(read)
            == Some(n))),
        wanted matches json::JsonView::Array(list) ==> (
        value.content matches value::ContentView::Array(items) && items.len() == list.len() && (0
            <= i < list.len() ==> holds_json(items[i], list[i], |n: int| whole_bits(n)))),
        wanted matches json::JsonView::Object(list) ==> (
        value.content matches value::ContentView::Dict(entries) && entries.len() == list.len() && (0
            <= i < list.len() ==> (json::get(entries, list[i].0) matches Some(item) && holds_json(
            item,
            list[i].1,
            |n: int| whole_bits(n),
        )))),
{
    if let json::JsonView::Object(list) = wanted {
        if 0 <= i < list.len() {
            let pair = list[i];
            assert(pair == list[i]);
        }
    }
}

/// What is read of an item of a list or of an object is read as a body of that item would be.
pub proof fn law_items_are_read_alike(
    value: value::ValueView,
    wanted: json::JsonView,
    rounded: spec_fn(int) -> u64,
    i: int,
)
    requires
        holds_json(value, wanted, rounded),
    ensures
        wanted is Null ==> value.content is Nothing,
        wanted matches json::JsonView::Bool(flag) ==> value.content == value::ContentView::Boolean(
            flag,
        ),
        wanted matches json::JsonView::Text(said) ==> value == value::text_view(said),
        wanted matches json::JsonView::Float(bits) ==> (
        value.content matches value::ContentView::Number { bits: read, .. } && read == bits),
        wanted matches json::JsonView::Int(n) ==> (
        value.content matches value::ContentView::Number { bits: read, .. } && read == rounded(n)),
        wanted matches json::JsonView::Array(list) ==> (
        value.content matches value::ContentView::Array(items) && items.len() == list.len() && (0
            <= i < list.len() ==> holds_json(items[i], list[i], rounded))),
        wanted matches json::JsonView::Object(list) ==> (
        value.content matches value::ContentView::Dict(entries) && entries.len() == list.len() && (0
            <= i < list.len() ==> (json::get(entries, list[i].0) matches Some(item) && holds_json(
            item,
            list[i].1,
            rounded,
        )))),
{
    if let json::JsonView::Object(list) = wanted {
        if 0 <= i < list.len() {
            let pair = list[i];
            assert(pair == list[i]);
        }
    }
}

/// A body of a form is read as a dictionary of texts: every field under its name, the last of
/// several with one name, and no other names.
pub proof fn law_form_is_read(
    value: value::ValueView,
    body: Seq<char>,
    content_type: Seq<char>,
    fields: Seq<(Seq<char>, Seq<char>)>,
    i: int,
    name: Seq<char>,
)
    requires
        is_parsed_body(value, body, content_type),
        kind_of(content_type) == BodyKind::Form,
        parsed_form(body) == Some(fields),
    ensures
        value.content matches value::ContentView::Dict(entries) && {
            &&& 0 <= i < fields.len() && (forall|j: int|
                i < j < fields.len() ==> (#[trigger] fields[j]).0 != fields[i].0) ==> json::get(
                entries,
                fields[i].0,
            ) == Some(value::text_view(fields[i].1))
            &&& (forall|j: int| 0 <= j < fields.len() ==> (#[trigger] fields[j]).0 != name)
                ==> json::get(entries, name) is None
        },
{
    value::law_text_dictionary(value, fields, i, name);
}

/// A body of YAML is read as its first document: nothing for null, a truth value, a text, a number
/// as a double, a list item by item, and a hash as a dictionary, in which the last of several pairs
/// with one name counts.
pub proof fn law_yaml_is_read(
    value: value::ValueView,
    body: Seq<char>,
    content_type: Seq<char>,
    documents: Seq<YamlView>,
    i: int,
)
    requires
        is_parsed_body(value, body, content_type),
        kind_of(content_type) == BodyKind::Yaml,
        parsed_yaml(body) == Some(documents),
        documents.len() > 0,
    ensures
        ({
            let written = |key: YamlView| yaml_debug(key);
            let rounded = |n: int| whole_bits(n);
            let read = |literal: Seq<char>| real_bits(literal);
            &&& documents[0] is Null ==> value.content is Nothing
            &&& documents[0] matches YamlView::Bool(flag) ==> value.content
                == value::ContentView::Boolean(flag)
            &&& documents[0] matches YamlView::Text(said) ==> value == value::text_view(said)
            &&& documents[0] matches YamlView::Int(n) ==> (
            value.content matches value::ContentView::Number { bits, .. } && bits == whole_bits(
                n as int,
            ))
            &&& documents[0] matches YamlView::Real(literal) ==> (match real_bits(literal) {
                Some(wanted) => value.content matches value::ContentView::Number { bits, .. } && bits
                    == wanted,
                None => value.content is Nothing,
            })
            &&& documents[0] matches YamlView::Array(list) ==> (
            value.content matches value::ContentView::Array(items) && items.len() == list.len() && (
            0 <= i < list.len() ==> holds_yaml(items[i], list[i], written, rounded, read)))
            &&& documents[0] matches YamlView::Hash(list) ==> (
            value.content matches value::ContentView::Dict(entries) && (0 <= i < list.len() && (
            forall|j: int|
                i < j < list.len() ==> yaml_name((#[trigger] list[j]).0, written) != yaml_name(
                    list[i].0,
                    written,
                )) ==> (json::get(entries, yaml_name(list[i].0, written)) matches Some(item)
                && holds_yaml(item, list[i].1, written, rounded, read))))
        }),
{
    if let YamlView::Hash(list) = documents[0] {
        if 0 <= i < list.len() {
            let pair = list[i];
            assert(pair == list[i]);
        }
    }
}

/// The name of a pair of a hash is its key where that is a text.
pub proof fn law_yaml_names(said: Seq<char>, written: spec_fn(YamlView) -> Seq<char>)
    ensures
        yaml_name(YamlView::Text(said), written) == said,
{
}

/// A body of TOML is read as the JSON value that it is written as.
pub proof fn law_toml_is_read(
    value: value::ValueView,
    body: Seq<char>,
    content_type: Seq<char>,
    document: toml::Value,
    wanted: json::JsonView,
)
    requires
        is_parsed_body(value, body, content_type),
        kind_of(content_type) == BodyKind::Toml,
        parsed_toml(body) == Some(document),
        toml_json(document) == Some(wanted),
    ensures
        holds_json(value, wanted, |n: int| whole_bits(n)),
{
}

} // verus!
