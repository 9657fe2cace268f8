//! Values of mq scripts: a plain copy of them that the library works on, and the conversions
//! from and to the values of the mq runtime.

use vstd::prelude::*;

use crate::json;
use crate::json::json_null;
use crate::number;
use crate::text;

verus! {

/// What kind of value a script value is, with what it holds.
#[derive(Debug)]
pub enum Content {
    /// Nothing.
    Nothing,
    Boolean(bool),
    /// A double-precision number, by its bits, and the JSON value of a number that is not a
    /// small whole one.
    Number { bits: u64, fraction: serde_json::Value },
    Text(String),
    Array(Vec<ScriptValue>),
    /// The entries of a dictionary, in its own order.
    Dict(Vec<(String, ScriptValue)>),
    /// A Markdown node, as Markdown and rendered to HTML.
    Markdown { text: String, html: String },
    /// A function that a script defines.
    Function,
    /// Any other value: a symbol, a native function, a module, a syntax tree or raw bytes.
    Other,
}

/// A script value: what it holds, and the text that it is shown as.
#[derive(Debug)]
pub struct ScriptValue {
    pub content: Content,
    pub text: String,
}

/// The model of a [`Content`].
pub ghost enum ContentView {
    Nothing,
    Boolean(bool),
    Number { bits: u64, fraction: json::JsonView },
    Text(Seq<char>),
    Array(Seq<ValueView>),
    Dict(Seq<(Seq<char>, ValueView)>),
    Markdown { text: Seq<char>, html: Seq<char> },
    Function,
    Other,
}

/// The model of a [`ScriptValue`].
pub ghost struct ValueView {
    pub content: ContentView,
    pub text: Seq<char>,
}

/// What a value holds.
pub open spec fn value_view(value: ScriptValue) -> ValueView
    decreases value,
{
    ValueView {
        content: match value.content {
            Content::Nothing => ContentView::Nothing,
            Content::Boolean(flag) => ContentView::Boolean(flag),
            Content::Number { bits, fraction } => ContentView::Number {
                bits,
                fraction: json::json_view(fraction),
            },
            Content::Text(text) => ContentView::Text(text@),
            Content::Array(items) => ContentView::Array(
                Seq::new(
                    items@.len(),
                    |i: int|
                        if 0 <= i < items@.len() {
                            value_view(items@[i])
                        } else {
                            arbitrary()
                        },
                ),
            ),
            Content::Dict(entries) => ContentView::Dict(
                Seq::new(
                    entries@.len(),
                    |i: int|
                        if 0 <= i < entries@.len() {
                            (entries@[i].0@, value_view(entries@[i].1))
                        } else {
                            arbitrary()
                        },
                ),
            ),
            Content::Markdown { text, html } => ContentView::Markdown {
                text: text@,
                html: html@,
            },
            Content::Function => ContentView::Function,
            Content::Other => ContentView::Other,
        },
        text: value.text@,
    }
}

impl View for ScriptValue {
    type V = ValueView;

    open spec fn view(&self) -> ValueView {
        value_view(*self)
    }
}

/// What a list of values holds.
pub open spec fn value_views(list: Seq<ScriptValue>) -> Seq<ValueView> {
    list.map_values(|v: ScriptValue| v@)
}

/// What the entries of a dictionary hold.
pub open spec fn entry_views(list: Seq<(String, ScriptValue)>) -> Seq<(Seq<char>, ValueView)> {
    list.map_values(|e: (String, ScriptValue)| (e.0@, e.1@))
}

/// A value's view, one level deep.
pub proof fn lemma_view(value: ScriptValue)
    ensures
        value@.text == value.text@,
        value@.content == (match value.content {
            Content::Nothing => ContentView::Nothing,
            Content::Boolean(flag) => ContentView::Boolean(flag),
            Content::Number { bits, fraction } => ContentView::Number {
                bits,
                fraction: json::json_view(fraction),
            },
            Content::Text(text) => ContentView::Text(text@),
            Content::Array(items) => ContentView::Array(value_views(items@)),
            Content::Dict(entries) => ContentView::Dict(entry_views(entries@)),
            Content::Markdown { text, html } => ContentView::Markdown { text: text@, html: html@ },
            Content::Function => ContentView::Function,
            Content::Other => ContentView::Other,
        }),
{
    reveal_with_fuel(value_view, 2);
    match value.content {
        Content::Array(items) => {
            assert(value_views(items@) =~= value@.content->Array_0);
        },
        Content::Dict(entries) => {
            assert(entry_views(entries@) =~= value@.content->Dict_0);
        },
        _ => {},
    }
}

/// A value of the mq runtime.
#[verifier::external_type_specification]
#[verifier::external_body]
pub struct ExRuntimeValue(mq_lang::RuntimeValue);

/// What a value of the mq runtime holds, and the text that its `Display` writes. The entries of a
/// dictionary stand in the order in which the runtime walks them.
pub uninterp spec fn runtime_view(value: mq_lang::RuntimeValue) -> ValueView;

/// What a list of runtime values holds.
pub open spec fn runtime_views(list: Seq<mq_lang::RuntimeValue>) -> Seq<ValueView> {
    list.map_values(|v: mq_lang::RuntimeValue| runtime_view(v))
}

/// What a list of named runtime values holds.
pub open spec fn runtime_entries(list: Seq<(String, mq_lang::RuntimeValue)>) -> Seq<
    (Seq<char>, ValueView),
> {
    list.map_values(|e: (String, mq_lang::RuntimeValue)| (e.0@, runtime_view(e.1)))
}

/// A runtime value, opened one level deep.
pub(crate) enum Opened {
    Nothing,
    Boolean(bool),
    Number(u64),
    Text(String),
    Array(Vec<mq_lang::RuntimeValue>),
    Dict(Vec<(String, mq_lang::RuntimeValue)>),
    Markdown,
    Function,
    Other,
}

/// Whether `opened` is what a value with this content opens to.
pub(crate) open spec fn opens_to(content: ContentView, opened: Opened) -> bool {
    match opened {
        Opened::Nothing => content is Nothing,
        Opened::Boolean(flag) => content == ContentView::Boolean(flag),
        Opened::Number(bits) => content is Number && content->Number_bits == bits,
        Opened::Text(text) => content == ContentView::Text(text@),
        Opened::Array(items) => content == ContentView::Array(runtime_views(items@)),
        Opened::Dict(entries) => content == ContentView::Dict(runtime_entries(entries@))
            && distinct(runtime_entries(entries@)),
        Opened::Markdown => content is Markdown,
        Opened::Function => content is Function,
        Opened::Other => content is Other,
    }
}

/// The variants of `mq_lang::RuntimeValue`, with copies of what they hold: a number by the bits of
/// its double, a dictionary by its entries in the order of its `BTreeMap`, which has no name
/// twice.
#[verifier::external_body]
fn open_value(value: &mq_lang::RuntimeValue) -> (opened: Opened)
    ensures
        opens_to(runtime_view(*value).content, opened),
{
    match value {
        mq_lang::RuntimeValue::None => Opened::Nothing,
        mq_lang::RuntimeValue::Boolean(flag) => Opened::Boolean(*flag),
        mq_lang::RuntimeValue::Number(n) => Opened::Number(n.value().to_bits()),
        mq_lang::RuntimeValue::String(text) => Opened::Text(text.clone()),
        mq_lang::RuntimeValue::Array(items) => Opened::Array(items.clone()),
        mq_lang::RuntimeValue::Dict(entries) => {
            Opened::Dict(entries.iter().map(|(k, v)| (k.as_str(), v.clone())).collect())
        },
        mq_lang::RuntimeValue::Markdown(..) => Opened::Markdown,
        mq_lang::RuntimeValue::Function(..) => Opened::Function,
        _ => Opened::Other,
    }
}

/// The JSON value of a double: the double itself, or null where it is not finite.
pub open spec fn double_json(bits: u64) -> json::JsonView {
    if number::is_finite(bits) {
        json::JsonView::Float(bits)
    } else {
        json::JsonView::Null
    }
}

/// `serde_json::Number::from_f64` makes a JSON number of a finite double, and nothing of another
/// one.
#[verifier::external_body]
fn number_json(value: &mq_lang::RuntimeValue) -> (number: Option<serde_json::Value>)
    requires
        runtime_view(*value).content is Number,
    ensures
        number is Some <==> number::is_finite(runtime_view(*value).content->Number_bits),
        number matches Some(number) ==> json::json_view(number) == json::JsonView::Float(
            runtime_view(*value).content->Number_bits,
        ),
        runtime_view(*value).content->Number_fraction == (match number {
            Some(number) => json::json_view(number),
            None => json::JsonView::Null,
        }),
{
    match value {
        mq_lang::RuntimeValue::Number(n) => {
            serde_json::Number::from_f64(n.value()).map(serde_json::Value::Number)
        },
        _ => None,
    }
}

/// `mq_markdown::Markdown` writes a node as Markdown text.
#[verifier::external_body]
fn markdown_text(value: &mq_lang::RuntimeValue) -> (text: String)
    requires
        runtime_view(*value).content is Markdown,
    ensures
        text@ == runtime_view(*value).content->Markdown_text,
{
    match value {
        mq_lang::RuntimeValue::Markdown(node, _) => {
            mq_markdown::Markdown::new(vec![(**node).clone()]).to_string()
        },
        _ => String::new(),
    }
}

/// `mq_markdown::Markdown::to_html` renders a node to HTML.
#[verifier::external_body]
fn markdown_html(value: &mq_lang::RuntimeValue) -> (html: String)
    requires
        runtime_view(*value).content is Markdown,
    ensures
        html@ == runtime_view(*value).content->Markdown_html,
{
    match value {
        mq_lang::RuntimeValue::Markdown(node, _) => {
            mq_markdown::Markdown::new(vec![(**node).clone()]).to_html()
        },
        _ => String::new(),
    }
}

/// The `Display` of `mq_lang::RuntimeValue` writes a string as it stands and nothing for the
/// absent value; the text of the other values is named only.
#[verifier::external_body]
fn display_text(value: &mq_lang::RuntimeValue) -> (text: String)
    ensures
        text@ == runtime_view(*value).text,
        runtime_view(*value).content matches ContentView::Text(s) ==> text@ == s,
        runtime_view(*value).content is Nothing ==> text@.len() == 0,
{
    value.to_string()
}

/// Whether a value is as the runtime has them, all the way down: the JSON value of a number is
/// that of its double, and the entries of a dictionary have different names.
pub open spec fn is_sound(view: ValueView) -> bool
    decreases view,
{
    match view.content {
        ContentView::Number { bits, fraction } => fraction == double_json(bits),
        ContentView::Array(items) => forall|i: int|
            0 <= i < items.len() ==> is_sound(#[trigger] items[i]),
        ContentView::Dict(entries) => distinct(entries) && forall|i: int|
            0 <= i < entries.len() ==> is_sound((#[trigger] entries[i]).1),
        _ => true,
    }
}

/// Copy a runtime value into a plain one.
pub fn read_value(value: &mq_lang::RuntimeValue) -> (copy: ScriptValue)
    ensures
        copy@ == runtime_view(*value),
        copy@.content matches ContentView::Number { bits, fraction } ==> fraction == double_json(
            bits,
        ),
        copy@.content matches ContentView::Dict(entries) ==> distinct(entries),
        is_sound(copy@),
    decreases runtime_view(*value),
{
    let text = display_text(value);
    let ghost whole = runtime_view(*value);
    let content = match open_value(value) {
        Opened::Nothing => Content::Nothing,
        Opened::Boolean(flag) => Content::Boolean(flag),
        Opened::Number(bits) => {
            let fraction = match number_json(value) {
                Some(number) => number,
                None => json_null(),
            };
            Content::Number { bits, fraction }
        },
        Opened::Text(string) => Content::Text(string),
        Opened::Array(items) => {
            let mut copies: Vec<ScriptValue> = Vec::new();
            let mut i: usize = 0;
            while i < items.len()
                invariant
                    i <= items@.len(),
                    whole == runtime_view(*value),
                    whole.content == ContentView::Array(runtime_views(items@)),
                    copies@.len() == i,
                    forall|j: int|
                        0 <= j < i ==> (#[trigger] copies@[j])@ == runtime_view(items@[j])
                            && is_sound(copies@[j]@),
                decreases items@.len() - i,
            {
                assert(whole.content->Array_0[i as int] == runtime_view(items@[i as int]));
                assert(decreases_to!(whole => whole.content));
                assert(decreases_to!(whole.content => whole.content->Array_0));
                assert(decreases_to!(whole.content->Array_0 => whole.content->Array_0[i as int]));
                copies.push(read_value(&items[i]));
                i += 1;
            }
            proof {
                assert(value_views(copies@) =~= runtime_views(items@));
                assert forall|j: int| 0 <= j < items@.len() implies is_sound(
                    #[trigger] runtime_views(items@)[j],
                ) by {
                    assert(is_sound(copies@[j]@));
                }
            }
            Content::Array(copies)
        },
        Opened::Dict(entries) => {
            let mut copies: Vec<(String, ScriptValue)> = Vec::new();
            let mut i: usize = 0;
            while i < entries.len()
                invariant
                    i <= entries@.len(),
                    whole == runtime_view(*value),
                    whole.content == ContentView::Dict(runtime_entries(entries@)),
                    copies@.len() == i,
                    forall|j: int|
                        0 <= j < i ==> (#[trigger] copies@[j]).0@ == entries@[j].0@
                            && copies@[j].1@ == runtime_view(entries@[j].1) && is_sound(
                            copies@[j].1@,
                        ),
                decreases entries@.len() - i,
            {
                let ghost entry = whole.content->Dict_0[i as int];
                assert(entry.1 == runtime_view(entries@[i as int].1));
                assert(decreases_to!(whole => whole.content));
                assert(decreases_to!(whole.content => whole.content->Dict_0));
                assert(decreases_to!(whole.content->Dict_0 => whole.content->Dict_0[i as int]));
                assert(decreases_to!(entry => entry.1));
                copies.push((entries[i].0.clone(), read_value(&entries[i].1)));
                i += 1;
            }
            proof {
                assert(entry_views(copies@) =~= runtime_entries(entries@));
                assert forall|j: int| 0 <= j < entries@.len() implies is_sound(
                    (#[trigger] runtime_entries(entries@)[j]).1,
                ) by {
                    assert(is_sound(copies@[j].1@));
                }
            }
            Content::Dict(copies)
        },
        Opened::Markdown => Content::Markdown {
            text: markdown_text(value),
            html: markdown_html(value),
        },
        Opened::Function => Content::Function,
        Opened::Other => Content::Other,
    };
    let copy = ScriptValue { content, text };
    proof {
        lemma_view(copy);
    }
    copy
}

/// The value of the last entry with this key.
pub open spec fn last_of<V>(entries: Seq<(Seq<char>, V)>, key: Seq<char>) -> Option<V>
    decreases entries.len(),
{
    if entries.len() == 0 {
        None
    } else if entries.last().0 == key {
        Some(entries.last().1)
    } else {
        last_of(entries.drop_last(), key)
    }
}

/// An entry more at the end hides those with its key, and no others.
pub proof fn lemma_last_push<V>(entries: Seq<(Seq<char>, V)>, entry: (Seq<char>, V))
    ensures
        forall|key: Seq<char>|
            #[trigger] last_of(entries.push(entry), key) == (if key == entry.0 {
                Some(entry.1)
            } else {
                last_of(entries, key)
            }),
{
    assert(entries.push(entry).drop_last() =~= entries);
}

/// Whether no two entries have the same key.
pub open spec fn distinct<V>(entries: Seq<(Seq<char>, V)>) -> bool {
    forall|i: int, j: int|
        0 <= i < j < entries.len() ==> (#[trigger] entries[i]).0 != (#[trigger] entries[j]).0
}

/// Whether a value is the dictionary that these entries make: of several entries with one key the
/// last counts. In which order the dictionary has them is left open.
pub open spec fn is_dict<V>(
    value: ValueView,
    entries: Seq<(Seq<char>, V)>,
    holds: spec_fn(ValueView, V) -> bool,
) -> bool {
    match value.content {
        ContentView::Dict(found) => {
            &&& distinct(found)
            &&& forall|key: Seq<char>|
                match #[trigger] json::get(found, key) {
                    Some(item) => last_of(entries, key) matches Some(wanted) && holds(item, wanted),
                    None => last_of(entries, key) is None,
                }
        },
        _ => false,
    }
}

/// The view of a text value.
pub open spec fn text_view(text: Seq<char>) -> ValueView {
    ValueView { content: ContentView::Text(text), text }
}

/// Whether a value is the dictionary of texts that these entries make.
pub open spec fn is_text_dict(value: ValueView, entries: Seq<(Seq<char>, Seq<char>)>) -> bool {
    is_dict(value, entries, |item: ValueView, wanted: Seq<char>| item == text_view(wanted))
}

/// `RuntimeValue::String` holds the given text and shows it as it stands.
#[verifier::external_body]
pub(crate) fn text_value(text: String) -> (made: mq_lang::RuntimeValue)
    ensures
        runtime_view(made) == text_view(text@),
{
    mq_lang::RuntimeValue::String(text)
}

/// `RuntimeValue::Dict` holds its entries by interned name. Of several entries with one name the
/// last counts. The order of the entries depends on the order in which their names were first
/// interned in the process, so it is left open, and with it the text that the dictionary shows.
#[verifier::external_body]
pub(crate) fn dict_value(entries: Vec<(String, mq_lang::RuntimeValue)>) -> (made:
    mq_lang::RuntimeValue)
    ensures
        is_dict(
            runtime_view(made),
            runtime_entries(entries@),
            |item: ValueView, wanted: ValueView| item == wanted,
        ),
{
    mq_lang::RuntimeValue::Dict(
        entries.into_iter().map(|(k, v)| (mq_lang::Ident::new(&k), v)).collect(),
    )
}

/// Make the dictionary of texts that these entries make.
pub fn text_dict(entries: &Vec<(String, String)>) -> (made: mq_lang::RuntimeValue)
    ensures
        is_text_dict(runtime_view(made), text::pair_views(entries@)),
{
    let ghost pairs = text::pair_views(entries@);
    let mut list: Vec<(String, mq_lang::RuntimeValue)> = Vec::new();
    let mut i: usize = 0;
    while i < entries.len()
        invariant
            i <= entries@.len(),
            pairs == text::pair_views(entries@),
            forall|key: Seq<char>|
                #[trigger] last_of(runtime_entries(list@), key) == (match last_of(
                    pairs.take(i as int),
                    key,
                ) {
                    Some(text) => Some(text_view(text)),
                    None => None,
                }),
        decreases entries@.len() - i,
    {
        let ghost before = list@;
        let item = text_value(entries[i].1.clone());
        let ghost added = (pairs[i as int].0, runtime_view(item));
        list.push((entries[i].0.clone(), item));
        proof {
            assert(runtime_entries(list@) =~= runtime_entries(before).push(added));
            lemma_last_push(runtime_entries(before), added);
            assert(pairs.take(i + 1) =~= pairs.take(i as int).push(pairs[i as int]));
            lemma_last_push(pairs.take(i as int), pairs[i as int]);
        }
        i += 1;
    }
    let made = dict_value(list);
    proof {
        assert(pairs.take(entries@.len() as int) =~= pairs);
        let found = runtime_view(made).content->Dict_0;
        assert forall|key: Seq<char>|
            match #[trigger] json::get(found, key) {
                Some(item) => last_of(pairs, key) matches Some(wanted) && item == text_view(wanted),
                None => last_of(pairs, key) is None,
            } by {
            assert(last_of(runtime_entries(list@), key) == last_of(runtime_entries(list@), key));
        }
    }
    made
}

/// A dictionary of texts has, under the name of each entry that no later one repeats, its text, and
/// nothing under any other name.
pub proof fn law_text_dictionary(
    value: ValueView,
    entries: Seq<(Seq<char>, Seq<char>)>,
    i: int,
    name: Seq<char>,
)
    requires
        is_text_dict(value, entries),
    ensures
        value.content matches ContentView::Dict(found) && {
            &&& 0 <= i < entries.len() && (forall|j: int|
                i < j < entries.len() ==> (#[trigger] entries[j]).0 != entries[i].0) ==> json::get(
                found,
                entries[i].0,
            ) == Some(ValueView { content: ContentView::Text(entries[i].1), text: entries[i].1 })
            &&& (forall|j: int| 0 <= j < entries.len() ==> (#[trigger] entries[j]).0 != name)
                ==> json::get(found, name) is None
        },
{
    let found = value.content->Dict_0;
    lemma_last_entry(entries, i, name);
    assert(json::get(found, name) is Some == json::get(found, name) is Some);
    if 0 <= i < entries.len() {
        lemma_last_entry(entries, i, entries[i].0);
        assert(json::get(found, entries[i].0) is Some == json::get(found, entries[i].0) is Some);
    }
}

/// The value of the last entry with a key is that of the entry that no later one repeats.
pub proof fn lemma_last_entry<V>(entries: Seq<(Seq<char>, V)>, i: int, name: Seq<char>)
    ensures
        0 <= i < entries.len() && entries[i].0 == name && (forall|j: int|
            i < j < entries.len() ==> (#[trigger] entries[j]).0 != name) ==> last_of(entries, name)
            == Some(entries[i].1),
        (forall|j: int| 0 <= j < entries.len() ==> (#[trigger] entries[j]).0 != name) ==> last_of(
            entries,
            name,
        ) is None,
    decreases entries.len(),
{
    if entries.len() > 0 {
        let before = entries.drop_last();
        lemma_last_entry(before, i, name);
        assert(forall|j: int| 0 <= j < before.len() ==> (#[trigger] before[j]) == entries[j]);
        assert(entries.last() == entries[entries.len() - 1]);
        if 0 <= i < before.len() {
            assert(before[i] == entries[i]);
        }
    }
}

/// The JSON value of a double is the double where it is finite, and null where it is not.
pub proof fn law_double_json(bits: u64)
    ensures
        (bits as int / 0x10_0000_0000_0000) % 2048 != 2047 ==> double_json(bits)
            == json::JsonView::Float(bits),
        (bits as int / 0x10_0000_0000_0000) % 2048 == 2047 ==> double_json(bits)
            == json::JsonView::Null,
{
}

} // verus!
