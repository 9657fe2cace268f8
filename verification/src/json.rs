//! JSON values: a model of them, and the `serde_json` operations that the library uses.

use vstd::prelude::*;

verus! {

/// The model of a JSON value. A fractional number is given by the bits of its IEEE 754 double;
/// an object's entries stand in the order in which they were first put in.
pub ghost enum JsonView {
    Null,
    Bool(bool),
    Int(int),
    Float(u64),
    Text(Seq<char>),
    Array(Seq<JsonView>),
    Object(Seq<(Seq<char>, JsonView)>),
}

/// The value under `key`, if there is one.
pub open spec fn get<V>(entries: Seq<(Seq<char>, V)>, key: Seq<char>) -> Option<V>
    decreases entries.len(),
{
    if entries.len() == 0 {
        None
    } else if entries[0].0 == key {
        Some(entries[0].1)
    } else {
        get(entries.drop_first(), key)
    }
}

/// The entries with `value` under `key`: in its old place where the key is there already, at the
/// end where it is not.
pub open spec fn put<V>(entries: Seq<(Seq<char>, V)>, key: Seq<char>, value: V) -> Seq<
    (Seq<char>, V),
>
    decreases entries.len(),
{
    if entries.len() == 0 {
        seq![(key, value)]
    } else if entries[0].0 == key {
        seq![(key, value)] + entries.drop_first()
    } else {
        seq![entries[0]] + put(entries.drop_first(), key, value)
    }
}

/// Whether no entry has this key.
pub open spec fn lacks<V>(entries: Seq<(Seq<char>, V)>, key: Seq<char>) -> bool {
    forall|i: int| 0 <= i < entries.len() ==> (#[trigger] entries[i]).0 != key
}

/// A new key goes to the end.
pub proof fn lemma_put_new<V>(entries: Seq<(Seq<char>, V)>, key: Seq<char>, value: V)
    requires
        lacks(entries, key),
    ensures
        put(entries, key, value) == entries.push((key, value)),
    decreases entries.len(),
{
    if entries.len() > 0 {
        let rest = entries.drop_first();
        assert forall|i: int| 0 <= i < rest.len() implies (#[trigger] rest[i]).0 != key by {
            assert(rest[i] == entries[i + 1]);
        }
        lemma_put_new(rest, key, value);
    }
    assert(put(entries, key, value) =~= entries.push((key, value)));
}

/// What was put under a key is found under it, and nothing changes under the others.
pub proof fn lemma_get_put<V>(
    entries: Seq<(Seq<char>, V)>,
    key: Seq<char>,
    value: V,
    other: Seq<char>,
)
    ensures
        get(put(entries, key, value), other) == (if other == key {
            Some(value)
        } else {
            get(entries, other)
        }),
    decreases entries.len(),
{
    if entries.len() > 0 {
        let after = put(entries, key, value);
        assert(after.len() > 0);
        if entries[0].0 == key {
            assert(after.drop_first() =~= entries.drop_first());
        } else {
            lemma_get_put(entries.drop_first(), key, value, other);
            assert(after.drop_first() =~= put(entries.drop_first(), key, value));
        }
    } else {
        assert(put(entries, key, value).drop_first() =~= entries);
    }
}

/// A JSON value of `serde_json`.
#[verifier::external_type_specification]
#[verifier::external_body]
pub struct ExJsonValue(serde_json::Value);

/// The entries of a JSON object of `serde_json`, which keeps their order.
#[verifier::external_type_specification]
#[verifier::external_body]
#[verifier::reject_recursive_types(K)]
#[verifier::reject_recursive_types(V)]
pub struct ExJsonMap<K, V>(serde_json::Map<K, V>);

/// What a `serde_json::Value` holds.
pub uninterp spec fn json_view(value: serde_json::Value) -> JsonView;

/// What a `serde_json::Map` holds.
pub uninterp spec fn map_view(map: serde_json::Map<String, serde_json::Value>) -> Seq<
    (Seq<char>, JsonView),
>;

/// The compact text of a JSON value, as the `Display` of `serde_json::Value` writes it.
pub uninterp spec fn json_text(value: JsonView) -> Seq<char>;

/// What a list of JSON values holds.
pub open spec fn json_views(list: Seq<serde_json::Value>) -> Seq<JsonView> {
    list.map_values(|v: serde_json::Value| json_view(v))
}

/// Cloning a `serde_json::Value` gives a value that holds the same.
pub assume_specification[ <serde_json::Value as Clone>::clone ](v: &serde_json::Value) -> (copy:
    serde_json::Value)
    ensures
        json_view(copy) == json_view(*v),
;

/// `serde_json::Value::Null` is the JSON null.
#[verifier::external_body]
pub(crate) fn json_null() -> (value: serde_json::Value)
    ensures
        json_view(value) == JsonView::Null,
{
    serde_json::Value::Null
}

/// `serde_json::Value::Bool` holds the given truth value.
#[verifier::external_body]
pub(crate) fn json_bool(flag: bool) -> (value: serde_json::Value)
    ensures
        json_view(value) == JsonView::Bool(flag),
{
    serde_json::Value::Bool(flag)
}

/// `serde_json::Number::from` an `i64` is that integer.
#[verifier::external_body]
pub(crate) fn json_int(n: i64) -> (value: serde_json::Value)
    ensures
        json_view(value) == JsonView::Int(n as int),
{
    serde_json::Value::Number(serde_json::Number::from(n))
}

/// `serde_json::Value::String` holds the given text.
#[verifier::external_body]
pub(crate) fn json_string(text: String) -> (value: serde_json::Value)
    ensures
        json_view(value) == JsonView::Text(text@),
{
    serde_json::Value::String(text)
}

/// `serde_json::Value::Array` holds the given values in their order.
#[verifier::external_body]
pub(crate) fn json_array(items: Vec<serde_json::Value>) -> (value: serde_json::Value)
    ensures
        json_view(value) == JsonView::Array(json_views(items@)),
{
    serde_json::Value::Array(items)
}

/// `serde_json::Value::Object` holds the given entries in their order.
#[verifier::external_body]
pub(crate) fn json_object(map: serde_json::Map<String, serde_json::Value>) -> (value:
    serde_json::Value)
    ensures
        json_view(value) == JsonView::Object(map_view(map)),
{
    serde_json::Value::Object(map)
}

/// `serde_json::Map::new` has no entries.
#[verifier::external_body]
pub(crate) fn new_map() -> (map: serde_json::Map<String, serde_json::Value>)
    ensures
        map_view(map).len() == 0,
{
    serde_json::Map::new()
}

/// `serde_json::Map::insert` puts a value under a key; a key that is there already keeps its
/// place.
#[verifier::external_body]
pub(crate) fn map_insert(
    map: &mut serde_json::Map<String, serde_json::Value>,
    key: String,
    value: serde_json::Value,
)
    ensures
        map_view(*final(map)) == put(map_view(*old(map)), key@, json_view(value)),
{
    map.insert(key, value);
}

/// The entries of the object under `key`, none where the key is not there.
pub open spec fn object_under(entries: Seq<(Seq<char>, JsonView)>, key: Seq<char>) -> Seq<
    (Seq<char>, JsonView),
> {
    match get(entries, key) {
        Some(JsonView::Object(inner)) => inner,
        _ => seq![],
    }
}

/// `serde_json::Map::entry` with `or_insert` gives access to the value under `key`, which is the
/// object with the given entries where the key was not there. A key that is there already keeps
/// its place.
#[verifier::external_body]
pub(crate) fn object_entry<'a>(
    map: &'a mut serde_json::Map<String, serde_json::Value>,
    key: String,
    fresh: serde_json::Map<String, serde_json::Value>,
) -> (item: &'a mut serde_json::Map<String, serde_json::Value>)
    requires
        get(map_view(*old(map)), key@) is Some ==> get(map_view(*old(map)), key@)->0 is Object,
    ensures
        map_view(*item) == (match get(map_view(*old(map)), key@) {
            Some(JsonView::Object(inner)) => inner,
            _ => map_view(fresh),
        }),
        map_view(*final(map)) == put(
            map_view(*old(map)),
            key@,
            JsonView::Object(map_view(*final(item))),
        ),
{
    map.entry(key).or_insert(serde_json::Value::Object(fresh)).as_object_mut().unwrap()
}

/// The `Display` of `serde_json::Value` writes compact JSON, which depends on the value alone.
#[verifier::external_body]
pub(crate) fn render(value: &serde_json::Value) -> (text: String)
    ensures
        text@ == json_text(json_view(*value)),
{
    value.to_string()
}

/// What is found under a key is the value of the first entry with that key; nothing is where no
/// entry has it.
pub proof fn law_get<V>(entries: Seq<(Seq<char>, V)>, i: int, key: Seq<char>)
    ensures
        0 <= i < entries.len() && entries[i].0 == key && (forall|j: int|
            0 <= j < i ==> (#[trigger] entries[j]).0 != key) ==> get(entries, key) == Some(
            entries[i].1,
        ),
        get(entries, key) is None <==> (forall|j: int|
            0 <= j < entries.len() ==> (#[trigger] entries[j]).0 != key),
    decreases entries.len(),
{
    if entries.len() > 0 {
        let rest = entries.drop_first();
        law_get(rest, i - 1, key);
        assert(forall|j: int| 0 <= j < rest.len() ==> (#[trigger] rest[j]) == entries[j + 1]);
        if entries[0].0 != key {
            if forall|j: int| 0 <= j < rest.len() ==> (#[trigger] rest[j]).0 != key {
                assert forall|j: int| 0 <= j < entries.len() implies (#[trigger] entries[j]).0
                    != key by {
                    if j > 0 {
                        assert(rest[j - 1] == entries[j]);
                    }
                }
            }
            if 0 < i < entries.len() {
                assert(rest[i - 1] == entries[i]);
            }
        }
    }
}

/// A value that is put under a key that was there already takes the place of the one before it,
/// and the other entries stay where they are; under a new key it goes to the end.
pub proof fn law_put<V>(entries: Seq<(Seq<char>, V)>, i: int, key: Seq<char>, value: V)
    ensures
        0 <= i < entries.len() && entries[i].0 == key && (forall|j: int|
            0 <= j < i ==> (#[trigger] entries[j]).0 != key) ==> put(entries, key, value)
            == entries.update(i, (key, value)),
        (forall|j: int| 0 <= j < entries.len() ==> (#[trigger] entries[j]).0 != key) ==> put(
            entries,
            key,
            value,
        ) == entries.push((key, value)),
    decreases entries.len(),
{
    if entries.len() > 0 {
        let rest = entries.drop_first();
        law_put(rest, i - 1, key, value);
        assert(forall|j: int| 0 <= j < rest.len() ==> (#[trigger] rest[j]) == entries[j + 1]);
        if 0 < i < entries.len() {
            assert(rest[i - 1] == entries[i]);
        }
        if 0 <= i < entries.len() && entries[i].0 == key && (forall|j: int|
            0 <= j < i ==> (#[trigger] entries[j]).0 != key) {
            assert(put(entries, key, value) =~= entries.update(i, (key, value)));
        }
    }
    if forall|j: int| 0 <= j < entries.len() ==> (#[trigger] entries[j]).0 != key {
        lemma_put_new(entries, key, value);
    }
}

/// What is under a key that holds no object counts as an object without entries.
pub proof fn law_object_under(entries: Seq<(Seq<char>, JsonView)>, key: Seq<char>)
    ensures
        get(entries, key) matches Some(JsonView::Object(inner)) ==> object_under(entries, key)
            == inner,
        get(entries, key) is None ==> object_under(entries, key).len() == 0,
{
}

} // verus!
