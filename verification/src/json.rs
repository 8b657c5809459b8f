//! JSON values as the library reads them.

use vstd::prelude::*;
use vstd::string::*;
use vstd::utf8::*;

verus! {

/// A JSON value. Of a number it keeps the unsigned whole number that it is, if it is one.
#[derive(Debug)]
pub enum Json {
    Null,
    Bool(bool),
    Number(Option<u64>),
    Text(String),
    Array(Vec<Json>),
    Object(Vec<(String, Json)>),
}

/// The number of bytes that a text takes in UTF-8.
pub open spec fn utf8_len(s: Seq<char>) -> nat {
    encode_utf8(s).len()
}

/// The number of bytes that a text takes in UTF-8.
pub fn byte_len(s: &str) -> (r: usize)
    ensures
        r == utf8_len(s@),
{
    s.as_bytes().len()
}

// ── Values by their contents ──────────────────────────────────────────────────

/// A JSON value with its texts as characters.
pub enum JsonModel {
    Null,
    Bool(bool),
    Number(Option<u64>),
    Text(Seq<char>),
    Array(Seq<JsonModel>),
    Object(Seq<(Seq<char>, JsonModel)>),
}

/// What a JSON value holds.
pub open spec fn json_model(value: Json) -> JsonModel
    decreases value,
{
    match value {
        Json::Null => JsonModel::Null,
        Json::Bool(b) => JsonModel::Bool(b),
        Json::Number(n) => JsonModel::Number(n),
        Json::Text(s) => JsonModel::Text(s@),
        Json::Array(items) => JsonModel::Array(item_models(items@)),
        Json::Object(entries) => JsonModel::Object(entry_models(entries@)),
    }
}

/// What the items of an array hold.
pub open spec fn item_models(items: Seq<Json>) -> Seq<JsonModel>
    decreases items,
{
    if items.len() == 0 {
        Seq::empty()
    } else {
        item_models(items.drop_last()).push(json_model(items.last()))
    }
}

/// What the entries of an object hold.
pub open spec fn entry_models(entries: Seq<(String, Json)>) -> Seq<(Seq<char>, JsonModel)>
    decreases entries,
{
    if entries.len() == 0 {
        Seq::empty()
    } else {
        entry_models(entries.drop_last()).push(
            (entries.last().0@, json_model(entries.last().1)),
        )
    }
}

impl View for Json {
    type V = JsonModel;

    open spec fn view(&self) -> JsonModel {
        json_model(*self)
    }
}

pub proof fn lemma_item_models(items: Seq<Json>)
    ensures
        item_models(items).len() == items.len(),
        forall|i: int| 0 <= i < items.len() ==> #[trigger] item_models(items)[i] == items[i]@,
    decreases items.len(),
{
    if items.len() > 0 {
        lemma_item_models(items.drop_last());
        assert forall|i: int| 0 <= i < items.len() implies #[trigger] item_models(items)[i]
            == items[i]@ by {
            if i < items.len() - 1 {
                assert(item_models(items.drop_last())[i] == items.drop_last()[i]@);
            }
        }
    }
}

pub proof fn lemma_entry_models(entries: Seq<(String, Json)>)
    ensures
        entry_models(entries).len() == entries.len(),
        forall|i: int|
            0 <= i < entries.len() ==> #[trigger] entry_models(entries)[i] == (
                entries[i].0@,
                entries[i].1@,
            ),
    decreases entries.len(),
{
    if entries.len() > 0 {
        lemma_entry_models(entries.drop_last());
        assert forall|i: int| 0 <= i < entries.len() implies #[trigger] entry_models(entries)[i]
            == (entries[i].0@, entries[i].1@) by {
            if i < entries.len() - 1 {
                assert(entry_models(entries.drop_last())[i] == (
                    entries.drop_last()[i].0@,
                    entries.drop_last()[i].1@,
                ));
            }
        }
    }
}

// ── Bounds on strings ─────────────────────────────────────────────────────────

/// Whether every string in a JSON value, keys of objects included, takes at most
/// `max_bytes` bytes in UTF-8.
pub open spec fn strings_within(value: JsonModel, max_bytes: int) -> bool
    decreases value,
{
    match value {
        JsonModel::Text(s) => utf8_len(s) <= max_bytes,
        JsonModel::Array(values) => items_within(values, max_bytes),
        JsonModel::Object(entries) => entries_within(entries, max_bytes),
        _ => true,
    }
}

/// The same of every item of an array.
pub open spec fn items_within(values: Seq<JsonModel>, max_bytes: int) -> bool
    decreases values,
{
    values.len() == 0 || (items_within(values.drop_last(), max_bytes) && strings_within(
        values.last(),
        max_bytes,
    ))
}

/// The same of every entry of an object.
pub open spec fn entries_within(entries: Seq<(Seq<char>, JsonModel)>, max_bytes: int) -> bool
    decreases entries,
{
    entries.len() == 0 || (entries_within(entries.drop_last(), max_bytes) && utf8_len(
        entries.last().0,
    ) <= max_bytes && strings_within(entries.last().1, max_bytes))
}

/// One item that breaks the bound breaks it for the array.
proof fn lemma_items_prefix(values: Seq<JsonModel>, i: int, max_bytes: int)
    requires
        0 <= i <= values.len(),
        items_within(values, max_bytes),
    ensures
        items_within(values.take(i), max_bytes),
    decreases values.len(),
{
    if i < values.len() {
        assert(values.drop_last().take(i) =~= values.take(i));
        lemma_items_prefix(values.drop_last(), i, max_bytes);
    } else {
        assert(values.take(i) =~= values);
    }
}

/// One entry that breaks the bound breaks it for the object.
proof fn lemma_entries_prefix(entries: Seq<(Seq<char>, JsonModel)>, i: int, max_bytes: int)
    requires
        0 <= i <= entries.len(),
        entries_within(entries, max_bytes),
    ensures
        entries_within(entries.take(i), max_bytes),
    decreases entries.len(),
{
    if i < entries.len() {
        assert(entries.drop_last().take(i) =~= entries.take(i));
        lemma_entries_prefix(entries.drop_last(), i, max_bytes);
    } else {
        assert(entries.take(i) =~= entries);
    }
}

/// Whether every string in a JSON value, keys of objects included, takes at most
/// `max_bytes` bytes.
pub fn json_strings_within(value: &Json, max_bytes: usize) -> (r: bool)
    ensures
        r == strings_within(value@, max_bytes as int),
    decreases value,
{
    match value {
        Json::Text(s) => byte_len(s.as_str()) <= max_bytes,
        Json::Array(values) => {
            let ghost all = item_models(values@);
            proof {
                lemma_item_models(values@);
            }
            let mut i: usize = 0;
            while i < values.len()
                invariant
                    i <= values@.len(),
                    *value == Json::Array(*values),
                    all == item_models(values@),
                    all.len() == values@.len(),
                    forall|j: int| 0 <= j < values@.len() ==> #[trigger] all[j] == values@[j]@,
                    decreases_to!(value => values),
                    items_within(all.take(i as int), max_bytes as int),
                decreases values@.len() - i,
            {
                assert(decreases_to!(values => values@[i as int]));
                let ghost next = all.take(i + 1);
                assert(next.drop_last() =~= all.take(i as int));
                assert(next.last() == all[i as int]);
                if !json_strings_within(&values[i], max_bytes) {
                    proof {
                        assert(!items_within(next, max_bytes as int));
                        if items_within(all, max_bytes as int) {
                            lemma_items_prefix(all, i + 1, max_bytes as int);
                        }
                    }
                    return false;
                }
                i += 1;
            }
            assert(all.take(all.len() as int) =~= all);
            true
        },
        Json::Object(entries) => {
            let ghost all = entry_models(entries@);
            proof {
                lemma_entry_models(entries@);
            }
            let mut i: usize = 0;
            while i < entries.len()
                invariant
                    i <= entries@.len(),
                    *value == Json::Object(*entries),
                    all == entry_models(entries@),
                    all.len() == entries@.len(),
                    forall|j: int|
                        0 <= j < entries@.len() ==> #[trigger] all[j] == (
                            entries@[j].0@,
                            entries@[j].1@,
                        ),
                    decreases_to!(value => entries),
                    entries_within(all.take(i as int), max_bytes as int),
                decreases entries@.len() - i,
            {
                assert(decreases_to!(entries => entries@[i as int]));
                let ghost next = all.take(i + 1);
                assert(next.drop_last() =~= all.take(i as int));
                assert(next.last() == all[i as int]);
                if byte_len(entries[i].0.as_str()) > max_bytes || !json_strings_within(
                    &entries[i].1,
                    max_bytes,
                ) {
                    proof {
                        assert(!entries_within(next, max_bytes as int));
                        if entries_within(all, max_bytes as int) {
                            lemma_entries_prefix(all, i + 1, max_bytes as int);
                        }
                    }
                    return false;
                }
                i += 1;
            }
            assert(all.take(all.len() as int) =~= all);
            true
        },
        _ => true,
    }
}

// ── Reading values ────────────────────────────────────────────────────────────

/// The value under a key of an object.
pub open spec fn field(value: JsonModel, key: Seq<char>) -> Option<JsonModel> {
    match value {
        JsonModel::Object(entries) => field_in(entries, key),
        _ => None,
    }
}

/// The value of the first of the entries with a key.
pub open spec fn field_in(entries: Seq<(Seq<char>, JsonModel)>, key: Seq<char>) -> Option<JsonModel>
    decreases entries.len(),
{
    if entries.len() == 0 {
        None
    } else if entries[0].0 == key {
        Some(entries[0].1)
    } else {
        field_in(entries.skip(1), key)
    }
}

/// The text that a value is, if it is one.
pub open spec fn text_in(value: Option<JsonModel>) -> Option<Seq<char>> {
    match value {
        Some(JsonModel::Text(s)) => Some(s),
        _ => None,
    }
}

/// The items of a value, if it is an array.
pub open spec fn items_in(value: Option<JsonModel>) -> Option<Seq<JsonModel>> {
    match value {
        Some(JsonModel::Array(items)) => Some(items),
        _ => None,
    }
}

/// What an optional value holds.
pub open spec fn opt_json(value: Option<&Json>) -> Option<JsonModel> {
    match value {
        Some(v) => Some(v@),
        None => None,
    }
}

impl Json {
    /// The value under a key of an object.
    pub fn get(&self, key: &str) -> (r: Option<&Json>)
        ensures
            opt_json(r) == field(self@, key@),
    {
        match self {
            Json::Object(entries) => {
                let ghost all = entry_models(entries@);
                proof {
                    lemma_entry_models(entries@);
                }
                let mut i: usize = 0;
                assert(all.skip(0) =~= all);
                while i < entries.len()
                    invariant
                        i <= entries@.len(),
                        *self == Json::Object(*entries),
                        all == entry_models(entries@),
                        all.len() == entries@.len(),
                        forall|i: int|
                            0 <= i < entries@.len() ==> #[trigger] all[i] == (
                                entries@[i].0@,
                                entries@[i].1@,
                            ),
                        field_in(all, key@) == field_in(all.skip(i as int), key@),
                    decreases entries@.len() - i,
                {
                    assert(all.skip(i as int)[0] == all[i as int]);
                    assert(all[i as int] == (entries@[i as int].0@, entries@[i as int].1@));
                    if crate::text::same(entries[i].0.as_str(), key) {
                        return Some(&entries[i].1);
                    }
                    assert(all.skip(i as int).skip(1) =~= all.skip(i + 1));
                    i += 1;
                }
                assert(all.skip(all.len() as int).len() == 0);
                None
            },
            _ => None,
        }
    }

    /// The text that this value is, if it is one.
    pub fn as_text(&self) -> (r: Option<&str>)
        ensures
            match r {
                Some(s) => text_in(Some(self@)) == Some(s@),
                None => text_in(Some(self@)) is None,
            },
    {
        match self {
            Json::Text(s) => Some(s.as_str()),
            _ => None,
        }
    }
}

/// `serde_json::Value`, a JSON value as that crate holds it.
#[verifier::external_type_specification]
#[verifier::external_body]
pub struct ExValue(serde_json::Value);

/// What a value of that crate holds.
pub uninterp spec fn value_model(value: serde_json::Value) -> JsonModel;

/// The bytes that a value of that crate is written down as, if it is.
pub uninterp spec fn json_encoding(value: serde_json::Value) -> Option<Seq<u8>>;

/// The text that a value of that crate is shown as.
pub uninterp spec fn json_text(value: serde_json::Value) -> Seq<char>;

/// The value that some bytes write down in JSON, if they write one down.
pub uninterp spec fn parsed_json(bytes: Seq<u8>) -> Option<JsonModel>;

/// What an optional value of that crate holds.
pub open spec fn opt_value(value: Option<serde_json::Value>) -> Option<JsonModel> {
    match value {
        Some(v) => Some(value_model(v)),
        None => None,
    }
}

/// `serde_json::from_slice` reads a JSON value from its bytes alone. Which bytes it takes,
/// and which value it reads, is left to it.
#[verifier::external_body]
fn parse_value(bytes: &[u8]) -> (r: Option<serde_json::Value>)
    ensures
        opt_value(r) == parsed_json(bytes@),
{
    serde_json::from_slice(bytes).ok()
}

/// A `serde_json::Value` as a value of this library: each variant becomes the variant of
/// that name, item by item, and of a number what `Number::as_u64` gives is kept.
#[verifier::external_body]
pub(crate) fn convert_value(value: &serde_json::Value) -> (r: Json)
    ensures
        r@ == value_model(*value),
{
    match value {
        serde_json::Value::Null => Json::Null,
        serde_json::Value::Bool(b) => Json::Bool(*b),
        serde_json::Value::Number(n) => Json::Number(n.as_u64()),
        serde_json::Value::String(s) => Json::Text(s.clone()),
        serde_json::Value::Array(items) => Json::Array(items.iter().map(convert_value).collect()),
        serde_json::Value::Object(entries) => Json::Object(
            entries.iter().map(|(key, value)| (key.clone(), convert_value(value))).collect(),
        ),
    }
}

/// The bytes of an encoding, if there is one.
pub open spec fn opt_bytes(bytes: Option<Vec<u8>>) -> Option<Seq<u8>> {
    match bytes {
        Some(b) => Some(b@),
        None => None,
    }
}

/// `serde_json::to_vec` writes a value down in compact JSON, from the value alone.
#[verifier::external_body]
pub(crate) fn encode_value(value: &serde_json::Value) -> (r: Option<Vec<u8>>)
    ensures
        opt_bytes(r) == json_encoding(*value),
{
    serde_json::to_vec(value).ok()
}

/// `serde_json::Value` as its `Display` shows it: in compact JSON, from the value alone.
#[verifier::external_body]
pub(crate) fn show_value(value: &serde_json::Value) -> (r: String)
    ensures
        r@ == json_text(*value),
{
    value.to_string()
}

/// A value of that crate as one of this library.
pub fn value_of(value: &serde_json::Value) -> (r: Json)
    ensures
        r@ == value_model(*value),
{
    convert_value(value)
}

/// The JSON value that some bytes write down, if they write one down.
pub fn read_json(bytes: &[u8]) -> (r: Option<Json>)
    ensures
        match r {
            Some(value) => parsed_json(bytes@) == Some(value@),
            None => parsed_json(bytes@) is None,
        },
{
    match parse_value(bytes) {
        Some(value) => Some(convert_value(&value)),
        None => None,
    }
}

/// A value's strings are within a bound exactly where each of them is: the texts and the keys of
/// all that it holds.
pub proof fn each_string_is_held_to_the_bound(
    items: Seq<JsonModel>,
    entries: Seq<(Seq<char>, JsonModel)>,
    s: Seq<char>,
    max: int,
)
    ensures
        strings_within(JsonModel::Text(s), max) <==> utf8_len(s) <= max,
        strings_within(JsonModel::Array(items), max) <==> forall|i: int|
            0 <= i < items.len() ==> strings_within(#[trigger] items[i], max),
        strings_within(JsonModel::Object(entries), max) <==> forall|i: int|
            0 <= i < entries.len() ==> utf8_len((#[trigger] entries[i]).0) <= max
                && strings_within(entries[i].1, max),
{
    lemma_items_each(items, max);
    lemma_entries_each(entries, max);
}

proof fn lemma_items_each(items: Seq<JsonModel>, max: int)
    ensures
        items_within(items, max) <==> forall|i: int|
            0 <= i < items.len() ==> strings_within(#[trigger] items[i], max),
    decreases items.len(),
{
    if items.len() > 0 {
        let rest = items.drop_last();
        lemma_items_each(rest, max);
        assert(items[items.len() - 1] == items.last());
        if items_within(items, max) {
            assert forall|i: int| 0 <= i < items.len() implies strings_within(
                #[trigger] items[i],
                max,
            ) by {
                if i < rest.len() {
                    assert(rest[i] == items[i]);
                }
            }
        }
        if forall|i: int| 0 <= i < items.len() ==> strings_within(#[trigger] items[i], max) {
            assert forall|i: int| 0 <= i < rest.len() implies strings_within(
                #[trigger] rest[i],
                max,
            ) by {
                assert(items[i] == rest[i]);
            }
        }
    }
}

proof fn lemma_entries_each(entries: Seq<(Seq<char>, JsonModel)>, max: int)
    ensures
        entries_within(entries, max) <==> forall|i: int|
            0 <= i < entries.len() ==> utf8_len((#[trigger] entries[i]).0) <= max
                && strings_within(entries[i].1, max),
    decreases entries.len(),
{
    if entries.len() > 0 {
        let rest = entries.drop_last();
        lemma_entries_each(rest, max);
        assert(entries[entries.len() - 1] == entries.last());
        if entries_within(entries, max) {
            assert forall|i: int| 0 <= i < entries.len() implies utf8_len(
                (#[trigger] entries[i]).0,
            ) <= max && strings_within(entries[i].1, max) by {
                if i < rest.len() {
                    assert(rest[i] == entries[i]);
                }
            }
        }
        if forall|i: int|
            0 <= i < entries.len() ==> utf8_len((#[trigger] entries[i]).0) <= max
                && strings_within(entries[i].1, max) {
            assert forall|i: int| 0 <= i < rest.len() implies utf8_len((#[trigger] rest[i]).0)
                <= max && strings_within(rest[i].1, max) by {
                assert(entries[i] == rest[i]);
            }
        }
    }
}

/// A key stands for the first entry under it; a value that is no object has none.
pub proof fn key_stands_for_its_first_entry(
    entries: Seq<(Seq<char>, JsonModel)>,
    key: Seq<char>,
    i: int,
)
    ensures
        0 <= i < entries.len() && entries[i].0 == key && (forall|k: int|
            0 <= k < i ==> (#[trigger] entries[k]).0 != key) ==> field(
            JsonModel::Object(entries),
            key,
        ) == Some(entries[i].1),
        (forall|k: int| 0 <= k < entries.len() ==> (#[trigger] entries[k]).0 != key) ==> field(
            JsonModel::Object(entries),
            key,
        ) is None,
        field(JsonModel::Text(key), key) is None,
        text_in(Some(JsonModel::Text(key))) == Some(key),
        text_in(Some(JsonModel::Object(entries))) is None,
        text_in(None) is None,
        items_in(Some(JsonModel::Object(entries))) is None,
        items_in(None) is None,
    decreases entries.len(),
{
    if entries.len() > 0 {
        let rest = entries.skip(1);
        key_stands_for_its_first_entry(rest, key, i - 1);
        if 0 < i < entries.len() && forall|k: int| 0 <= k < i ==> (#[trigger] entries[k]).0 != key {
            assert(entries[0].0 != key);
            assert(rest[i - 1] == entries[i]);
            assert forall|k: int| 0 <= k < i - 1 implies (#[trigger] rest[k]).0 != key by {
                assert(rest[k] == entries[k + 1]);
            }
        }
        if forall|k: int| 0 <= k < entries.len() ==> (#[trigger] entries[k]).0 != key {
            assert(entries[0].0 != key);
            assert forall|k: int| 0 <= k < rest.len() implies (#[trigger] rest[k]).0 != key by {
                assert(rest[k] == entries[k + 1]);
            }
        }
    }
}

/// The items of an array are its items.
pub proof fn array_has_its_items(items: Seq<JsonModel>)
    ensures
        items_in(Some(JsonModel::Array(items))) == Some(items),
        text_in(Some(JsonModel::Array(items))) is None,
{
}

} // verus!
