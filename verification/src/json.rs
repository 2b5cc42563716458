//! JSON values of `serde_json`, and what they hold.

use serde_json::Value;

use vstd::prelude::*;
use vstd::utf8::encode_utf8;

use crate::text::string_models;

verus! {

/// `serde_json::Value`: a JSON value.
#[verifier::external_type_specification]
#[verifier::external_body]
pub struct ExValue(Value);

/// What a JSON value holds. A number is a whole one of 64 bits or a float,
/// which is known by its bits.
pub enum Json {
    Null,
    Bool(bool),
    Unsigned(u64),
    Negative(i64),
    Float(u64),
    Text(Seq<char>),
    List(Seq<Json>),
    Object(Map<Seq<char>, Json>),
}

/// What a JSON value holds.
pub uninterp spec fn json_view(value: Value) -> Json;

/// What bytes hold as JSON; `None` where they are none.
pub uninterp spec fn json_parse(bytes: Seq<u8>) -> Option<Json>;

/// How a JSON value is written without spaces.
pub uninterp spec fn json_text(json: Json) -> Seq<char>;

pub open spec fn json_views(values: Seq<Value>) -> Seq<Json> {
    Seq::new(values.len(), |i: int| json_view(values[i]))
}

/// Whether a value holds no floats and is nested no deeper than so many levels.
pub open spec fn is_plain(json: Json, depth: nat) -> bool
    decreases depth,
{
    match json {
        Json::Float(_) => false,
        Json::List(items) => depth > 0 && forall|i: int|
            0 <= i < items.len() ==> is_plain(#[trigger] items[i], (depth - 1) as nat),
        Json::Object(fields) => depth > 0 && forall|key: Seq<char>| #[trigger]
            fields.contains_key(key) ==> is_plain(fields[key], (depth - 1) as nat),
        _ => true,
    }
}

/// Whether a value is nested no deeper than so many levels.
pub open spec fn is_nested(json: Json, depth: nat) -> bool
    decreases depth,
{
    match json {
        Json::List(items) => depth > 0 && forall|i: int|
            0 <= i < items.len() ==> is_nested(#[trigger] items[i], (depth - 1) as nat),
        Json::Object(fields) => depth > 0 && forall|key: Seq<char>| #[trigger]
            fields.contains_key(key) ==> is_nested(fields[key], (depth - 1) as nat),
        _ => true,
    }
}

/// Whether a value that is nested no deeper than so many levels was read as
/// another one: lists of the same length, objects with the same keys, floats as
/// floats, and everything else as it was.
pub open spec fn is_read_as(json: Json, read: Json, depth: nat) -> bool
    decreases depth,
{
    match json {
        Json::Float(_) => read is Float,
        Json::List(items) => depth > 0 && (read matches Json::List(others) && others.len()
            == items.len() && forall|i: int|
            0 <= i < items.len() ==> is_read_as(
                #[trigger] items[i],
                others[i],
                (depth - 1) as nat,
            )),
        Json::Object(fields) => depth > 0 && (read matches Json::Object(others) && others.dom()
            == fields.dom() && forall|key: Seq<char>| #[trigger]
            fields.contains_key(key) ==> is_read_as(
                fields[key],
                others[key],
                (depth - 1) as nat,
            )),
        _ => read == json,
    }
}

/// Whether a value that is nested no deeper than so many levels is read from
/// bytes.
pub open spec fn reads_back(json: Json, bytes: Seq<u8>, depth: nat) -> bool {
    json_parse(bytes) is Some && is_read_as(json, json_parse(bytes)->0, depth)
}

/// What holds no floats is read as it was.
pub proof fn law_plain_values_are_read_back(json: Json, read: Json, depth: nat)
    requires
        is_plain(json, depth),
    ensures
        is_nested(json, depth),
        is_read_as(json, read, depth) ==> read == json,
    decreases depth,
{
    match json {
        Json::List(items) => {
            assert forall|i: int| 0 <= i < items.len() implies is_nested(
                #[trigger] items[i],
                (depth - 1) as nat,
            ) by {
                law_plain_values_are_read_back(items[i], items[i], (depth - 1) as nat);
            }
            if is_read_as(json, read, depth) {
                let others = read->List_0;
                assert forall|i: int| 0 <= i < items.len() implies #[trigger] others[i]
                    == items[i] by {
                    assert(is_read_as(items[i], others[i], (depth - 1) as nat));
                    law_plain_values_are_read_back(items[i], others[i], (depth - 1) as nat);
                }
                assert(others =~= items);
            }
        },
        Json::Object(fields) => {
            assert forall|key: Seq<char>| #[trigger] fields.contains_key(key) implies is_nested(
                fields[key],
                (depth - 1) as nat,
            ) by {
                law_plain_values_are_read_back(fields[key], fields[key], (depth - 1) as nat);
            }
            if is_read_as(json, read, depth) {
                let others = read->Object_0;
                assert forall|key: Seq<char>| fields.contains_key(key) implies #[trigger] others[key]
                    == fields[key] by {
                    assert(is_read_as(fields[key], others[key], (depth - 1) as nat));
                    law_plain_values_are_read_back(fields[key], others[key], (depth - 1) as nat);
                }
                assert(others =~= fields);
            }
        },
        _ => {},
    }
}

/// The field of an object.
pub open spec fn field_of(json: Json, key: Seq<char>) -> Option<Json> {
    match json {
        Json::Object(fields) if fields.contains_key(key) => Some(fields[key]),
        _ => None,
    }
}

/// The fields of what was read are those of the value, read in the same way.
pub proof fn law_fields_are_read_back(json: Json, read: Json, depth: nat, key: Seq<char>)
    requires
        is_read_as(json, read, depth),
    ensures
        match field_of(json, key) {
            Some(field) => depth > 0 && field_of(read, key) is Some && is_read_as(
                field,
                field_of(read, key)->0,
                (depth - 1) as nat,
            ),
            None => field_of(read, key) is None,
        },
{
    if let Json::Object(fields) = json {
        assert(fields.contains_key(key) == read->Object_0.dom().contains(key));
    }
}

/// `serde_json::from_slice`: the value depends on the bytes alone, and is nested
/// no deeper than the reader allows. Which bytes are JSON is left unsaid.
#[verifier::external_body]
pub(crate) fn json_read(bytes: &[u8]) -> (value: Option<Value>)
    ensures
        match value {
            Some(value) => json_parse(bytes@) == Some(json_view(value)) && is_nested(
                json_view(value),
                127,
            ),
            None => json_parse(bytes@) is None,
        },
{
    serde_json::from_slice(bytes).ok()
}

/// `Display` of `serde_json::Value`: the text depends on what the value holds
/// alone. That of an object begins with a brace. A value that is nested no deeper
/// than the reader allows is read back from the text, but for the bits of its
/// floats: the reader may round them differently, which is left unsaid.
#[verifier::external_body]
pub(crate) fn json_write(value: &Value) -> (text: String)
    ensures
        text@ == json_text(json_view(*value)),
        json_view(*value) is Object ==> text@.len() > 0 && text@[0] == '{',
        is_nested(json_view(*value), 127) ==> reads_back(
            json_view(*value),
            encode_utf8(text@),
            127,
        ),
{
    value.to_string()
}

/// `serde_json::Value::get` with a key: the field of an object.
#[verifier::external_body]
pub(crate) fn json_field<'a>(value: &'a Value, key: &str) -> (field: Option<&'a Value>)
    ensures
        match field {
            Some(field) => field_of(json_view(*value), key@) == Some(json_view(*field)),
            None => field_of(json_view(*value), key@) is None,
        },
{
    value.get(key)
}

/// `serde_json::Value::as_str`: the text of a text.
#[verifier::external_body]
pub(crate) fn json_str(value: &Value) -> (text: Option<&str>)
    ensures
        match text {
            Some(text) => json_view(*value) == Json::Text(text@),
            None => !(json_view(*value) is Text),
        },
{
    value.as_str()
}

/// `serde_json::Value::as_u64`: a whole number that is not negative.
#[verifier::external_body]
pub(crate) fn json_u64(value: &Value) -> (number: Option<u64>)
    ensures
        match number {
            Some(number) => json_view(*value) == Json::Unsigned(number),
            None => !(json_view(*value) is Unsigned),
        },
{
    value.as_u64()
}

/// The whole number that a value holds, where it fits in 64 bits with a sign.
pub open spec fn signed_of(json: Json) -> Option<i64> {
    match json {
        Json::Unsigned(number) if number <= i64::MAX => Some(number as i64),
        Json::Negative(number) => Some(number),
        _ => None,
    }
}

/// `serde_json::Value::as_i64`: a whole number that fits in 64 bits with a sign.
#[verifier::external_body]
pub(crate) fn json_i64(value: &Value) -> (number: Option<i64>)
    ensures
        number == signed_of(json_view(*value)),
{
    value.as_i64()
}

/// `serde_json::Value::as_bool`: a truth value.
#[verifier::external_body]
pub(crate) fn json_bool(value: &Value) -> (truth: Option<bool>)
    ensures
        match truth {
            Some(truth) => json_view(*value) == Json::Bool(truth),
            None => !(json_view(*value) is Bool),
        },
{
    value.as_bool()
}

/// `serde_json::Value::as_array`: the items of a list.
#[verifier::external_body]
pub(crate) fn json_list(value: &Value) -> (items: Option<&Vec<Value>>)
    ensures
        match items {
            Some(items) => json_view(*value) == Json::List(json_views(items@)),
            None => !(json_view(*value) is List),
        },
{
    value.as_array()
}

/// `serde_json::Value::as_object` and `serde_json::Map::iter`: the fields of an
/// object, each once.
#[verifier::external_body]
pub(crate) fn json_entries(value: &Value) -> (entries: Option<Vec<(String, Value)>>)
    ensures
        match entries {
            Some(entries) => json_view(*value) matches Json::Object(fields) && are_entries(
                fields,
                entries@,
            ),
            None => !(json_view(*value) is Object),
        },
{
    let fields = value.as_object()?;
    Some(fields.iter().map(|(key, item)| (key.clone(), item.clone())).collect())
}

/// Whether a list holds every field of an object once.
pub open spec fn are_entries(fields: Map<Seq<char>, Json>, entries: Seq<(String, Value)>) -> bool {
    &&& forall|i: int|
        0 <= i < entries.len() ==> fields.contains_key((#[trigger] entries[i]).0@)
            && fields[entries[i].0@] == json_view(entries[i].1)
    &&& forall|key: Seq<char>| #[trigger] fields.contains_key(key) ==> has_entry(entries, key)
    &&& forall|i: int, j: int|
        0 <= i < j < entries.len() ==> (#[trigger] entries[i]).0@ != (#[trigger] entries[j]).0@
}

pub open spec fn has_entry(entries: Seq<(String, Value)>, key: Seq<char>) -> bool {
    exists|i: int| 0 <= i < entries.len() && (#[trigger] entries[i]).0@ == key
}

/// `serde_json::Value::Object` of an empty map.
#[verifier::external_body]
pub(crate) fn json_object() -> (value: Value)
    ensures
        json_view(value) == Json::Object(Map::empty()),
{
    Value::Object(serde_json::Map::new())
}

/// `serde_json::Map::insert` on an object: the field is set.
#[verifier::external_body]
pub(crate) fn json_set(value: &mut Value, key: &str, item: Value)
    requires
        json_view(*old(value)) is Object,
    ensures
        json_view(*final(value)) == Json::Object(
            json_view(*old(value))->Object_0.insert(key@, json_view(item)),
        ),
{
    if let Value::Object(fields) = value {
        fields.insert(key.to_string(), item);
    }
}

/// `serde_json::Value::String`: a text.
#[verifier::external_body]
pub(crate) fn json_from_text(text: String) -> (value: Value)
    ensures
        json_view(value) == Json::Text(text@),
{
    Value::String(text)
}

/// `serde_json::Value::from` of a `u64`: a whole number.
#[verifier::external_body]
pub(crate) fn json_from_u64(number: u64) -> (value: Value)
    ensures
        json_view(value) == Json::Unsigned(number),
{
    Value::from(number)
}

/// `serde_json::Value::Bool`: a truth value.
#[verifier::external_body]
pub(crate) fn json_from_bool(truth: bool) -> (value: Value)
    ensures
        json_view(value) == Json::Bool(truth),
{
    Value::Bool(truth)
}

/// `serde_json::Value::Array`: a list.
#[verifier::external_body]
pub(crate) fn json_from_list(items: Vec<Value>) -> (value: Value)
    ensures
        json_view(value) == Json::List(json_views(items@)),
{
    Value::Array(items)
}

/// `Clone` of `serde_json::Value`: the clone holds the same.
#[verifier::external_body]
pub(crate) fn json_clone(value: &Value) -> (copy: Value)
    ensures
        json_view(copy) == json_view(*value),
{
    value.clone()
}

/// A list of texts.
pub open spec fn text_list(texts: Seq<String>) -> Json {
    Json::List(Seq::new(texts.len(), |i: int| Json::Text(texts[i]@)))
}

pub fn json_from_texts(texts: &Vec<String>) -> (value: Value)
    ensures
        json_view(value) == text_list(texts@),
{
    let mut items: Vec<Value> = Vec::new();
    let ghost wanted = Seq::new(texts@.len(), |i: int| Json::Text(texts@[i]@));
    let mut i: usize = 0;
    while i < texts.len()
        invariant
            i <= texts@.len(),
            wanted == Seq::new(texts@.len(), |i: int| Json::Text(texts@[i]@)),
            json_views(items@) =~= wanted.take(i as int),
        decreases texts@.len() - i,
    {
        let ghost before = json_views(items@);
        let item = json_from_text(texts[i].clone());
        let ghost view = json_view(item);
        items.push(item);
        assert(json_views(items@) =~= before.push(view));
        i += 1;
    }
    assert(json_views(items@) =~= wanted);
    json_from_list(items)
}

/// A list of numbers.
pub open spec fn number_list(numbers: Seq<u32>) -> Json {
    Json::List(Seq::new(numbers.len(), |i: int| Json::Unsigned(numbers[i] as u64)))
}

pub fn json_from_numbers(numbers: &Vec<u32>) -> (value: Value)
    ensures
        json_view(value) == number_list(numbers@),
{
    let mut items: Vec<Value> = Vec::new();
    let ghost wanted = Seq::new(numbers@.len(), |i: int| Json::Unsigned(numbers@[i] as u64));
    let mut i: usize = 0;
    while i < numbers.len()
        invariant
            i <= numbers@.len(),
            wanted == Seq::new(numbers@.len(), |i: int| Json::Unsigned(numbers@[i] as u64)),
            json_views(items@) =~= wanted.take(i as int),
        decreases numbers@.len() - i,
    {
        let ghost before = json_views(items@);
        let item = json_from_u64(numbers[i] as u64);
        let ghost view = json_view(item);
        items.push(item);
        assert(json_views(items@) =~= before.push(view));
        i += 1;
    }
    assert(json_views(items@) =~= wanted);
    json_from_list(items)
}

/// The text in a field; nothing where there is none.
pub open spec fn text_field(json: Json, key: Seq<char>) -> Option<Seq<char>> {
    match field_of(json, key) {
        Some(Json::Text(text)) => Some(text),
        _ => None,
    }
}

pub fn text_at<'a>(value: &'a Value, key: &str) -> (text: Option<&'a str>)
    ensures
        match text {
            Some(text) => text_field(json_view(*value), key@) == Some(text@),
            None => text_field(json_view(*value), key@) is None,
        },
{
    match json_field(value, key) {
        Some(field) => json_str(field),
        None => None,
    }
}

/// The numbers among the first `n` items of a list, cut to 32 bits. Other items
/// count for nothing.
pub open spec fn numbers_before(items: Seq<Json>, n: int) -> Seq<u32>
    decreases n,
{
    if n <= 0 {
        seq![]
    } else {
        match items[n - 1] {
            Json::Unsigned(number) => numbers_before(items, n - 1).push(number as u32),
            _ => numbers_before(items, n - 1),
        }
    }
}

/// The texts among the first `n` items of a list. Other items count for
/// nothing.
pub open spec fn texts_before(items: Seq<Json>, n: int) -> Seq<Seq<char>>
    decreases n,
{
    if n <= 0 {
        seq![]
    } else {
        match items[n - 1] {
            Json::Text(text) => texts_before(items, n - 1).push(text),
            _ => texts_before(items, n - 1),
        }
    }
}

/// The numbers in a list in a field.
pub open spec fn numbers_field(json: Json, key: Seq<char>) -> Seq<u32> {
    match field_of(json, key) {
        Some(Json::List(items)) => numbers_before(items, items.len() as int),
        _ => seq![],
    }
}

/// The texts in a list in a field.
pub open spec fn texts_field(json: Json, key: Seq<char>) -> Seq<Seq<char>> {
    match field_of(json, key) {
        Some(Json::List(items)) => texts_before(items, items.len() as int),
        _ => seq![],
    }
}

pub fn numbers_at(value: &Value, key: &str) -> (numbers: Vec<u32>)
    ensures
        numbers@ == numbers_field(json_view(*value), key@),
{
    let mut numbers: Vec<u32> = Vec::new();
    if let Some(field) = json_field(value, key) {
        if let Some(items) = json_list(field) {
            let ghost views = json_views(items@);
            let mut i: usize = 0;
            while i < items.len()
                invariant
                    i <= items@.len(),
                    views == json_views(items@),
                    numbers@ == numbers_before(views, i as int),
                decreases items@.len() - i,
            {
                assert(views[i as int] == json_view(items@[i as int]));
                if let Some(number) = json_u64(&items[i]) {
                    numbers.push(#[verifier::truncate] (number as u32));
                }
                i += 1;
            }
        }
    }
    numbers
}

pub fn texts_at(value: &Value, key: &str) -> (texts: Vec<String>)
    ensures
        string_models(texts@) == texts_field(json_view(*value), key@),
{
    let mut texts: Vec<String> = Vec::new();
    assert(string_models(texts@) =~= seq![]);
    if let Some(field) = json_field(value, key) {
        if let Some(items) = json_list(field) {
            let ghost views = json_views(items@);
            let mut i: usize = 0;
            while i < items.len()
                invariant
                    i <= items@.len(),
                    views == json_views(items@),
                    string_models(texts@) == texts_before(views, i as int),
                decreases items@.len() - i,
            {
                assert(views[i as int] == json_view(items@[i as int]));
                let ghost before = string_models(texts@);
                if let Some(text) = json_str(&items[i]) {
                    texts.push(text.to_string());
                    assert(string_models(texts@) =~= before.push(text@));
                }
                i += 1;
            }
        }
    }
    texts
}

/// Settings with the fields of the user in place of the defaults.
pub open spec fn merged(defaults: Json, user: Option<Json>) -> Json {
    match (defaults, user) {
        (Json::Object(fields), Some(Json::Object(own))) => Json::Object(
            fields.union_prefer_right(own),
        ),
        _ => defaults,
    }
}

/// The fields of the first `n` entries on top of others.
pub open spec fn with_entries(
    fields: Map<Seq<char>, Json>,
    entries: Seq<(String, Value)>,
    n: int,
) -> Map<Seq<char>, Json>
    decreases n,
{
    if n <= 0 {
        fields
    } else {
        with_entries(fields, entries, n - 1).insert(
            entries[n - 1].0@,
            json_view(entries[n - 1].1),
        )
    }
}

proof fn lemma_with_entries(
    fields: Map<Seq<char>, Json>,
    own: Map<Seq<char>, Json>,
    entries: Seq<(String, Value)>,
    n: int,
    key: Seq<char>,
)
    requires
        0 <= n <= entries.len(),
        are_entries(own, entries),
    ensures
        ({
            let after = with_entries(fields, entries, n);
            let listed = exists|i: int| 0 <= i < n && (#[trigger] entries[i]).0@ == key;
            &&& listed ==> after.contains_key(key) && after[key] == own[key]
            &&& !listed ==> after.contains_key(key) == fields.contains_key(key) && (
            fields.contains_key(key) ==> after[key] == fields[key])
        }),
    decreases n,
{
    if n > 0 {
        lemma_with_entries(fields, own, entries, n - 1, key);
        assert(own.contains_key(entries[n - 1].0@));
        let listed = exists|i: int| 0 <= i < n && (#[trigger] entries[i]).0@ == key;
        if listed {
            let i = choose|i: int| 0 <= i < n && (#[trigger] entries[i]).0@ == key;
            if i < n - 1 {
                assert(exists|i: int| 0 <= i < n - 1 && (#[trigger] entries[i]).0@ == key);
            }
        }
    }
}

/// The settings of the user with defaults for what they leave out, as JSON that
/// reads back as those settings, but for how floats are rounded.
/// Where the user's text is no JSON object it counts for nothing.
pub fn merge_settings_with_defaults(user_content: &str, defaults: &Value) -> (text: String)
    ensures
        ({
            let settings = merged(json_view(*defaults), json_parse(encode_utf8(user_content@)));
            &&& text@ == json_text(settings)
            &&& is_nested(settings, 127) ==> reads_back(settings, encode_utf8(text@), 127)
            &&& is_plain(settings, 127) ==> json_parse(encode_utf8(text@)) == Some(settings)
        }),
{
    let mut settings = json_clone(defaults);
    let ghost base = json_view(*defaults);
    if let Some(user) = json_read(user_content.as_bytes()) {
        if let Some(entries) = json_entries(&user) {
            if json_entries(defaults).is_some() {
                let ghost fields = base->Object_0;
                let ghost own = json_view(user)->Object_0;
                let mut i: usize = 0;
                while i < entries.len()
                    invariant
                        i <= entries@.len(),
                        json_view(settings) == Json::Object(
                            with_entries(fields, entries@, i as int),
                        ),
                    decreases entries@.len() - i,
                {
                    json_set(&mut settings, entries[i].0.as_str(), json_clone(&entries[i].1));
                    i += 1;
                }
                proof {
                    let after = with_entries(fields, entries@, entries@.len() as int);
                    let wanted = fields.union_prefer_right(own);
                    assert forall|key: Seq<char>| #[trigger]
                        after.dom().contains(key) == wanted.dom().contains(key) by {
                        lemma_with_entries(fields, own, entries@, entries@.len() as int, key);
                        if own.contains_key(key) {
                            assert(has_entry(entries@, key));
                        }
                    }
                    assert forall|key: Seq<char>| after.dom().contains(key) implies #[trigger] after[key]
                        == wanted[key] by {
                        lemma_with_entries(fields, own, entries@, entries@.len() as int, key);
                        if own.contains_key(key) {
                            assert(has_entry(entries@, key));
                        }
                    }
                    assert(after.dom() =~= wanted.dom());
                    assert(after =~= wanted);
                }
            }
        }
    }
    let text = json_write(&settings);
    proof {
        if is_plain(json_view(settings), 127) {
            law_plain_values_are_read_back(
                json_view(settings),
                json_parse(encode_utf8(text@))->0,
                127,
            );
        }
    }
    text
}

/// What the user sets takes precedence, and defaults fill in what is missing.
pub proof fn law_user_settings_win(
    defaults: Map<Seq<char>, Json>,
    user: Map<Seq<char>, Json>,
    key: Seq<char>,
)
    ensures
        field_of(merged(Json::Object(defaults), Some(Json::Object(user))), key) == (
        if user.contains_key(key) {
            Some(user[key])
        } else if defaults.contains_key(key) {
            Some(defaults[key])
        } else {
            None
        }),
{
}

/// The numbers and the texts of a list: each item that is one, in its order, and
/// nothing for any other.
pub proof fn law_items_of_lists(items: Seq<Json>, n: int)
    requires
        0 <= n < items.len(),
    ensures
        numbers_before(items, 0).len() == 0 && texts_before(items, 0).len() == 0,
        items[n] matches Json::Unsigned(number) ==> texts_before(items, n + 1) == texts_before(
            items,
            n,
        ) && numbers_before(items, n + 1) == numbers_before(items, n).push(number as u32),
        items[n] matches Json::Text(text) ==> numbers_before(items, n + 1) == numbers_before(
            items,
            n,
        ) && texts_before(items, n + 1) == texts_before(items, n).push(text),
        !(items[n] is Unsigned) && !(items[n] is Text) ==> numbers_before(items, n + 1)
            == numbers_before(items, n) && texts_before(items, n + 1) == texts_before(items, n),
{
}

/// What a field of an object is read as: a text where it holds one, a whole number
/// with a sign where it holds one that fits.
pub proof fn law_fields(fields: Map<Seq<char>, Json>, key: Seq<char>, text: Seq<char>, n: u64)
    ensures
        text_field(Json::Object(fields.insert(key, Json::Text(text))), key) == Some(text),
        text_field(Json::Object(fields.insert(key, Json::Unsigned(n))), key) is None,
        !fields.contains_key(key) ==> text_field(Json::Object(fields), key) is None,
        text_field(Json::Null, key) is None,
        n <= i64::MAX ==> signed_of(Json::Unsigned(n)) == Some(n as i64),
        n > i64::MAX ==> signed_of(Json::Unsigned(n)) is None,
        signed_of(Json::Text(text)) is None,
{
}

/// Where the user sets nothing that can be read, the defaults hold.
pub proof fn law_defaults_hold(defaults: Json, user: Json)
    ensures
        merged(defaults, None) == defaults,
        !(user is Object) ==> merged(defaults, Some(user)) == defaults,
{
}

} // verus!
