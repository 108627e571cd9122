//! JSON values as this crate reads and builds them.

use vstd::prelude::*;
use vstd::string::*;
use crate::error::DecodeError;
use crate::text::same_text;

verus! {

/// A JSON value. Integers keep their exact value; any other number keeps its
/// decimal text.
#[derive(Debug, PartialEq, Eq)]
pub enum Json {
    Null,
    Bool(bool),
    Unsigned(u64),
    Signed(i64),
    Decimal(String),
    Text(String),
    Array(Vec<Json>),
    Object(Vec<(String, Json)>),
}

/// The mathematical value of a [`Json`].
pub enum JsonValue {
    Null,
    Bool(bool),
    Unsigned(u64),
    Signed(i64),
    Decimal(Seq<char>),
    Text(Seq<char>),
    Array(Seq<JsonValue>),
    Object(Seq<(Seq<char>, JsonValue)>),
}

impl View for Json {
    type V = JsonValue;

    open spec fn view(&self) -> JsonValue {
        json_value(*self)
    }
}

/// The mathematical value of `j`.
pub open spec fn json_value(j: Json) -> JsonValue
    decreases j,
{
    match j {
        Json::Null => JsonValue::Null,
        Json::Bool(b) => JsonValue::Bool(b),
        Json::Unsigned(n) => JsonValue::Unsigned(n),
        Json::Signed(n) => JsonValue::Signed(n),
        Json::Decimal(s) => JsonValue::Decimal(s@),
        Json::Text(s) => JsonValue::Text(s@),
        Json::Array(items) => JsonValue::Array(items_view(items@)),
        Json::Object(fields) => JsonValue::Object(entries_view(fields@)),
    }
}

/// The values of a run of items, in order.
pub open spec fn items_view(items: Seq<Json>) -> Seq<JsonValue>
    decreases items,
{
    if items.len() == 0 {
        Seq::empty()
    } else {
        items_view(items.drop_last()).push(json_value(items.last()))
    }
}

/// The keys and values of a run of object entries, in order.
pub open spec fn entries_view(fields: Seq<(String, Json)>) -> Seq<(Seq<char>, JsonValue)>
    decreases fields,
{
    if fields.len() == 0 {
        Seq::empty()
    } else {
        entries_view(fields.drop_last()).push((fields.last().0@, json_value(fields.last().1)))
    }
}

/// `items_view` maps item by item.
pub proof fn lemma_items_view(items: Seq<Json>)
    ensures
        items_view(items).len() == items.len(),
        forall|i: int| 0 <= i < items.len() ==> (#[trigger] items_view(items)[i]) == items[i]@,
    decreases items.len(),
{
    if items.len() > 0 {
        lemma_items_view(items.drop_last());
    }
}

/// `entries_view` maps entry by entry.
pub proof fn lemma_entries_view(fields: Seq<(String, Json)>)
    ensures
        entries_view(fields).len() == fields.len(),
        forall|i: int|
            0 <= i < fields.len() ==> (#[trigger] entries_view(fields)[i]) == (
                fields[i].0@,
                fields[i].1@,
            ),
    decreases fields.len(),
{
    if fields.len() > 0 {
        lemma_entries_view(fields.drop_last());
    }
}

/// Runs of items with equal values item by item have equal views.
pub proof fn lemma_items_view_equal(a: Seq<Json>, b: Seq<Json>)
    requires
        a.len() == b.len(),
        forall|i: int| 0 <= i < a.len() ==> a[i]@ == b[i]@,
    ensures
        items_view(a) == items_view(b),
{
    lemma_items_view(a);
    lemma_items_view(b);
    assert(items_view(a) =~= items_view(b));
}

/// The value stored under `key` in a run of entries: that of the first entry
/// with that key, or null.
pub open spec fn lookup(fields: Seq<(Seq<char>, JsonValue)>, key: Seq<char>) -> JsonValue
    decreases fields.len(),
{
    if fields.len() == 0 {
        JsonValue::Null
    } else if fields[0].0 == key {
        fields[0].1
    } else {
        lookup(fields.drop_first(), key)
    }
}

/// The entries with `key` set to `value`: the first entry with that key is
/// replaced, or a new entry is added at the end.
pub open spec fn replaced(
    fields: Seq<(Seq<char>, JsonValue)>,
    key: Seq<char>,
    value: JsonValue,
) -> Seq<(Seq<char>, JsonValue)>
    decreases fields.len(),
{
    if fields.len() == 0 {
        seq![(key, value)]
    } else if fields[0].0 == key {
        seq![(key, value)] + fields.drop_first()
    } else {
        seq![fields[0]] + replaced(fields.drop_first(), key, value)
    }
}

impl JsonValue {
    /// Member access that never fails: the member of an object, null for a
    /// missing key and for anything that is not an object.
    pub open spec fn field(self, key: Seq<char>) -> JsonValue {
        match self {
            JsonValue::Object(fields) => lookup(fields, key),
            _ => JsonValue::Null,
        }
    }

    /// The text of a string value.
    pub open spec fn as_text(self) -> Option<Seq<char>> {
        match self {
            JsonValue::Text(s) => Some(s),
            _ => None,
        }
    }

    /// The items of an array value.
    pub open spec fn as_array(self) -> Option<Seq<JsonValue>> {
        match self {
            JsonValue::Array(items) => Some(items),
            _ => None,
        }
    }

    /// The flag of a boolean value.
    pub open spec fn as_bool(self) -> Option<bool> {
        match self {
            JsonValue::Bool(b) => Some(b),
            _ => None,
        }
    }

    /// This value with `key` set to `value`; anything that is not an object
    /// becomes an object with that one member.
    pub open spec fn with_field(self, key: Seq<char>, value: JsonValue) -> JsonValue {
        match self {
            JsonValue::Object(fields) => JsonValue::Object(replaced(fields, key, value)),
            _ => JsonValue::Object(seq![(key, value)]),
        }
    }
}

/// What a possibly absent value stands for: absent reads as null.
pub open spec fn seen(j: Option<&Json>) -> JsonValue {
    match j {
        Some(j) => j@,
        None => JsonValue::Null,
    }
}

proof fn lemma_lookup_skip(fields: Seq<(Seq<char>, JsonValue)>, key: Seq<char>, i: int)
    requires
        0 <= i <= fields.len(),
        forall|k: int| 0 <= k < i ==> fields[k].0 != key,
    ensures
        lookup(fields, key) == lookup(fields.skip(i), key),
    decreases i,
{
    if i == 0 {
        assert(fields.skip(0) =~= fields);
    } else {
        lemma_lookup_skip(fields, key, i - 1);
        assert(fields.skip(i - 1).drop_first() =~= fields.skip(i));
    }
}

proof fn lemma_replaced_found(
    fields: Seq<(Seq<char>, JsonValue)>,
    key: Seq<char>,
    value: JsonValue,
    i: int,
)
    requires
        0 <= i < fields.len(),
        fields[i].0 == key,
        forall|k: int| 0 <= k < i ==> fields[k].0 != key,
    ensures
        replaced(fields, key, value) == fields.update(i, (key, value)),
    decreases i,
{
    if i == 0 {
        assert(seq![(key, value)] + fields.drop_first() =~= fields.update(0, (key, value)));
    } else {
        let rest = fields.drop_first();
        assert forall|k: int| 0 <= k < i - 1 implies rest[k].0 != key by {
            assert(rest[k] == fields[k + 1]);
        }
        lemma_replaced_found(rest, key, value, i - 1);
        assert(seq![fields[0]] + rest.update(i - 1, (key, value)) =~= fields.update(
            i,
            (key, value),
        ));
    }
}

proof fn lemma_replaced_absent(
    fields: Seq<(Seq<char>, JsonValue)>,
    key: Seq<char>,
    value: JsonValue,
)
    requires
        forall|k: int| 0 <= k < fields.len() ==> fields[k].0 != key,
    ensures
        replaced(fields, key, value) == fields.push((key, value)),
    decreases fields.len(),
{
    if fields.len() == 0 {
        assert(seq![(key, value)] =~= fields.push((key, value)));
    } else {
        let rest = fields.drop_first();
        assert forall|k: int| 0 <= k < rest.len() implies rest[k].0 != key by {
            assert(rest[k] == fields[k + 1]);
        }
        lemma_replaced_absent(rest, key, value);
        assert(seq![fields[0]] + rest.push((key, value)) =~= fields.push((key, value)));
    }
}

fn find_field(fields: &Vec<(String, Json)>, key: &str) -> (r: Option<usize>)
    ensures
        match r {
            Some(i) => i < fields.len() && fields[i as int].0@ == key@ && forall|k: int|
                0 <= k < i ==> fields[k].0@ != key@,
            None => forall|k: int| 0 <= k < fields.len() ==> fields[k].0@ != key@,
        },
{
    let mut i: usize = 0;
    while i < fields.len()
        invariant
            0 <= i <= fields.len(),
            forall|k: int| 0 <= k < i ==> fields[k].0@ != key@,
        decreases fields.len() - i,
    {
        if same_text(fields[i].0.as_str(), key) {
            return Some(i);
        }
        i += 1;
    }
    None
}

/// Member access on a value that may be absent; chains without failing.
pub fn field_of<'a>(j: Option<&'a Json>, key: &str) -> (r: Option<&'a Json>)
    ensures
        seen(r) == seen(j).field(key@),
{
    match j {
        Some(Json::Object(fields)) => {
            proof {
                lemma_entries_view(fields@);
            }
            let ghost all = entries_view(fields@);
            match find_field(fields, key) {
                Some(i) => {
                    proof {
                        lemma_lookup_skip(all, key@, i as int);
                    }
                    Some(&fields[i].1)
                },
                None => {
                    proof {
                        lemma_lookup_skip(all, key@, all.len() as int);
                    }
                    None
                },
            }
        },
        _ => None,
    }
}

/// The text of a string value, if the value is present and is a string.
pub fn text_of_json<'a>(j: Option<&'a Json>) -> (r: Option<&'a String>)
    ensures
        match r {
            Some(s) => seen(j).as_text() == Some(s@),
            None => seen(j).as_text() is None,
        },
{
    match j {
        Some(Json::Text(s)) => Some(s),
        _ => None,
    }
}

/// The items of an array value, if the value is present and is an array.
pub fn items_of_json<'a>(j: Option<&'a Json>) -> (r: Option<&'a Vec<Json>>)
    ensures
        match r {
            Some(items) => seen(j).as_array() == Some(items_view(items@)),
            None => seen(j).as_array() is None,
        },
{
    match j {
        Some(Json::Array(items)) => {
            Some(items)
        },
        _ => None,
    }
}

/// The flag of a boolean value, if the value is present and is a boolean.
pub fn flag_of_json(j: Option<&Json>) -> (r: Option<bool>)
    ensures
        r == seen(j).as_bool(),
{
    match j {
        Some(Json::Bool(b)) => Some(*b),
        _ => None,
    }
}

impl Json {
    /// A copy of this value.
    pub fn deep_copy(&self) -> (r: Json)
        ensures
            r@ == self@,
        decreases self,
    {
        match self {
            Json::Null => Json::Null,
            Json::Bool(b) => Json::Bool(*b),
            Json::Unsigned(n) => Json::Unsigned(*n),
            Json::Signed(n) => Json::Signed(*n),
            Json::Decimal(s) => Json::Decimal(s.clone()),
            Json::Text(s) => Json::Text(s.clone()),
            Json::Array(items) => {
                let mut out: Vec<Json> = Vec::new();
                let mut i: usize = 0;
                while i < items.len()
                    invariant
                        self is Array,
                        self->Array_0 == *items,
                        0 <= i <= items.len(),
                        out.len() == i,
                        forall|k: int| 0 <= k < i ==> out[k]@ == items[k]@,
                    decreases items.len() - i,
                {
                    out.push(items[i].deep_copy());
                    i += 1;
                }
                proof {
                    lemma_items_view_equal(out@, items@);
                }
                Json::Array(out)
            },
            Json::Object(fields) => {
                let mut out: Vec<(String, Json)> = Vec::new();
                let mut i: usize = 0;
                while i < fields.len()
                    invariant
                        self is Object,
                        self->Object_0 == *fields,
                        0 <= i <= fields.len(),
                        out.len() == i,
                        forall|k: int|
                            0 <= k < i ==> out[k].0@ == fields[k].0@ && out[k].1@ == fields[k].1@,
                    decreases fields.len() - i,
                {
                    out.push((fields[i].0.clone(), fields[i].1.deep_copy()));
                    i += 1;
                }
                proof {
                    lemma_entries_view(fields@);
                    lemma_entries_view(out@);
                    assert(entries_view(out@) =~= entries_view(fields@));
                }
                Json::Object(out)
            },
        }
    }

    /// A copy of a value that may be absent; absent copies as null.
    pub fn copy_of(j: Option<&Json>) -> (r: Json)
        ensures
            r@ == seen(j),
    {
        match j {
            Some(j) => j.deep_copy(),
            None => Json::Null,
        }
    }

    /// This value with `key` set to `value`.
    pub fn with_field(self, key: &str, value: Json) -> (r: Json)
        ensures
            r@ == self@.with_field(key@, value@),
    {
        match self {
            Json::Object(fields) => {
                let mut fields = fields;
                proof {
                    lemma_entries_view(fields@);
                }
                let ghost before = entries_view(fields@);
                match find_field(&fields, key) {
                    Some(i) => {
                        proof {
                            lemma_replaced_found(before, key@, value@, i as int);
                        }
                        fields.set(i, (String::from_str(key), value));
                    },
                    None => {
                        proof {
                            lemma_replaced_absent(before, key@, value@);
                        }
                        fields.push((String::from_str(key), value));
                    },
                }
                proof {
                    lemma_entries_view(fields@);
                    assert(entries_view(fields@) =~= replaced(before, key@, value@));
                }
                Json::Object(fields)
            },
            _ => {
                let mut fields: Vec<(String, Json)> = Vec::new();
                fields.push((String::from_str(key), value));
                proof {
                    lemma_entries_view(fields@);
                    assert(entries_view(fields@) =~= seq![(key@, value@)]);
                }
                Json::Object(fields)
            },
        }
    }

    /// An array of the given items.
    pub fn array(items: Vec<Json>) -> (r: Json)
        ensures
            r@ == JsonValue::Array(items_view(items@)),
    {
        Json::Array(items)
    }
}

/// `serde_json::Error`, carried through unopened.
#[verifier::external_type_specification]
#[verifier::external_body]
pub struct ExJsonError(serde_json::Error);

/// `serde_json::Value`, carried through unopened.
#[verifier::external_type_specification]
#[verifier::external_body]
pub struct ExJsonTree(serde_json::Value);

/// `serde_json::Number`, carried through unopened.
#[verifier::external_type_specification]
#[verifier::external_body]
pub struct ExJsonNumber(serde_json::Number);

/// The value that `serde_json` reads from a text, if the text is JSON.
pub uninterp spec fn parsed_json(text: Seq<char>) -> Option<JsonValue>;

/// Converts a `serde_json::Number` for [`json_from_text`]: an integer that
/// fits `u64` or `i64` keeps its value, any other number keeps the text
/// that `serde_json` prints for it.
#[verifier::external_body]
fn json_from_number(n: &serde_json::Number) -> Json {
    match (n.as_u64(), n.as_i64()) {
        (Some(u), _) => Json::Unsigned(u),
        (None, Some(i)) => Json::Signed(i),
        (None, None) => Json::Decimal(n.to_string()),
    }
}

/// Converts a `serde_json::Value` for [`json_from_text`], variant by
/// variant; object entries come in the order in which the map hands them
/// out.
#[verifier::external_body]
fn json_from_tree(v: &serde_json::Value) -> Json {
    match v {
        serde_json::Value::Null => Json::Null,
        serde_json::Value::Bool(b) => Json::Bool(*b),
        serde_json::Value::Number(n) => json_from_number(n),
        serde_json::Value::String(s) => Json::Text(s.clone()),
        serde_json::Value::Array(a) => Json::Array(a.iter().map(json_from_tree).collect()),
        serde_json::Value::Object(o) => Json::Object(
            o.iter().map(|(k, v)| (k.clone(), json_from_tree(v))).collect(),
        ),
    }
}

/// Reads a text with `serde_json::from_str`. What comes back depends on the
/// text alone: the call succeeds exactly on the texts that `serde_json`
/// accepts as one JSON value, and then yields that value. Nothing more is
/// claimed of the grammar.
#[verifier::external_body]
fn json_from_text(text: &str) -> (r: Result<Json, serde_json::Error>)
    ensures
        r is Ok <==> parsed_json(text@) is Some,
        r matches Ok(j) ==> parsed_json(text@) == Some(j@),
{
    match serde_json::from_str::<serde_json::Value>(text) {
        Ok(v) => Ok(json_from_tree(&v)),
        Err(e) => Err(e),
    }
}

/// Reads the JSON body of an event or of a resource write.
pub fn parse_event_data(data: &str) -> (r: Result<Json, DecodeError>)
    ensures
        match r {
            Ok(j) => parsed_json(data@) == Some(j@),
            Err(e) => e == DecodeError::MalformedJson && parsed_json(data@) is None,
        },
{
    match json_from_text(data) {
        Ok(j) => Ok(j),
        Err(_) => Err(DecodeError::MalformedJson),
    }
}

} // verus!
