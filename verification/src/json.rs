//! JSON values, as far as the rules of this crate read them.

use vstd::prelude::*;

use crate::text::same_text;

verus! {

/// A JSON value. Only texts and objects are told apart: a number, a boolean, an
/// array or null is never looked into.
#[derive(Debug)]
pub enum Json {
    Text(String),
    Object(Vec<(String, Json)>),
    Other,
}

/// What a `Json` says.
pub enum JsonView {
    Text(Seq<char>),
    Object(Seq<(Seq<char>, JsonView)>),
    Other,
}

/// What a JSON value says.
pub open spec fn json_view(value: Json) -> JsonView
    decreases value,
{
    match value {
        Json::Text(text) => JsonView::Text(text@),
        Json::Object(fields) => JsonView::Object(
            Seq::new(
                fields@.len(),
                |i: int|
                    if 0 <= i < fields@.len() {
                        (fields@[i].0@, json_view(fields@[i].1))
                    } else {
                        (Seq::<char>::empty(), JsonView::Other)
                    },
            ),
        ),
        Json::Other => JsonView::Other,
    }
}

impl View for Json {
    type V = JsonView;

    open spec fn view(&self) -> JsonView {
        json_view(*self)
    }
}

/// The views of the fields of an object.
pub open spec fn field_views(fields: Seq<(String, Json)>) -> Seq<(Seq<char>, JsonView)> {
    fields.map_values(|f: (String, Json)| (f.0@, f.1@))
}

/// An object says what its fields say.
proof fn lemma_object_view(value: Json)
    requires
        value is Object,
    ensures
        value@ == JsonView::Object(field_views(value->Object_0@)),
{
    let fields = value->Object_0@;
    assert forall|i: int| 0 <= i < fields.len() implies value@->Object_0[i] == field_views(
        fields,
    )[i] by {
        assert(field_views(fields)[i] == (fields[i].0@, fields[i].1@));
    }
    assert(value@->Object_0 =~= field_views(fields));
}

/// The value of the first field with a given key.
pub open spec fn lookup(fields: Seq<(Seq<char>, JsonView)>, key: Seq<char>) -> Option<JsonView>
    decreases fields.len(),
{
    if fields.len() == 0 {
        None
    } else if fields[0].0 == key {
        Some(fields[0].1)
    } else {
        lookup(fields.drop_first(), key)
    }
}

impl JsonView {
    /// The value of a field, when this is an object that has it.
    pub open spec fn get(self, key: Seq<char>) -> Option<JsonView> {
        match self {
            JsonView::Object(fields) => lookup(fields, key),
            _ => None,
        }
    }

    /// The text, when this is one.
    pub open spec fn as_text(self) -> Option<Seq<char>> {
        match self {
            JsonView::Text(text) => Some(text),
            _ => None,
        }
    }

    /// The fields in their order, when this is an object.
    pub open spec fn as_object(self) -> Option<Seq<(Seq<char>, JsonView)>> {
        match self {
            JsonView::Object(fields) => Some(fields),
            _ => None,
        }
    }

    /// The text that a field holds.
    pub open spec fn get_text(self, key: Seq<char>) -> Option<Seq<char>> {
        match self.get(key) {
            Some(value) => value.as_text(),
            None => None,
        }
    }

    /// The fields of the object that a field holds.
    pub open spec fn get_object(self, key: Seq<char>) -> Option<Seq<(Seq<char>, JsonView)>> {
        match self.get(key) {
            Some(value) => value.as_object(),
            None => None,
        }
    }
}

impl Json {
    /// The value of a field, when this is an object that has it.
    pub fn get(&self, key: &str) -> (r: Option<&Json>)
        ensures
            match r {
                Some(value) => self@.get(key@) == Some(value@),
                None => self@.get(key@) is None,
            },
    {
        match self {
            Json::Object(fields) => {
                let ghost all = field_views(fields@);
                proof {
                    lemma_object_view(*self);
                }
                assert(all.skip(0) =~= all);
                let mut i: usize = 0;
                while i < fields.len()
                    invariant
                        i <= fields.len(),
                        all == field_views(fields@),
                        self@ == JsonView::Object(all),
                        lookup(all, key@) == lookup(all.skip(i as int), key@),
                    decreases fields.len() - i,
                {
                    assert(all.skip(i as int)[0] == (fields@[i as int].0@, fields@[i as int].1@));
                    if same_text(fields[i].0.as_str(), key) {
                        return Some(&fields[i].1);
                    }
                    assert(all.skip(i as int).drop_first() =~= all.skip(i + 1));
                    i += 1;
                }
                None
            },
            _ => None,
        }
    }

    /// The text, when this is one.
    pub fn as_text(&self) -> (r: Option<&str>)
        ensures
            match r {
                Some(text) => self@.as_text() == Some(text@),
                None => self@.as_text() is None,
            },
    {
        match self {
            Json::Text(text) => Some(text.as_str()),
            _ => None,
        }
    }

    /// The fields in their order, when this is an object.
    pub fn as_object(&self) -> (r: Option<&Vec<(String, Json)>>)
        ensures
            match r {
                Some(fields) => self@.as_object() == Some(field_views(fields@)),
                None => self@.as_object() is None,
            },
    {
        match self {
            Json::Object(fields) => {
                proof {
                    lemma_object_view(*self);
                }
                Some(fields)
            },
            _ => None,
        }
    }

    /// The text that a field holds.
    pub fn get_text(&self, key: &str) -> (r: Option<&str>)
        ensures
            match r {
                Some(text) => self@.get_text(key@) == Some(text@),
                None => self@.get_text(key@) is None,
            },
    {
        match self.get(key) {
            Some(value) => value.as_text(),
            None => None,
        }
    }

    /// The fields of the object that a field holds.
    pub fn get_object(&self, key: &str) -> (r: Option<&Vec<(String, Json)>>)
        ensures
            match r {
                Some(fields) => self@.get_object(key@) == Some(field_views(fields@)),
                None => self@.get_object(key@) is None,
            },
    {
        match self.get(key) {
            Some(value) => value.as_object(),
            None => None,
        }
    }
}

// JSON as it is read.

/// The JSON value that a sequence of bytes writes, if it writes one.
pub uninterp spec fn parsed_json(body: Seq<u8>) -> Option<JsonView>;

/// `serde_json::Value`: a JSON value in memory.
#[verifier::external_type_specification]
#[verifier::external_body]
pub struct ExValue(serde_json::Value);

/// `serde_json::Error`: why JSON could not be read or written.
#[verifier::external_type_specification]
#[verifier::external_body]
pub struct ExJsonError(serde_json::Error);

/// What a `serde_json::Value` holds. The fields of an object stand in the order
/// in which `serde_json::Map` walks them.
pub uninterp spec fn value_view(value: serde_json::Value) -> JsonView;

/// `serde_json::from_slice` into a `serde_json::Value`: whether the bytes write
/// a JSON value, and which, depends on the bytes alone.
#[verifier::external_body]
fn parse_value(body: &[u8]) -> (r: Result<serde_json::Value, serde_json::Error>)
    ensures
        match r {
            Ok(value) => parsed_json(body@) == Some(value_view(value)),
            Err(_) => parsed_json(body@) is None,
        },
{
    serde_json::from_slice(body)
}

/// A `serde_json::Value`, opened one level deep.
enum Opened {
    Text(String),
    Object(Vec<(String, serde_json::Value)>),
    Other,
}

/// What the fields of an opened object hold.
spec fn held_fields(fields: Seq<(String, serde_json::Value)>) -> Seq<(Seq<char>, JsonView)> {
    fields.map_values(|f: (String, serde_json::Value)| (f.0@, value_view(f.1)))
}

/// `serde_json::Value`, told apart by its variants: a text is what it holds, and
/// so are the fields of an object, by `serde_json::Map::into_iter`.
#[verifier::external_body]
fn open_value(value: serde_json::Value) -> (r: Opened)
    ensures
        value_view(value) == match r {
            Opened::Text(text) => JsonView::Text(text@),
            Opened::Object(fields) => JsonView::Object(held_fields(fields@)),
            Opened::Other => JsonView::Other,
        },
{
    match value {
        serde_json::Value::String(text) => Opened::Text(text),
        serde_json::Value::Object(fields) => Opened::Object(fields.into_iter().collect()),
        serde_json::Value::Array(_) => Opened::Other,
        serde_json::Value::Number(_) => Opened::Other,
        serde_json::Value::Bool(_) => Opened::Other,
        serde_json::Value::Null => Opened::Other,
    }
}

/// The JSON value that a `serde_json::Value` holds.
fn json_of_value(value: serde_json::Value) -> (r: Json)
    ensures
        r@ == value_view(value),
    decreases value_view(value),
{
    let ghost whole = value_view(value);
    match open_value(value) {
        Opened::Text(text) => Json::Text(text),
        Opened::Object(fields) => {
            let ghost held = held_fields(fields@);
            let mut out: Vec<(String, Json)> = Vec::new();
            for field in it: fields
                invariant
                    it.seq() == fields@,
                    held == held_fields(fields@),
                    whole == value_view(value),
                    whole == JsonView::Object(held),
                    field_views(out@) == held.take(it.index()),
            {
                let ghost before = field_views(out@);
                let (key, inner) = field;
                assert(held[it.index()] == (key@, value_view(inner)));
                assert(decreases_to!(whole => whole->Object_0));
                assert(decreases_to!(held => held[it.index()]));
                assert(decreases_to!(held[it.index()] => held[it.index()].1));
                out.push((key, json_of_value(inner)));
                assert(field_views(out@) =~= before.push(held[it.index()]));
            }
            assert(held.take(held.len() as int) =~= held);
            let object = Json::Object(out);
            proof {
                lemma_object_view(object);
            }
            object
        },
        Opened::Other => Json::Other,
    }
}

/// Reads a JSON value from bytes.
pub fn parse_json(body: &[u8]) -> (r: Option<Json>)
    ensures
        match r {
            Some(value) => parsed_json(body@) == Some(value@),
            None => parsed_json(body@) is None,
        },
{
    match parse_value(body) {
        Ok(value) => Some(json_of_value(value)),
        Err(_) => None,
    }
}

// What holds of every JSON value.

/// The first field with a key counts, and only a key that no field has is
/// missing.
pub proof fn first_field_counts(fields: Seq<(Seq<char>, JsonView)>, key: Seq<char>)
    ensures
        match lookup(fields, key) {
            Some(value) => exists|i: int|
                {
                    &&& 0 <= i < fields.len()
                    &&& #[trigger] fields[i] == (key, value)
                    &&& forall|j: int| 0 <= j < i ==> (#[trigger] fields[j]).0 != key
                },
            None => forall|i: int| 0 <= i < fields.len() ==> (#[trigger] fields[i]).0 != key,
        },
    decreases fields.len(),
{
    if fields.len() > 0 {
        let rest = fields.drop_first();
        first_field_counts(rest, key);
        if fields[0].0 == key {
            assert(fields[0] == (key, fields[0].1));
        } else {
            assert forall|i: int| 1 <= i < fields.len() implies #[trigger] fields[i] == rest[i
                - 1] by {
            }
            if let Some(value) = lookup(rest, key) {
                let i = choose|i: int|
                    {
                        &&& 0 <= i < rest.len()
                        &&& #[trigger] rest[i] == (key, value)
                        &&& forall|j: int| 0 <= j < i ==> (#[trigger] rest[j]).0 != key
                    };
                assert(fields[i + 1] == (key, value));
            }
        }
    }
}

/// Only objects have fields, and a field is a text or an object only when its
/// value is one.
pub proof fn only_objects_have_fields(value: JsonView, key: Seq<char>)
    ensures
        match value {
            JsonView::Object(fields) => value.get(key) == lookup(fields, key),
            _ => value.get(key) is None,
        },
        value.get_text(key) == match value.get(key) {
            Some(JsonView::Text(text)) => Some(text),
            _ => None,
        },
        value.get_object(key) == match value.get(key) {
            Some(JsonView::Object(fields)) => Some(fields),
            _ => None,
        },
{
}

} // verus!
