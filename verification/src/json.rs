//! JSON values, and the JSON text of the payloads that tools answer with.

use serde_json::Number;
use vstd::prelude::*;

use crate::requests::{copy_number, json_text, written, written_text};
use crate::text::same;

verus! {

/// A JSON value.
#[derive(Debug, PartialEq, Eq)]
pub enum Json {
    Null,
    Bool(bool),
    /// A number that is an integer and not negative.
    UInt(u64),
    /// A number that is a negative integer.
    Int(i64),
    /// Any other number.
    Real(Number),
    Text(String),
    Array(Vec<Json>),
    /// Fields in the order in which they are written; of two with one key the
    /// first counts.
    Object(Vec<(String, Json)>),
}

/// What a [`Json`] value says.
pub enum JsonView {
    Null,
    Bool(bool),
    UInt(u64),
    Int(i64),
    Real(Number),
    Text(Seq<char>),
    Array(Seq<JsonView>),
    Object(Seq<(Seq<char>, JsonView)>),
}

/// What a [`Json`] value says.
pub open spec fn json_view(json: Json) -> JsonView
    decreases json,
{
    match json {
        Json::Null => JsonView::Null,
        Json::Bool(b) => JsonView::Bool(b),
        Json::UInt(n) => JsonView::UInt(n),
        Json::Int(n) => JsonView::Int(n),
        Json::Real(number) => JsonView::Real(number),
        Json::Text(text) => JsonView::Text(text@),
        Json::Array(items) => JsonView::Array(
            Seq::new(
                items@.len(),
                |i: int|
                    if 0 <= i < items@.len() {
                        json_view(items@[i])
                    } else {
                        JsonView::Null
                    },
            ),
        ),
        Json::Object(fields) => JsonView::Object(
            Seq::new(
                fields@.len(),
                |i: int|
                    if 0 <= i < fields@.len() {
                        (fields@[i].0@, json_view(fields@[i].1))
                    } else {
                        (Seq::empty(), JsonView::Null)
                    },
            ),
        ),
    }
}

impl View for Json {
    type V = JsonView;

    open spec fn view(&self) -> JsonView {
        json_view(*self)
    }
}

/// The position of the first of `fields` under `key`, or the number of fields.
pub open spec fn field_index(fields: Seq<(Seq<char>, JsonView)>, key: Seq<char>) -> int
    decreases fields.len(),
{
    if fields.len() == 0 || fields[0].0 == key {
        0
    } else {
        1 + field_index(fields.drop_first(), key)
    }
}

impl JsonView {
    /// The value of the field `key`, where this is an object that has it.
    pub open spec fn get(self, key: Seq<char>) -> Option<JsonView> {
        match self {
            JsonView::Object(fields) => {
                let at = field_index(fields, key);
                if at < fields.len() {
                    Some(fields[at].1)
                } else {
                    None
                }
            },
            _ => None,
        }
    }

    /// The text, where this is one.
    pub open spec fn as_str(self) -> Option<Seq<char>> {
        match self {
            JsonView::Text(text) => Some(text),
            _ => None,
        }
    }

    /// The number, where this is an integer that is not negative.
    pub open spec fn as_u64(self) -> Option<u64> {
        match self {
            JsonView::UInt(n) => Some(n),
            _ => None,
        }
    }

    /// The text of the field `key`, where there is one.
    pub open spec fn str_field(self, key: Seq<char>) -> Option<Seq<char>> {
        match self.get(key) {
            Some(value) => value.as_str(),
            None => None,
        }
    }
}

/// Fields before the first one under `key` do not have that key.
proof fn lemma_field_index(fields: Seq<(Seq<char>, JsonView)>, key: Seq<char>, at: int)
    requires
        0 <= at <= fields.len(),
        forall|i: int| 0 <= i < at ==> (#[trigger] fields[i]).0 != key,
        at < fields.len() ==> fields[at].0 == key,
    ensures
        field_index(fields, key) == at,
    decreases fields.len(),
{
    if fields.len() > 0 && at > 0 {
        let rest = fields.drop_first();
        assert forall|i: int| 0 <= i < at - 1 implies (#[trigger] rest[i]).0 != key by {
            assert(rest[i] == fields[i + 1]);
        }
        lemma_field_index(rest, key, at - 1);
    }
}

impl Json {
    /// The value of the field `key`, where this is an object that has it.
    pub fn get(&self, key: &str) -> (value: Option<&Json>)
        ensures
            match value {
                Some(json) => self@.get(key@) == Some(json@),
                None => self@.get(key@) is None,
            },
    {
        match self {
            Json::Object(fields) => {
                let ghost views = self@->Object_0;
                let mut i: usize = 0;
                while i < fields.len()
                    invariant
                        *self == Json::Object(*fields),
                        views == self@->Object_0,
                        self@ == JsonView::Object(views),
                        i <= fields@.len(),
                        views.len() == fields@.len(),
                        forall|j: int| 0 <= j < i ==> (#[trigger] views[j]).0 != key@,
                    decreases fields@.len() - i,
                {
                    assert(views[i as int] == (fields@[i as int].0@, json_view(fields@[i as int].1)));
                    if same(fields[i].0.as_str(), key) {
                        proof {
                            lemma_field_index(views, key@, i as int);
                        }
                        return Some(&fields[i].1);
                    }
                    i += 1;
                }
                proof {
                    lemma_field_index(views, key@, i as int);
                }
                None
            },
            _ => None,
        }
    }

    /// The text, where this is one.
    pub fn as_str(&self) -> (text: Option<&str>)
        ensures
            text.deep_view() == self@.as_str(),
    {
        match self {
            Json::Text(text) => Some(text.as_str()),
            _ => None,
        }
    }

    /// The number, where this is an integer that is not negative.
    pub fn as_u64(&self) -> (number: Option<u64>)
        ensures
            number == self@.as_u64(),
    {
        match self {
            Json::UInt(n) => Some(*n),
            _ => None,
        }
    }

    /// The text of the field `key`, where there is one.
    pub fn str_field(&self, key: &str) -> (text: Option<&str>)
        ensures
            text.deep_view() == self@.str_field(key@),
    {
        match self.get(key) {
            Some(value) => value.as_str(),
            None => None,
        }
    }

    /// A value that says the same.
    pub fn duplicate(&self) -> (copy: Json)
        ensures
            copy@ == self@,
        decreases self,
    {
        match self {
            Json::Null => Json::Null,
            Json::Bool(b) => Json::Bool(*b),
            Json::UInt(n) => Json::UInt(*n),
            Json::Int(n) => Json::Int(*n),
            Json::Real(number) => Json::Real(copy_number(number)),
            Json::Text(text) => Json::Text(text.clone()),
            Json::Array(items) => {
                let mut copies: Vec<Json> = Vec::new();
                let mut i: usize = 0;
                while i < items.len()
                    invariant
                        *self == Json::Array(*items),
                        i == copies@.len(),
                        i <= items@.len(),
                        forall|j: int| 0 <= j < i ==> (#[trigger] copies@[j])@ == json_view(items@[j]),
                    decreases items@.len() - i,
                {
                    assert(decreases_to!(*self => self->Array_0));
                    assert(decreases_to!(items@ => items@[i as int]));
                    copies.push(items[i].duplicate());
                    i += 1;
                }
                let copy = Json::Array(copies);
                assert(copy@->Array_0 =~= self@->Array_0);
                copy
            },
            Json::Object(fields) => {
                let mut copies: Vec<(String, Json)> = Vec::new();
                let mut i: usize = 0;
                while i < fields.len()
                    invariant
                        *self == Json::Object(*fields),
                        i == copies@.len(),
                        i <= fields@.len(),
                        forall|j: int| 0 <= j < i ==> (#[trigger] copies@[j]).0@ == fields@[j].0@,
                        forall|j: int| 0 <= j < i ==> json_view((#[trigger] copies@[j]).1) == json_view(
                            fields@[j].1,
                        ),
                    decreases fields@.len() - i,
                {
                    assert(decreases_to!(*self => self->Object_0));
                    assert(decreases_to!(fields@ => fields@[i as int]));
                    assert(decreases_to!(fields@[i as int] => fields@[i as int].1));
                    copies.push((fields[i].0.clone(), fields[i].1.duplicate()));
                    i += 1;
                }
                let copy = Json::Object(copies);
                assert(copy@->Object_0 =~= self@->Object_0);
                copy
            },
        }
    }
}

/// The array of `items`.
pub fn array(items: Vec<Json>) -> (json: Json)
    ensures
        json@ == JsonView::Array(Seq::new(items@.len(), |i: int| items@[i]@)),
{
    let json = Json::Array(items);
    assert(json@->Array_0 =~= Seq::new(items@.len(), |i: int| items@[i]@));
    json
}

/// The text `text`.
pub fn words(text: &str) -> (json: Json)
    ensures
        json@ == JsonView::Text(text@),
{
    Json::Text(text.to_owned())
}

/// What a list of fields says.
pub open spec fn fields_view(fields: Seq<(String, Json)>) -> Seq<(Seq<char>, JsonView)> {
    Seq::new(fields.len(), |i: int| (fields[i].0@, fields[i].1@))
}

/// The object of `fields`.
pub fn object(fields: Vec<(String, Json)>) -> (json: Json)
    ensures
        json@ == JsonView::Object(fields_view(fields@)),
{
    let json = Json::Object(fields);
    assert(json@->Object_0 =~= fields_view(fields@));
    json
}

/// An object without fields.
pub fn object0() -> (json: Json)
    ensures
        json@ == JsonView::Object(Seq::empty()),
{
    let json = Json::Object(Vec::new());
    assert(json@->Object_0 =~= Seq::empty());
    json
}

/// An object of one field.
pub fn object1(key: &str, value: Json) -> (json: Json)
    ensures
        json@ == JsonView::Object(seq![(key@, value@)]),
{
    let mut fields: Vec<(String, Json)> = Vec::new();
    fields.push((key.to_owned(), value));
    let json = Json::Object(fields);
    assert(json@->Object_0 =~= seq![(key@, value@)]);
    json
}

/// An object of two fields.
pub fn object2(k1: &str, v1: Json, k2: &str, v2: Json) -> (json: Json)
    ensures
        json@ == JsonView::Object(seq![(k1@, v1@), (k2@, v2@)]),
{
    let mut fields: Vec<(String, Json)> = Vec::new();
    fields.push((k1.to_owned(), v1));
    fields.push((k2.to_owned(), v2));
    let json = Json::Object(fields);
    assert(json@->Object_0 =~= seq![(k1@, v1@), (k2@, v2@)]);
    json
}

/// An object of three fields.
pub fn object3(k1: &str, v1: Json, k2: &str, v2: Json, k3: &str, v3: Json) -> (json: Json)
    ensures
        json@ == JsonView::Object(seq![(k1@, v1@), (k2@, v2@), (k3@, v3@)]),
{
    let mut fields: Vec<(String, Json)> = Vec::new();
    fields.push((k1.to_owned(), v1));
    fields.push((k2.to_owned(), v2));
    fields.push((k3.to_owned(), v3));
    let json = Json::Object(fields);
    assert(json@->Object_0 =~= seq![(k1@, v1@), (k2@, v2@), (k3@, v3@)]);
    json
}

// ---------------------------------------------------------------------------
// Payloads
// ---------------------------------------------------------------------------

/// One field's value in a payload.
#[derive(Debug, Clone, PartialEq, Eq)]
pub enum Field {
    Null,
    Flag(bool),
    Count(u64),
    Text(String),
    Texts(Vec<String>),
}

/// What a [`Field`] says.
pub enum FieldView {
    Null,
    Flag(bool),
    Count(u64),
    Text(Seq<char>),
    Texts(Seq<Seq<char>>),
}

impl DeepView for Field {
    type V = FieldView;

    open spec fn deep_view(&self) -> FieldView {
        match *self {
            Field::Null => FieldView::Null,
            Field::Flag(b) => FieldView::Flag(b),
            Field::Count(n) => FieldView::Count(n),
            Field::Text(text) => FieldView::Text(text@),
            Field::Texts(texts) => FieldView::Texts(texts.deep_view()),
        }
    }
}

/// The text, or null where there is none.
pub open spec fn optional_text(text: Option<Seq<char>>) -> FieldView {
    match text {
        Some(text) => FieldView::Text(text),
        None => FieldView::Null,
    }
}

/// A field that holds `text`, or null where there is none.
pub fn optional_field(text: &Option<String>) -> (field: Field)
    ensures
        field.deep_view() == optional_text(text.deep_view()),
{
    match text {
        Some(text) => Field::Text(text.clone()),
        None => Field::Null,
    }
}

/// The fields of one object, each with its key.
pub type Row = Vec<(String, Field)>;

/// The content of a tool's answer: one object, a list of objects, or an object
/// whose single field is a list of objects.
#[derive(Debug, Clone, PartialEq, Eq)]
pub enum Payload {
    One(Row),
    Many(Vec<Row>),
    Under(String, Vec<Row>),
}

/// What a [`Payload`] says.
pub enum PayloadView {
    One(Seq<(Seq<char>, FieldView)>),
    Many(Seq<Seq<(Seq<char>, FieldView)>>),
    Under(Seq<char>, Seq<Seq<(Seq<char>, FieldView)>>),
}

impl DeepView for Payload {
    type V = PayloadView;

    open spec fn deep_view(&self) -> PayloadView {
        match *self {
            Payload::One(row) => PayloadView::One(row.deep_view()),
            Payload::Many(rows) => PayloadView::Many(rows.deep_view()),
            Payload::Under(key, rows) => PayloadView::Under(key@, rows.deep_view()),
        }
    }
}

/// The JSON of a field.
pub open spec fn field_json(field: FieldView) -> JsonView {
    match field {
        FieldView::Null => JsonView::Null,
        FieldView::Flag(b) => JsonView::Bool(b),
        FieldView::Count(n) => JsonView::UInt(n),
        FieldView::Text(text) => JsonView::Text(text),
        FieldView::Texts(texts) => JsonView::Array(Seq::new(texts.len(), |i: int| JsonView::Text(texts[i]))),
    }
}

/// The JSON of an object.
pub open spec fn row_json(row: Seq<(Seq<char>, FieldView)>) -> JsonView {
    JsonView::Object(Seq::new(row.len(), |i: int| (row[i].0, field_json(row[i].1))))
}

/// The JSON of a list of objects.
pub open spec fn rows_json(rows: Seq<Seq<(Seq<char>, FieldView)>>) -> JsonView {
    JsonView::Array(Seq::new(rows.len(), |i: int| row_json(rows[i])))
}

/// The JSON of a payload.
pub open spec fn payload_value(payload: PayloadView) -> JsonView {
    match payload {
        PayloadView::One(row) => row_json(row),
        PayloadView::Many(rows) => rows_json(rows),
        PayloadView::Under(key, rows) => JsonView::Object(seq![(key, rows_json(rows))]),
    }
}

/// The JSON text of a payload.
pub open spec fn payload_json(payload: PayloadView) -> Seq<char> {
    json_text(written(payload_value(payload)))
}

/// The JSON of a field.
fn field_value(field: &Field) -> (json: Json)
    ensures
        json@ == field_json(field.deep_view()),
{
    match field {
        Field::Null => Json::Null,
        Field::Flag(b) => Json::Bool(*b),
        Field::Count(n) => Json::UInt(*n),
        Field::Text(text) => Json::Text(text.clone()),
        Field::Texts(texts) => {
            let mut items: Vec<Json> = Vec::new();
            let mut i: usize = 0;
            while i < texts.len()
                invariant
                    i == items@.len(),
                    i <= texts@.len(),
                    forall|j: int| 0 <= j < i ==> (#[trigger] items@[j])@ == JsonView::Text(texts@[j]@),
                decreases texts@.len() - i,
            {
                items.push(Json::Text(texts[i].clone()));
                i += 1;
            }
            let json = array(items);
            assert(json@->Array_0 =~= field_json(field.deep_view())->Array_0);
            json
        },
    }
}

/// The JSON of an object.
fn row_value(row: &Row) -> (json: Json)
    ensures
        json@ == row_json(row.deep_view()),
{
    let mut fields: Vec<(String, Json)> = Vec::new();
    let mut i: usize = 0;
    while i < row.len()
        invariant
            i == fields@.len(),
            i <= row@.len(),
            forall|j: int|
                0 <= j < i ==> (#[trigger] fields@[j]).0@ == row@[j].0@ && fields@[j].1@ == field_json(
                    row@[j].1.deep_view(),
                ),
        decreases row@.len() - i,
    {
        fields.push((row[i].0.clone(), field_value(&row[i].1)));
        i += 1;
    }
    let json = object(fields);
    assert(json@->Object_0 =~= row_json(row.deep_view())->Object_0);
    json
}

/// The JSON of a list of objects.
fn rows_value(rows: &Vec<Row>) -> (json: Json)
    ensures
        json@ == rows_json(rows.deep_view()),
{
    let mut items: Vec<Json> = Vec::new();
    let mut i: usize = 0;
    while i < rows.len()
        invariant
            i == items@.len(),
            i <= rows@.len(),
            forall|j: int| 0 <= j < i ==> (#[trigger] items@[j])@ == row_json(rows@[j].deep_view()),
        decreases rows@.len() - i,
    {
        items.push(row_value(&rows[i]));
        i += 1;
    }
    let json = array(items);
    assert(json@->Array_0 =~= rows_json(rows.deep_view())->Array_0);
    json
}

/// The JSON text of a payload.
pub fn payload_text(payload: Payload) -> (text: String)
    ensures
        text@ == payload_json(payload.deep_view()),
{
    let json = match payload {
        Payload::One(row) => row_value(&row),
        Payload::Many(rows) => rows_value(&rows),
        Payload::Under(key, rows) => object1(key.as_str(), rows_value(&rows)),
    };
    written_text(json)
}

// ---------------------------------------------------------------------------
// Laws
// ---------------------------------------------------------------------------

/// Of the fields of an object under one key the first counts; what is no object has no
/// fields.
pub proof fn law_the_first_field_counts(json: JsonView, key: Seq<char>)
    ensures
        match json {
            JsonView::Object(fields) => match json.get(key) {
                Some(value) => exists|i: int|
                    0 <= i < fields.len() && #[trigger] fields[i] == (key, value) && forall|j: int|
                        0 <= j < i ==> (#[trigger] fields[j]).0 != key,
                None => forall|j: int| 0 <= j < fields.len() ==> (#[trigger] fields[j]).0 != key,
            },
            _ => json.get(key) is None,
        },
        json.get(key) matches Some(JsonView::Text(text)) ==> json.str_field(key) == Some(text),
        json.str_field(key) matches Some(text) ==> json.get(key) == Some(JsonView::Text(text)),
{
    if let JsonView::Object(fields) = json {
        lemma_field_index_is(fields, key);
        let at = field_index(fields, key);
        if at < fields.len() {
            assert(fields[at] == (key, fields[at].1));
        }
    }
}

proof fn lemma_field_index_is(fields: Seq<(Seq<char>, JsonView)>, key: Seq<char>)
    ensures
        0 <= field_index(fields, key) <= fields.len(),
        forall|i: int| 0 <= i < field_index(fields, key) ==> (#[trigger] fields[i]).0 != key,
        field_index(fields, key) < fields.len() ==> fields[field_index(fields, key)].0 == key,
    decreases fields.len(),
{
    if fields.len() > 0 && fields[0].0 != key {
        let rest = fields.drop_first();
        lemma_field_index_is(rest, key);
        assert forall|i: int| 0 <= i < field_index(fields, key) implies (#[trigger] fields[i]).0 != key by {
            if i > 0 {
                assert(rest[i - 1] == fields[i]);
            }
        }
    }
}

/// A payload is written as it is: one row as an object of its fields, several as a list of
/// such objects, and under a name as an object with that one field.
pub proof fn law_payloads_are_written_as_they_are(payload: PayloadView)
    ensures
        match payload {
            PayloadView::One(row) => payload_value(payload) is Object && payload_value(payload)->Object_0.len()
                == row.len() && forall|i: int|
                0 <= i < row.len() ==> (#[trigger] payload_value(payload)->Object_0[i]).0 == row[i].0 && says_field(
                    payload_value(payload)->Object_0[i].1,
                    row[i].1,
                ),
            PayloadView::Many(rows) => payload_value(payload) is Array && payload_value(payload)->Array_0.len()
                == rows.len(),
            PayloadView::Under(name, rows) => payload_value(payload) is Object && payload_value(payload)->Object_0.len()
                == 1 && payload_value(payload)->Object_0[0].0 == name && payload_value(payload)->Object_0[0].1 is Array
                && payload_value(payload)->Object_0[0].1->Array_0.len() == rows.len(),
        },
{
}

/// Whether a JSON value says what a field says.
pub open spec fn says_field(json: JsonView, field: FieldView) -> bool {
    match field {
        FieldView::Null => json is Null,
        FieldView::Flag(flag) => json == JsonView::Bool(flag),
        FieldView::Count(n) => json == JsonView::UInt(n),
        FieldView::Text(text) => json == JsonView::Text(text),
        FieldView::Texts(texts) => json is Array && json->Array_0.len() == texts.len() && forall|i: int|
            0 <= i < texts.len() ==> #[trigger] json->Array_0[i] == JsonView::Text(texts[i]),
    }
}

} // verus!
