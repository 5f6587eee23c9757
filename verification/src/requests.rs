//! Reading the requests that arrive at a broker and writing the answers, one JSON value
//! to a line.

use serde_json::{Number, Value};
use vstd::prelude::*;
use vstd::string::*;

use crate::json::{Json, JsonView};
use crate::order::{ascending, before, lemma_before_asymmetric, lemma_before_total, lemma_before_transitive};

verus! {

/// `serde_json::Value`: a JSON value that has been parsed.
#[verifier::external_type_specification]
#[verifier::external_body]
pub struct ExValue(serde_json::Value);

/// `serde_json::Number`: a number of such a value.
#[verifier::external_type_specification]
#[verifier::external_body]
pub struct ExNumber(serde_json::Number);

/// `serde_json::Error`: why a text was refused.
#[verifier::external_type_specification]
#[verifier::external_body]
pub struct ExJsonError(serde_json::Error);

/// What `serde_json` reads from a text, where it is JSON.
pub uninterp spec fn parsed_json(text: Seq<char>) -> Option<JsonView>;

/// What a parsed value holds, the fields of an object in the order of its map.
pub uninterp spec fn value_json(value: Value) -> JsonView;

/// What a number is: an integer, or else itself.
pub uninterp spec fn number_json(number: Number) -> JsonView;

/// `serde_json::from_str` reads a value from a text, or refuses the text. What it reads
/// is a function of the text.
#[verifier::external_body]
fn value_from_str(text: &str) -> (value: Result<Value, serde_json::Error>)
    ensures
        match value {
            Ok(value) => parsed_json(text@) == Some(value_json(value)),
            Err(_) => parsed_json(text@) is None,
        },
{
    serde_json::from_str(text)
}

/// `Number::as_u64` gives the number, where it is an integer that is not negative and
/// fits.
#[verifier::external_body]
fn number_as_u64(number: &Number) -> (n: Option<u64>)
    ensures
        match n {
            Some(n) => number_json(*number) == JsonView::UInt(n),
            None => !(number_json(*number) is UInt),
        },
{
    number.as_u64()
}

/// An integer, with those that are not negative among the unsigned ones.
pub open spec fn signed_json(n: i64) -> JsonView {
    if n < 0 {
        JsonView::Int(n)
    } else {
        JsonView::UInt(n as u64)
    }
}

/// `Number::as_i64` gives the number, where it is an integer and fits.
#[verifier::external_body]
fn number_as_i64(number: &Number) -> (n: Option<i64>)
    ensures
        match n {
            Some(n) => number_json(*number) == signed_json(n),
            None => match number_json(*number) {
                JsonView::UInt(n) => n > i64::MAX,
                json => json == JsonView::Real(*number),
            },
        },
{
    number.as_i64()
}

/// `Number::clone` gives the same number.
#[verifier::external_body]
pub(crate) fn copy_number(number: &Number) -> (copy: Number)
    ensures
        copy == *number,
{
    number.clone()
}

/// `Number::from` of a `u64` is that integer.
#[verifier::external_body]
fn number_from_u64(n: u64) -> (number: Number)
    ensures
        number_json(number) == JsonView::UInt(n),
{
    Number::from(n)
}

/// `Number::from` of an `i64` is that integer.
#[verifier::external_body]
fn number_from_i64(n: i64) -> (number: Number)
    ensures
        number_json(number) == signed_json(n),
{
    Number::from(n)
}

/// The outermost part of a parsed value.
pub enum Layer {
    Null,
    Bool(bool),
    Number(Number),
    Text(String),
    Array(Vec<Value>),
    Object(Vec<(String, Value)>),
}

/// What the outermost part of a value and the values in it hold.
pub open spec fn layer_json(layer: Layer) -> JsonView {
    match layer {
        Layer::Null => JsonView::Null,
        Layer::Bool(b) => JsonView::Bool(b),
        Layer::Number(number) => number_json(number),
        Layer::Text(text) => JsonView::Text(text@),
        Layer::Array(items) => JsonView::Array(Seq::new(items@.len(), |i: int| value_json(items@[i]))),
        Layer::Object(fields) => JsonView::Object(
            Seq::new(fields@.len(), |i: int| (fields@[i].0@, value_json(fields@[i].1))),
        ),
    }
}

/// Takes the variants of `serde_json::Value` apart; the fields of an object come in the
/// order of its map.
#[verifier::external_body]
fn layer_of(value: Value) -> (layer: Layer)
    ensures
        value_json(value) == layer_json(layer),
{
    match value {
        Value::Null => Layer::Null,
        Value::Bool(b) => Layer::Bool(b),
        Value::Number(number) => Layer::Number(number),
        Value::String(text) => Layer::Text(text),
        Value::Array(items) => Layer::Array(items),
        Value::Object(fields) => Layer::Object(fields.into_iter().collect()),
    }
}

fn read_number(number: Number) -> (json: Json)
    ensures
        json@ == number_json(number),
{
    if let Some(n) = number_as_u64(&number) {
        return Json::UInt(n);
    }
    if let Some(n) = number_as_i64(&number) {
        return Json::Int(n);
    }
    Json::Real(number)
}

/// Reads a parsed value.
fn read_value(value: Value) -> (json: Json)
    ensures
        json@ == value_json(value),
    decreases value_json(value),
{
    let ghost whole = value_json(value);
    match layer_of(value) {
        Layer::Null => Json::Null,
        Layer::Bool(b) => Json::Bool(b),
        Layer::Number(number) => read_number(number),
        Layer::Text(text) => Json::Text(text),
        Layer::Array(items) => {
            let ghost all = items@;
            let ghost views = whole->Array_0;
            let mut left = items;
            let mut reversed: Vec<Json> = Vec::new();
            while left.len() > 0
                invariant
                    whole == value_json(value),
                    whole == JsonView::Array(views),
                    views.len() == all.len(),
                    forall|i: int| 0 <= i < all.len() ==> #[trigger] views[i] == value_json(all[i]),
                    left@.len() + reversed@.len() == all.len(),
                    left@ == all.take(left@.len() as int),
                    forall|i: int|
                        0 <= i < reversed@.len() ==> (#[trigger] reversed@[i])@ == views[all.len() - 1 - i],
                decreases left@.len(),
            {
                let ghost at = left@.len() - 1;
                if let Some(item) = left.pop() {
                    assert(item == all[at]);
                    assert(views[at] == value_json(item));
                    assert(decreases_to!(whole => whole->Array_0));
                    assert(decreases_to!(views => views[at]));
                    let read = read_value(item);
                    reversed.push(read);
                    assert(left@ =~= all.take(at));
                }
            }
            let list = reverse_items(reversed);
            let json = Json::Array(list);
            assert(json@->Array_0 =~= views);
            json
        },
        Layer::Object(fields) => {
            let ghost all = fields@;
            let ghost views = whole->Object_0;
            let mut left = fields;
            let mut reversed: Vec<(String, Json)> = Vec::new();
            while left.len() > 0
                invariant
                    whole == value_json(value),
                    whole == JsonView::Object(views),
                    views.len() == all.len(),
                    forall|i: int| 0 <= i < all.len() ==> #[trigger] views[i] == (all[i].0@, value_json(all[i].1)),
                    left@.len() + reversed@.len() == all.len(),
                    left@ == all.take(left@.len() as int),
                    forall|i: int|
                        0 <= i < reversed@.len() ==> ((#[trigger] reversed@[i]).0@, reversed@[i].1@) == views[all.len()
                            - 1 - i],
                decreases left@.len(),
            {
                let ghost at = left@.len() - 1;
                if let Some((key, item)) = left.pop() {
                    assert(all[at] == (key, item));
                    assert(views[at] == (key@, value_json(item)));
                    assert(decreases_to!(whole => whole->Object_0));
                    assert(decreases_to!(views => views[at]));
                    assert(decreases_to!(views[at] => views[at].1));
                    let read = read_value(item);
                    reversed.push((key, read));
                    assert(left@ =~= all.take(at));
                }
            }
            let list = reverse_items(reversed);
            let json = Json::Object(list);
            assert(json@->Object_0 =~= views);
            json
        },
    }
}

/// A list from its end to its beginning.
fn reverse_items<T>(items: Vec<T>) -> (turned: Vec<T>)
    ensures
        turned@ == items@.reverse(),
{
    let ghost all = items@;
    let mut left = items;
    let mut turned: Vec<T> = Vec::new();
    while left.len() > 0
        invariant
            left@.len() + turned@.len() == all.len(),
            left@ == all.take(left@.len() as int),
            forall|i: int| 0 <= i < turned@.len() ==> #[trigger] turned@[i] == all[all.len() - 1 - i],
        decreases left@.len(),
    {
        let ghost at = left@.len() - 1;
        if let Some(item) = left.pop() {
            turned.push(item);
            assert(left@ =~= all.take(at));
        }
    }
    assert(turned@ =~= all.reverse());
    turned
}

/// The request on a line, where the line is JSON.
pub fn request_on(line: &str) -> (request: Option<Json>)
    ensures
        match request {
            Some(request) => parsed_json(line@) == Some(request@),
            None => parsed_json(line@) is None,
        },
{
    match value_from_str(line) {
        Ok(value) => Some(read_value(value)),
        Err(_) => None,
    }
}

// ---------------------------------------------------------------------------
// Writing
// ---------------------------------------------------------------------------

/// Fields in the order of their keys, once `field` has been put among them. It takes the
/// place of one with its key.
pub open spec fn put_field(fields: Seq<(Seq<char>, JsonView)>, field: (Seq<char>, JsonView)) -> Seq<
    (Seq<char>, JsonView),
>
    decreases fields.len(),
{
    if fields.len() == 0 {
        seq![field]
    } else if fields.last().0 == field.0 {
        fields.drop_last().push(field)
    } else if before(fields.last().0, field.0) {
        fields.push(field)
    } else {
        put_field(fields.drop_last(), field).push(fields.last())
    }
}

/// Fields in the order of their keys; of two with one key the last counts.
pub open spec fn in_key_order(fields: Seq<(Seq<char>, JsonView)>) -> Seq<(Seq<char>, JsonView)>
    decreases fields.len(),
{
    if fields.len() == 0 {
        Seq::empty()
    } else {
        put_field(in_key_order(fields.drop_last()), fields.last())
    }
}

/// The keys of `fields`.
pub open spec fn keys_of(fields: Seq<(Seq<char>, JsonView)>) -> Seq<Seq<char>> {
    Seq::new(fields.len(), |i: int| fields[i].0)
}

/// A field that is put among others in order stands among them in order, in the place of
/// one with its key.
proof fn lemma_put_field(fields: Seq<(Seq<char>, JsonView)>, field: (Seq<char>, JsonView))
    requires
        ascending(keys_of(fields)),
    ensures
        ascending(keys_of(put_field(fields, field))),
        forall|other: (Seq<char>, JsonView)| #[trigger]
            put_field(fields, field).contains(other) <==> other == field || (fields.contains(other) && other.0
                != field.0),
    decreases fields.len(),
{
    let put = put_field(fields, field);
    if fields.len() == 0 {
        assert(put[0] == field);
    } else {
        let front = fields.drop_last();
        let last = fields.last();
        assert(fields =~= front.push(last));
        assert(ascending(keys_of(front))) by {
            assert forall|i: int, j: int| 0 <= i < j < keys_of(front).len() implies before(
                #[trigger] keys_of(front)[i],
                #[trigger] keys_of(front)[j],
            ) by {
                assert(before(keys_of(fields)[i], keys_of(fields)[j]));
            }
        }
        assert forall|i: int| 0 <= i < front.len() implies before((#[trigger] front[i]).0, last.0) by {
            assert(before(keys_of(fields)[i], keys_of(fields)[fields.len() - 1]));
            lemma_before_asymmetric(front[i].0, last.0);
        }
        if last.0 == field.0 {
            lemma_push_in_order(front, field);
            assert(put == front.push(field));
            assert forall|other: (Seq<char>, JsonView)| #[trigger]
                put.contains(other) <==> other == field || (fields.contains(other) && other.0 != field.0) by {
                lemma_contains_push(front, field, other);
                lemma_contains_push(front, last, other);
                if front.contains(other) {
                    let i = front.index_of(other);
                    lemma_before_asymmetric(front[i].0, last.0);
                }
            }
        } else if before(last.0, field.0) {
            assert forall|i: int| 0 <= i < fields.len() implies before((#[trigger] fields[i]).0, field.0) by {
                if i < front.len() {
                    assert(front[i] == fields[i]);
                    lemma_before_transitive(fields[i].0, last.0, field.0);
                }
            }
            lemma_push_in_order(fields, field);
            assert forall|other: (Seq<char>, JsonView)| #[trigger]
                put.contains(other) <==> other == field || (fields.contains(other) && other.0 != field.0) by {
                lemma_contains_push(fields, field, other);
                if fields.contains(other) {
                    let i = fields.index_of(other);
                    lemma_before_asymmetric(fields[i].0, field.0);
                }
            }
        } else {
            lemma_before_total(last.0, field.0);
            lemma_put_field(front, field);
            let inner = put_field(front, field);
            assert forall|i: int| 0 <= i < inner.len() implies before((#[trigger] inner[i]).0, last.0) by {
                assert(inner.contains(inner[i]));
                if inner[i] != field {
                    let j = front.index_of(inner[i]);
                    assert(front[j] == inner[i]);
                }
            }
            lemma_push_in_order(inner, last);
            assert forall|other: (Seq<char>, JsonView)| #[trigger]
                put.contains(other) <==> other == field || (fields.contains(other) && other.0 != field.0) by {
                lemma_contains_push(inner, last, other);
                lemma_contains_push(front, last, other);
            }
        }
    }
}

/// A list with something added holds that and what it held.
proof fn lemma_contains_push(
    fields: Seq<(Seq<char>, JsonView)>,
    field: (Seq<char>, JsonView),
    other: (Seq<char>, JsonView),
)
    ensures
        fields.push(field).contains(other) <==> fields.contains(other) || other == field,
{
    let more = fields.push(field);
    assert(more[fields.len() as int] == field);
    if fields.contains(other) {
        let i = fields.index_of(other);
        assert(more[i] == other);
    }
}

/// A list in order stays so where a field is added that comes after all of it.
proof fn lemma_push_in_order(fields: Seq<(Seq<char>, JsonView)>, field: (Seq<char>, JsonView))
    requires
        ascending(keys_of(fields)),
        forall|i: int| 0 <= i < fields.len() ==> before((#[trigger] fields[i]).0, field.0),
    ensures
        ascending(keys_of(fields.push(field))),
{
    let more = fields.push(field);
    assert forall|i: int, j: int| 0 <= i < j < keys_of(more).len() implies before(
        #[trigger] keys_of(more)[i],
        #[trigger] keys_of(more)[j],
    ) by {
        if j < fields.len() {
            assert(before(keys_of(fields)[i], keys_of(fields)[j]));
        } else {
            assert(before(fields[i].0, field.0));
        }
    }
}

/// Writing an object puts its fields into the order of their keys and, where no key
/// occurs twice, neither drops nor adds one.
pub proof fn law_writing_keeps_the_fields(fields: Seq<(Seq<char>, JsonView)>)
    requires
        keys_of(fields).no_duplicates(),
    ensures
        ascending(keys_of(in_key_order(fields))),
        forall|field: (Seq<char>, JsonView)| #[trigger]
            in_key_order(fields).contains(field) <==> fields.contains(field),
    decreases fields.len(),
{
    if fields.len() > 0 {
        let front = fields.drop_last();
        let last = fields.last();
        assert(fields =~= front.push(last));
        assert(keys_of(front).no_duplicates()) by {
            assert forall|i: int, j: int|
                0 <= i < keys_of(front).len() && 0 <= j < keys_of(front).len() && i != j implies keys_of(front)[i]
                != keys_of(front)[j] by {
                assert(keys_of(fields)[i] != keys_of(fields)[j]);
            }
        }
        law_writing_keeps_the_fields(front);
        lemma_put_field(in_key_order(front), last);
        assert forall|field: (Seq<char>, JsonView)| #[trigger]
            in_key_order(fields).contains(field) <==> fields.contains(field) by {
            lemma_contains_push(front, last, field);
            if front.contains(field) {
                let i = front.index_of(field);
                assert(keys_of(fields)[i] != keys_of(fields)[fields.len() - 1]);
            }
        }
    }
}

/// Puts a `serde_json::Value` together from its variants' contents. The map of an object
/// is `serde_json`'s default one, which keeps its fields in the order of their keys and
/// the last of two with one key.
#[verifier::external_body]
fn layer_value(layer: Layer) -> (value: Value)
    ensures
        value_json(value) == (if layer is Object {
            JsonView::Object(in_key_order(layer_json(layer)->Object_0))
        } else {
            layer_json(layer)
        }),
{
    match layer {
        Layer::Null => Value::Null,
        Layer::Bool(b) => Value::Bool(b),
        Layer::Number(number) => Value::Number(number),
        Layer::Text(text) => Value::String(text),
        Layer::Array(items) => Value::Array(items),
        Layer::Object(fields) => Value::Object(fields.into_iter().collect()),
    }
}

/// The text that `serde_json` writes for a value.
pub uninterp spec fn json_text(json: JsonView) -> Seq<char>;

/// `serde_json::Value::to_string` writes a value as compact JSON: on one line, for a line
/// end within a text is written as an escape. The text is a function of the value.
#[verifier::external_body]
fn value_text(value: &Value) -> (text: String)
    ensures
        text@ == json_text(value_json(*value)),
        !text@.contains('\n'),
{
    value.to_string()
}

/// What is written for a value: its fields in the order of their keys, and its integers
/// unsigned where they are not negative.
pub open spec fn written(json: JsonView) -> JsonView
    decreases json,
{
    match json {
        JsonView::Int(n) => signed_json(n),
        JsonView::Real(number) => number_json(number),
        JsonView::Array(items) => JsonView::Array(
            Seq::new(
                items.len(),
                |i: int|
                    if 0 <= i < items.len() {
                        written(items[i])
                    } else {
                        JsonView::Null
                    },
            ),
        ),
        JsonView::Object(fields) => JsonView::Object(in_key_order(written_fields(fields))),
        json => json,
    }
}

/// What is written for each of `fields`.
pub open spec fn written_fields(fields: Seq<(Seq<char>, JsonView)>) -> Seq<(Seq<char>, JsonView)>
    decreases fields,
{
    Seq::new(
        fields.len(),
        |i: int|
            if 0 <= i < fields.len() {
                (fields[i].0, written(fields[i].1))
            } else {
                (Seq::empty(), JsonView::Null)
            },
    )
}

/// The value that is written.
fn write_value(json: Json) -> (value: Value)
    ensures
        value_json(value) == written(json@),
    decreases json,
{
    let ghost whole = json;
    match json {
        Json::Null => layer_value(Layer::Null),
        Json::Bool(b) => layer_value(Layer::Bool(b)),
        Json::UInt(n) => layer_value(Layer::Number(number_from_u64(n))),
        Json::Int(n) => layer_value(Layer::Number(number_from_i64(n))),
        Json::Real(number) => layer_value(Layer::Number(number)),
        Json::Text(text) => layer_value(Layer::Text(text)),
        Json::Array(items) => {
            let ghost all = items@;
            let mut left = items;
            let mut reversed: Vec<Value> = Vec::new();
            while left.len() > 0
                invariant
                    whole == json,
                    whole == Json::Array(items),
                    all == items@,
                    left@.len() + reversed@.len() == all.len(),
                    left@ == all.take(left@.len() as int),
                    forall|i: int|
                        0 <= i < reversed@.len() ==> value_json(#[trigger] reversed@[i]) == written(
                            all[all.len() - 1 - i]@,
                        ),
                decreases left@.len(),
            {
                let ghost at = left@.len() - 1;
                if let Some(item) = left.pop() {
                    assert(item == all[at]);
                    assert(decreases_to!(whole => whole->Array_0));
                    assert(decreases_to!(items@ => items@[at]));
                    let value = write_value(item);
                    reversed.push(value);
                    assert(left@ =~= all.take(at));
                }
            }
            let list = reverse_items(reversed);
            let layer = Layer::Array(list);
            assert(layer_json(layer)->Array_0 =~= written(json@)->Array_0);
            layer_value(layer)
        },
        Json::Object(fields) => {
            let ghost all = fields@;
            let mut left = fields;
            let mut reversed: Vec<(String, Value)> = Vec::new();
            while left.len() > 0
                invariant
                    whole == json,
                    whole == Json::Object(fields),
                    all == fields@,
                    left@.len() + reversed@.len() == all.len(),
                    left@ == all.take(left@.len() as int),
                    forall|i: int|
                        0 <= i < reversed@.len() ==> ((#[trigger] reversed@[i]).0@, value_json(reversed@[i].1)) == (
                            all[all.len() - 1 - i].0@,
                            written(all[all.len() - 1 - i].1@),
                        ),
                decreases left@.len(),
            {
                let ghost at = left@.len() - 1;
                if let Some((key, item)) = left.pop() {
                    assert(all[at] == (key, item));
                    assert(decreases_to!(whole => whole->Object_0));
                    assert(decreases_to!(fields@ => fields@[at]));
                    assert(decreases_to!(fields@[at] => fields@[at].1));
                    let value = write_value(item);
                    reversed.push((key, value));
                    assert(left@ =~= all.take(at));
                }
            }
            let list = reverse_items(reversed);
            let layer = Layer::Object(list);
            assert(layer_json(layer)->Object_0 =~= written_fields(json@->Object_0));
            layer_value(layer)
        },
    }
}

/// The text that is written for a value, all of it on one line.
pub fn written_text(json: Json) -> (text: String)
    ensures
        text@ == json_text(written(json@)),
        !text@.contains('\n'),
{
    value_text(&write_value(json))
}

/// The line that answers a request: the answer as JSON, and nothing but the end of the
/// line after it.
pub fn response_line(response: Json) -> (line: String)
    ensures
        line@ == json_text(written(response@)).push('\n'),
        forall|i: int| 0 <= i < line@.len() - 1 ==> #[trigger] line@[i] != '\n',
{
    let text = written_text(response);
    let ghost plain = text@;
    let line = text.concat("\n");
    proof {
        reveal_strlit("\n");
        assert(line@ =~= plain.push('\n'));
        assert forall|i: int| 0 <= i < line@.len() - 1 implies #[trigger] line@[i] != '\n' by {
            assert(line@[i] == plain[i]);
            assert(plain.contains(plain[i]));
        }
    }
    line
}

} // verus!
