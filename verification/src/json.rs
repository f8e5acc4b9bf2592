//! Values in JSON notation.

use serde_json::Value;
use vstd::prelude::*;

use crate::decimal::Decimal;
use crate::text;

verus! {

/// A number, as each of the kinds of number that it can be read as.
#[derive(Clone, Copy, Debug)]
pub struct Number {
    pub signed: Option<i64>,
    pub unsigned: Option<u64>,
    pub decimal: Option<Decimal>,
}

/// A value.
pub enum Json {
    Null,
    Bool(bool),
    Number(Number),
    Text(String),
    List(Vec<Json>),
    Object(Vec<Field>),
}

/// A member of an object.
pub struct Field {
    pub key: String,
    pub value: Json,
}

/// A value.
pub enum JsonView {
    Null,
    Bool(bool),
    Number(Number),
    Text(Seq<char>),
    List(Seq<JsonView>),
    Object(Seq<FieldView>),
}

/// A member of an object.
pub struct FieldView {
    pub key: Seq<char>,
    pub value: JsonView,
}

/// What a value holds.
pub open spec fn json_view(j: Json) -> JsonView
    decreases j,
{
    match j {
        Json::Null => JsonView::Null,
        Json::Bool(b) => JsonView::Bool(b),
        Json::Number(n) => JsonView::Number(n),
        Json::Text(s) => JsonView::Text(s@),
        Json::List(v) => JsonView::List(
            Seq::new(
                v@.len(),
                |i: int|
                    if 0 <= i < v@.len() {
                        json_view(v@[i])
                    } else {
                        JsonView::Null
                    },
            ),
        ),
        Json::Object(v) => JsonView::Object(
            Seq::new(
                v@.len(),
                |i: int|
                    if 0 <= i < v@.len() {
                        FieldView { key: v@[i].key@, value: json_view(v@[i].value) }
                    } else {
                        FieldView { key: Seq::empty(), value: JsonView::Null }
                    },
            ),
        ),
    }
}

impl View for Json {
    type V = JsonView;

    open spec fn view(&self) -> JsonView {
        json_view(*self)
    }
}

// ---- Reading ----

/// The value of a parse, or the reason why there is none.
pub open spec fn parse_view(r: Result<Json, String>) -> Result<JsonView, Seq<char>> {
    match r {
        Ok(j) => Ok(j@),
        Err(e) => Err(e@),
    }
}

/// What a text in JSON notation stands for, or the reason why it stands for
/// nothing.
pub uninterp spec fn json_from_text(s: Seq<char>) -> Result<JsonView, Seq<char>>;

/// What some bytes in JSON notation stand for, or the reason why they stand for
/// nothing.
pub uninterp spec fn json_from_bytes(b: Seq<u8>) -> Result<JsonView, Seq<char>>;

/// Calls `serde_json::from_str` and hands out the value, or the text of the
/// error. Left unsaid is the grammar of JSON.
#[verifier::external_body]
pub(crate) fn parse_text(s: &str) -> (r: Result<Json, String>)
    ensures
        parse_view(r) == json_from_text(s@),
{
    serde_json::from_str(s).map(Json::from_value).map_err(|e| e.to_string())
}

/// Calls `serde_json::from_slice` and hands out the value, or the text of the
/// error. Left unsaid is the grammar of JSON.
#[verifier::external_body]
pub(crate) fn parse_bytes(b: &[u8]) -> (r: Result<Json, String>)
    ensures
        parse_view(r) == json_from_bytes(b@),
{
    serde_json::from_slice(b).map(Json::from_value).map_err(|e| e.to_string())
}

/// The value type of the `serde_json` crate.
#[verifier::external_type_specification]
#[verifier::external_body]
pub struct ExValue(serde_json::Value);

impl Json {
    /// Takes a `serde_json::Value` apart, variant by variant. A number is read
    /// by its `as_i64`, `as_u64` and `as_f64`, the last of them made a decimal by
    /// `rust_decimal::Decimal::try_from`. Members of an object come in the order
    /// in which `serde_json` walks them.
    #[verifier::external_body]
    pub(crate) fn from_value(v: serde_json::Value) -> (r: Json) {
        match v {
            Value::Null => Json::Null,
            Value::Bool(b) => Json::Bool(b),
            Value::Number(n) => Json::Number(Number {
                signed: n.as_i64(),
                unsigned: n.as_u64(),
                decimal: n.as_f64().and_then(|x| rust_decimal::Decimal::try_from(x).ok())
                    .and_then(|d| Decimal::from_parts(d.mantissa(), d.scale())),
            }),
            Value::String(s) => Json::Text(s),
            Value::Array(a) => Json::List(a.into_iter().map(Json::from_value).collect()),
            Value::Object(o) => Json::Object(o.into_iter()
                .map(|(k, v)| Field { key: k, value: Json::from_value(v) }).collect()),
        }
    }
}

// ---- Parts ----

/// The value of the first member with a key, and nothing where there is none.
pub open spec fn member(j: JsonView, key: Seq<char>) -> JsonView {
    match j {
        JsonView::Object(f) => member_from(f, key, 0),
        _ => JsonView::Null,
    }
}

/// The value of the first of some members with a key.
pub open spec fn member_from(f: Seq<FieldView>, key: Seq<char>, i: int) -> JsonView
    decreases f.len() - i,
{
    if i < 0 || i >= f.len() {
        JsonView::Null
    } else if f[i].key == key {
        f[i].value
    } else {
        member_from(f, key, i + 1)
    }
}

/// A value that may be missing.
pub open spec fn seen(j: Option<&Json>) -> JsonView {
    match j {
        Some(j) => j@,
        None => JsonView::Null,
    }
}

/// The text of a value that is one.
pub open spec fn text_of(j: JsonView) -> Option<Seq<char>> {
    match j {
        JsonView::Text(s) => Some(s),
        _ => None,
    }
}

/// The first of two texts that there is.
pub open spec fn either(a: Option<Seq<char>>, b: Option<Seq<char>>) -> Option<Seq<char>> {
    if a is Some {
        a
    } else {
        b
    }
}

/// A text, or another where there is none.
pub open spec fn text_or(a: Option<Seq<char>>, b: Seq<char>) -> Seq<char> {
    match a {
        Some(s) => s,
        None => b,
    }
}

/// The elements of a value that is a list, and none of any other.
pub open spec fn list_of(j: JsonView) -> Option<Seq<JsonView>> {
    match j {
        JsonView::List(v) => Some(v),
        _ => None,
    }
}

/// The members of a value that is an object.
pub open spec fn fields_of(j: JsonView) -> Option<Seq<FieldView>> {
    match j {
        JsonView::Object(v) => Some(v),
        _ => None,
    }
}

/// A truth value.
pub open spec fn bool_of(j: JsonView) -> Option<bool> {
    match j {
        JsonView::Bool(b) => Some(b),
        _ => None,
    }
}

/// A number.
pub open spec fn number_of(j: JsonView) -> Option<Number> {
    match j {
        JsonView::Number(n) => Some(n),
        _ => None,
    }
}

/// A whole number that is not negative.
pub open spec fn unsigned_of(j: JsonView) -> Option<u64> {
    match j {
        JsonView::Number(n) => n.unsigned,
        _ => None,
    }
}

/// A whole number.
pub open spec fn signed_of(j: JsonView) -> Option<i64> {
    match j {
        JsonView::Number(n) => n.signed,
        _ => None,
    }
}

/// A number as an amount.
pub open spec fn decimal_of(j: JsonView) -> Option<Decimal> {
    match j {
        JsonView::Number(n) => n.decimal,
        _ => None,
    }
}

/// Some values.
pub open spec fn json_views(v: Seq<Json>) -> Seq<JsonView> {
    Seq::new(v.len(), |i: int| v[i]@)
}

/// Some members.
pub open spec fn field_views(v: Seq<Field>) -> Seq<FieldView> {
    Seq::new(v.len(), |i: int| FieldView { key: v[i].key@, value: v[i].value@ })
}

/// The value of the first member with a key.
pub fn get<'a>(j: Option<&'a Json>, key: &str) -> (r: Option<&'a Json>)
    ensures
        seen(r) == member(seen(j), key@),
{
    match j {
        Some(Json::Object(v)) => {
            let ghost f = fields_of(seen(j))->0;
            assert(f =~= field_views(v@));
            let mut i: usize = 0;
            while i < v.len()
                invariant
                    i <= v@.len(),
                    f == field_views(v@),
                    member(seen(j), key@) == member_from(f, key@, i as int),
                decreases v@.len() - i,
            {
                assert(f[i as int] == (FieldView {
                    key: v@[i as int].key@,
                    value: v@[i as int].value@,
                }));
                if text::same_text(v[i].key.as_str(), key) {
                    return Some(&v[i].value);
                }
                i = i + 1;
            }
            None
        },
        _ => None,
    }
}

/// The text of a value that is one.
pub fn as_text(j: Option<&Json>) -> (r: Option<String>)
    ensures
        text::text_view(r) == text_of(seen(j)),
{
    match j {
        Some(Json::Text(s)) => Some(s.clone()),
        _ => None,
    }
}

/// The elements of a value that is a list.
pub fn as_list<'a>(j: Option<&'a Json>) -> (r: Option<&'a Vec<Json>>)
    ensures
        match r {
            Some(v) => list_of(seen(j)) == Some(json_views(v@)),
            None => list_of(seen(j)) is None,
        },
{
    match j {
        Some(Json::List(v)) => {
            assert(list_of(seen(j))->0 =~= json_views(v@));
            Some(v)
        },
        _ => None,
    }
}

/// The members of a value that is an object.
pub fn as_fields<'a>(j: Option<&'a Json>) -> (r: Option<&'a Vec<Field>>)
    ensures
        match r {
            Some(v) => fields_of(seen(j)) == Some(field_views(v@)),
            None => fields_of(seen(j)) is None,
        },
{
    match j {
        Some(Json::Object(v)) => {
            assert(fields_of(seen(j))->0 =~= field_views(v@));
            Some(v)
        },
        _ => None,
    }
}

/// A truth value.
pub fn as_bool(j: Option<&Json>) -> (r: Option<bool>)
    ensures
        r == bool_of(seen(j)),
{
    match j {
        Some(Json::Bool(b)) => Some(*b),
        _ => None,
    }
}

/// A number.
pub fn as_number(j: Option<&Json>) -> (r: Option<Number>)
    ensures
        r == number_of(seen(j)),
{
    match j {
        Some(Json::Number(n)) => Some(*n),
        _ => None,
    }
}

/// A whole number that is not negative.
pub fn as_unsigned(j: Option<&Json>) -> (r: Option<u64>)
    ensures
        r == unsigned_of(seen(j)),
{
    match j {
        Some(Json::Number(n)) => n.unsigned,
        _ => None,
    }
}

/// A whole number.
pub fn as_signed(j: Option<&Json>) -> (r: Option<i64>)
    ensures
        r == signed_of(seen(j)),
{
    match j {
        Some(Json::Number(n)) => n.signed,
        _ => None,
    }
}

/// A number as an amount.
pub fn as_decimal(j: Option<&Json>) -> (r: Option<Decimal>)
    ensures
        r == decimal_of(seen(j)),
{
    match j {
        Some(Json::Number(n)) => n.decimal,
        _ => None,
    }
}

/// The first of two texts that there is.
pub fn first_text(a: Option<String>, b: Option<String>) -> (r: Option<String>)
    ensures
        text::text_view(r) == either(text::text_view(a), text::text_view(b)),
{
    match a {
        Some(s) => Some(s),
        None => b,
    }
}

/// A text, or another where there is none.
pub fn text_else(a: Option<String>, b: &str) -> (r: String)
    ensures
        r@ == text_or(text::text_view(a), b@),
{
    match a {
        Some(s) => s,
        None => b.to_string(),
    }
}

proof fn lemma_member_from(f: Seq<FieldView>, key: Seq<char>, i: int, k: int)
    requires
        0 <= i <= k < f.len(),
        f[k].key == key,
        forall|j: int| i <= j < k ==> (#[trigger] f[j]).key != key,
    ensures
        member_from(f, key, i) == f[k].value,
    decreases k - i,
{
    if i < k {
        lemma_member_from(f, key, i + 1, k);
    }
}

proof fn lemma_no_member_from(f: Seq<FieldView>, key: Seq<char>, i: int)
    requires
        0 <= i,
        forall|j: int| i <= j < f.len() ==> (#[trigger] f[j]).key != key,
    ensures
        member_from(f, key, i) == JsonView::Null,
    decreases f.len() - i,
{
    if i < f.len() {
        lemma_no_member_from(f, key, i + 1);
    }
}

/// The member of an object with a key is the first field that has it; without one, and of
/// what is no object, there is nothing.
pub proof fn members_go_by_their_key(j: JsonView, key: Seq<char>)
    ensures
        match j {
            JsonView::Object(f) => {
                &&& forall|k: int|
                    0 <= k < f.len() && (#[trigger] f[k]).key == key && (forall|i: int|
                        0 <= i < k ==> (#[trigger] f[i]).key != key) ==> member(j, key)
                        == f[k].value
                &&& (forall|i: int| 0 <= i < f.len() ==> (#[trigger] f[i]).key != key) ==> member(
                    j,
                    key,
                ) == JsonView::Null
            },
            _ => member(j, key) == JsonView::Null,
        },
{
    match j {
        JsonView::Object(f) => {
            assert forall|k: int|
                0 <= k < f.len() && (#[trigger] f[k]).key == key && (forall|i: int|
                    0 <= i < k ==> (#[trigger] f[i]).key != key) implies member(j, key)
                == f[k].value by {
                lemma_member_from(f, key, 0, k);
            }
            if forall|i: int| 0 <= i < f.len() ==> (#[trigger] f[i]).key != key {
                lemma_no_member_from(f, key, 0);
            }
        },
        _ => {},
    }
}

/// A value is read as what it is, and as nothing else.
pub proof fn values_are_read_as_they_are(j: JsonView)
    ensures
        match j {
            JsonView::Text(s) => text_of(j) == Some(s),
            _ => text_of(j) is None,
        },
        match j {
            JsonView::List(v) => list_of(j) == Some(v),
            _ => list_of(j) is None,
        },
        match j {
            JsonView::Object(f) => fields_of(j) == Some(f),
            _ => fields_of(j) is None,
        },
        match j {
            JsonView::Bool(b) => bool_of(j) == Some(b),
            _ => bool_of(j) is None,
        },
        match j {
            JsonView::Number(n) => signed_of(j) == n.signed && unsigned_of(j) == n.unsigned
                && decimal_of(j) == n.decimal,
            _ => signed_of(j) is None && unsigned_of(j) is None && decimal_of(j) is None,
        },
{
}

} // verus!
