use crate::json::{
    float_is_finite, option_view, well_formed, Json, JsonNumber, JsonView, NumberValue,
};
use vstd::prelude::*;

verus! {

/// `serde_json::Value`, carried through without a look inside.
#[verifier::external_type_specification]
#[verifier::external_body]
pub struct ExValue(serde_json::Value);

/// `serde_json::Number`, carried through without a look inside.
#[verifier::external_type_specification]
#[verifier::external_body]
pub struct ExNumber(serde_json::Number);

/// What std's `str::parse` for 64-bit floats reads from `text`, as the bit
/// pattern of the float; `None` where the text is no float.
pub uninterp spec fn parsed_float(text: Seq<char>) -> Option<u64>;

/// The text that `serde_json::Number` writes for the finite float with the
/// given bit pattern.
pub uninterp spec fn float_text(bits: u64) -> Seq<char>;

/// What `serde_json::Number::as_f64` gives for an unsigned integer, as the
/// bit pattern of the float.
pub uninterp spec fn float_of_u64(n: u64) -> Option<u64>;

/// What `serde_json::Number::as_f64` gives for a signed integer, as the bit
/// pattern of the float.
pub uninterp spec fn float_of_i64(n: i64) -> Option<u64>;

/// The document that `serde_json::from_str` reads from `text`, where it
/// reads one.
pub uninterp spec fn parsed_json(text: Seq<char>) -> Option<JsonView>;

/// The text that `serde_json::Value` writes for a document: compact JSON.
pub uninterp spec fn json_text_of(v: JsonView) -> Seq<char>;

/// Whether there is a float, and a finite one.
pub open spec fn is_finite_float(r: Option<u64>) -> bool {
    r matches Some(bits) && float_is_finite(bits)
}

/// The value and text of a number that was read from a literal.
pub open spec fn literal_view(r: Option<Option<JsonNumber>>) -> Option<
    Option<(NumberValue, Seq<char>)>,
> {
    match r {
        None => None,
        Some(None) => Some(None),
        Some(Some(n)) => Some(Some((n.value, n.text@))),
    }
}

/// The bit pattern that was read, or zero where none was.
pub open spec fn bits_of(read: Option<u64>) -> u64 {
    match read {
        Some(bits) => bits,
        None => 0,
    }
}

/// The number that a float stands for which was read from a literal, with
/// `text` for its text: none where nothing was read, `Some(None)` where
/// the float is not finite, for such a float is no JSON number.
pub open spec fn number_of_float(read: Option<u64>, text: Seq<char>) -> Option<
    Option<(NumberValue, Seq<char>)>,
> {
    match read {
        None => None,
        Some(bits) => if float_is_finite(bits) {
            Some(Some((NumberValue::Float(bits), text)))
        } else {
            Some(None)
        },
    }
}

/// The number that `text` stands for as a numeric literal.
pub open spec fn number_literal(text: Seq<char>) -> Option<Option<(NumberValue, Seq<char>)>> {
    number_of_float(parsed_float(text), float_text(bits_of(parsed_float(text))))
}

/// Reads `text` with std's `str::parse` for 64-bit floats and hands the
/// float to `serde_json::Number::from_f64`, which gives a number for a
/// finite float and none for any other. The number is a float with the
/// bit pattern that was read; its text is what `serde_json::Number` writes
/// for it.
#[verifier::external_body]
pub(crate) fn parse_number_literal(text: &str) -> (r: Option<Option<JsonNumber>>)
    ensures
        literal_view(r) == number_of_float(
            parsed_float(text@),
            float_text(bits_of(parsed_float(text@))),
        ),
{
    let parsed = text.parse().ok()?;
    Some(
        serde_json::Number::from_f64(parsed).map(
            |n| JsonNumber { value: NumberValue::Float(parsed.to_bits()), text: n.to_string() },
        ),
    )
}

/// `serde_json::Number::as_f64` of an unsigned integer, as a bit pattern.
/// For an integer it always gives a float, and a finite one.
#[verifier::external_body]
pub(crate) fn u64_as_float(n: u64) -> (r: Option<u64>)
    ensures
        r == float_of_u64(n),
        is_finite_float(r),
{
    serde_json::Number::from(n).as_f64().map(|f| f.to_bits())
}

/// `serde_json::Number::as_f64` of a signed integer, as a bit pattern.
/// For an integer it always gives a float, and a finite one.
#[verifier::external_body]
pub(crate) fn i64_as_float(n: i64) -> (r: Option<u64>)
    ensures
        r == float_of_i64(n),
        is_finite_float(r),
{
    serde_json::Number::from(n).as_f64().map(|f| f.to_bits())
}

/// A `serde_json::Number` as the library holds it: the shape under which
/// it is stored, its value, and the text that its `Display` writes.
#[verifier::external_body]
fn number_of_value(n: &serde_json::Number) -> (r: JsonNumber)
{
    let value = match (n.as_u64(), n.as_i64(), n.as_f64()) {
        (Some(u), _, _) => NumberValue::PosInt(u),
        (_, Some(i), _) => NumberValue::NegInt(i),
        (_, _, f) => NumberValue::Float(f.map(|x| x.to_bits()).unwrap_or_default()),
    };
    JsonNumber { value, text: n.to_string() }
}

/// A `serde_json::Value` as a document of the library, variant for
/// variant; the fields of an object come in the order in which its map
/// hands them out.
#[verifier::external_body]
fn json_of_value(v: serde_json::Value) -> (r: Json)
{
    match v {
        serde_json::Value::Null => Json::Null,
        serde_json::Value::Bool(b) => Json::Bool(b),
        serde_json::Value::Number(n) => Json::Number(number_of_value(&n)),
        serde_json::Value::String(s) => Json::String(s),
        serde_json::Value::Array(a) => Json::Array(a.into_iter().map(json_of_value).collect()),
        serde_json::Value::Object(m) => Json::Object(
            m.into_iter().map(|(k, x)| (k, json_of_value(x))).collect(),
        ),
    }
}

/// A document of the library as a `serde_json::Value`, variant for
/// variant. An integer is handed over by its value, a float by its text.
#[verifier::external_body]
fn value_of_json(v: &Json) -> (r: serde_json::Value)
{
    match v {
        Json::Null => serde_json::Value::Null,
        Json::Bool(b) => serde_json::Value::Bool(*b),
        Json::Number(n) => match n.value {
            NumberValue::PosInt(u) => serde_json::Value::from(u),
            NumberValue::NegInt(i) => serde_json::Value::from(i),
            NumberValue::Float(_) => serde_json::from_str(&n.text).unwrap_or_default(),
        },
        Json::String(s) => serde_json::Value::String(s.clone()),
        Json::Array(a) => serde_json::Value::Array(a.iter().map(value_of_json).collect()),
        Json::Object(m) => serde_json::Value::Object(
            m.iter().map(|(k, x)| (k.clone(), value_of_json(x))).collect(),
        ),
    }
}

/// `serde_json::from_str` for a whole document: `None` where the text is
/// no JSON. What it reads is a `serde_json::Value`, in which an object is a
/// map, so that no key occurs twice, and every float is finite.
#[verifier::external_body]
pub(crate) fn parse_json(text: &str) -> (r: Option<Json>)
    ensures
        option_view(r) == parsed_json(text@),
        r matches Some(j) ==> well_formed(j@),
{
    serde_json::from_str::<serde_json::Value>(text).ok().map(json_of_value)
}

/// The text that `serde_json::Value` writes for the document: compact
/// JSON.
#[verifier::external_body]
pub(crate) fn json_text(v: &Json) -> (r: String)
    ensures
        r@ == json_text_of(v@),
{
    value_of_json(v).to_string()
}

} // verus!
