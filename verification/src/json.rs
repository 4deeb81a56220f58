//! JSON values as the player reads them out of the answers of web services: serde_json reads the
//! text, and the library walks what it read. Numbers are kept as serde_json writes them back.

use vstd::prelude::*;

verus! {

/// A JSON value. A number is kept as serde_json writes it; the fields of an object keep the
/// order serde_json gives them.
#[derive(Debug)]
pub enum Json {
    Null,
    Bool(bool),
    Number(String),
    Text(String),
    Array(Vec<Json>),
    Object(Vec<(String, Json)>),
}

/// A JSON value as a plain value.
pub enum JsonValue {
    Null,
    Bool(bool),
    Number(Seq<char>),
    Text(Seq<char>),
    Array(Seq<JsonValue>),
    Object(Seq<(Seq<char>, JsonValue)>),
}

/// The plain value of a JSON value.
pub open spec fn value_of(j: Json) -> JsonValue
    decreases j, 0int,
{
    match j {
        Json::Null => JsonValue::Null,
        Json::Bool(b) => JsonValue::Bool(b),
        Json::Number(text) => JsonValue::Number(text@),
        Json::Text(text) => JsonValue::Text(text@),
        Json::Array(items) => {
            proof {
                assert(decreases_to!(j => items));
                assert(decreases_to!(items => items@));
            }
            JsonValue::Array(values_of(items@))
        },
        Json::Object(entries) => {
            proof {
                assert(decreases_to!(j => entries));
                assert(decreases_to!(entries => entries@));
            }
            JsonValue::Object(entries_of(entries@))
        },
    }
}

/// The plain values of some JSON values.
pub open spec fn values_of(items: Seq<Json>) -> Seq<JsonValue>
    decreases items, 1int,
{
    if items.len() == 0 {
        Seq::empty()
    } else {
        proof {
            assert(decreases_to!(items => items[items.len() - 1]));
        }
        values_of(items.drop_last()).push(value_of(items.last()))
    }
}

/// The plain values of the fields of an object.
pub open spec fn entries_of(entries: Seq<(String, Json)>) -> Seq<(Seq<char>, JsonValue)>
    decreases entries, 1int,
{
    if entries.len() == 0 {
        Seq::empty()
    } else {
        proof {
            assert(decreases_to!(entries => entries[entries.len() - 1]));
            assert(decreases_to!(entries[entries.len() - 1] => entries[entries.len() - 1].1));
        }
        entries_of(entries.drop_last()).push((entries.last().0@, value_of(entries.last().1)))
    }
}

impl View for Json {
    type V = JsonValue;

    open spec fn view(&self) -> JsonValue {
        value_of(*self)
    }
}

/// Each plain value is the value of its item.
pub proof fn lemma_values_of(items: Seq<Json>)
    ensures
        values_of(items).len() == items.len(),
        forall|i: int| 0 <= i < items.len() ==> #[trigger] values_of(items)[i] == value_of(items[i]),
    decreases items.len(),
{
    if items.len() > 0 {
        lemma_values_of(items.drop_last());
    }
}

/// Each plain field is the field of its entry.
pub proof fn lemma_entries_of(entries: Seq<(String, Json)>)
    ensures
        entries_of(entries).len() == entries.len(),
        forall|i: int|
            0 <= i < entries.len() ==> #[trigger] entries_of(entries)[i] == (
                entries[i].0@,
                value_of(entries[i].1),
            ),
    decreases entries.len(),
{
    if entries.len() > 0 {
        lemma_entries_of(entries.drop_last());
    }
}

/// The first field called `key` among `entries`.
pub open spec fn field_in(entries: Seq<(Seq<char>, JsonValue)>, key: Seq<char>) -> Option<JsonValue>
    decreases entries.len(),
{
    if entries.len() == 0 {
        None
    } else if entries[0].0 == key {
        Some(entries[0].1)
    } else {
        field_in(entries.drop_first(), key)
    }
}

/// `value[key]` as serde_json reads it: the field of an object, `null` when there is none or
/// the value is no object.
pub open spec fn get(value: JsonValue, key: Seq<char>) -> JsonValue {
    match value {
        JsonValue::Object(entries) => match field_in(entries, key) {
            Some(found) => found,
            None => JsonValue::Null,
        },
        _ => JsonValue::Null,
    }
}

/// `value[index]` as serde_json reads it: the item of an array, `null` when there is none or
/// the value is no array.
pub open spec fn nth(value: JsonValue, index: int) -> JsonValue {
    match value {
        JsonValue::Array(items) => if 0 <= index < items.len() {
            items[index]
        } else {
            JsonValue::Null
        },
        _ => JsonValue::Null,
    }
}

/// The text of a string.
pub open spec fn str_of(value: JsonValue) -> Option<Seq<char>> {
    match value {
        JsonValue::Text(text) => Some(text),
        _ => None,
    }
}

/// The number a run of decimal digits writes.
pub open spec fn decimal(digits: Seq<char>) -> int
    decreases digits.len(),
{
    if digits.len() == 0 {
        0
    } else {
        decimal(digits.drop_last()) * 10 + (digits.last() as int - '0' as int)
    }
}

/// Whether every character is a decimal digit, and there is one.
pub open spec fn all_digits(text: Seq<char>) -> bool {
    text.len() > 0 && forall|i: int| 0 <= i < text.len() ==> '0' <= #[trigger] text[i] <= '9'
}

/// A number as a `u64`, as `Value::as_u64` reads it: one serde_json writes with digits alone.
pub open spec fn u64_of(value: JsonValue) -> Option<u64> {
    match value {
        JsonValue::Number(text) => if all_digits(text) && decimal(text) <= u64::MAX {
            Some(decimal(text) as u64)
        } else {
            None
        },
        _ => None,
    }
}

/// What serde_json reads a text as, nothing when it is not JSON.
pub uninterp spec fn parsed(text: Seq<char>) -> Option<JsonValue>;

/// Reads a text as JSON with `serde_json::from_str`. The contract names the result: what
/// serde_json reads, or nothing when it refuses the text.
#[verifier::external_body]
pub(crate) fn parse(text: &str) -> (r: Option<Json>)
    ensures
        match r {
            Some(value) => parsed(text@) == Some(value@),
            None => parsed(text@) is None,
        },
{
    serde_json::from_str::<serde_json::Value>(text).ok().map(lift)
}

/// serde_json's JSON value, carried through as it is.
#[verifier::external_type_specification]
#[verifier::external_body]
pub struct ExValue(serde_json::Value);

/// serde_json's value as this library's, variant for variant.
#[verifier::external_body]
fn lift(value: serde_json::Value) -> Json {
    match value {
        serde_json::Value::Null => Json::Null,
        serde_json::Value::Bool(b) => Json::Bool(b),
        serde_json::Value::Number(n) => Json::Number(n.to_string()),
        serde_json::Value::String(text) => Json::Text(text),
        serde_json::Value::Array(items) => Json::Array(items.into_iter().map(lift).collect()),
        serde_json::Value::Object(map) => Json::Object(map.into_iter().map(|(k, v)| (k, lift(v))).collect()),
    }
}

/// The JSON null.
pub fn null() -> (r: &'static Json)
    ensures
        r@ == JsonValue::Null,
{
    &Json::Null
}

/// `value[key]`.
pub fn get_field<'a>(value: &'a Json, key: &str) -> (r: &'a Json)
    ensures
        r@ == get(value@, key@),
{
    match value {
        Json::Object(entries) => {
            proof {
                lemma_entries_of(entries@);
            }
            let ghost fields = entries_of(entries@);
            let wanted = key.to_owned();
            let mut i: usize = 0;
            assert(fields.skip(0) =~= fields);
            while i < entries.len()
                invariant
                    i <= entries@.len(),
                    fields == entries_of(entries@),
                    value@ == JsonValue::Object(fields),
                    fields.len() == entries@.len(),
                    wanted@ == key@,
                    forall|k: int|
                        0 <= k < entries@.len() ==> #[trigger] fields[k] == (
                            entries@[k].0@,
                            value_of(entries@[k].1),
                        ),
                    field_in(fields, key@) == field_in(fields.skip(i as int), key@),
                decreases entries@.len() - i,
            {
                assert(fields.skip(i as int).drop_first() =~= fields.skip(i + 1));
                assert(fields.skip(i as int)[0] == fields[i as int]);
                if entries[i].0 == wanted {
                    return &entries[i].1;
                }
                i = i + 1;
            }
            null()
        },
        _ => null(),
    }
}

/// `value[index]`.
pub fn get_item(value: &Json, index: usize) -> (r: &Json)
    ensures
        r@ == nth(value@, index as int),
{
    match value {
        Json::Array(items) => {
            proof {
                lemma_values_of(items@);
            }
            if index < items.len() {
                &items[index]
            } else {
                null()
            }
        },
        _ => null(),
    }
}

/// The text of a string, nothing for anything else.
pub fn as_str(value: &Json) -> (r: Option<&String>)
    ensures
        match r {
            Some(text) => str_of(value@) == Some(text@),
            None => str_of(value@) is None,
        },
{
    match value {
        Json::Text(text) => Some(text),
        _ => None,
    }
}

/// A number as a `u64`, nothing for anything else.
pub fn as_u64(value: &Json) -> (r: Option<u64>)
    ensures
        r == u64_of(value@),
{
    match value {
        Json::Number(text) => {
            let digits = crate::text::chars_of(text.as_str());
            if digits.len() == 0 {
                return None;
            }
            let mut total: u64 = 0;
            let mut i: usize = 0;
            while i < digits.len()
                invariant
                    i <= digits@.len(),
                    digits@ == text@,
                    value@ == JsonValue::Number(text@),
                    digits@.len() > 0,
                    forall|k: int| 0 <= k < i ==> '0' <= #[trigger] digits@[k] <= '9',
                    total == decimal(digits@.take(i as int)),
                decreases digits@.len() - i,
            {
                let c = digits[i];
                if c < '0' || c > '9' {
                    assert(!('0' <= digits@[i as int] <= '9'));
                    return None;
                }
                assert(digits@.take(i + 1).drop_last() =~= digits@.take(i as int));
                let digit = (c as u32 - '0' as u32) as u64;
                let grown = match total.checked_mul(10) {
                    Some(tens) => tens.checked_add(digit),
                    None => None,
                };
                assert(decimal(digits@.take(i + 1)) == total * 10 + digit);
                match grown {
                    Some(next) => total = next,
                    None => {
                        let mut k = i + 1;
                        while k < digits.len()
                            invariant
                                i < k <= digits@.len(),
                                digits@ == text@,
                                value@ == JsonValue::Number(text@),
                                decimal(digits@.take(i + 1)) > u64::MAX,
                                forall|j: int| 0 <= j < k ==> '0' <= #[trigger] digits@[j] <= '9',
                            decreases digits@.len() - k,
                        {
                            if digits[k] < '0' || digits[k] > '9' {
                                assert(!('0' <= digits@[k as int] <= '9'));
                                return None;
                            }
                            k = k + 1;
                        }
                        proof {
                            lemma_decimal_grows(digits@, i + 1);
                        }
                        return None;
                    },
                }
                i = i + 1;
            }
            assert(digits@.take(i as int) =~= digits@);
            Some(total)
        },
        _ => None,
    }
}

/// More digits write no smaller a number.
pub proof fn lemma_decimal_grows(digits: Seq<char>, upto: int)
    requires
        0 <= upto <= digits.len(),
        forall|i: int| 0 <= i < upto ==> '0' <= #[trigger] digits[i] <= '9',
    ensures
        (forall|i: int| 0 <= i < digits.len() ==> '0' <= #[trigger] digits[i] <= '9') ==> decimal(
            digits.take(upto),
        ) <= decimal(digits),
        decimal(digits.take(upto)) >= 0,
    decreases digits.len(),
{
    if upto > 0 {
        assert(digits.take(upto).drop_last() =~= digits.take(upto - 1));
        lemma_decimal_grows(digits.take(upto - 1), upto - 1);
        assert(digits.take(upto - 1).take(upto - 1) =~= digits.take(upto - 1));
    }
    if digits.len() > 0 && upto < digits.len() {
        assert(digits.drop_last().take(upto) =~= digits.take(upto));
        lemma_decimal_grows(digits.drop_last(), upto);
    }
    if upto == digits.len() {
        assert(digits.take(upto) =~= digits);
    }
}

} // verus!
