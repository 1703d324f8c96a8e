//! The JSON form of values: what enters an artifact, and what comes out of a document at a type.

use std::sync::Arc;
use vstd::prelude::*;

use crate::ast::{
    decl_constructors, kind_name, string_of, value_entries_view, value_fields_view, values_view,
    Float, SConstructor, SDeclBody, SFloat, SValue, TypeDeclBody, Value,
};
use crate::descriptors::{
    array_json, concrete_type_to_json, descriptor, object2, string_json, text_json,
};
use crate::env::{keyed, value_result, Env, SEnv};
use crate::error::{MagError, SError};
use crate::json::{
    canonical, canonicalize_json, find_member, jsons_view, member_index, members_view, put_member,
    with_member, Json, JsonNumber, SJson, SNumber,
};
use crate::resolve::{expansion_limit, type_error, unfolding_limit};
use crate::substitution::{apply, bind_params, bound_params, substitute};
use crate::text::{before, cat2, cat3, cat4, cat5, cat6, comes_before, decimal, same, show_usize};
use crate::type_rules::constructor_named;
use crate::types::{fields_view, type_text, types_view, MagType, SType};
use crate::values::{contains_value, equal, finite_bits, is_finite, value_among, values_equal};
use crate::wire::{json_text, number_float, number_to_float, render, wired};

verus! {

broadcast use vstd::seq_lib::group_seq_properties;

pub open spec fn power_of_two(n: nat) -> nat
    decreases n,
{
    if n == 0 {
        1
    } else {
        2 * power_of_two((n - 1) as nat)
    }
}

proof fn powers_grow(a: nat, b: nat)
    requires
        a <= b,
    ensures
        1 <= power_of_two(a) <= power_of_two(b),
    decreases b,
{
    if a < b {
        powers_grow(a, (b - 1) as nat);
    } else if b > 0 {
        powers_grow((a - 1) as nat, (b - 1) as nat);
    }
}

fn two_to(n: u64) -> (r: u64)
    requires
        n <= 52,
    ensures
        r == power_of_two(n as nat),
        1 <= r <= 0x10_0000_0000_0000,
{
    proof {
        reveal_with_fuel(power_of_two, 53);
        assert(power_of_two(52) == 0x10_0000_0000_0000);
        powers_grow(n as nat, 52);
    }
    let mut r: u64 = 1;
    let mut i: u64 = 0;
    while i < n
        invariant
            i <= n <= 52,
            r == power_of_two(i as nat),
            power_of_two(52) == 0x10_0000_0000_0000,
        decreases n - i,
    {
        proof {
            powers_grow(i as nat, 52);
        }
        r = r * 2;
        i = i + 1;
    }
    r
}

/// The integer that the bits of a floating-point number stand for, where they stand for one.
pub open spec fn float_int(bits: u64) -> Option<int> {
    let exponent = (bits / 0x10_0000_0000_0000) % 2048;
    let fraction = bits % 0x10_0000_0000_0000;
    let negative = bits >= 0x8000_0000_0000_0000;
    let mantissa = (0x10_0000_0000_0000 + fraction) as nat;
    if exponent == 0 {
        if fraction == 0 {
            Some(0)
        } else {
            None
        }
    } else if exponent == 2047 {
        None
    } else if exponent >= 1075 {
        let magnitude = (mantissa * power_of_two((exponent - 1075) as nat)) as int;
        Some(
            if negative {
                -magnitude
            } else {
                magnitude
            },
        )
    } else if exponent < 1023 {
        None
    } else {
        let unit = power_of_two((1075 - exponent) as nat);
        if mantissa % unit == 0 {
            let magnitude = (mantissa / unit) as int;
            Some(
                if negative {
                    -magnitude
                } else {
                    magnitude
                },
            )
        } else {
            None
        }
    }
}

pub open spec fn fitting_int(v: Option<int>) -> Option<i64> {
    match v {
        Some(n) => if i64::MIN <= n <= i64::MAX {
            Some(n as i64)
        } else {
            None
        },
        None => None,
    }
}

/// The integer that a JSON number is, in whatever notation it was written.
pub open spec fn number_int(n: SNumber) -> Option<i64> {
    match n {
        SNumber::PosInt(i) => if i <= i64::MAX {
            Some(i as i64)
        } else {
            None
        },
        SNumber::NegInt(i) => Some(i),
        SNumber::Float(f) => fitting_int(float_int(f.bits)),
    }
}

fn signed(negative: bool, magnitude: u128) -> (r: Option<i64>)
    ensures
        r == fitting_int(
            Some(
                if negative {
                    -(magnitude as int)
                } else {
                    magnitude as int
                },
            ),
        ),
{
    if negative {
        if magnitude <= 0x8000_0000_0000_0000 {
            Some((-(magnitude as i128)) as i64)
        } else {
            None
        }
    } else {
        if magnitude <= 0x7fff_ffff_ffff_ffff {
            Some(magnitude as i64)
        } else {
            None
        }
    }
}

fn integral(bits: u64) -> (r: Option<i64>)
    ensures
        r == fitting_int(float_int(bits)),
{
    let exponent: u64 = (bits / 0x10_0000_0000_0000) % 2048;
    let fraction: u64 = bits % 0x10_0000_0000_0000;
    let negative = bits >= 0x8000_0000_0000_0000;
    let mantissa: u64 = 0x10_0000_0000_0000 + fraction;
    if exponent == 0 {
        if fraction == 0 {
            Some(0)
        } else {
            None
        }
    } else if exponent == 2047 {
        None
    } else if exponent >= 1075 {
        let shift: u64 = exponent - 1075;
        if shift > 11 {
            proof {
                reveal_with_fuel(power_of_two, 13);
                powers_grow(12, shift as nat);
                let p = power_of_two(shift as nat);
                assert(p >= 4096);
                assert(mantissa * p >= 0x10_0000_0000_0000 * 4096) by (nonlinear_arith)
                    requires
                        mantissa >= 0x10_0000_0000_0000,
                        p >= 4096,
                ;
            }
            return None;
        }
        let factor = two_to(shift);
        proof {
            reveal_with_fuel(power_of_two, 12);
            powers_grow(shift as nat, 11);
            assert(factor <= 2048);
            assert(mantissa * factor <= 0x20_0000_0000_0000 * 2048) by (nonlinear_arith)
                requires
                    mantissa <= 0x20_0000_0000_0000,
                    factor <= 2048,
            ;
        }
        signed(negative, mantissa as u128 * factor as u128)
    } else if exponent < 1023 {
        None
    } else {
        let unit = two_to(1075 - exponent);
        if mantissa % unit == 0 {
            signed(negative, (mantissa / unit) as u128)
        } else {
            None
        }
    }
}

pub fn json_number_to_i64(number: &JsonNumber) -> (r: Option<i64>)
    ensures
        r == number_int(number@),
{
    match number {
        JsonNumber::PosInt(i) => if *i <= i64::MAX as u64 {
            Some(*i as i64)
        } else {
            None
        },
        JsonNumber::NegInt(i) => Some(*i),
        JsonNumber::Float(f) => integral(f.bits),
    }
}

pub open spec fn json_result(r: Result<Json, MagError>) -> Result<SJson, SError> {
    match r {
        Ok(j) => Ok(j@),
        Err(e) => Err(e@),
    }
}

pub open spec fn jsons_result(r: Result<Vec<Json>, MagError>) -> Result<Seq<SJson>, SError> {
    match r {
        Ok(j) => Ok(jsons_view(j@)),
        Err(e) => Err(e@),
    }
}

pub open spec fn members_result(r: Result<Vec<(String, Json)>, MagError>) -> Result<
    Seq<(Seq<char>, SJson)>,
    SError,
> {
    match r {
        Ok(j) => Ok(members_view(j@)),
        Err(e) => Err(e@),
    }
}

/// The text by which documents are ordered.
pub open spec fn sort_text(j: SJson) -> Seq<char> {
    json_text(wired(j))
}

/// Documents in the order of their texts with one more put behind those that do not come after it.
pub open spec fn with_document(items: Seq<SJson>, j: SJson) -> Seq<SJson>
    decreases items.len(),
{
    if items.len() == 0 {
        seq![j]
    } else if before(sort_text(j), sort_text(items.last())) {
        with_document(items.drop_last(), j).push(items.last())
    } else {
        items.push(j)
    }
}

/// Documents in the order of their texts.
pub open spec fn sorted_documents(items: Seq<SJson>) -> Seq<SJson>
    decreases items.len(),
{
    if items.len() == 0 {
        Seq::empty()
    } else {
        with_document(sorted_documents(items.drop_last()), items.last())
    }
}

fn put_document(items: &mut Vec<Json>, j: Json)
    ensures
        jsons_view(final(items)@) == with_document(jsons_view(old(items)@), j@),
    decreases old(items)@.len(),
{
    let ghost all = jsons_view(items@);
    assert(all.len() == items@.len());
    if items.len() == 0 {
        items.push(j);
        assert(jsons_view(items@) =~= seq![j@]);
        return;
    }
    let n = items.len();
    assert(all.last() == items@[n - 1]@);
    if comes_before(&render(&j), &render(&items[n - 1])) {
        match items.pop() {
            Some(last) => {
                assert(jsons_view(items@) =~= all.drop_last());
                put_document(items, j);
                let ghost put = jsons_view(items@);
                items.push(last);
                assert(jsons_view(items@) =~= put.push(all.last()));
            },
            None => {},
        }
    } else {
        items.push(j);
        assert(jsons_view(items@) =~= all.push(j@));
    }
}

fn sort_documents(given: Vec<Json>) -> (r: Vec<Json>)
    ensures
        jsons_view(r@) == sorted_documents(jsons_view(given@)),
{
    let ghost all = jsons_view(given@);
    let mut r: Vec<Json> = Vec::new();
    let mut i: usize = 0;
    proof {
        assert(all.len() == given@.len());
        assert(all.take(0) =~= Seq::empty());
        assert(jsons_view(r@) =~= Seq::empty());
    }
    while i < given.len()
        invariant
            i <= given.len(),
            all == jsons_view(given@),
            all.len() == given@.len(),
            jsons_view(r@) == sorted_documents(all.take(i as int)),
        decreases given.len() - i,
    {
        proof {
            assert(all.take(i + 1).drop_last() =~= all.take(i as int));
            assert(all.take(i + 1).last() == given@[i as int]@);
        }
        put_document(&mut r, given[i].clone());
        i = i + 1;
    }
    assert(all.take(given.len() as int) =~= all);
    r
}

pub open spec fn int_json(n: i64) -> SJson {
    SJson::Number(
        if n < 0 {
            SNumber::NegInt(n)
        } else {
            SNumber::PosInt(n as u64)
        },
    )
}

pub open spec fn envelope(tag: Seq<char>, key: Seq<char>, j: SJson) -> SJson {
    SJson::Object(seq![("$mag"@, text_json(tag)), (key, j)])
}

/// Whether every key is a string as it stands.
pub open spec fn all_string_keys(entries: Seq<(SValue, SValue)>) -> bool {
    entries.len() > 0 && forall|i: int|
        0 <= i < entries.len() ==> (#[trigger] entries[i]).0 is Str
}

/// The JSON form of a value. A map is an object where its keys are strings: by the first map type
/// that annotates it, else by the keys themselves.
pub open spec fn encoded(v: SValue, strings: Option<bool>) -> Result<SJson, SError>
    decreases v, 1nat,
{
    match v {
        SValue::Unit => Ok(SJson::Null),
        SValue::Str(s) => Ok(SJson::Str(s)),
        SValue::Int(n) => Ok(int_json(n)),
        SValue::Float(f) => if finite_bits(f.bits) {
            Ok(SJson::Number(SNumber::Float(f)))
        } else {
            Err(SError::Eval("cannot serialize non-finite Float "@ + f.text + " to JSON"@))
        },
        SValue::Bool(b) => Ok(SJson::Bool(b)),
        SValue::Keyword(s) => Ok(SJson::Str(":"@ + s)),
        SValue::Symbol(s) => Ok(SJson::Str(s)),
        SValue::TypeTag(t) => Ok(descriptor(t)),
        SValue::TypeDescriptor(t) => Ok(descriptor(t)),
        SValue::TypeSchema(j) => Ok(j),
        SValue::SemanticTypeId(s) => Ok(SJson::Str(s)),
        SValue::PackedValue(inner) => match encoded(*inner, None) {
            Err(e) => Err(e),
            Ok(j) => Ok(envelope("packed-value"@, "value"@, j)),
        },
        SValue::JsonValue(j) => Ok(canonical(j)),
        SValue::HostInputs(_) => Err(
            SError::Eval("compiler host inputs cannot enter an artifact"@),
        ),
        SValue::List(items) => match encoded_all(items, Seq::empty()) {
            Err(e) => Err(e),
            Ok(items) => Ok(SJson::Array(items)),
        },
        SValue::Product(items) => match encoded_all(items, Seq::empty()) {
            Err(e) => Err(e),
            Ok(items) => Ok(SJson::Array(items)),
        },
        SValue::SetOf(items) => match encoded_all(items, Seq::empty()) {
            Err(e) => Err(e),
            Ok(items) => Ok(envelope("set"@, "items"@, SJson::Array(sorted_documents(items)))),
        },
        SValue::Adt(_, constructor, payload) => match encoded(*payload, None) {
            Err(e) => Err(e),
            Ok(j) => Ok(
                SJson::Object(
                    seq![("constructor"@, text_json(constructor.name)), ("value"@, j)],
                ),
            ),
        },
        SValue::Record(fields) => match encoded_fields(fields, Seq::empty()) {
            Err(e) => Err(e),
            Ok(members) => Ok(SJson::Object(members)),
        },
        SValue::MapOf(entries) => {
            let by_text = match strings {
                Some(b) => b,
                None => all_string_keys(entries),
            };
            if by_text {
                match encoded_members(entries, Seq::empty()) {
                    Err(e) => Err(e),
                    Ok(members) => Ok(SJson::Object(members)),
                }
            } else {
                match encoded_entries(entries, Seq::empty()) {
                    Err(e) => Err(e),
                    Ok(items) => Ok(
                        envelope("map"@, "entries"@, SJson::Array(sorted_documents(items))),
                    ),
                }
            }
        },
        SValue::Artifact(j) => Ok(j),
        SValue::Typed(inner, ty) => encoded(*inner, map_hint(strings, ty)),
        _ => Err(SError::Eval("cannot serialize "@ + kind_name(v) + " to JSON"@)),
    }
}

pub open spec fn map_hint(strings: Option<bool>, ty: SType) -> Option<bool> {
    match strings {
        Some(b) => Some(b),
        None => match ty {
            SType::MapOf(key, _) => Some(*key == SType::String),
            _ => None,
        },
    }
}

pub open spec fn encoded_all(items: Seq<SValue>, done: Seq<SJson>) -> Result<Seq<SJson>, SError>
    decreases items, 0nat,
{
    if items.len() == 0 {
        Ok(done)
    } else {
        match encoded(items[0], None) {
            Err(e) => Err(e),
            Ok(j) => encoded_all(items.drop_first(), done.push(j)),
        }
    }
}

pub open spec fn encoded_fields(
    items: Seq<(Seq<char>, SValue)>,
    done: Seq<(Seq<char>, SJson)>,
) -> Result<Seq<(Seq<char>, SJson)>, SError>
    decreases items, 0nat,
{
    if items.len() == 0 {
        Ok(done)
    } else {
        match encoded(items[0].1, None) {
            Err(e) => Err(e),
            Ok(j) => encoded_fields(items.drop_first(), with_member(done, items[0].0, j)),
        }
    }
}

pub open spec fn encoded_members(
    items: Seq<(SValue, SValue)>,
    done: Seq<(Seq<char>, SJson)>,
) -> Result<Seq<(Seq<char>, SJson)>, SError>
    decreases items, 0nat,
{
    if items.len() == 0 {
        Ok(done)
    } else {
        match string_of(items[0].0) {
            None => type_error("Map String key is not a String"@),
            Some(key) => match encoded(items[0].1, None) {
                Err(e) => Err(e),
                Ok(j) => encoded_members(items.drop_first(), with_member(done, key, j)),
            },
        }
    }
}

pub open spec fn encoded_entries(items: Seq<(SValue, SValue)>, done: Seq<SJson>) -> Result<
    Seq<SJson>,
    SError,
>
    decreases items, 0nat,
{
    if items.len() == 0 {
        Ok(done)
    } else {
        match encoded(items[0].0, None) {
            Err(e) => Err(e),
            Ok(key) => match encoded(items[0].1, None) {
                Err(e) => Err(e),
                Ok(value) => encoded_entries(
                    items.drop_first(),
                    done.push(SJson::Array(seq![key, value])),
                ),
            },
        }
    }
}

/// The JSON form of a value.
pub fn value_to_json(_env: &Env, value: &Value) -> (r: Result<Json, MagError>)
    ensures
        json_result(r) == encoded(value@, None),
{
    encode(value, None)
}

fn make_envelope(tag: &str, key: &str, j: Json) -> (r: Json)
    ensures
        r@ == envelope(tag@, key@, j@),
{
    object2("$mag", string_json(tag), key, j)
}

fn have_string_keys(entries: &Vec<(Value, Value)>) -> (r: bool)
    ensures
        r == all_string_keys(value_entries_view(entries@)),
{
    let ghost all = value_entries_view(entries@);
    assert(all.len() == entries@.len());
    if entries.len() == 0 {
        return false;
    }
    let mut i: usize = 0;
    while i < entries.len()
        invariant
            i <= entries.len(),
            all == value_entries_view(entries@),
            all.len() == entries@.len(),
            forall|j: int| 0 <= j < i ==> (#[trigger] all[j]).0 is Str,
        decreases entries.len() - i,
    {
        assert(all[i as int] == (entries@[i as int].0@, entries@[i as int].1@));
        match &entries[i].0 {
            Value::Str(_) => {},
            _ => {
                assert(!(all[i as int].0 is Str));
                return false;
            },
        }
        i = i + 1;
    }
    true
}

fn encode(value: &Value, strings: Option<bool>) -> (r: Result<Json, MagError>)
    ensures
        json_result(r) == encoded(value@, strings),
    decreases value, 1nat,
{
    match value {
        Value::Unit => Ok(Json::Null),
        Value::Str(s) => Ok(Json::Str(s.clone())),
        Value::Int(n) => Ok(
            Json::Number(
                if *n < 0 {
                    JsonNumber::NegInt(*n)
                } else {
                    JsonNumber::PosInt(*n as u64)
                },
            ),
        ),
        Value::Float(f) => if is_finite(f) {
            Ok(Json::Number(JsonNumber::Float(f.clone())))
        } else {
            Err(
                MagError::Eval(
                    cat3("cannot serialize non-finite Float ", &f.text, " to JSON"),
                ),
            )
        },
        Value::Bool(b) => Ok(Json::Bool(*b)),
        Value::Keyword(s) => Ok(Json::Str(cat2(":", s))),
        Value::Symbol(s) => Ok(Json::Str(s.clone())),
        Value::TypeTag(t) => Ok(concrete_type_to_json(t)),
        Value::TypeDescriptor(t) => Ok(concrete_type_to_json(t)),
        Value::TypeSchema(j) => Ok(j.clone()),
        Value::SemanticTypeId(s) => Ok(Json::Str(s.clone())),
        Value::PackedValue(inner) => {
            let j = encode(inner, None)?;
            Ok(make_envelope("packed-value", "value", j))
        },
        Value::JsonValue(j) => Ok(canonicalize_json(j)),
        Value::HostInputs(_) => Err(
            MagError::Eval("compiler host inputs cannot enter an artifact".to_owned()),
        ),
        Value::List(items) => Ok(array_json(encode_all(items)?)),
        Value::Product(items) => Ok(array_json(encode_all(items)?)),
        Value::SetOf(items) => {
            let made = encode_all(items)?;
            Ok(make_envelope("set", "items", array_json(sort_documents(made))))
        },
        Value::Adt { constructor, payload, .. } => {
            let j = encode(payload, None)?;
            Ok(object2("constructor", string_json(&constructor.name), "value", j))
        },
        Value::Record(fields) => {
            let members = encode_fields(fields)?;
            let r = Json::Object(members);
            assert(r@ == SJson::Object(members_view(members@)));
            Ok(r)
        },
        Value::MapOf(entries) => {
            let by_text = match strings {
                Some(b) => b,
                None => have_string_keys(entries),
            };
            if by_text {
                let members = encode_members(entries)?;
                let r = Json::Object(members);
                assert(r@ == SJson::Object(members_view(members@)));
                Ok(r)
            } else {
                let made = encode_entries(entries)?;
                Ok(make_envelope("map", "entries", array_json(sort_documents(made))))
            }
        },
        Value::Artifact(j) => Ok(j.clone()),
        Value::Typed(inner, ty) => {
            let hint = match strings {
                Some(b) => Some(b),
                None => match ty {
                    MagType::MapOf(key, _) => Some(key.equals(&MagType::String)),
                    _ => None,
                },
            };
            encode(inner, hint)
        },
        _ => Err(MagError::Eval(cat3("cannot serialize ", value.kind_text(), " to JSON"))),
    }
}

fn encode_all(items: &Vec<Value>) -> (r: Result<Vec<Json>, MagError>)
    ensures
        jsons_result(r) == encoded_all(values_view(items@), Seq::empty()),
    decreases items, 0nat,
{
    let ghost all = values_view(items@);
    let ghost whole = encoded_all(all, Seq::empty());
    let mut done: Vec<Json> = Vec::new();
    let mut i: usize = 0;
    proof {
        assert(all.len() == items@.len());
        assert(all.skip(0) =~= all);
        assert(jsons_view(done@) =~= Seq::empty());
    }
    while i < items.len()
        invariant
            i <= items.len(),
            all == values_view(items@),
            all.len() == items@.len(),
            whole == encoded_all(all, Seq::empty()),
            whole == encoded_all(all.skip(i as int), jsons_view(done@)),
        decreases items.len() - i,
    {
        let ghost so_far = jsons_view(done@);
        proof {
            assert(all.skip(i as int)[0] == items@[i as int]@);
            assert(all.skip(i as int).drop_first() =~= all.skip(i + 1));
        }
        let j = encode(&items[i], None)?;
        done.push(j);
        assert(jsons_view(done@) =~= so_far.push(j@));
        i = i + 1;
    }
    Ok(done)
}

fn encode_fields(items: &Vec<(String, Value)>) -> (r: Result<Vec<(String, Json)>, MagError>)
    ensures
        members_result(r) == encoded_fields(value_fields_view(items@), Seq::empty()),
    decreases items, 0nat,
{
    let ghost all = value_fields_view(items@);
    let ghost whole = encoded_fields(all, Seq::empty());
    let mut done: Vec<(String, Json)> = Vec::new();
    let mut i: usize = 0;
    proof {
        assert(all.len() == items@.len());
        assert(all.skip(0) =~= all);
        assert(members_view(done@) =~= Seq::empty());
    }
    while i < items.len()
        invariant
            i <= items.len(),
            all == value_fields_view(items@),
            all.len() == items@.len(),
            whole == encoded_fields(all, Seq::empty()),
            whole == encoded_fields(all.skip(i as int), members_view(done@)),
        decreases items.len() - i,
    {
        proof {
            assert(all.skip(i as int)[0] == (items@[i as int].0@, items@[i as int].1@));
            assert(all.skip(i as int).drop_first() =~= all.skip(i + 1));
        }
        let j = encode(&items[i].1, None)?;
        put_member(&mut done, items[i].0.clone(), j);
        i = i + 1;
    }
    Ok(done)
}

fn encode_members(items: &Vec<(Value, Value)>) -> (r: Result<Vec<(String, Json)>, MagError>)
    ensures
        members_result(r) == encoded_members(value_entries_view(items@), Seq::empty()),
    decreases items, 0nat,
{
    let ghost all = value_entries_view(items@);
    let ghost whole = encoded_members(all, Seq::empty());
    let mut done: Vec<(String, Json)> = Vec::new();
    let mut i: usize = 0;
    proof {
        assert(all.len() == items@.len());
        assert(all.skip(0) =~= all);
        assert(members_view(done@) =~= Seq::empty());
    }
    while i < items.len()
        invariant
            i <= items.len(),
            all == value_entries_view(items@),
            all.len() == items@.len(),
            whole == encoded_members(all, Seq::empty()),
            whole == encoded_members(all.skip(i as int), members_view(done@)),
        decreases items.len() - i,
    {
        proof {
            assert(all.skip(i as int)[0] == (items@[i as int].0@, items@[i as int].1@));
            assert(all.skip(i as int).drop_first() =~= all.skip(i + 1));
        }
        let key = match items[i].0.as_str() {
            Some(key) => key.to_owned(),
            None => {
                return Err(MagError::Type("Map String key is not a String".to_owned()));
            },
        };
        let j = encode(&items[i].1, None)?;
        put_member(&mut done, key, j);
        i = i + 1;
    }
    Ok(done)
}

fn encode_entries(items: &Vec<(Value, Value)>) -> (r: Result<Vec<Json>, MagError>)
    ensures
        jsons_result(r) == encoded_entries(value_entries_view(items@), Seq::empty()),
    decreases items, 0nat,
{
    let ghost all = value_entries_view(items@);
    let ghost whole = encoded_entries(all, Seq::empty());
    let mut done: Vec<Json> = Vec::new();
    let mut i: usize = 0;
    proof {
        assert(all.len() == items@.len());
        assert(all.skip(0) =~= all);
        assert(jsons_view(done@) =~= Seq::empty());
    }
    while i < items.len()
        invariant
            i <= items.len(),
            all == value_entries_view(items@),
            all.len() == items@.len(),
            whole == encoded_entries(all, Seq::empty()),
            whole == encoded_entries(all.skip(i as int), jsons_view(done@)),
        decreases items.len() - i,
    {
        let ghost so_far = jsons_view(done@);
        proof {
            assert(all.skip(i as int)[0] == (items@[i as int].0@, items@[i as int].1@));
            assert(all.skip(i as int).drop_first() =~= all.skip(i + 1));
        }
        let key = encode(&items[i].0, None)?;
        let value = encode(&items[i].1, None)?;
        let ghost pair = seq![key@, value@];
        let both = vec![key, value];
        assert(jsons_view(both@) =~= pair);
        let j = array_json(both);
        done.push(j);
        assert(jsons_view(done@) =~= so_far.push(j@));
        i = i + 1;
    }
    Ok(done)
}

/// The value that a document holds with no type expected.
pub open spec fn plain_value(j: SJson) -> SValue
    decreases j, 1nat,
{
    match j {
        SJson::Null => SValue::Unit,
        SJson::Bool(b) => SValue::Bool(b),
        SJson::Number(n) => plain_number(n),
        SJson::Str(s) => SValue::Str(s),
        SJson::Array(items) => SValue::List(plain_values(items)),
        SJson::Object(members) => SValue::Record(plain_fields(members)),
    }
}

pub open spec fn plain_number(n: SNumber) -> SValue {
    match n {
        SNumber::PosInt(i) => if i <= i64::MAX {
            SValue::Int(i as i64)
        } else {
            SValue::Float(number_float(n))
        },
        SNumber::NegInt(i) => SValue::Int(i),
        SNumber::Float(f) => SValue::Float(f),
    }
}

pub open spec fn plain_values(items: Seq<SJson>) -> Seq<SValue>
    decreases items, 0nat,
{
    Seq::new(
        items.len(),
        |i: int|
            if 0 <= i < items.len() {
                plain_value(items[i])
            } else {
                arbitrary()
            },
    )
}

pub open spec fn plain_fields(members: Seq<(Seq<char>, SJson)>) -> Seq<(Seq<char>, SValue)>
    decreases members, 0nat,
{
    if members.len() == 0 {
        Seq::empty()
    } else {
        with_member(
            plain_fields(members.drop_last()),
            members.last().0,
            plain_value(members.last().1),
        )
    }
}

/// Puts a field of a record in its place by the order of names.
pub fn put_value(fields: &mut Vec<(String, Value)>, name: String, value: Value)
    ensures
        value_fields_view(final(fields)@) == with_member(
            value_fields_view(old(fields)@),
            name@,
            value@,
        ),
    decreases old(fields)@.len(),
{
    let ghost all = value_fields_view(fields@);
    assert(all.len() == fields@.len());
    if fields.len() == 0 {
        let ghost entry = (name@, value@);
        fields.push((name, value));
        assert(value_fields_view(fields@) =~= seq![entry]);
        return;
    }
    let n = fields.len();
    assert(all.last() == (fields@[n - 1].0@, fields@[n - 1].1@));
    if same(&fields[n - 1].0, &name) {
        let ghost entry = (name@, value@);
        fields.set(n - 1, (name, value));
        assert(value_fields_view(fields@) =~= all.drop_last().push(entry));
    } else if comes_before(&name, &fields[n - 1].0) {
        match fields.pop() {
            Some(last) => {
                assert(value_fields_view(fields@) =~= all.drop_last());
                put_value(fields, name, value);
                let ghost put = value_fields_view(fields@);
                fields.push(last);
                assert(value_fields_view(fields@) =~= put.push(all.last()));
            },
            None => {},
        }
    } else {
        let ghost entry = (name@, value@);
        fields.push((name, value));
        assert(value_fields_view(fields@) =~= all.push(entry));
    }
}

/// A list of values.
pub fn list_value(items: Vec<Value>) -> (r: Value)
    ensures
        r@ == SValue::List(values_view(items@)),
{
    Value::List(Arc::new(items))
}

pub fn record_value(fields: Vec<(String, Value)>) -> (r: Value)
    ensures
        r@ == SValue::Record(value_fields_view(fields@)),
{
    Value::Record(Arc::new(fields))
}

/// The value that a document holds with no type expected.
pub fn json_to_value(j: &Json) -> (r: Value)
    ensures
        r@ == plain_value(j@),
    decreases j, 1nat,
{
    match j {
        Json::Null => Value::Unit,
        Json::Bool(b) => Value::Bool(*b),
        Json::Number(n) => match n {
            JsonNumber::PosInt(i) => if *i <= i64::MAX as u64 {
                Value::Int(*i as i64)
            } else {
                Value::Float(number_to_float(n))
            },
            JsonNumber::NegInt(i) => Value::Int(*i),
            JsonNumber::Float(f) => Value::Float(f.clone()),
        },
        Json::Str(s) => Value::Str(s.clone()),
        Json::Array(items) => list_value(to_values(items)),
        Json::Object(members) => record_value(to_fields(members)),
    }
}

fn to_values(items: &Vec<Json>) -> (r: Vec<Value>)
    ensures
        values_view(r@) == plain_values(jsons_view(items@)),
    decreases items, 0nat,
{
    let ghost all = jsons_view(items@);
    let mut r: Vec<Value> = Vec::new();
    let mut i: usize = 0;
    assert(all.len() == items@.len());
    while i < items.len()
        invariant
            i <= items.len(),
            r.len() == i,
            all == jsons_view(items@),
            all.len() == items@.len(),
            forall|j: int| 0 <= j < i ==> (#[trigger] r@[j])@ == plain_value(all[j]),
        decreases items.len() - i,
    {
        assert(all[i as int] == items@[i as int]@);
        r.push(json_to_value(&items[i]));
        i = i + 1;
    }
    assert(values_view(r@) =~= plain_values(all));
    r
}

fn to_fields(members: &Vec<(String, Json)>) -> (r: Vec<(String, Value)>)
    ensures
        value_fields_view(r@) == plain_fields(members_view(members@)),
    decreases members, 0nat,
{
    let ghost all = members_view(members@);
    let mut r: Vec<(String, Value)> = Vec::new();
    let mut i: usize = 0;
    proof {
        assert(all.len() == members@.len());
        assert(all.take(0) =~= Seq::empty());
        assert(value_fields_view(r@) =~= Seq::empty());
    }
    while i < members.len()
        invariant
            i <= members.len(),
            all == members_view(members@),
            all.len() == members@.len(),
            value_fields_view(r@) == plain_fields(all.take(i as int)),
        decreases members.len() - i,
    {
        proof {
            assert(all.take(i + 1).drop_last() =~= all.take(i as int));
            assert(all.take(i + 1).last() == (members@[i as int].0@, members@[i as int].1@));
        }
        put_value(&mut r, members[i].0.clone(), json_to_value(&members[i].1));
        i = i + 1;
    }
    assert(all.take(members.len() as int) =~= all);
    r
}

/// Why a document is not of a type.
pub open spec fn expected_type<T>(ty: SType) -> Result<T, SError> {
    type_error("expected "@ + type_text(ty))
}

fn expect<T>(ty: &MagType) -> (r: Result<T, MagError>)
    ensures
        r is Err,
        r->Err_0@ == SError::Type("expected "@ + type_text(ty@)),
{
    Err(MagError::Type(cat2("expected ", &ty.show())))
}

/// Where the payload of an envelope stands among its members.
#[verifier::opaque]
pub open spec fn envelope_payload(
    j: SJson,
    tag: Seq<char>,
    payload: Seq<char>,
    ty: SType,
) -> Result<nat, SError> {
    match j {
        SJson::Object(o) => {
            let mark = member_index(o, "$mag"@, 0);
            let at = member_index(o, payload, 0);
            if o.len() != 2 || mark >= o.len() || o[mark as int].1 != SJson::Str(tag) || at
                >= o.len() {
                type_error(
                    "expected exact "@ + tag + " envelope {$mag, "@ + payload + "} for "@
                        + type_text(ty),
                )
            } else {
                Ok(at)
            }
        },
        _ => type_error("expected "@ + tag + " envelope for "@ + type_text(ty)),
    }
}

fn is_text(j: &Json, text: &str) -> (r: bool)
    ensures
        r == (j@ == SJson::Str(text@)),
{
    match j {
        Json::Str(s) => same(s, text),
        _ => false,
    }
}

fn exact_envelope(j: &Json, tag: &str, payload: &str, ty: &MagType) -> (r: Result<usize, MagError>)
    ensures
        match r {
            Ok(i) => envelope_payload(j@, tag@, payload@, ty@) == Ok::<nat, SError>(i as nat)
                && j is Object && i < j->Object_0@.len(),
            Err(e) => envelope_payload(j@, tag@, payload@, ty@) == Err::<nat, SError>(e@),
        },
{
    proof {
        reveal(envelope_payload);
    }
    match j {
        Json::Object(o) => {
            assert(j@ == SJson::Object(members_view(o@)));
            assert(members_view(o@).len() == o@.len());
            let mark = find_member(o, "$mag");
            let at = find_member(o, payload);
            if mark < o.len() {
                assert(members_view(o@)[mark as int].1 == o@[mark as int].1@);
            }
            if o.len() != 2 || mark >= o.len() || !is_text(&o[mark].1, tag) || at >= o.len() {
                return Err(
                    MagError::Type(
                        cat6(
                            "expected exact ",
                            tag,
                            " envelope {$mag, ",
                            payload,
                            "} for ",
                            &ty.show(),
                        ),
                    ),
                );
            }
            Ok(at)
        },
        _ => Err(MagError::Type(cat4("expected ", tag, " envelope for ", &ty.show()))),
    }
}

/// The constructor that an envelope names, and where its payload stands among the members.
#[verifier::opaque]
pub open spec fn constructor_payload(j: SJson, constructors: Seq<SConstructor>, ty: SType) -> Result<
    (SConstructor, nat),
    SError,
> {
    match j {
        SJson::Object(o) => {
            let named = member_index(o, "constructor"@, 0);
            let at = member_index(o, "value"@, 0);
            if o.len() != 2 || named >= o.len() || at >= o.len() {
                type_error(
                    "expected exact ADT envelope {constructor, value} for "@ + type_text(ty),
                )
            } else {
                match o[named as int].1 {
                    SJson::Str(name) => match constructor_named(constructors, name, 0) {
                        Some(c) => Ok((c, at)),
                        None => type_error(
                            "constructor "@ + name + " is not a member of "@ + type_text(ty),
                        ),
                    },
                    _ => type_error("ADT constructor must be a string"@),
                }
            }
        },
        _ => type_error("expected ADT envelope for "@ + type_text(ty)),
    }
}

/// Where a constructor of a name stands.
fn find_constructor(items: &Vec<crate::ast::ConstructorDecl>, name: &str) -> (r: Option<usize>)
    ensures
        match r {
            Some(i) => i < items@.len() && constructor_named(
                decl_constructors(items@),
                name@,
                0,
            ) == Some(items@[i as int]@),
            None => constructor_named(decl_constructors(items@), name@, 0) is None,
        },
{
    let ghost all = decl_constructors(items@);
    let mut i: usize = 0;
    while i < items.len()
        invariant
            i <= items.len(),
            all == decl_constructors(items@),
            constructor_named(all, name@, 0) == constructor_named(all, name@, i as nat),
        decreases items.len() - i,
    {
        assert(all[i as int] == items@[i as int]@);
        if same(&items[i].id.name, name) {
            return Some(i);
        }
        i = i + 1;
    }
    None
}

fn read_constructor(
    j: &Json,
    constructors: &Vec<crate::ast::ConstructorDecl>,
    ty: &MagType,
) -> (r: Result<(usize, usize), MagError>)
    ensures
        match r {
            Ok((c, at)) => c < constructors@.len() && j is Object && at < j->Object_0@.len()
                && constructor_payload(j@, decl_constructors(constructors@), ty@) == Ok::<
                (SConstructor, nat),
                SError,
            >((constructors@[c as int]@, at as nat)),
            Err(e) => constructor_payload(j@, decl_constructors(constructors@), ty@) == Err::<
                (SConstructor, nat),
                SError,
            >(e@),
        },
{
    proof {
        reveal(constructor_payload);
    }
    match j {
        Json::Object(o) => {
            assert(j@ == SJson::Object(members_view(o@)));
            assert(members_view(o@).len() == o@.len());
            let named = find_member(o, "constructor");
            let at = find_member(o, "value");
            if o.len() != 2 || named >= o.len() || at >= o.len() {
                return Err(
                    MagError::Type(
                        cat2(
                            "expected exact ADT envelope {constructor, value} for ",
                            &ty.show(),
                        ),
                    ),
                );
            }
            assert(members_view(o@)[named as int].1 == o@[named as int].1@);
            match &o[named].1 {
                Json::Str(name) => match find_constructor(constructors, name) {
                    Some(c) => Ok((c, at)),
                    None => Err(
                        MagError::Type(
                            cat4("constructor ", name, " is not a member of ", &ty.show()),
                        ),
                    ),
                },
                _ => Err(MagError::Type("ADT constructor must be a string".to_owned())),
            }
        },
        _ => Err(MagError::Type(cat2("expected ADT envelope for ", &ty.show()))),
    }
}

/// Whether the value at a position equals an earlier one, from position `k` on.
pub open spec fn equals_earlier(values: Seq<SValue>, i: nat, k: nat) -> bool
    decreases i - k,
{
    k < i && (values_equal(values[k as int], values[i as int]) || equals_earlier(values, i, k + 1))
}

/// The first position of a value that equals an earlier one, from position `i` on.
pub open spec fn first_duplicate(values: Seq<SValue>, i: nat) -> Option<nat>
    decreases values.len() - i,
{
    if i >= values.len() {
        None
    } else if equals_earlier(values, i, 0) {
        Some(i)
    } else {
        first_duplicate(values, i + 1)
    }
}

pub open spec fn entry_keys(entries: Seq<(SValue, SValue)>) -> Seq<SValue> {
    Seq::new(entries.len(), |i: int| entries[i].0)
}

/// Refuses a value that occurs twice.
pub open spec fn distinct_values(values: Seq<SValue>, label: Seq<char>) -> Result<(), SError> {
    match first_duplicate(values, 0) {
        Some(i) => type_error("duplicate "@ + label + " at position "@ + decimal(i)),
        None => Ok(()),
    }
}

fn reject_duplicate_values(values: &Vec<Value>, label: &str) -> (r: Result<(), MagError>)
    ensures
        crate::type_rules::unit_result(r) == distinct_values(values_view(values@), label@),
{
    let ghost all = values_view(values@);
    let mut i: usize = 0;
    assert(all.len() == values@.len());
    while i < values.len()
        invariant
            i <= values.len(),
            all == values_view(values@),
            all.len() == values@.len(),
            first_duplicate(all, 0) == first_duplicate(all, i as nat),
        decreases values.len() - i,
    {
        let mut k: usize = 0;
        while k < i
            invariant
                k <= i < values.len(),
                all == values_view(values@),
                all.len() == values@.len(),
                first_duplicate(all, 0) == first_duplicate(all, i as nat),
                equals_earlier(all, i as nat, 0) == equals_earlier(all, i as nat, k as nat),
            decreases i - k,
        {
            assert(all[k as int] == values@[k as int]@);
            assert(all[i as int] == values@[i as int]@);
            if equal(&values[k], &values[i]) {
                return Err(
                    MagError::Type(
                        cat4("duplicate ", label, " at position ", &show_usize(i)),
                    ),
                );
            }
            k = k + 1;
        }
        i = i + 1;
    }
    Ok(())
}

fn reject_duplicate_map_keys(entries: &Vec<(Value, Value)>) -> (r: Result<(), MagError>)
    ensures
        crate::type_rules::unit_result(r) == distinct_values(
            entry_keys(value_entries_view(entries@)),
            "map key"@,
        ),
{
    let ghost all = entry_keys(value_entries_view(entries@));
    let mut i: usize = 0;
    assert(all.len() == entries@.len());
    while i < entries.len()
        invariant
            i <= entries.len(),
            all == entry_keys(value_entries_view(entries@)),
            all.len() == entries@.len(),
            first_duplicate(all, 0) == first_duplicate(all, i as nat),
        decreases entries.len() - i,
    {
        let mut k: usize = 0;
        while k < i
            invariant
                k <= i < entries.len(),
                all == entry_keys(value_entries_view(entries@)),
                all.len() == entries@.len(),
                first_duplicate(all, 0) == first_duplicate(all, i as nat),
                equals_earlier(all, i as nat, 0) == equals_earlier(all, i as nat, k as nat),
            decreases i - k,
        {
            assert(all[k as int] == entries@[k as int].0@);
            assert(all[i as int] == entries@[i as int].0@);
            if equal(&entries[k].0, &entries[i].0) {
                return Err(
                    MagError::Type(
                        cat4("duplicate ", "map key", " at position ", &show_usize(i)),
                    ),
                );
            }
            k = k + 1;
        }
        i = i + 1;
    }
    Ok(())
}

/// The value that a document holds at a type. A record takes exactly the members that its type
/// has, or, where it is a projection, at least those.
pub open spec fn decoded(env: SEnv, j: SJson, ty: SType, exact: bool, fuel: nat) -> Result<
    SValue,
    SError,
>
    decreases j, fuel, 1nat,
{
    match ty {
        SType::Named(name, args) => match env.decl(name) {
            None => type_error("unknown nominal type "@ + name),
            Some(decl) => {
                let bound = bound_params(decl.params, args);
                match decl.body {
                    SDeclBody::Nominal(body) => if fuel == 0 {
                        type_error("type expansion limit exceeded"@)
                    } else {
                        match decoded(env, j, apply(body, bound), exact, (fuel - 1) as nat) {
                            Err(e) => Err(e),
                            Ok(v) => Ok(SValue::Typed(Box::new(v), ty)),
                        }
                    },
                    SDeclBody::Adt(constructors) => match constructor_payload(
                        j,
                        constructors,
                        ty,
                    ) {
                        Err(e) => Err(e),
                        Ok((c, at)) => if j is Object && 0 <= at < j->Object_0.len() {
                            match decoded(
                                env,
                                j->Object_0[at as int].1,
                                apply(c.payload, bound),
                                exact,
                                expansion_limit(env),
                            ) {
                                Err(e) => Err(e),
                                Ok(v) => Ok(SValue::Adt(ty, c.id, Box::new(v))),
                            }
                        } else {
                            arbitrary()
                        },
                    },
                    SDeclBody::Native => type_error(
                        "native type "@ + name + " cannot be decoded as a nominal value"@,
                    ),
                }
            },
        },
        SType::List(item) => match j {
            SJson::Array(items) => match decoded_all(env, items, *item, exact, Seq::empty()) {
                Err(e) => Err(e),
                Ok(v) => Ok(SValue::List(v)),
            },
            _ => expected_type(ty),
        },
        SType::SetOf(item) => match envelope_payload(j, "set"@, "items"@, ty) {
            Err(e) => Err(e),
            Ok(at) => if j is Object && 0 <= at < j->Object_0.len() && j->Object_0[at as int].1 is Array {
                match decoded_all(
                    env,
                    j->Object_0[at as int].1->Array_0,
                    *item,
                    exact,
                    Seq::empty(),
                ) {
                    Err(e) => Err(e),
                    Ok(v) => match distinct_values(v, "set item"@) {
                        Err(e) => Err(e),
                        Ok(_) => Ok(SValue::Typed(Box::new(SValue::SetOf(v)), ty)),
                    },
                }
            } else {
                type_error("set items must be an array for "@ + type_text(ty))
            },
        },
        SType::MapOf(key, item) => if *key == SType::String {
            match j {
                SJson::Object(o) => match decoded_members(env, o, *item, exact, Seq::empty()) {
                    Err(e) => Err(e),
                    Ok(v) => Ok(SValue::Typed(Box::new(SValue::MapOf(v)), ty)),
                },
                _ => expected_type(ty),
            }
        } else {
            match envelope_payload(j, "map"@, "entries"@, ty) {
                Err(e) => Err(e),
                Ok(at) => if j is Object && 0 <= at < j->Object_0.len() && j->Object_0[at as int].1 is Array {
                    match decoded_entries(
                        env,
                        j->Object_0[at as int].1->Array_0,
                        *key,
                        *item,
                        exact,
                        ty,
                        Seq::empty(),
                    ) {
                        Err(e) => Err(e),
                        Ok(v) => match distinct_values(entry_keys(v), "map key"@) {
                            Err(e) => Err(e),
                            Ok(_) => Ok(SValue::Typed(Box::new(SValue::MapOf(v)), ty)),
                        },
                    }
                } else {
                    type_error("map entries must be an array for "@ + type_text(ty))
                },
            }
        },
        SType::Record(fields) => match j {
            SJson::Object(o) => if exact && o.len() != fields.len() {
                type_error("expected exact record fields for "@ + type_text(ty))
            } else {
                match decoded_fields(env, o, fields, exact, ty, Seq::empty()) {
                    Err(e) => Err(e),
                    Ok(v) => Ok(SValue::Record(v)),
                }
            },
            _ => expected_type(ty),
        },
        SType::Product(types) => match j {
            SJson::Array(items) => if items.len() != types.len() {
                type_error(
                    "expected "@ + decimal(types.len()) + " tuple positions for "@ + type_text(ty)
                        + ", got "@ + decimal(items.len()),
                )
            } else {
                match decoded_positions(env, items, types, exact, Seq::empty()) {
                    Err(e) => Err(e),
                    Ok(v) => Ok(SValue::Product(v)),
                }
            },
            _ => type_error("expected ordered tuple "@ + type_text(ty)),
        },
        SType::JsonValue => Ok(SValue::JsonValue(j)),
        SType::Float => match j {
            SJson::Number(n) => Ok(SValue::Float(number_float(n))),
            _ => expected_type(ty),
        },
        SType::Int => match j {
            SJson::Number(n) => match number_int(n) {
                Some(i) => Ok(SValue::Int(i)),
                None => expected_type(ty),
            },
            _ => expected_type(ty),
        },
        SType::Unit => match j {
            SJson::Null => Ok(SValue::Unit),
            _ => expected_type(ty),
        },
        SType::Bool => match j {
            SJson::Bool(b) => Ok(SValue::Bool(b)),
            _ => expected_type(ty),
        },
        SType::String => match j {
            SJson::Str(s) => Ok(SValue::Str(s)),
            _ => expected_type(ty),
        },
        _ => type_error(type_text(ty) + " is not representable as typed runtime JSON"@),
    }
}

pub open spec fn decoded_all(
    env: SEnv,
    items: Seq<SJson>,
    ty: SType,
    exact: bool,
    done: Seq<SValue>,
) -> Result<Seq<SValue>, SError>
    decreases items, 0nat, 0nat,
{
    if items.len() == 0 {
        Ok(done)
    } else {
        match decoded(env, items[0], ty, exact, expansion_limit(env)) {
            Err(e) => Err(e),
            Ok(v) => decoded_all(env, items.drop_first(), ty, exact, done.push(v)),
        }
    }
}

pub open spec fn decoded_positions(
    env: SEnv,
    items: Seq<SJson>,
    types: Seq<SType>,
    exact: bool,
    done: Seq<SValue>,
) -> Result<Seq<SValue>, SError>
    decreases items, 0nat, 0nat,
{
    if items.len() == 0 {
        Ok(done)
    } else {
        match decoded(env, items[0], types[done.len() as int], exact, expansion_limit(env)) {
            Err(e) => Err(e),
            Ok(v) => decoded_positions(env, items.drop_first(), types, exact, done.push(v)),
        }
    }
}

pub open spec fn decoded_members(
    env: SEnv,
    o: Seq<(Seq<char>, SJson)>,
    ty: SType,
    exact: bool,
    done: Seq<(SValue, SValue)>,
) -> Result<Seq<(SValue, SValue)>, SError>
    decreases o, 0nat, 0nat,
{
    if o.len() == 0 {
        Ok(done)
    } else {
        match decoded(env, o[0].1, ty, exact, expansion_limit(env)) {
            Err(e) => Err(e),
            Ok(v) => decoded_members(
                env,
                o.drop_first(),
                ty,
                exact,
                done.push((SValue::Str(o[0].0), v)),
            ),
        }
    }
}

pub open spec fn decoded_entries(
    env: SEnv,
    items: Seq<SJson>,
    key: SType,
    value: SType,
    exact: bool,
    ty: SType,
    done: Seq<(SValue, SValue)>,
) -> Result<Seq<(SValue, SValue)>, SError>
    decreases items, 0nat, 0nat,
{
    if items.len() == 0 {
        Ok(done)
    } else if items[0] is Array && items[0]->Array_0.len() == 2 {
        match decoded(env, items[0]->Array_0[0], key, exact, expansion_limit(env)) {
            Err(e) => Err(e),
            Ok(k) => match decoded(
                env,
                items[0]->Array_0[1],
                value,
                exact,
                expansion_limit(env),
            ) {
                Err(e) => Err(e),
                Ok(v) => decoded_entries(
                    env,
                    items.drop_first(),
                    key,
                    value,
                    exact,
                    ty,
                    done.push((k, v)),
                ),
            },
        }
    } else {
        type_error("map entry must be [key, value] for "@ + type_text(ty))
    }
}

pub open spec fn decoded_fields(
    env: SEnv,
    o: Seq<(Seq<char>, SJson)>,
    fields: Seq<(Seq<char>, SType)>,
    exact: bool,
    ty: SType,
    done: Seq<(Seq<char>, SValue)>,
) -> Result<Seq<(Seq<char>, SValue)>, SError>
    decreases o, fields.len(), 0nat,
{
    if fields.len() == 0 {
        Ok(done)
    } else {
        let at = member_index(o, fields[0].0, 0);
        if 0 <= at < o.len() {
            match decoded(env, o[at as int].1, fields[0].1, exact, expansion_limit(env)) {
                Err(e) => Err(e),
                Ok(v) => decoded_fields(
                    env,
                    o,
                    fields.drop_first(),
                    exact,
                    ty,
                    with_member(done, fields[0].0, v),
                ),
            }
        } else {
            type_error("missing field "@ + fields[0].0 + " for "@ + type_text(ty))
        }
    }
}

/// The value that a document holds at a type, where records take exactly what their types have.
pub fn json_to_typed_value(env: &Env, j: &Json, ty: &MagType) -> (r: Result<Value, MagError>)
    ensures
        value_result(r) == decoded(env@, j@, ty@, true, expansion_limit(env@)),
{
    decode_typed_value(env, j, ty, true, unfolding_limit(env))
}

/// The same where records take at least what their types have.
pub fn project_typed_value(env: &Env, j: &Json, ty: &MagType) -> (r: Result<Value, MagError>)
    ensures
        value_result(r) == decoded(env@, j@, ty@, false, expansion_limit(env@)),
{
    decode_typed_value(env, j, ty, false, unfolding_limit(env))
}

fn typed(value: Value, ty: &MagType) -> (r: Value)
    ensures
        r@ == SValue::Typed(Box::new(value@), ty@),
{
    Value::Typed(Arc::new(value), ty.clone())
}

fn decode_typed_value(env: &Env, j: &Json, ty: &MagType, exact: bool, fuel: u64) -> (r: Result<
    Value,
    MagError,
>)
    ensures
        value_result(r) == decoded(env@, j@, ty@, exact, fuel as nat),
    decreases j, fuel, 1nat,
{
    match ty {
        MagType::Named(name, args) => {
            assert(ty@ == SType::Named(name@, types_view(args@)));
            let decl = match env.type_decl(name) {
                Some(d) => d,
                None => {
                    return Err(MagError::Type(cat2("unknown nominal type ", name)));
                },
            };
            let bound = bind_params(&decl.params, args);
            match &decl.body {
                TypeDeclBody::Nominal(body) => {
                    if fuel == 0 {
                        return Err(MagError::Type("type expansion limit exceeded".to_owned()));
                    }
                    let inner = substitute(body, &bound);
                    let v = decode_typed_value(env, j, &inner, exact, fuel - 1)?;
                    Ok(typed(v, ty))
                },
                TypeDeclBody::Adt(constructors) => {
                    let (c, at) = read_constructor(j, constructors, ty)?;
                    match j {
                        Json::Object(o) => {
                            assert(j@ == SJson::Object(members_view(o@)));
                            assert(members_view(o@)[at as int].1 == o@[at as int].1@);
                            let payload_type = substitute(&constructors[c].payload, &bound);
                            let v = decode_typed_value(
                                env,
                                &o[at].1,
                                &payload_type,
                                exact,
                                unfolding_limit(env),
                            )?;
                            Ok(
                                Value::Adt {
                                    owner: ty.clone(),
                                    constructor: constructors[c].id.clone(),
                                    payload: Arc::new(v),
                                },
                            )
                        },
                        _ => expect(ty),
                    }
                },
                TypeDeclBody::Native => Err(
                    MagError::Type(
                        cat3("native type ", name, " cannot be decoded as a nominal value"),
                    ),
                ),
            }
        },
        MagType::List(item) => match j {
            Json::Array(items) => Ok(list_value(decode_all(env, items, item, exact)?)),
            _ => expect(ty),
        },
        MagType::SetOf(item) => {
            let at = exact_envelope(j, "set", "items", ty)?;
            match j {
                Json::Object(o) => {
                    assert(j@ == SJson::Object(members_view(o@)));
                    assert(members_view(o@)[at as int].1 == o@[at as int].1@);
                    match &o[at].1 {
                        Json::Array(items) => {
                            let v = decode_all(env, items, item, exact)?;
                            reject_duplicate_values(&v, "set item")?;
                            let set = Value::SetOf(Arc::new(v));
                            assert(set@ == SValue::SetOf(values_view(v@)));
                            return Ok(typed(set, ty));
                        },
                        _ => {},
                    }
                },
                _ => {},
            }
            Err(MagError::Type(cat2("set items must be an array for ", &ty.show())))
        },
        MagType::MapOf(key, item) => {
            if key.equals(&MagType::String) {
                match j {
                    Json::Object(o) => {
                        let v = decode_members(env, o, item, exact)?;
                        let map = Value::MapOf(Arc::new(v));
                        assert(map@ == SValue::MapOf(value_entries_view(v@)));
                        Ok(typed(map, ty))
                    },
                    _ => expect(ty),
                }
            } else {
                let at = exact_envelope(j, "map", "entries", ty)?;
                match j {
                    Json::Object(o) => {
                        assert(j@ == SJson::Object(members_view(o@)));
                        assert(members_view(o@)[at as int].1 == o@[at as int].1@);
                        match &o[at].1 {
                            Json::Array(items) => {
                                let v = decode_entries(env, items, key, item, exact, ty)?;
                                reject_duplicate_map_keys(&v)?;
                                let map = Value::MapOf(Arc::new(v));
                                assert(map@ == SValue::MapOf(value_entries_view(v@)));
                                return Ok(typed(map, ty));
                            },
                            _ => {},
                        }
                    },
                    _ => {},
                }
                Err(MagError::Type(cat2("map entries must be an array for ", &ty.show())))
            }
        },
        MagType::Record(fields) => match j {
            Json::Object(o) => {
                assert(ty@ == SType::Record(fields_view(fields@)));
                assert(members_view(o@).len() == o@.len());
                assert(fields_view(fields@).len() == fields@.len());
                if exact && o.len() != fields.len() {
                    return Err(
                        MagError::Type(cat2("expected exact record fields for ", &ty.show())),
                    );
                }
                Ok(record_value(decode_fields(env, o, fields, exact, ty)?))
            },
            _ => expect(ty),
        },
        MagType::Product(types) => match j {
            Json::Array(items) => {
                assert(ty@ == SType::Product(types_view(types@)));
                assert(types_view(types@).len() == types@.len());
                assert(jsons_view(items@).len() == items@.len());
                if items.len() != types.len() {
                    return Err(
                        MagError::Type(
                            cat6(
                                "expected ",
                                &show_usize(types.len()),
                                " tuple positions for ",
                                &ty.show(),
                                ", got ",
                                &show_usize(items.len()),
                            ),
                        ),
                    );
                }
                let v = decode_positions(env, items, types, exact)?;
                let product = Value::Product(Arc::new(v));
                assert(product@ == SValue::Product(values_view(v@)));
                Ok(product)
            },
            _ => Err(MagError::Type(cat2("expected ordered tuple ", &ty.show()))),
        },
        MagType::JsonValue => Ok(Value::JsonValue(j.clone())),
        MagType::Float => match j {
            Json::Number(n) => Ok(Value::Float(number_to_float(n))),
            _ => expect(ty),
        },
        MagType::Int => match j {
            Json::Number(n) => match json_number_to_i64(n) {
                Some(i) => Ok(Value::Int(i)),
                None => expect(ty),
            },
            _ => expect(ty),
        },
        MagType::Unit => match j {
            Json::Null => Ok(Value::Unit),
            _ => expect(ty),
        },
        MagType::Bool => match j {
            Json::Bool(b) => Ok(Value::Bool(*b)),
            _ => expect(ty),
        },
        MagType::String => match j {
            Json::Str(s) => Ok(Value::Str(s.clone())),
            _ => expect(ty),
        },
        _ => Err(
            MagError::Type(
                cat2(&ty.show(), " is not representable as typed runtime JSON"),
            ),
        ),
    }
}

pub open spec fn values_result(r: Result<Vec<Value>, MagError>) -> Result<Seq<SValue>, SError> {
    match r {
        Ok(v) => Ok(values_view(v@)),
        Err(e) => Err(e@),
    }
}

pub open spec fn entries_result(r: Result<Vec<(Value, Value)>, MagError>) -> Result<
    Seq<(SValue, SValue)>,
    SError,
> {
    match r {
        Ok(v) => Ok(value_entries_view(v@)),
        Err(e) => Err(e@),
    }
}

pub open spec fn value_fields_result(r: Result<Vec<(String, Value)>, MagError>) -> Result<
    Seq<(Seq<char>, SValue)>,
    SError,
> {
    match r {
        Ok(v) => Ok(value_fields_view(v@)),
        Err(e) => Err(e@),
    }
}

fn decode_all(env: &Env, items: &Vec<Json>, ty: &MagType, exact: bool) -> (r: Result<
    Vec<Value>,
    MagError,
>)
    ensures
        values_result(r) == decoded_all(env@, jsons_view(items@), ty@, exact, Seq::empty()),
    decreases items, 0nat, 0nat,
{
    let ghost all = jsons_view(items@);
    let ghost whole = decoded_all(env@, all, ty@, exact, Seq::empty());
    let mut done: Vec<Value> = Vec::new();
    let mut i: usize = 0;
    proof {
        assert(all.len() == items@.len());
        assert(all.skip(0) =~= all);
        assert(values_view(done@) =~= Seq::empty());
    }
    while i < items.len()
        invariant
            i <= items.len(),
            all == jsons_view(items@),
            all.len() == items@.len(),
            whole == decoded_all(env@, all, ty@, exact, Seq::empty()),
            whole == decoded_all(env@, all.skip(i as int), ty@, exact, values_view(done@)),
        decreases items.len() - i,
    {
        let ghost so_far = values_view(done@);
        proof {
            assert(all.skip(i as int)[0] == items@[i as int]@);
            assert(all.skip(i as int).drop_first() =~= all.skip(i + 1));
        }
        let v = decode_typed_value(env, &items[i], ty, exact, unfolding_limit(env))?;
        done.push(v);
        assert(values_view(done@) =~= so_far.push(v@));
        i = i + 1;
    }
    Ok(done)
}

fn decode_positions(env: &Env, items: &Vec<Json>, types: &Vec<MagType>, exact: bool) -> (r: Result<
    Vec<Value>,
    MagError,
>)
    requires
        items@.len() == types@.len(),
    ensures
        values_result(r) == decoded_positions(
            env@,
            jsons_view(items@),
            types_view(types@),
            exact,
            Seq::empty(),
        ),
    decreases items, 0nat, 0nat,
{
    let ghost all = jsons_view(items@);
    let ghost ts = types_view(types@);
    let ghost whole = decoded_positions(env@, all, ts, exact, Seq::empty());
    let mut done: Vec<Value> = Vec::new();
    let mut i: usize = 0;
    proof {
        assert(all.len() == items@.len());
        assert(ts.len() == types@.len());
        assert(all.skip(0) =~= all);
        assert(values_view(done@) =~= Seq::empty());
    }
    while i < items.len()
        invariant
            i <= items.len(),
            items@.len() == types@.len(),
            done@.len() == i,
            values_view(done@).len() == i,
            all == jsons_view(items@),
            ts == types_view(types@),
            all.len() == items@.len(),
            ts.len() == types@.len(),
            whole == decoded_positions(env@, all, ts, exact, Seq::empty()),
            whole == decoded_positions(env@, all.skip(i as int), ts, exact, values_view(done@)),
        decreases items.len() - i,
    {
        let ghost so_far = values_view(done@);
        proof {
            assert(all.skip(i as int)[0] == items@[i as int]@);
            assert(ts[i as int] == types@[i as int]@);
            assert(all.skip(i as int).drop_first() =~= all.skip(i + 1));
        }
        let v = decode_typed_value(env, &items[i], &types[i], exact, unfolding_limit(env))?;
        done.push(v);
        assert(values_view(done@) =~= so_far.push(v@));
        i = i + 1;
    }
    Ok(done)
}

fn decode_members(env: &Env, o: &Vec<(String, Json)>, ty: &MagType, exact: bool) -> (r: Result<
    Vec<(Value, Value)>,
    MagError,
>)
    ensures
        entries_result(r) == decoded_members(env@, members_view(o@), ty@, exact, Seq::empty()),
    decreases o, 0nat, 0nat,
{
    let ghost all = members_view(o@);
    let ghost whole = decoded_members(env@, all, ty@, exact, Seq::empty());
    let mut done: Vec<(Value, Value)> = Vec::new();
    let mut i: usize = 0;
    proof {
        assert(all.len() == o@.len());
        assert(all.skip(0) =~= all);
        assert(value_entries_view(done@) =~= Seq::empty());
    }
    while i < o.len()
        invariant
            i <= o.len(),
            all == members_view(o@),
            all.len() == o@.len(),
            whole == decoded_members(env@, all, ty@, exact, Seq::empty()),
            whole == decoded_members(
                env@,
                all.skip(i as int),
                ty@,
                exact,
                value_entries_view(done@),
            ),
        decreases o.len() - i,
    {
        let ghost so_far = value_entries_view(done@);
        proof {
            assert(all.skip(i as int)[0] == (o@[i as int].0@, o@[i as int].1@));
            assert(all.skip(i as int).drop_first() =~= all.skip(i + 1));
        }
        let v = decode_typed_value(env, &o[i].1, ty, exact, unfolding_limit(env))?;
        let key = Value::Str(o[i].0.clone());
        let ghost entry = (key@, v@);
        done.push((key, v));
        assert(value_entries_view(done@) =~= so_far.push(entry));
        i = i + 1;
    }
    Ok(done)
}

fn decode_entries(
    env: &Env,
    items: &Vec<Json>,
    key: &MagType,
    value: &MagType,
    exact: bool,
    ty: &MagType,
) -> (r: Result<Vec<(Value, Value)>, MagError>)
    ensures
        entries_result(r) == decoded_entries(
            env@,
            jsons_view(items@),
            key@,
            value@,
            exact,
            ty@,
            Seq::empty(),
        ),
    decreases items, 0nat, 0nat,
{
    let ghost all = jsons_view(items@);
    let ghost whole = decoded_entries(env@, all, key@, value@, exact, ty@, Seq::empty());
    let mut done: Vec<(Value, Value)> = Vec::new();
    let mut i: usize = 0;
    proof {
        assert(all.len() == items@.len());
        assert(all.skip(0) =~= all);
        assert(value_entries_view(done@) =~= Seq::empty());
    }
    while i < items.len()
        invariant
            i <= items.len(),
            all == jsons_view(items@),
            all.len() == items@.len(),
            whole == decoded_entries(env@, all, key@, value@, exact, ty@, Seq::empty()),
            whole == decoded_entries(
                env@,
                all.skip(i as int),
                key@,
                value@,
                exact,
                ty@,
                value_entries_view(done@),
            ),
        decreases items.len() - i,
    {
        let ghost so_far = value_entries_view(done@);
        proof {
            assert(all.skip(i as int)[0] == items@[i as int]@);
            assert(all.skip(i as int).drop_first() =~= all.skip(i + 1));
        }
        match &items[i] {
            Json::Array(pair) => {
                assert(items@[i as int]@ == SJson::Array(jsons_view(pair@)));
                assert(jsons_view(pair@).len() == pair@.len());
                if pair.len() != 2 {
                    return Err(
                        MagError::Type(
                            cat2("map entry must be [key, value] for ", &ty.show()),
                        ),
                    );
                }
                assert(jsons_view(pair@)[0] == pair@[0]@);
                assert(jsons_view(pair@)[1] == pair@[1]@);
                let k = decode_typed_value(env, &pair[0], key, exact, unfolding_limit(env))?;
                let v = decode_typed_value(env, &pair[1], value, exact, unfolding_limit(env))?;
                let ghost entry = (k@, v@);
                done.push((k, v));
                assert(value_entries_view(done@) =~= so_far.push(entry));
            },
            _ => {
                return Err(
                    MagError::Type(cat2("map entry must be [key, value] for ", &ty.show())),
                );
            },
        }
        i = i + 1;
    }
    Ok(done)
}

fn decode_fields(
    env: &Env,
    o: &Vec<(String, Json)>,
    fields: &Vec<(String, MagType)>,
    exact: bool,
    ty: &MagType,
) -> (r: Result<Vec<(String, Value)>, MagError>)
    ensures
        value_fields_result(r) == decoded_fields(
            env@,
            members_view(o@),
            fields_view(fields@),
            exact,
            ty@,
            Seq::empty(),
        ),
    decreases o, 0nat, 0nat,
{
    let ghost ms = members_view(o@);
    let ghost all = fields_view(fields@);
    let ghost whole = decoded_fields(env@, ms, all, exact, ty@, Seq::empty());
    let mut done: Vec<(String, Value)> = Vec::new();
    let mut i: usize = 0;
    proof {
        assert(ms.len() == o@.len());
        assert(all.len() == fields@.len());
        assert(all.skip(0) =~= all);
        assert(value_fields_view(done@) =~= Seq::empty());
    }
    while i < fields.len()
        invariant
            i <= fields.len(),
            ms == members_view(o@),
            ms.len() == o@.len(),
            all == fields_view(fields@),
            all.len() == fields@.len(),
            whole == decoded_fields(env@, ms, all, exact, ty@, Seq::empty()),
            whole == decoded_fields(
                env@,
                ms,
                all.skip(i as int),
                exact,
                ty@,
                value_fields_view(done@),
            ),
        decreases fields.len() - i,
    {
        proof {
            assert(all.skip(i as int)[0] == (fields@[i as int].0@, fields@[i as int].1@));
            assert(all.skip(i as int).drop_first() =~= all.skip(i + 1));
        }
        let at = find_member(o, &fields[i].0);
        if at >= o.len() {
            return Err(
                MagError::Type(cat4("missing field ", &fields[i].0, " for ", &ty.show())),
            );
        }
        assert(ms[at as int].1 == o@[at as int].1@);
        let v = decode_typed_value(env, &o[at].1, &fields[i].1, exact, unfolding_limit(env))?;
        put_value(&mut done, fields[i].0.clone(), v);
        i = i + 1;
    }
    Ok(done)
}

/// Whether no value equals an earlier one.
pub open spec fn each_once(values: Seq<SValue>) -> bool {
    forall|k: int, i: int|
        0 <= k < i < values.len() ==> !values_equal(#[trigger] values[k], #[trigger] values[i])
}

proof fn none_equals_earlier(values: Seq<SValue>, i: nat, k: nat)
    requires
        !equals_earlier(values, i, k),
        i < values.len(),
    ensures
        forall|m: int| k <= m < i ==> !values_equal(#[trigger] values[m], values[i as int]),
    decreases i - k,
{
    if k < i {
        none_equals_earlier(values, i, k + 1);
    }
}

proof fn no_duplicate_is_found(values: Seq<SValue>, i: nat)
    requires
        first_duplicate(values, i) is None,
    ensures
        forall|k: int, m: int|
            i <= m < values.len() && 0 <= k < m ==> !values_equal(
                #[trigger] values[k],
                #[trigger] values[m],
            ),
    decreases values.len() - i,
{
    if i < values.len() {
        none_equals_earlier(values, i, 0);
        no_duplicate_is_found(values, i + 1);
    }
}

/// A set or a map that is read from a document holds each of its items, or each of its keys, once:
/// duplicates are refused.
pub proof fn read_collections_hold_each_once(
    env: SEnv,
    j: SJson,
    ty: SType,
    exact: bool,
    fuel: nat,
)
    requires
        decoded(env, j, ty, exact, fuel) is Ok,
    ensures
        ty is SetOf ==> exists|items: Seq<SValue>|
            decoded(env, j, ty, exact, fuel)->Ok_0 == SValue::Typed(
                Box::new(SValue::SetOf(items)),
                ty,
            ) && #[trigger] each_once(items),
        ty is MapOf && *ty->MapOf_0 != SType::String ==> exists|entries: Seq<(SValue, SValue)>|
            decoded(env, j, ty, exact, fuel)->Ok_0 == SValue::Typed(
                Box::new(SValue::MapOf(entries)),
                ty,
            ) && each_once(#[trigger] entry_keys(entries)),
{
    match ty {
        SType::SetOf(item) => {
            let at = envelope_payload(j, "set"@, "items"@, ty)->Ok_0;
            let found = decoded_all(
                env,
                j->Object_0[at as int].1->Array_0,
                *item,
                exact,
                Seq::empty(),
            )->Ok_0;
            no_duplicate_is_found(found, 0);
            assert(each_once(found));
        },
        SType::MapOf(key, item) => {
            if *key != SType::String {
                let at = envelope_payload(j, "map"@, "entries"@, ty)->Ok_0;
                let found = decoded_entries(
                    env,
                    j->Object_0[at as int].1->Array_0,
                    *key,
                    *item,
                    exact,
                    ty,
                    Seq::empty(),
                )->Ok_0;
                no_duplicate_is_found(entry_keys(found), 0);
                assert(each_once(entry_keys(found)));
            }
        },
        _ => {},
    }
}

/// Whether documents stand in the order of their texts.
pub open spec fn documents_ordered(items: Seq<SJson>) -> bool {
    forall|i: int, k: int|
        0 <= i < k < items.len() ==> !before(
            sort_text(#[trigger] items[k]),
            sort_text(#[trigger] items[i]),
        )
}

/// Whether documents with one text are the same.
pub open spec fn told_apart(items: Seq<SJson>) -> bool {
    forall|a: SJson, b: SJson|
        #![trigger items.contains(a), items.contains(b)]
        items.contains(a) && items.contains(b) && sort_text(a) == sort_text(b) ==> a == b
}

proof fn placing_a_document_orders(items: Seq<SJson>, j: SJson)
    requires
        documents_ordered(items),
    ensures
        documents_ordered(with_document(items, j)),
        with_document(items, j).to_multiset() == items.to_multiset().insert(j),
    decreases items.len(),
{
    broadcast use vstd::seq_lib::group_to_multiset_ensures;

    let made = with_document(items, j);
    if items.len() > 0 && before(sort_text(j), sort_text(items.last())) {
        let rest = items.drop_last();
        let last = items.last();
        assert forall|i: int, k: int| 0 <= i < k < rest.len() implies !before(
            sort_text(#[trigger] rest[k]),
            sort_text(#[trigger] rest[i]),
        ) by {
            assert(rest[i] == items[i] && rest[k] == items[k]);
        }
        placing_a_document_orders(rest, j);
        let inner = with_document(rest, j);
        assert(items =~= rest.push(last));
        assert(made =~= inner.push(last));
        assert(made.to_multiset() =~= items.to_multiset().insert(j));
        assert forall|i: int, k: int| 0 <= i < k < made.len() implies !before(
            sort_text(#[trigger] made[k]),
            sort_text(#[trigger] made[i]),
        ) by {
            if k == inner.len() {
                let x = inner[i];
                assert(inner.to_multiset().count(x) > 0);
                if x == j {
                    crate::text::before_is_total(sort_text(j), sort_text(last));
                } else {
                    assert(rest.to_multiset().count(x) > 0);
                    let m = choose|m: int| 0 <= m < rest.len() && rest[m] == x;
                    assert(items[m] == x && items[items.len() - 1] == last);
                }
            } else {
                assert(made[i] == inner[i] && made[k] == inner[k]);
            }
        }
    } else {
        assert(made =~= items.push(j));
        assert forall|i: int, k: int| 0 <= i < k < made.len() implies !before(
            sort_text(#[trigger] made[k]),
            sort_text(#[trigger] made[i]),
        ) by {
            if k == items.len() {
                let a = sort_text(items[i]);
                let b = sort_text(items.last());
                let c = sort_text(j);
                if before(c, a) {
                    if i < items.len() - 1 {
                        assert(!before(sort_text(items[items.len() - 1]), sort_text(items[i])));
                    }
                    crate::text::before_is_total(a, b);
                    if a != b && before(a, b) {
                        crate::text::before_is_transitive(c, a, b);
                    }
                }
            }
        }
    }
}

pub proof fn sorting_documents_orders(items: Seq<SJson>)
    ensures
        documents_ordered(sorted_documents(items)),
        sorted_documents(items).to_multiset() == items.to_multiset(),
    decreases items.len(),
{
    broadcast use vstd::seq_lib::group_to_multiset_ensures;

    if items.len() > 0 {
        sorting_documents_orders(items.drop_last());
        placing_a_document_orders(sorted_documents(items.drop_last()), items.last());
        assert(items =~= items.drop_last().push(items.last()));
    } else {
        assert(items =~= Seq::empty());
    }
}

proof fn one_order(a: Seq<SJson>, b: Seq<SJson>)
    requires
        documents_ordered(a),
        documents_ordered(b),
        a.to_multiset() == b.to_multiset(),
        told_apart(a),
    ensures
        a == b,
    decreases a.len(),
{
    broadcast use vstd::seq_lib::group_to_multiset_ensures;

    assert(a.to_multiset().len() == a.len());
    assert(b.to_multiset().len() == b.len());
    if a.len() > 0 {
        let x = a.last();
        let y = b.last();
        assert(a.to_multiset().count(y) > 0) by {
            assert(b.contains(y));
        }
        assert(b.to_multiset().count(x) > 0) by {
            assert(a.contains(x));
        }
        let i = choose|i: int| 0 <= i < a.len() && a[i] == y;
        let k = choose|k: int| 0 <= k < b.len() && b[k] == x;
        if i < a.len() - 1 {
            assert(!before(sort_text(a[a.len() - 1]), sort_text(a[i])));
        }
        if k < b.len() - 1 {
            assert(!before(sort_text(b[b.len() - 1]), sort_text(b[k])));
        }
        crate::text::before_is_total(sort_text(x), sort_text(y));
        assert(a.contains(x) && a.contains(y));
        assert(x == y);
        let c = a.drop_last();
        let d = b.drop_last();
        assert(a =~= c.push(x));
        assert(b =~= d.push(x));
        assert(c.to_multiset() =~= a.to_multiset().remove(x));
        assert(d.to_multiset() =~= b.to_multiset().remove(x));
        assert forall|p: int, q: int| 0 <= p < q < c.len() implies !before(
            sort_text(#[trigger] c[q]),
            sort_text(#[trigger] c[p]),
        ) by {
            assert(c[p] == a[p] && c[q] == a[q]);
        }
        assert forall|p: int, q: int| 0 <= p < q < d.len() implies !before(
            sort_text(#[trigger] d[q]),
            sort_text(#[trigger] d[p]),
        ) by {
            assert(d[p] == b[p] && d[q] == b[q]);
        }
        assert forall|s: SJson, t: SJson|
            #![trigger c.contains(s), c.contains(t)]
            c.contains(s) && c.contains(t) && sort_text(s) == sort_text(t) implies s
            == t by {
            let m = choose|m: int| 0 <= m < c.len() && c[m] == s;
            let n = choose|n: int| 0 <= n < c.len() && c[n] == t;
            assert(a[m] == s && a[n] == t);
            assert(a.contains(s) && a.contains(t));
        }
        one_order(c, d);
    } else {
        assert(a =~= b);
    }
}

/// The wire form of a set or of a map holds its documents in one order, whatever order they came
/// in, where no two different ones have one text.
pub proof fn wire_forms_are_canonical(items: Seq<SJson>, others: Seq<SJson>)
    requires
        items.to_multiset() == others.to_multiset(),
        told_apart(items),
    ensures
        sorted_documents(items) == sorted_documents(others),
        documents_ordered(sorted_documents(items)),
        sorted_documents(items).to_multiset() == items.to_multiset(),
{
    broadcast use vstd::seq_lib::group_to_multiset_ensures;

    sorting_documents_orders(items);
    sorting_documents_orders(others);
    let a = sorted_documents(items);
    assert forall|s: SJson, t: SJson|
        #![trigger a.contains(s), a.contains(t)]
        a.contains(s) && a.contains(t) && sort_text(s) == sort_text(t) implies s == t by {
        assert(a.to_multiset().count(s) > 0 && a.to_multiset().count(t) > 0);
        assert(items.contains(s) && items.contains(t));
    }
    one_order(a, sorted_documents(others));
}

} // verus!
