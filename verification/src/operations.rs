//! The builtin functions that need nothing but their arguments and the types in force.

use std::sync::Arc;
use vstd::prelude::*;

use crate::ast::{clone_values, kind_name, string_of, value_fields_view, values_view, SValue, Value};
use crate::codec::{
    decoded, encoded, json_to_typed_value, list_value, put_value, record_value, value_to_json,
};
use crate::concrete::{
    concrete_fields_view, concretes_view, count_before, covers, open_type, supplies, takes_edge,
    ConcreteType, InputAssignmentError, SConcrete,
};
use crate::conformance::{conforms, validate_value, validated};
use crate::env::{keyed, value_result, Env, SEnv};
use crate::error::{error_text, MagError, SError};
use crate::identity::{declared_types, type_id, SDeclarations};
use crate::json::{
    canonical, canonicalize_json, find_member, member_index, members_view, with_member, Json, SJson,
};
use crate::modules::clone_definitions;
use crate::resolve::{expansion_limit, type_error};
use crate::templates::{
    replace_text, replaced, strip_margin, trim_colons, without_colons, without_margins,
};
use crate::text::{
    cat2, cat3, cat4, cat5, contains_name, decimal, decimal_int, order_names, quoted, quoted_text,
    same, show_i64, show_usize, strings,
};
use crate::type_rules::unit_result;
use crate::types::{MagType, SType};
use crate::values::{
    bare, equal, field_value, is_true, raw, truthy, value_string, value_text, values_equal,
};
use crate::wire::{json_text, render, wired};

verus! {

broadcast use vstd::seq_lib::group_seq_properties;

pub open spec fn eval_error<T>(message: Seq<char>) -> Result<T, SError> {
    Err(SError::Eval(message))
}

/// Whether there are as many arguments as there have to be.
pub open spec fn counted(args: Seq<SValue>, n: nat) -> Result<(), SError> {
    if args.len() == n {
        Ok(())
    } else {
        Err(SError::Arity(n, args.len()))
    }
}

pub fn arity(args: &Vec<Value>, expected: usize) -> (r: Result<(), MagError>)
    ensures
        unit_result(r) == counted(values_view(args@), expected as nat),
        r is Ok ==> args@.len() == expected,
        values_view(args@).len() == args@.len(),
        forall|i: int| 0 <= i < args@.len() ==> #[trigger] values_view(args@)[i] == args@[i]@,
{
    assert(values_view(args@).len() == args@.len());
    if args.len() == expected {
        Ok(())
    } else {
        Err(MagError::Arity { expected, got: args.len() })
    }
}

#[verifier::opaque]
pub open spec fn op_artifact(args: Seq<SValue>) -> Result<SValue, SError> {
    match counted(args, 1) {
        Err(e) => Err(e),
        Ok(_) => match encoded(args[0], None) {
            Err(e) => Err(e),
            Ok(j) => Ok(SValue::Artifact(j)),
        },
    }
}

fn run_artifact(env: &Env, args: &Vec<Value>) -> (r: Result<Value, MagError>)
    ensures
        value_result(r) == op_artifact(values_view(args@)),
{
    proof {
        reveal(op_artifact);
    }
    arity(args, 1)?;
    let j = value_to_json(env, &args[0])?;
    Ok(Value::Artifact(j))
}

/// The texts of some values one behind the other.
pub open spec fn texts_of(args: Seq<SValue>) -> Seq<char>
    decreases args.len(),
{
    if args.len() == 0 {
        Seq::empty()
    } else {
        texts_of(args.drop_last()) + value_text(args.last())
    }
}

fn run_str(args: &Vec<Value>) -> (r: Value)
    ensures
        r@ == SValue::Str(texts_of(values_view(args@))),
{
    let ghost all = values_view(args@);
    let mut out = String::new();
    let mut i: usize = 0;
    proof {
        assert(all.len() == args@.len());
        assert(all.take(0) =~= Seq::empty());
        assert(out@ =~= Seq::empty());
    }
    while i < args.len()
        invariant
            i <= args.len(),
            all == values_view(args@),
            all.len() == args@.len(),
            out@ == texts_of(all.take(i as int)),
        decreases args.len() - i,
    {
        proof {
            assert(all.take(i + 1).drop_last() =~= all.take(i as int));
            assert(all.take(i + 1).last() == args@[i as int]@);
        }
        let text = value_string(&args[i]);
        out.append(&text);
        i = i + 1;
    }
    assert(all.take(args.len() as int) =~= all);
    Value::Str(out)
}

#[verifier::opaque]
pub open spec fn op_strip_margin(args: Seq<SValue>) -> Result<SValue, SError> {
    match counted(args, 1) {
        Err(e) => Err(e),
        Ok(_) => match string_of(args[0]) {
            None => type_error("strip-margin expects a String"@),
            Some(s) => Ok(SValue::Str(without_margins(s))),
        },
    }
}

fn run_strip_margin(args: &Vec<Value>) -> (r: Result<Value, MagError>)
    ensures
        value_result(r) == op_strip_margin(values_view(args@)),
{
    proof {
        reveal(op_strip_margin);
    }
    arity(args, 1)?;
    match args[0].as_str() {
        None => Err(MagError::Type("strip-margin expects a String".to_owned())),
        Some(s) => Ok(Value::Str(strip_margin(s))),
    }
}

#[verifier::opaque]
pub open spec fn op_replace(args: Seq<SValue>) -> Result<SValue, SError> {
    match counted(args, 3) {
        Err(e) => Err(e),
        Ok(_) => match string_of(args[0]) {
            None => type_error("replace expects a String"@),
            Some(s) => match string_of(args[1]) {
                None => type_error("replace expects a String pattern"@),
                Some(from) => match string_of(args[2]) {
                    None => type_error("replace expects a String replacement"@),
                    Some(to) => Ok(SValue::Str(replaced(s, from, to))),
                },
            },
        },
    }
}

fn run_replace(args: &Vec<Value>) -> (r: Result<Value, MagError>)
    ensures
        value_result(r) == op_replace(values_view(args@)),
{
    proof {
        reveal(op_replace);
    }
    arity(args, 3)?;
    let s = match args[0].as_str() {
        None => {
            return Err(MagError::Type("replace expects a String".to_owned()));
        },
        Some(s) => s,
    };
    let from = match args[1].as_str() {
        None => {
            return Err(MagError::Type("replace expects a String pattern".to_owned()));
        },
        Some(s) => s,
    };
    let to = match args[2].as_str() {
        None => {
            return Err(MagError::Type("replace expects a String replacement".to_owned()));
        },
        Some(s) => s,
    };
    Ok(Value::Str(replace_text(s, from, to)))
}

#[verifier::opaque]
pub open spec fn op_canonical(args: Seq<SValue>) -> Result<SValue, SError> {
    match counted(args, 1) {
        Err(e) => Err(e),
        Ok(_) => match encoded(args[0], None) {
            Err(e) => Err(e),
            Ok(j) => Ok(SValue::Str(json_text(wired(canonical(j))))),
        },
    }
}

fn run_canonical(env: &Env, args: &Vec<Value>) -> (r: Result<Value, MagError>)
    ensures
        value_result(r) == op_canonical(values_view(args@)),
{
    proof {
        reveal(op_canonical);
    }
    arity(args, 1)?;
    let j = value_to_json(env, &args[0])?;
    Ok(Value::Str(render(&canonicalize_json(&j))))
}

#[verifier::opaque]
pub open spec fn op_function_name(args: Seq<SValue>) -> Result<SValue, SError> {
    match counted(args, 1) {
        Err(e) => Err(e),
        Ok(_) => match bare(args[0]) {
            SValue::Fn(f) => match f.name {
                Some(n) => Ok(SValue::Str(n)),
                None => eval_error(
                    "function-name requires a function bound by let; anonymous closures have no resident identity"@,
                ),
            },
            _ => type_error("function-name expects a function"@),
        },
    }
}

fn run_function_name(args: &Vec<Value>) -> (r: Result<Value, MagError>)
    ensures
        value_result(r) == op_function_name(values_view(args@)),
{
    proof {
        reveal(op_function_name);
    }
    arity(args, 1)?;
    match raw(&args[0]) {
        Value::Fn(f) => match &f.name {
            Some(n) => Ok(Value::Str(n.clone())),
            None => Err(
                MagError::Eval(
                    "function-name requires a function bound by let; anonymous closures have no resident identity".to_owned(),
                ),
            ),
        },
        _ => Err(MagError::Type("function-name expects a function".to_owned())),
    }
}

/// Whether a value is of a described type once it has been written down and read again.
#[verifier::opaque]
pub open spec fn op_conforms(env: SEnv, args: Seq<SValue>) -> Result<SValue, SError> {
    match counted(args, 2) {
        Err(e) => Err(e),
        Ok(_) => match bare(args[1]) {
            SValue::TypeDescriptor(t) => match encoded(args[0], None) {
                Err(e) => Err(e),
                Ok(j) => Ok(
                    SValue::Bool(
                        decoded(env, j, open_type(t), true, expansion_limit(env)) is Ok,
                    ),
                ),
            },
            _ => type_error("conforms? expects a TypeDescriptor"@),
        },
    }
}

fn run_conforms(env: &Env, args: &Vec<Value>) -> (r: Result<Value, MagError>)
    ensures
        value_result(r) == op_conforms(env@, values_view(args@)),
{
    proof {
        reveal(op_conforms);
    }
    arity(args, 2)?;
    match raw(&args[1]) {
        Value::TypeDescriptor(t) => {
            let ty = t.to_mag_type();
            let j = value_to_json(env, &args[0])?;
            match json_to_typed_value(env, &j, &ty) {
                Ok(_) => Ok(Value::Bool(true)),
                Err(_) => Ok(Value::Bool(false)),
            }
        },
        _ => Err(MagError::Type("conforms? expects a TypeDescriptor".to_owned())),
    }
}

#[verifier::opaque]
pub open spec fn op_count(args: Seq<SValue>) -> Result<SValue, SError> {
    match counted(args, 1) {
        Err(e) => Err(e),
        Ok(_) => match bare(args[0]) {
            SValue::List(v) => Ok(SValue::Int(v.len() as i64)),
            SValue::Record(v) => Ok(SValue::Int(v.len() as i64)),
            SValue::Str(v) => Ok(SValue::Int(v.len() as i64)),
            _ => eval_error("count expects a collection"@),
        },
    }
}

fn run_count(args: &Vec<Value>) -> (r: Result<Value, MagError>)
    ensures
        value_result(r) == op_count(values_view(args@)),
{
    proof {
        reveal(op_count);
    }
    arity(args, 1)?;
    let n: usize = match raw(&args[0]) {
        Value::List(v) => {
            assert(values_view((**v)@).len() == (**v)@.len());
            v.len()
        },
        Value::Record(v) => {
            assert(value_fields_view((**v)@).len() == (**v)@.len());
            v.len()
        },
        Value::Str(v) => v.as_str().unicode_len(),
        _ => {
            return Err(MagError::Eval("count expects a collection".to_owned()));
        },
    };
    Ok(Value::Int(n as i64))
}

#[verifier::opaque]
pub open spec fn op_remove_at(args: Seq<SValue>) -> Result<SValue, SError> {
    match counted(args, 2) {
        Err(e) => Err(e),
        Ok(_) => match bare(args[0]) {
            SValue::List(v) => match bare(args[1]) {
                SValue::Int(i) => if i < 0 {
                    eval_error("remove-at index must be non-negative Int"@)
                } else if i >= v.len() {
                    eval_error(
                        "remove-at index "@ + decimal_int(i as int) + " is out of bounds for "@
                            + decimal(v.len()) + " values"@,
                    )
                } else {
                    Ok(SValue::List(v.remove(i as int)))
                },
                _ => eval_error("remove-at index must be non-negative Int"@),
            },
            _ => eval_error("remove-at expects List"@),
        },
    }
}

fn run_remove_at(args: &Vec<Value>) -> (r: Result<Value, MagError>)
    ensures
        value_result(r) == op_remove_at(values_view(args@)),
{
    proof {
        reveal(op_remove_at);
    }
    arity(args, 2)?;
    let values = match raw(&args[0]) {
        Value::List(v) => v,
        _ => {
            return Err(MagError::Eval("remove-at expects List".to_owned()));
        },
    };
    let ghost all = values_view((**values)@);
    assert(all.len() == (**values)@.len());
    let index: i64 = match raw(&args[1]) {
        Value::Int(i) => *i,
        _ => {
            return Err(MagError::Eval("remove-at index must be non-negative Int".to_owned()));
        },
    };
    if index < 0 {
        return Err(MagError::Eval("remove-at index must be non-negative Int".to_owned()));
    }
    if index as u64 >= values.len() as u64 {
        return Err(
            MagError::Eval(
                cat5(
                    "remove-at index ",
                    &show_i64(index),
                    " is out of bounds for ",
                    &show_usize(values.len()),
                    " values",
                ),
            ),
        );
    }
    let mut kept = clone_values(values);
    kept.remove(index as usize);
    assert(values_view(kept@) =~= all.remove(index as int)) by {
        assert(values_view(kept@).len() == kept@.len());
        assert forall|k: int| 0 <= k < kept@.len() implies values_view(kept@)[k] == all.remove(
            index as int,
        )[k] by {
            let j = if k < index {
                k
            } else {
                k + 1
            };
            assert(all[j] == (**values)@[j]@);
        }
    }
    Ok(list_value(kept))
}

#[verifier::opaque]
pub open spec fn op_get(args: Seq<SValue>) -> Result<SValue, SError> {
    match counted(args, 2) {
        Err(e) => Err(e),
        Ok(_) => match bare(args[0]) {
            SValue::Record(fields) => Ok(
                match keyed(fields, without_colons(value_text(args[1])), 0) {
                    Some(v) => v,
                    None => SValue::Unit,
                },
            ),
            _ => eval_error("get expects a map"@),
        },
    }
}

fn run_get(args: &Vec<Value>) -> (r: Result<Value, MagError>)
    ensures
        value_result(r) == op_get(values_view(args@)),
{
    proof {
        reveal(op_get);
    }
    arity(args, 2)?;
    let key = trim_colons(&value_string(&args[1]));
    match raw(&args[0]) {
        Value::Record(fields) => match field_value(fields, &key) {
            Some(v) => Ok(v.clone()),
            None => Ok(Value::Unit),
        },
        _ => Err(MagError::Eval("get expects a map".to_owned())),
    }
}

#[verifier::opaque]
pub open spec fn op_assoc(args: Seq<SValue>) -> Result<SValue, SError> {
    match counted(args, 3) {
        Err(e) => Err(e),
        Ok(_) => match bare(args[0]) {
            SValue::Record(fields) => Ok(
                SValue::Record(with_member(fields, without_colons(value_text(args[1])), args[2])),
            ),
            _ => eval_error("assoc expects a map"@),
        },
    }
}

fn run_assoc(args: &Vec<Value>) -> (r: Result<Value, MagError>)
    ensures
        value_result(r) == op_assoc(values_view(args@)),
{
    proof {
        reveal(op_assoc);
    }
    arity(args, 3)?;
    match raw(&args[0]) {
        Value::Record(fields) => {
            let mut made = clone_definitions(fields);
            put_value(&mut made, trim_colons(&value_string(&args[1])), args[2].clone());
            Ok(record_value(made))
        },
        _ => Err(MagError::Eval("assoc expects a map".to_owned())),
    }
}

pub open spec fn field_names(fields: Seq<(Seq<char>, SValue)>) -> Seq<SValue> {
    Seq::new(fields.len(), |i: int| SValue::Str(fields[i].0))
}

#[verifier::opaque]
pub open spec fn op_keys(args: Seq<SValue>) -> Result<SValue, SError> {
    match counted(args, 1) {
        Err(e) => Err(e),
        Ok(_) => match bare(args[0]) {
            SValue::Record(fields) => Ok(SValue::List(field_names(fields))),
            _ => eval_error("keys expects a map"@),
        },
    }
}

fn run_keys(args: &Vec<Value>) -> (r: Result<Value, MagError>)
    ensures
        value_result(r) == op_keys(values_view(args@)),
{
    proof {
        reveal(op_keys);
    }
    arity(args, 1)?;
    match raw(&args[0]) {
        Value::Record(fields) => {
            let ghost all = value_fields_view((**fields)@);
            assert(all.len() == (**fields)@.len());
            let mut names: Vec<Value> = Vec::new();
            let mut i: usize = 0;
            while i < fields.len()
                invariant
                    i <= fields.len(),
                    all == value_fields_view((**fields)@),
                    all.len() == (**fields)@.len(),
                    names.len() == i,
                    forall|j: int|
                        0 <= j < i ==> (#[trigger] names@[j])@ == SValue::Str(all[j].0),
                decreases fields.len() - i,
            {
                assert(all[i as int] == ((**fields)@[i as int].0@, (**fields)@[i as int].1@));
                names.push(Value::Str(fields[i].0.clone()));
                i = i + 1;
            }
            assert(values_view(names@) =~= field_names(all));
            Ok(list_value(names))
        },
        _ => Err(MagError::Eval("keys expects a map".to_owned())),
    }
}

#[verifier::opaque]
pub open spec fn op_first(args: Seq<SValue>) -> Result<SValue, SError> {
    match counted(args, 1) {
        Err(e) => Err(e),
        Ok(_) => match bare(args[0]) {
            SValue::List(v) => if v.len() == 0 {
                eval_error("first expects a non-empty List"@)
            } else {
                Ok(v[0])
            },
            _ => eval_error("first expects a List"@),
        },
    }
}

fn run_first(args: &Vec<Value>) -> (r: Result<Value, MagError>)
    ensures
        value_result(r) == op_first(values_view(args@)),
{
    proof {
        reveal(op_first);
    }
    arity(args, 1)?;
    match raw(&args[0]) {
        Value::List(v) => {
            assert(values_view((**v)@).len() == (**v)@.len());
            if v.len() == 0 {
                return Err(MagError::Eval("first expects a non-empty List".to_owned()));
            }
            assert(values_view((**v)@)[0] == (**v)@[0]@);
            Ok(v[0].clone())
        },
        _ => Err(MagError::Eval("first expects a List".to_owned())),
    }
}

#[verifier::opaque]
pub open spec fn op_concat(args: Seq<SValue>) -> Result<SValue, SError> {
    match counted(args, 2) {
        Err(e) => Err(e),
        Ok(_) => match (bare(args[0]), bare(args[1])) {
            (SValue::Str(a), SValue::Str(b)) => Ok(SValue::Str(a + b)),
            (SValue::List(a), SValue::List(b)) => Ok(SValue::List(a + b)),
            _ => eval_error("concat expects matching strings or collections"@),
        },
    }
}

/// Appends copies of some values.
pub fn append_values(out: &mut Vec<Value>, items: &Vec<Value>)
    ensures
        values_view(final(out)@) == values_view(old(out)@) + values_view(items@),
{
    let ghost before = values_view(out@);
    let ghost all = values_view(items@);
    let mut i: usize = 0;
    proof {
        assert(all.len() == items@.len());
        assert(before + all.take(0) =~= before);
    }
    while i < items.len()
        invariant
            i <= items.len(),
            all == values_view(items@),
            all.len() == items@.len(),
            values_view(out@) == before + all.take(i as int),
        decreases items.len() - i,
    {
        let ghost so_far = values_view(out@);
        let v = items[i].clone();
        out.push(v);
        proof {
            assert(values_view(out@) =~= so_far.push(v@));
            assert(all.take(i + 1) =~= all.take(i as int).push(items@[i as int]@));
            assert(before + all.take(i as int).push(v@) =~= so_far.push(v@));
        }
        i = i + 1;
    }
    assert(all.take(items.len() as int) =~= all);
}

fn run_concat(args: &Vec<Value>) -> (r: Result<Value, MagError>)
    ensures
        value_result(r) == op_concat(values_view(args@)),
{
    proof {
        reveal(op_concat);
    }
    arity(args, 2)?;
    match (raw(&args[0]), raw(&args[1])) {
        (Value::Str(a), Value::Str(b)) => Ok(Value::Str(cat2(a, b))),
        (Value::List(a), Value::List(b)) => {
            let mut made = clone_values(a);
            append_values(&mut made, b);
            Ok(list_value(made))
        },
        _ => Err(MagError::Eval("concat expects matching strings or collections".to_owned())),
    }
}

#[verifier::opaque]
pub open spec fn op_equal(args: Seq<SValue>) -> Result<SValue, SError> {
    match counted(args, 2) {
        Err(e) => Err(e),
        Ok(_) => Ok(SValue::Bool(values_equal(args[0], args[1]))),
    }
}

fn run_equal(args: &Vec<Value>) -> (r: Result<Value, MagError>)
    ensures
        value_result(r) == op_equal(values_view(args@)),
{
    proof {
        reveal(op_equal);
    }
    arity(args, 2)?;
    Ok(Value::Bool(equal(&args[0], &args[1])))
}

#[verifier::opaque]
pub open spec fn op_fail(args: Seq<SValue>) -> Result<SValue, SError> {
    match counted(args, 1) {
        Err(e) => Err(e),
        Ok(_) => match encoded(args[0], None) {
            Err(e) => Err(e),
            Ok(j) => eval_error("validation failed: "@ + json_text(wired(j))),
        },
    }
}

fn run_fail(env: &Env, args: &Vec<Value>) -> (r: Result<Value, MagError>)
    ensures
        value_result(r) == op_fail(values_view(args@)),
{
    proof {
        reveal(op_fail);
    }
    arity(args, 1)?;
    let j = value_to_json(env, &args[0])?;
    Err(MagError::Eval(cat2("validation failed: ", &render(&j))))
}

/// The member of an object under a key.
pub open spec fn json_member(j: SJson, key: Seq<char>) -> Option<SJson> {
    match j {
        SJson::Object(members) => {
            let i = member_index(members, key, 0);
            if i < members.len() {
                Some(members[i as int].1)
            } else {
                None
            }
        },
        _ => None,
    }
}

#[verifier::opaque]
pub open spec fn op_host_input(env: SEnv, args: Seq<SValue>) -> Result<SValue, SError> {
    match counted(args, 2) {
        Err(e) => Err(e),
        Ok(_) => match string_of(args[0]) {
            None => type_error("host-input key must be a String"@),
            Some(key) => match bare(args[1]) {
                SValue::TypeTag(expected) => match env.lookup_by_type(
                    "inputs"@,
                    SType::HostInputs,
                ) {
                    Err(e) => Err(e),
                    Ok(found) => match bare(found) {
                        SValue::HostInputs(inputs) => match json_member(inputs, key) {
                            None => type_error(
                                "host input "@ + quoted_text(key) + " is not present"@,
                            ),
                            Some(j) => match decoded(
                                env,
                                j,
                                open_type(expected),
                                true,
                                expansion_limit(env),
                            ) {
                                Ok(v) => Ok(v),
                                Err(e) => type_error(
                                    "host input "@ + quoted_text(key) + ": "@ + error_text(e),
                                ),
                            },
                        },
                        _ => type_error("host-input requires compiler host inputs"@),
                    },
                },
                _ => type_error("host-input expects a TypeTag"@),
            },
        },
    }
}

fn run_host_input(env: &Env, args: &Vec<Value>) -> (r: Result<Value, MagError>)
    ensures
        value_result(r) == op_host_input(env@, values_view(args@)),
{
    proof {
        reveal(op_host_input);
    }
    arity(args, 2)?;
    let key = match args[0].as_str() {
        None => {
            return Err(MagError::Type("host-input key must be a String".to_owned()));
        },
        Some(k) => k,
    };
    let expected = match raw(&args[1]) {
        Value::TypeTag(t) => t,
        _ => {
            return Err(MagError::Type("host-input expects a TypeTag".to_owned()));
        },
    };
    let found = env.lookup_by_type("inputs", &MagType::HostInputs)?;
    let inputs = match raw(&found) {
        Value::HostInputs(j) => j,
        _ => {
            return Err(MagError::Type("host-input requires compiler host inputs".to_owned()));
        },
    };
    match inputs {
        Json::Object(members) => {
            let ghost all = members_view(members@);
            assert(inputs@ == SJson::Object(all));
            assert(all.len() == members@.len());
            let i = find_member(members, key);
            if i < members.len() {
                assert(all[i as int] == (members@[i as int].0@, members@[i as int].1@));
                match json_to_typed_value(env, &members[i].1, &expected.to_mag_type()) {
                    Ok(v) => Ok(v),
                    Err(e) => Err(
                        MagError::Type(cat4("host input ", &quoted(key), ": ", &e.text())),
                    ),
                }
            } else {
                Err(MagError::Type(cat3("host input ", &quoted(key), " is not present")))
            }
        },
        _ => Err(MagError::Type(cat3("host input ", &quoted(key), " is not present"))),
    }
}

#[verifier::opaque]
pub open spec fn op_type_evidence(args: Seq<SValue>) -> Result<SValue, SError> {
    match counted(args, 1) {
        Err(e) => Err(e),
        Ok(_) => match bare(args[0]) {
            SValue::TypeTag(t) => Ok(SValue::TypeDescriptor(t)),
            other => type_error("type-evidence expects TypeTag, got "@ + kind_name(other)),
        },
    }
}

fn run_type_evidence(args: &Vec<Value>) -> (r: Result<Value, MagError>)
    ensures
        value_result(r) == op_type_evidence(values_view(args@)),
{
    proof {
        reveal(op_type_evidence);
    }
    arity(args, 1)?;
    let v = raw(&args[0]);
    match v {
        Value::TypeTag(t) => Ok(Value::TypeDescriptor(t.clone())),
        _ => Err(MagError::Type(cat2("type-evidence expects TypeTag, got ", v.kind_text()))),
    }
}

#[verifier::opaque]
pub open spec fn op_type_id(args: Seq<SValue>) -> Result<SValue, SError> {
    match counted(args, 1) {
        Err(e) => Err(e),
        Ok(_) => match bare(args[0]) {
            SValue::TypeDescriptor(t) => Ok(SValue::SemanticTypeId(type_id(t))),
            _ => type_error("type-id expects a TypeDescriptor"@),
        },
    }
}

fn run_type_id(args: &Vec<Value>) -> (r: Result<Value, MagError>)
    ensures
        value_result(r) == op_type_id(values_view(args@)),
{
    proof {
        reveal(op_type_id);
    }
    arity(args, 1)?;
    match raw(&args[0]) {
        Value::TypeDescriptor(t) => Ok(Value::SemanticTypeId(t.stable_id().0)),
        _ => Err(MagError::Type("type-id expects a TypeDescriptor".to_owned())),
    }
}

#[verifier::opaque]
pub open spec fn op_value_type_id(args: Seq<SValue>) -> Result<SValue, SError> {
    match counted(args, 2) {
        Err(e) => Err(e),
        Ok(_) => match bare(args[1]) {
            SValue::TypeTag(t) => Ok(SValue::SemanticTypeId(type_id(t))),
            SValue::TypeDescriptor(t) => Ok(SValue::SemanticTypeId(type_id(t))),
            _ => type_error("value type evidence must be TypeTag or TypeDescriptor"@),
        },
    }
}

fn run_value_type_id(args: &Vec<Value>) -> (r: Result<Value, MagError>)
    ensures
        value_result(r) == op_value_type_id(values_view(args@)),
{
    proof {
        reveal(op_value_type_id);
    }
    arity(args, 2)?;
    match raw(&args[1]) {
        Value::TypeTag(t) => Ok(Value::SemanticTypeId(t.stable_id().0)),
        Value::TypeDescriptor(t) => Ok(Value::SemanticTypeId(t.stable_id().0)),
        _ => Err(
            MagError::Type("value type evidence must be TypeTag or TypeDescriptor".to_owned()),
        ),
    }
}

#[verifier::opaque]
pub open spec fn op_value_type_evidence(args: Seq<SValue>) -> Result<SValue, SError> {
    match counted(args, 2) {
        Err(e) => Err(e),
        Ok(_) => match bare(args[1]) {
            SValue::TypeDescriptor(t) => Ok(SValue::TypeDescriptor(t)),
            _ => type_error("value-type-evidence expects a TypeDescriptor"@),
        },
    }
}

fn run_value_type_evidence(args: &Vec<Value>) -> (r: Result<Value, MagError>)
    ensures
        value_result(r) == op_value_type_evidence(values_view(args@)),
{
    proof {
        reveal(op_value_type_evidence);
    }
    arity(args, 2)?;
    match raw(&args[1]) {
        Value::TypeDescriptor(t) => Ok(Value::TypeDescriptor(t.clone())),
        _ => Err(MagError::Type("value-type-evidence expects a TypeDescriptor".to_owned())),
    }
}

#[verifier::opaque]
pub open spec fn op_pack(args: Seq<SValue>) -> Result<SValue, SError> {
    match counted(args, 1) {
        Err(e) => Err(e),
        Ok(_) => Ok(SValue::PackedValue(Box::new(args[0]))),
    }
}

fn run_pack(args: &Vec<Value>) -> (r: Result<Value, MagError>)
    ensures
        value_result(r) == op_pack(values_view(args@)),
{
    proof {
        reveal(op_pack);
    }
    arity(args, 1)?;
    Ok(Value::PackedValue(Arc::new(args[0].clone())))
}

/// The fields of a packed record.
pub open spec fn packed_fields(v: SValue) -> Option<Seq<(Seq<char>, SValue)>> {
    match bare(v) {
        SValue::Record(fields) => Some(fields),
        _ => None,
    }
}

#[verifier::opaque]
pub open spec fn op_packed_empty(args: Seq<SValue>) -> Result<SValue, SError> {
    match counted(args, 1) {
        Err(e) => Err(e),
        Ok(_) => match bare(args[0]) {
            SValue::PackedValue(v) => Ok(
                SValue::Bool(
                    match packed_fields(*v) {
                        Some(f) => f.len() == 0,
                        None => false,
                    },
                ),
            ),
            _ => type_error("packed-empty-record? expects PackedValue"@),
        },
    }
}

fn run_packed_empty(args: &Vec<Value>) -> (r: Result<Value, MagError>)
    ensures
        value_result(r) == op_packed_empty(values_view(args@)),
{
    proof {
        reveal(op_packed_empty);
    }
    arity(args, 1)?;
    match raw(&args[0]) {
        Value::PackedValue(v) => match raw(v) {
            Value::Record(f) => {
                assert(value_fields_view((**f)@).len() == (**f)@.len());
                Ok(Value::Bool(f.len() == 0))
            },
            _ => Ok(Value::Bool(false)),
        },
        _ => Err(MagError::Type("packed-empty-record? expects PackedValue".to_owned())),
    }
}

#[verifier::opaque]
pub open spec fn op_packed_only_key(args: Seq<SValue>) -> Result<SValue, SError> {
    match counted(args, 2) {
        Err(e) => Err(e),
        Ok(_) => match bare(args[0]) {
            SValue::PackedValue(v) => match string_of(args[1]) {
                None => type_error("packed record key must be String"@),
                Some(key) => Ok(
                    SValue::Bool(
                        match packed_fields(*v) {
                            Some(f) => f.len() == 1 && keyed(f, key, 0) is Some,
                            None => false,
                        },
                    ),
                ),
            },
            _ => type_error("packed-record-has-only-key? expects PackedValue"@),
        },
    }
}

fn run_packed_only_key(args: &Vec<Value>) -> (r: Result<Value, MagError>)
    ensures
        value_result(r) == op_packed_only_key(values_view(args@)),
{
    proof {
        reveal(op_packed_only_key);
    }
    arity(args, 2)?;
    match raw(&args[0]) {
        Value::PackedValue(v) => {
            let key = match args[1].as_str() {
                None => {
                    return Err(MagError::Type("packed record key must be String".to_owned()));
                },
                Some(k) => k,
            };
            match raw(v) {
                Value::Record(f) => {
                    assert(value_fields_view((**f)@).len() == (**f)@.len());
                    Ok(Value::Bool(f.len() == 1 && field_value(f, key).is_some()))
                },
                _ => Ok(Value::Bool(false)),
            }
        },
        _ => Err(MagError::Type("packed-record-has-only-key? expects PackedValue".to_owned())),
    }
}

/// The strings that some values are, if all of them are.
pub open spec fn strings_of(values: Seq<SValue>, done: Seq<Seq<char>>) -> Option<Seq<Seq<char>>>
    decreases values.len() - done.len(),
{
    if done.len() >= values.len() {
        Some(done)
    } else {
        match string_of(values[done.len() as int]) {
            Some(s) => strings_of(values, done.push(s)),
            None => None,
        }
    }
}

fn collect_strings(values: &Vec<Value>) -> (r: Option<Vec<String>>)
    ensures
        match r {
            Some(v) => strings_of(values_view(values@), Seq::empty()) == Some(strings(v@)),
            None => strings_of(values_view(values@), Seq::empty()) is None,
        },
{
    let ghost all = values_view(values@);
    let ghost whole = strings_of(all, Seq::empty());
    let mut done: Vec<String> = Vec::new();
    proof {
        assert(all.len() == values@.len());
        assert(strings(done@) =~= Seq::empty());
    }
    while done.len() < values.len()
        invariant
            done.len() <= values.len(),
            all == values_view(values@),
            all.len() == values@.len(),
            whole == strings_of(all, Seq::empty()),
            whole == strings_of(all, strings(done@)),
        decreases values.len() - done.len(),
    {
        let ghost so_far = strings(done@);
        let i = done.len();
        assert(all[i as int] == values@[i as int]@);
        match values[i].as_str() {
            Some(s) => {
                let owned = s.to_owned();
                done.push(owned);
                assert(strings(done@) =~= so_far.push(owned@));
            },
            None => {
                return None;
            },
        }
    }
    Some(done)
}

/// Whether a record has exactly the fields with these names.
pub open spec fn has_exactly(fields: Seq<(Seq<char>, SValue)>, names: Set<Seq<char>>) -> bool {
    fields.len() == names.len() && forall|i: int|
        0 <= i < fields.len() ==> names.contains((#[trigger] fields[i]).0)
}

#[verifier::opaque]
pub open spec fn op_packed_only_keys(args: Seq<SValue>) -> Result<SValue, SError> {
    match counted(args, 2) {
        Err(e) => Err(e),
        Ok(_) => match bare(args[0]) {
            SValue::PackedValue(v) => match bare(args[1]) {
                SValue::List(values) => match strings_of(values, Seq::empty()) {
                    None => type_error("packed-record-has-only-keys? expects a String list"@),
                    Some(names) => Ok(
                        SValue::Bool(
                            match packed_fields(*v) {
                                Some(f) => has_exactly(f, names.to_set()),
                                None => false,
                            },
                        ),
                    ),
                },
                _ => type_error("packed-record-has-only-keys? expects a String list"@),
            },
            _ => type_error("packed-record-has-only-keys? expects PackedValue"@),
        },
    }
}

fn check_exactly(fields: &Vec<(String, Value)>, names: &Vec<String>) -> (r: bool)
    ensures
        r == has_exactly(value_fields_view(fields@), strings(names@).to_set()),
{
    let ghost all = value_fields_view(fields@);
    let ghost wanted = strings(names@).to_set();
    let different = order_names(names);
    proof {
        assert(all.len() == fields@.len());
        let q = strings(different@);
        assert(q.no_duplicates()) by {
            assert forall|i: int, j: int| 0 <= i < q.len() && 0 <= j < q.len() && i != j implies q[i]
                != q[j] by {
                crate::text::before_is_total(q[i], q[j]);
                if i < j {
                    assert(crate::text::before(q[i], q[j]));
                } else {
                    assert(crate::text::before(q[j], q[i]));
                }
            }
        }
        q.unique_seq_to_set();
        assert(q.to_set() == wanted);
        assert(wanted.len() == different@.len());
    }
    if fields.len() != different.len() {
        return false;
    }
    let mut i: usize = 0;
    while i < fields.len()
        invariant
            i <= fields.len(),
            all == value_fields_view(fields@),
            all.len() == fields@.len(),
            wanted == strings(names@).to_set(),
            wanted == strings(different@).to_set(),
            fields@.len() == wanted.len(),
            forall|j: int| 0 <= j < i ==> wanted.contains((#[trigger] all[j]).0),
        decreases fields.len() - i,
    {
        assert(all[i as int] == (fields@[i as int].0@, fields@[i as int].1@));
        if !contains_name(&different, &fields[i].0) {
            proof {
                let q = strings(different@);
                if wanted.contains(all[i as int].0) {
                    let k = choose|k: int| 0 <= k < q.len() && q[k] == all[i as int].0;
                    assert(different@[k]@ == all[i as int].0);
                }
            }
            return false;
        }
        proof {
            let q = strings(different@);
            let k = choose|k: int|
                0 <= k < different@.len() && (#[trigger] different@[k])@ == all[i as int].0;
            assert(q[k] == all[i as int].0);
            assert(q.contains(all[i as int].0));
        }
        i = i + 1;
    }
    true
}

fn run_packed_only_keys(args: &Vec<Value>) -> (r: Result<Value, MagError>)
    ensures
        value_result(r) == op_packed_only_keys(values_view(args@)),
{
    proof {
        reveal(op_packed_only_keys);
    }
    arity(args, 2)?;
    let packed = match raw(&args[0]) {
        Value::PackedValue(v) => v,
        _ => {
            return Err(
                MagError::Type("packed-record-has-only-keys? expects PackedValue".to_owned()),
            );
        },
    };
    let names = match raw(&args[1]) {
        Value::List(values) => match collect_strings(values) {
            Some(n) => n,
            None => {
                return Err(
                    MagError::Type(
                        "packed-record-has-only-keys? expects a String list".to_owned(),
                    ),
                );
            },
        },
        _ => {
            return Err(
                MagError::Type("packed-record-has-only-keys? expects a String list".to_owned()),
            );
        },
    };
    match raw(packed) {
        Value::Record(f) => Ok(Value::Bool(check_exactly(f, &names))),
        _ => Ok(Value::Bool(false)),
    }
}

#[verifier::opaque]
pub open spec fn op_packed_field(env: SEnv, args: Seq<SValue>) -> Result<SValue, SError> {
    match counted(args, 3) {
        Err(e) => Err(e),
        Ok(_) => match bare(args[0]) {
            SValue::PackedValue(v) => match string_of(args[1]) {
                None => type_error("packed record key must be String"@),
                Some(key) => match bare(args[2]) {
                    SValue::TypeDescriptor(t) => Ok(
                        SValue::Bool(
                            match packed_fields(*v) {
                                Some(f) => match keyed(f, key, 0) {
                                    Some(field) => validated(env, field, open_type(t)) is Ok,
                                    None => false,
                                },
                                None => false,
                            },
                        ),
                    ),
                    _ => type_error("packed-field-conforms? expects TypeDescriptor"@),
                },
            },
            _ => type_error("packed-field-conforms? expects PackedValue"@),
        },
    }
}

fn run_packed_field(env: &Env, args: &Vec<Value>) -> (r: Result<Value, MagError>)
    ensures
        value_result(r) == op_packed_field(env@, values_view(args@)),
{
    proof {
        reveal(op_packed_field);
    }
    arity(args, 3)?;
    let packed = match raw(&args[0]) {
        Value::PackedValue(v) => v,
        _ => {
            return Err(MagError::Type("packed-field-conforms? expects PackedValue".to_owned()));
        },
    };
    let key = match args[1].as_str() {
        None => {
            return Err(MagError::Type("packed record key must be String".to_owned()));
        },
        Some(k) => k,
    };
    let ty = match raw(&args[2]) {
        Value::TypeDescriptor(t) => t.to_mag_type(),
        _ => {
            return Err(
                MagError::Type("packed-field-conforms? expects TypeDescriptor".to_owned()),
            );
        },
    };
    match raw(packed) {
        Value::Record(f) => match field_value(f, key) {
            Some(field) => match validate_value(env, field, &ty) {
                Ok(_) => Ok(Value::Bool(true)),
                Err(_) => Ok(Value::Bool(false)),
            },
            None => Ok(Value::Bool(false)),
        },
        _ => Ok(Value::Bool(false)),
    }
}

#[verifier::opaque]
pub open spec fn op_accepts(name: Seq<char>, edge: bool, args: Seq<SValue>) -> Result<
    SValue,
    SError,
> {
    match counted(args, 2) {
        Err(e) => Err(e),
        Ok(_) => match (bare(args[0]), bare(args[1])) {
            (SValue::TypeDescriptor(target), SValue::TypeDescriptor(source)) => Ok(
                SValue::Bool(
                    if edge {
                        takes_edge(target, source)
                    } else {
                        target == source
                    },
                ),
            ),
            _ => type_error(name + " expects TypeDescriptor arguments"@),
        },
    }
}

fn run_accepts(name: &str, edge: bool, args: &Vec<Value>) -> (r: Result<Value, MagError>)
    ensures
        value_result(r) == op_accepts(name@, edge, values_view(args@)),
{
    proof {
        reveal(op_accepts);
    }
    arity(args, 2)?;
    match (raw(&args[0]), raw(&args[1])) {
        (Value::TypeDescriptor(target), Value::TypeDescriptor(source)) => Ok(
            Value::Bool(
                if edge {
                    target.accepts_edge_source(source)
                } else {
                    target.accepts(source)
                },
            ),
        ),
        _ => Err(MagError::Type(cat2(name, " expects TypeDescriptor arguments"))),
    }
}

/// The types that some values describe, if all of them do.
pub open spec fn descriptors_of(values: Seq<SValue>, done: Seq<SConcrete>) -> Option<
    Seq<SConcrete>,
>
    decreases values.len() - done.len(),
{
    if done.len() >= values.len() {
        Some(done)
    } else {
        match bare(values[done.len() as int]) {
            SValue::TypeDescriptor(t) => descriptors_of(values, done.push(t)),
            _ => None,
        }
    }
}

/// The types that a list describes.
pub open spec fn described_list(v: SValue, message: Seq<char>) -> Result<Seq<SConcrete>, SError> {
    match bare(v) {
        SValue::List(values) => match descriptors_of(values, Seq::empty()) {
            Some(t) => Ok(t),
            None => type_error(message),
        },
        _ => type_error(message),
    }
}

fn descriptor_list(v: &Value, message: &str) -> (r: Result<Vec<ConcreteType>, MagError>)
    ensures
        match r {
            Ok(t) => described_list(v@, message@) == Ok::<Seq<SConcrete>, SError>(
                concretes_view(t@),
            ),
            Err(e) => described_list(v@, message@) == Err::<Seq<SConcrete>, SError>(e@),
        },
{
    let values = match raw(v) {
        Value::List(values) => values,
        _ => {
            return Err(MagError::Type(message.to_owned()));
        },
    };
    let ghost all = values_view((**values)@);
    let ghost whole = descriptors_of(all, Seq::empty());
    let mut done: Vec<ConcreteType> = Vec::new();
    proof {
        assert(all.len() == (**values)@.len());
        assert(concretes_view(done@) =~= Seq::empty());
    }
    while done.len() < values.len()
        invariant
            done.len() <= values.len(),
            bare(v@) == SValue::List(all),
            all == values_view((**values)@),
            all.len() == (**values)@.len(),
            whole == descriptors_of(all, Seq::empty()),
            whole == descriptors_of(all, concretes_view(done@)),
            concretes_view(done@).len() == done@.len(),
        decreases values.len() - done.len(),
    {
        let ghost so_far = concretes_view(done@);
        let i = done.len();
        assert(all[i as int] == (**values)@[i as int]@);
        match raw(&values[i]) {
            Value::TypeDescriptor(t) => {
                let owned = t.clone();
                done.push(owned);
                assert(concretes_view(done@) =~= so_far.push(owned@));
            },
            _ => {
                return Err(MagError::Type(message.to_owned()));
            },
        }
    }
    Ok(done)
}

#[verifier::opaque]
pub open spec fn op_input_covered(args: Seq<SValue>) -> Result<SValue, SError> {
    match counted(args, 2) {
        Err(e) => Err(e),
        Ok(_) => match bare(args[0]) {
            SValue::TypeDescriptor(target) => match described_list(
                args[1],
                "descriptor-input-covered-by? expects a descriptor list"@,
            ) {
                Err(e) => Err(e),
                Ok(sources) => Ok(SValue::Bool(covers(target, sources))),
            },
            _ => type_error("descriptor-input-covered-by? expects a TypeDescriptor target"@),
        },
    }
}

fn run_input_covered(args: &Vec<Value>) -> (r: Result<Value, MagError>)
    ensures
        value_result(r) == op_input_covered(values_view(args@)),
{
    proof {
        reveal(op_input_covered);
    }
    arity(args, 2)?;
    match raw(&args[0]) {
        Value::TypeDescriptor(target) => {
            let sources = descriptor_list(
                &args[1],
                "descriptor-input-covered-by? expects a descriptor list",
            )?;
            Ok(Value::Bool(target.input_is_covered_by(&sources)))
        },
        _ => Err(
            MagError::Type(
                "descriptor-input-covered-by? expects a TypeDescriptor target".to_owned(),
            ),
        ),
    }
}

/// The number of the position that a source supplies, or -1 for the whole input.
pub open spec fn position_number(input: SConcrete, sources: Seq<SConcrete>, i: int) -> i64 {
    if sources[i] == input {
        -1i64
    } else {
        (choose|p: int| supplies(input->Product_0, sources, i, p)) as i64
    }
}

#[verifier::opaque]
pub open spec fn op_assignments(args: Seq<SValue>) -> Result<SValue, SError> {
    match counted(args, 2) {
        Err(e) => Err(e),
        Ok(_) => match bare(args[0]) {
            SValue::TypeDescriptor(target) => match described_list(
                args[1],
                "descriptor-input-assignments expects a descriptor list"@,
            ) {
                Err(e) => Err(e),
                Ok(sources) => if covers(target, sources) {
                    Ok(
                        SValue::List(
                            Seq::new(
                                sources.len(),
                                |i: int| SValue::Int(position_number(target, sources, i)),
                            ),
                        ),
                    )
                } else {
                    type_error(InputAssignmentError::IncompleteCoverage.message())
                },
            },
            _ => type_error("descriptor-input-assignments expects a TypeDescriptor target"@),
        },
    }
}

fn run_assignments(args: &Vec<Value>) -> (r: Result<Value, MagError>)
    ensures
        value_result(r) == op_assignments(values_view(args@)),
{
    proof {
        reveal(op_assignments);
    }
    arity(args, 2)?;
    let target = match raw(&args[0]) {
        Value::TypeDescriptor(t) => t,
        _ => {
            return Err(
                MagError::Type(
                    "descriptor-input-assignments expects a TypeDescriptor target".to_owned(),
                ),
            );
        },
    };
    let sources = descriptor_list(
        &args[1],
        "descriptor-input-assignments expects a descriptor list",
    )?;
    let ghost from = concretes_view(sources@);
    assert(from.len() == sources@.len());
    match target.assign_input_sources(&sources) {
        Err(e) => Err(MagError::Type(e.text().to_owned())),
        Ok(positions) => {
            let mut out: Vec<Value> = Vec::new();
            let mut i: usize = 0;
            while i < positions.len()
                invariant
                    i <= positions.len(),
                    from == concretes_view(sources@),
                    from.len() == sources@.len(),
                    positions@.len() == sources@.len(),
                    forall|j: int|
                        0 <= j < sources@.len() ==> crate::concrete::assigned(
                            target@,
                            from,
                            j,
                            #[trigger] positions@[j],
                        ),
                    out.len() == i,
                    forall|j: int|
                        0 <= j < i ==> (#[trigger] out@[j])@ == SValue::Int(
                            position_number(target@, from, j),
                        ),
                decreases positions.len() - i,
            {
                assert(crate::concrete::assigned(target@, from, i as int, positions@[i as int]));
                let n: i64 = match positions[i] {
                    None => -1,
                    Some(p) => {
                        proof {
                            let items = target@->Product_0;
                            let q = choose|q: int| supplies(items, from, i as int, q);
                            assert(supplies(items, from, i as int, p as int));
                            crate::coverage::one_position(items, from, i as int, p as int, q);
                        }
                        p as i64
                    },
                };
                out.push(Value::Int(n));
                i = i + 1;
            }
            assert(values_view(out@) =~= Seq::new(
                from.len(),
                |i: int| SValue::Int(position_number(target@, from, i)),
            ));
            Ok(list_value(out))
        },
    }
}

/// Whether one of some handlers takes a type over an edge.
pub open spec fn handled(target: SConcrete, handlers: Seq<SConcrete>) -> bool {
    exists|i: int| 0 <= i < handlers.len() && takes_edge(#[trigger] handlers[i], target)
}

#[verifier::opaque]
pub open spec fn op_output_covered(args: Seq<SValue>) -> Result<SValue, SError> {
    match counted(args, 2) {
        Err(e) => Err(e),
        Ok(_) => match bare(args[0]) {
            SValue::TypeDescriptor(target) => match described_list(
                args[1],
                "descriptor-output-covered-by? expects a descriptor list"@,
            ) {
                Err(e) => Err(e),
                Ok(handlers) => Ok(SValue::Bool(handled(target, handlers))),
            },
            _ => type_error("descriptor-output-covered-by? expects a TypeDescriptor target"@),
        },
    }
}

fn run_output_covered(args: &Vec<Value>) -> (r: Result<Value, MagError>)
    ensures
        value_result(r) == op_output_covered(values_view(args@)),
{
    proof {
        reveal(op_output_covered);
    }
    arity(args, 2)?;
    match raw(&args[0]) {
        Value::TypeDescriptor(target) => {
            let handlers = descriptor_list(
                &args[1],
                "descriptor-output-covered-by? expects a descriptor list",
            )?;
            let covered = target.output_is_covered_by(&handlers);
            proof {
                let all = concretes_view(handlers@);
                assert(all.len() == handlers@.len());
                assert(forall|i: int|
                    0 <= i < handlers@.len() ==> #[trigger] all[i] == handlers@[i]@);
                if covered {
                    let k = choose|k: int|
                        0 <= k < handlers@.len() && takes_edge((#[trigger] handlers@[k])@, target@);
                    assert(takes_edge(all[k], target@));
                } else {
                    assert forall|k: int| 0 <= k < all.len() implies !takes_edge(
                        #[trigger] all[k],
                        target@,
                    ) by {
                        assert(all[k] == handlers@[k]@);
                    }
                }
                assert(covered == handled(target@, all));
            }
            Ok(Value::Bool(covered))
        },
        _ => Err(
            MagError::Type(
                "descriptor-output-covered-by? expects a TypeDescriptor target".to_owned(),
            ),
        ),
    }
}

/// Declarations with others added; an identity stands for one declaration.
pub open spec fn merged(done: SDeclarations, more: SDeclarations) -> Result<SDeclarations, SError>
    decreases more.len(),
{
    if more.len() == 0 {
        Ok(done)
    } else {
        let (id, t) = more[0];
        match keyed(done, id, 0) {
            Some(known) => if known == t {
                merged(with_member(done, id, t), more.drop_first())
            } else {
                crate::identity::collision(id)
            },
            None => merged(with_member(done, id, t), more.drop_first()),
        }
    }
}

pub open spec fn merged_all(done: SDeclarations, types: Seq<SConcrete>) -> Result<
    SDeclarations,
    SError,
>
    decreases types.len(),
{
    if types.len() == 0 {
        Ok(done)
    } else {
        match declared_types(types[0], Seq::empty()) {
            Err(e) => Err(e),
            Ok(more) => match merged(done, more) {
                Err(e) => Err(e),
                Ok(d) => merged_all(d, types.drop_first()),
            },
        }
    }
}

pub open spec fn described_fields(d: SDeclarations) -> Seq<(Seq<char>, SValue)> {
    Seq::new(d.len(), |i: int| (d[i].0, SValue::TypeDescriptor(d[i].1)))
}

#[verifier::opaque]
pub open spec fn op_table(args: Seq<SValue>) -> Result<SValue, SError> {
    match counted(args, 1) {
        Err(e) => Err(e),
        Ok(_) => match described_list(args[0], "descriptor-table expects a descriptor list"@) {
            Err(e) => Err(e),
            Ok(types) => match merged_all(Seq::empty(), types) {
                Err(e) => Err(e),
                Ok(d) => Ok(SValue::Record(described_fields(d))),
            },
        },
    }
}

fn merge(done: &mut Vec<(String, ConcreteType)>, more: &Vec<(String, ConcreteType)>) -> (r: Result<
    (),
    MagError,
>)
    ensures
        match r {
            Ok(_) => merged(concrete_fields_view(old(done)@), concrete_fields_view(more@)) == Ok::<
                SDeclarations,
                SError,
            >(concrete_fields_view(final(done)@)),
            Err(e) => merged(concrete_fields_view(old(done)@), concrete_fields_view(more@)) == Err::<
                SDeclarations,
                SError,
            >(e@),
        },
{
    let ghost all = concrete_fields_view(more@);
    let ghost whole = merged(concrete_fields_view(done@), all);
    let mut i: usize = 0;
    proof {
        assert(all.len() == more@.len());
        assert(all.skip(0) =~= all);
    }
    while i < more.len()
        invariant
            i <= more.len(),
            all == concrete_fields_view(more@),
            all.len() == more@.len(),
            whole == merged(concrete_fields_view(old(done)@), all),
            whole == merged(concrete_fields_view(done@), all.skip(i as int)),
        decreases more.len() - i,
    {
        proof {
            assert(all.skip(i as int)[0] == (more@[i as int].0@, more@[i as int].1@));
            assert(all.skip(i as int).drop_first() =~= all.skip(i + 1));
        }
        match crate::identity::declaration_of(done, &more[i].0) {
            Some(known) => {
                if !known.equals(&more[i].1) {
                    return Err(
                        MagError::Type(cat2("semantic type identity collision at ", &more[i].0)),
                    );
                }
            },
            None => {},
        }
        crate::identity::put_declaration(done, more[i].0.clone(), more[i].1.clone());
        i = i + 1;
    }
    Ok(())
}

fn run_table(args: &Vec<Value>) -> (r: Result<Value, MagError>)
    ensures
        value_result(r) == op_table(values_view(args@)),
{
    proof {
        reveal(op_table);
    }
    arity(args, 1)?;
    let types = descriptor_list(&args[0], "descriptor-table expects a descriptor list")?;
    let ghost all = concretes_view(types@);
    let ghost whole = merged_all(Seq::empty(), all);
    let ghost given = values_view(args@);
    let mut done: Vec<(String, ConcreteType)> = Vec::new();
    let mut i: usize = 0;
    proof {
        assert(all.len() == types@.len());
        assert(all.skip(0) =~= all);
        assert(concrete_fields_view(done@) =~= Seq::empty());
    }
    while i < types.len()
        invariant
            i <= types.len(),
            given == values_view(args@),
            given.len() == 1,
            described_list(given[0], "descriptor-table expects a descriptor list"@) == Ok::<
                Seq<SConcrete>,
                SError,
            >(all),
            all == concretes_view(types@),
            all.len() == types@.len(),
            whole == merged_all(Seq::empty(), all),
            whole == merged_all(concrete_fields_view(done@), all.skip(i as int)),
        decreases types.len() - i,
    {
        proof {
            reveal(op_table);
            assert(all.skip(i as int)[0] == types@[i as int]@);
            assert(all.skip(i as int).drop_first() =~= all.skip(i + 1));
        }
        let more = types[i].declarations()?;
        merge(&mut done, &more)?;
        i = i + 1;
    }
    let ghost d = concrete_fields_view(done@);
    let mut fields: Vec<(String, Value)> = Vec::new();
    let mut k: usize = 0;
    assert(d.len() == done@.len());
    while k < done.len()
        invariant
            k <= done.len(),
            d == concrete_fields_view(done@),
            d.len() == done@.len(),
            fields.len() == k,
            forall|j: int|
                0 <= j < k ==> ((#[trigger] fields@[j]).0@, fields@[j].1@) == described_fields(d)[j],
        decreases done.len() - k,
    {
        assert(d[k as int] == (done@[k as int].0@, done@[k as int].1@));
        fields.push((done[k].0.clone(), Value::TypeDescriptor(done[k].1.clone())));
        k = k + 1;
    }
    assert(value_fields_view(fields@) =~= described_fields(d));
    Ok(record_value(fields))
}

#[verifier::opaque]
pub open spec fn op_not(args: Seq<SValue>) -> Result<SValue, SError> {
    match counted(args, 1) {
        Err(e) => Err(e),
        Ok(_) => Ok(SValue::Bool(!is_true(args[0]))),
    }
}

fn run_not(args: &Vec<Value>) -> (r: Result<Value, MagError>)
    ensures
        value_result(r) == op_not(values_view(args@)),
{
    proof {
        reveal(op_not);
    }
    arity(args, 1)?;
    Ok(Value::Bool(!truthy(&args[0])))
}

#[verifier::opaque]
pub open spec fn op_or(args: Seq<SValue>) -> Result<SValue, SError> {
    match counted(args, 2) {
        Err(e) => Err(e),
        Ok(_) => Ok(
            if is_true(args[0]) {
                args[0]
            } else {
                args[1]
            },
        ),
    }
}

fn run_or(args: &Vec<Value>) -> (r: Result<Value, MagError>)
    ensures
        value_result(r) == op_or(values_view(args@)),
{
    proof {
        reveal(op_or);
    }
    arity(args, 2)?;
    if truthy(&args[0]) {
        Ok(args[0].clone())
    } else {
        Ok(args[1].clone())
    }
}

/// The builtin functions on text and collections.
#[verifier::opaque]
pub open spec fn data_operation(name: Seq<char>, args: Seq<SValue>) -> Option<
    Result<SValue, SError>,
> {
    if name == "artifact"@ {
        Some(op_artifact(args))
    } else if name == "str"@ {
        Some(Ok(SValue::Str(texts_of(args))))
    } else if name == "strip-margin"@ {
        Some(op_strip_margin(args))
    } else if name == "replace"@ {
        Some(op_replace(args))
    } else if name == "canonical"@ {
        Some(op_canonical(args))
    } else if name == "function-name"@ {
        Some(op_function_name(args))
    } else if name == "count"@ {
        Some(op_count(args))
    } else if name == "remove-at"@ {
        Some(op_remove_at(args))
    } else if name == "get"@ {
        Some(op_get(args))
    } else if name == "assoc"@ {
        Some(op_assoc(args))
    } else if name == "keys"@ {
        Some(op_keys(args))
    } else if name == "first"@ {
        Some(op_first(args))
    } else if name == "concat"@ {
        Some(op_concat(args))
    } else if name == "="@ {
        Some(op_equal(args))
    } else if name == "fail"@ {
        Some(op_fail(args))
    } else if name == "not"@ {
        Some(op_not(args))
    } else if name == "or"@ {
        Some(op_or(args))
    } else {
        None
    }
}

pub open spec fn operation_result(r: Option<Result<Value, MagError>>) -> Option<
    Result<SValue, SError>,
> {
    match r {
        Some(v) => Some(value_result(v)),
        None => None,
    }
}

fn run_data(env: &Env, name: &str, args: &Vec<Value>) -> (r: Option<Result<Value, MagError>>)
    ensures
        operation_result(r) == data_operation(name@, values_view(args@)),
{
    proof {
        reveal(data_operation);
    }
    if same(name, "artifact") {
        Some(run_artifact(env, args))
    } else if same(name, "str") {
        Some(Ok(run_str(args)))
    } else if same(name, "strip-margin") {
        Some(run_strip_margin(args))
    } else if same(name, "replace") {
        Some(run_replace(args))
    } else if same(name, "canonical") {
        Some(run_canonical(env, args))
    } else if same(name, "function-name") {
        Some(run_function_name(args))
    } else if same(name, "count") {
        Some(run_count(args))
    } else if same(name, "remove-at") {
        Some(run_remove_at(args))
    } else if same(name, "get") {
        Some(run_get(args))
    } else if same(name, "assoc") {
        Some(run_assoc(args))
    } else if same(name, "keys") {
        Some(run_keys(args))
    } else if same(name, "first") {
        Some(run_first(args))
    } else if same(name, "concat") {
        Some(run_concat(args))
    } else if same(name, "=") {
        Some(run_equal(args))
    } else if same(name, "fail") {
        Some(run_fail(env, args))
    } else if same(name, "not") {
        Some(run_not(args))
    } else if same(name, "or") {
        Some(run_or(args))
    } else {
        None
    }
}

/// The builtin functions on types and packed values.
#[verifier::opaque]
pub open spec fn evidence_operation(env: SEnv, name: Seq<char>, args: Seq<SValue>) -> Option<
    Result<SValue, SError>,
> {
    if name == "conforms?"@ {
        Some(op_conforms(env, args))
    } else if name == "host-input"@ {
        Some(op_host_input(env, args))
    } else if name == "type-evidence"@ {
        Some(op_type_evidence(args))
    } else if name == "type-id"@ {
        Some(op_type_id(args))
    } else if name == "value-type-id"@ {
        Some(op_value_type_id(args))
    } else if name == "value-type-evidence"@ {
        Some(op_value_type_evidence(args))
    } else if name == "pack"@ {
        Some(op_pack(args))
    } else if name == "packed-empty-record?"@ {
        Some(op_packed_empty(args))
    } else if name == "packed-record-has-only-key?"@ {
        Some(op_packed_only_key(args))
    } else if name == "packed-record-has-only-keys?"@ {
        Some(op_packed_only_keys(args))
    } else if name == "packed-field-conforms?"@ {
        Some(op_packed_field(env, args))
    } else if name == "descriptor-accepts?"@ {
        Some(op_accepts(name, true, args))
    } else if name == "descriptor-accepts-value?"@ {
        Some(op_accepts(name, false, args))
    } else if name == "descriptor-input-covered-by?"@ {
        Some(op_input_covered(args))
    } else if name == "descriptor-input-assignments"@ {
        Some(op_assignments(args))
    } else if name == "descriptor-output-covered-by?"@ {
        Some(op_output_covered(args))
    } else if name == "descriptor-table"@ {
        Some(op_table(args))
    } else {
        None
    }
}

fn run_evidence(env: &Env, name: &str, args: &Vec<Value>) -> (r: Option<Result<Value, MagError>>)
    ensures
        operation_result(r) == evidence_operation(env@, name@, values_view(args@)),
{
    proof {
        reveal(evidence_operation);
    }
    if same(name, "conforms?") {
        Some(run_conforms(env, args))
    } else if same(name, "host-input") {
        Some(run_host_input(env, args))
    } else if same(name, "type-evidence") {
        Some(run_type_evidence(args))
    } else if same(name, "type-id") {
        Some(run_type_id(args))
    } else if same(name, "value-type-id") {
        Some(run_value_type_id(args))
    } else if same(name, "value-type-evidence") {
        Some(run_value_type_evidence(args))
    } else if same(name, "pack") {
        Some(run_pack(args))
    } else if same(name, "packed-empty-record?") {
        Some(run_packed_empty(args))
    } else if same(name, "packed-record-has-only-key?") {
        Some(run_packed_only_key(args))
    } else if same(name, "packed-record-has-only-keys?") {
        Some(run_packed_only_keys(args))
    } else if same(name, "packed-field-conforms?") {
        Some(run_packed_field(env, args))
    } else if same(name, "descriptor-accepts?") {
        Some(run_accepts(name, true, args))
    } else if same(name, "descriptor-accepts-value?") {
        Some(run_accepts(name, false, args))
    } else if same(name, "descriptor-input-covered-by?") {
        Some(run_input_covered(args))
    } else if same(name, "descriptor-input-assignments") {
        Some(run_assignments(args))
    } else if same(name, "descriptor-output-covered-by?") {
        Some(run_output_covered(args))
    } else if same(name, "descriptor-table") {
        Some(run_table(args))
    } else {
        None
    }
}

/// What a builtin function returns that needs neither callbacks nor files.
#[verifier::opaque]
pub open spec fn operation(env: SEnv, name: Seq<char>, args: Seq<SValue>) -> Result<
    SValue,
    SError,
> {
    match data_operation(name, args) {
        Some(r) => r,
        None => match evidence_operation(env, name, args) {
            Some(r) => r,
            None => if name == "require"@ {
                eval_error("require is a special form"@)
            } else {
                eval_error("unknown builtin "@ + name)
            },
        },
    }
}

pub fn run_operation(env: &Env, name: &str, args: &Vec<Value>) -> (r: Result<Value, MagError>)
    ensures
        value_result(r) == operation(env@, name@, values_view(args@)),
{
    proof {
        reveal(operation);
    }
    match run_data(env, name, args) {
        Some(r) => r,
        None => match run_evidence(env, name, args) {
            Some(r) => r,
            None => if same(name, "require") {
                Err(MagError::Eval("require is a special form".to_owned()))
            } else {
                Err(MagError::Eval(cat2("unknown builtin ", name)))
            },
        },
    }
}

} // verus!
