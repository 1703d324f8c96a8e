//! Runtime values as such: what is under their type annotations, their texts, and their equality.

use vstd::prelude::*;

use crate::ast::{
    value_entries_view, value_fields_view, values_view, Float, FnValue, SFloat, SValue, TypeDecl,
    TypeDeclBody, Value,
};
use crate::concrete::open_type;
use crate::env::keyed;
use crate::json::{equal_json, json_equal};
use crate::text::{cat2, cat3, decimal_int, quoted, quoted_text, same, show_i64, strings};
use crate::types::type_text;

verus! {

broadcast use vstd::seq_lib::group_seq_properties;

/// The value under any number of type annotations.
pub open spec fn bare(value: SValue) -> SValue
    decreases value,
{
    match value {
        SValue::Typed(inner, _) => bare(*inner),
        _ => value,
    }
}

pub fn raw(value: &Value) -> (r: &Value)
    ensures
        r@ == bare(value@),
        !(r is Typed),
    decreases value,
{
    match value {
        Value::Typed(inner, _) => raw(inner),
        _ => value,
    }
}

/// Whether a condition holds of a value.
pub open spec fn is_true(value: SValue) -> bool {
    bare(value) != SValue::Unit && bare(value) != SValue::Bool(false)
}

pub fn truthy(value: &Value) -> (r: bool)
    ensures
        r == is_true(value@),
{
    match raw(value) {
        Value::Unit => false,
        Value::Bool(b) => *b,
        _ => true,
    }
}

/// How a value reads as text.
#[verifier::opaque]
pub open spec fn value_text(value: SValue) -> Seq<char> {
    match bare(value) {
        SValue::Unit => "()"@,
        SValue::Str(s) => s,
        SValue::Symbol(s) => s,
        SValue::Keyword(s) => ":"@ + s,
        SValue::Int(n) => decimal_int(n as int),
        SValue::Float(f) => f.text,
        SValue::Bool(b) => if b {
            "true"@
        } else {
            "false"@
        },
        SValue::Type(t) => type_text(t),
        SValue::TypeDecl(d) => d.name,
        SValue::TypeTag(t) => type_text(open_type(t)),
        v => "<"@ + quoted_text(crate::ast::kind_name(v)) + ">"@,
    }
}

pub fn value_string(value: &Value) -> (r: String)
    ensures
        r@ == value_text(value@),
{
    proof {
        reveal(value_text);
    }
    let bare_value = raw(value);
    match bare_value {
        Value::Unit => "()".to_owned(),
        Value::Str(s) => s.clone(),
        Value::Symbol(s) => s.clone(),
        Value::Keyword(s) => cat2(":", s),
        Value::Int(n) => show_i64(*n),
        Value::Float(f) => f.text.clone(),
        Value::Bool(b) => if *b {
            "true".to_owned()
        } else {
            "false".to_owned()
        },
        Value::Type(t) => t.show(),
        Value::TypeDecl(d) => d.name.clone(),
        Value::TypeTag(t) => t.to_mag_type().show(),
        _ => cat3("<", &quoted(bare_value.kind_text()), ">"),
    }
}

/// Whether the bits of a number say that it is none, or infinite.
pub open spec fn finite_bits(bits: u64) -> bool {
    (bits / 0x10_0000_0000_0000) % 2048 != 2047
}

pub open spec fn nan_bits(bits: u64) -> bool {
    !finite_bits(bits) && bits % 0x10_0000_0000_0000 != 0
}

pub open spec fn zero_bits(bits: u64) -> bool {
    bits % 0x8000_0000_0000_0000 == 0
}

/// Equality of floating-point numbers: what is no number equals nothing, and the two zeros are
/// equal.
pub open spec fn float_equal(a: SFloat, b: SFloat) -> bool {
    !nan_bits(a.bits) && !nan_bits(b.bits) && (a.bits == b.bits || (zero_bits(a.bits) && zero_bits(
        b.bits,
    )))
}

pub fn is_finite(f: &Float) -> (r: bool)
    ensures
        r == finite_bits(f@.bits),
{
    (f.bits / 0x10_0000_0000_0000) % 2048 != 2047
}

pub fn equal_floats(a: &Float, b: &Float) -> (r: bool)
    ensures
        r == float_equal(a@, b@),
{
    let a_nan = !is_finite(a) && a.bits % 0x10_0000_0000_0000 != 0;
    let b_nan = !is_finite(b) && b.bits % 0x10_0000_0000_0000 != 0;
    !a_nan && !b_nan && (a.bits == b.bits || (a.bits % 0x8000_0000_0000_0000 == 0 && b.bits
        % 0x8000_0000_0000_0000 == 0))
}

/// Equality of values, whatever their type annotations: functions are equal where they are the
/// same function, and maps and sets where each has what the other has.
pub open spec fn values_equal(a: SValue, b: SValue) -> bool
    decreases a, 2nat, b,
{
    match a {
        SValue::Typed(x, _) => values_equal(*x, b),
        _ => match b {
            SValue::Typed(y, _) => values_equal(a, *y),
            _ => bare_equal(a, b),
        },
    }
}

pub open spec fn bare_equal(a: SValue, b: SValue) -> bool
    decreases a, 1nat, b,
{
    match (a, b) {
        (SValue::Unit, SValue::Unit) => true,
        (SValue::Str(x), SValue::Str(y)) => x == y,
        (SValue::Int(x), SValue::Int(y)) => x == y,
        (SValue::Float(x), SValue::Float(y)) => float_equal(x, y),
        (SValue::Bool(x), SValue::Bool(y)) => x == y,
        (SValue::Keyword(x), SValue::Keyword(y)) => x == y,
        (SValue::Symbol(x), SValue::Symbol(y)) => x == y,
        (SValue::BuiltinFn(x), SValue::BuiltinFn(y)) => x == y,
        (SValue::Fn(x), SValue::Fn(y)) => x.identity == y.identity,
        (SValue::List(x), SValue::List(y)) => all_equal(x, y),
        (SValue::Product(x), SValue::Product(y)) => all_equal(x, y),
        (SValue::Record(x), SValue::Record(y)) => x.len() == y.len() && fields_equal(x, y),
        (SValue::MapOf(x), SValue::MapOf(y)) => x.len() == y.len() && entries_equal(x, y),
        (SValue::SetOf(x), SValue::SetOf(y)) => x.len() == y.len() && members_equal(x, y),
        (SValue::Type(x), SValue::Type(y)) => x == y,
        (SValue::TypeTag(x), SValue::TypeTag(y)) => x == y,
        (SValue::TypeDecl(x), SValue::TypeDecl(y)) => x == y,
        (SValue::TypeDescriptor(x), SValue::TypeDescriptor(y)) => x == y,
        (SValue::TypeSchema(x), SValue::TypeSchema(y)) => json_equal(x, y),
        (SValue::SemanticTypeId(x), SValue::SemanticTypeId(y)) => x == y,
        (SValue::PackedValue(x), SValue::PackedValue(y)) => values_equal(*x, *y),
        (SValue::JsonValue(x), SValue::JsonValue(y)) => json_equal(x, y),
        (SValue::HostInputs(x), SValue::HostInputs(y)) => json_equal(x, y),
        (SValue::Artifact(x), SValue::Artifact(y)) => json_equal(x, y),
        (SValue::Adt(_, c, x), SValue::Adt(_, d, y)) => c == d && values_equal(*x, *y),
        _ => false,
    }
}

/// The same values in the same order.
pub open spec fn all_equal(xs: Seq<SValue>, ys: Seq<SValue>) -> bool
    decreases xs, 0nat, ys,
{
    if xs.len() == 0 || ys.len() == 0 {
        xs.len() == ys.len()
    } else {
        values_equal(xs[0], ys[0]) && all_equal(xs.drop_first(), ys.drop_first())
    }
}

/// Each field equals the one of the same name.
pub open spec fn fields_equal(xs: Seq<(Seq<char>, SValue)>, ys: Seq<(Seq<char>, SValue)>) -> bool
    decreases xs, 0nat, ys,
{
    if xs.len() == 0 {
        true
    } else {
        match keyed(ys, xs[0].0, 0) {
            Some(y) => values_equal(xs[0].1, y) && fields_equal(xs.drop_first(), ys),
            None => false,
        }
    }
}

/// Each entry equals some entry.
pub open spec fn entries_equal(xs: Seq<(SValue, SValue)>, ys: Seq<(SValue, SValue)>) -> bool
    decreases xs, 0nat, ys,
{
    if xs.len() == 0 {
        true
    } else {
        entry_among(xs[0], ys) && entries_equal(xs.drop_first(), ys)
    }
}

pub open spec fn entry_among(x: (SValue, SValue), ys: Seq<(SValue, SValue)>) -> bool
    decreases x, 0nat, ys,
{
    if ys.len() == 0 {
        false
    } else {
        (values_equal(x.0, ys[0].0) && values_equal(x.1, ys[0].1)) || entry_among(
            x,
            ys.drop_first(),
        )
    }
}

/// Each member equals some member.
pub open spec fn members_equal(xs: Seq<SValue>, ys: Seq<SValue>) -> bool
    decreases xs, 0nat, ys,
{
    if xs.len() == 0 {
        true
    } else {
        value_among(xs[0], ys) && members_equal(xs.drop_first(), ys)
    }
}

pub open spec fn value_among(x: SValue, ys: Seq<SValue>) -> bool
    decreases x, 3nat, ys,
{
    if ys.len() == 0 {
        false
    } else {
        values_equal(x, ys[0]) || value_among(x, ys.drop_first())
    }
}

pub(crate) fn same_decl(a: &TypeDecl, b: &TypeDecl) -> (r: bool)
    ensures
        r == (a@ == b@),
{
    if !same(&a.name, &b.name) || !crate::text::same_names(&a.params, &b.params) {
        return false;
    }
    match (&a.body, &b.body) {
        (TypeDeclBody::Nominal(x), TypeDeclBody::Nominal(y)) => x.equals(y),
        (TypeDeclBody::Native, TypeDeclBody::Native) => true,
        (TypeDeclBody::Adt(x), TypeDeclBody::Adt(y)) => {
            let ghost xs = crate::ast::decl_constructors(x@);
            let ghost ys = crate::ast::decl_constructors(y@);
            if x.len() != y.len() {
                assert(xs.len() != ys.len());
                return false;
            }
            let mut i: usize = 0;
            while i < x.len()
                invariant
                    i <= x.len(),
                    x@.len() == y@.len(),
                    xs == crate::ast::decl_constructors(x@),
                    ys == crate::ast::decl_constructors(y@),
                    a.body@ == crate::ast::SDeclBody::Adt(xs),
                    b.body@ == crate::ast::SDeclBody::Adt(ys),
                    forall|j: int| 0 <= j < i ==> #[trigger] xs[j] == ys[j],
                decreases x.len() - i,
            {
                if !x[i].id.equals(&y[i].id) || !x[i].payload.equals(&y[i].payload) {
                    assert(xs[i as int] != ys[i as int]);
                    return false;
                }
                assert(xs[i as int] == ys[i as int]);
                i = i + 1;
            }
            assert(xs =~= ys);
            true
        },
        _ => false,
    }
}

pub fn equal(a: &Value, b: &Value) -> (r: bool)
    ensures
        r == values_equal(a@, b@),
    decreases a, 2nat, b,
{
    match a {
        Value::Typed(x, _) => equal(x, b),
        _ => match b {
            Value::Typed(y, _) => equal(a, y),
            _ => equal_bare(a, b),
        },
    }
}

fn equal_bare(a: &Value, b: &Value) -> (r: bool)
    requires
        !(a is Typed),
        !(b is Typed),
    ensures
        r == bare_equal(a@, b@),
    decreases a, 1nat, b,
{
    match (a, b) {
        (Value::Unit, Value::Unit) => true,
        (Value::Str(x), Value::Str(y)) => same(x, y),
        (Value::Int(x), Value::Int(y)) => *x == *y,
        (Value::Float(x), Value::Float(y)) => equal_floats(x, y),
        (Value::Bool(x), Value::Bool(y)) => *x == *y,
        (Value::Keyword(x), Value::Keyword(y)) => same(x, y),
        (Value::Symbol(x), Value::Symbol(y)) => same(x, y),
        (Value::BuiltinFn(x), Value::BuiltinFn(y)) => same(x, y),
        (Value::Fn(x), Value::Fn(y)) => x.identity == y.identity,
        (Value::List(x), Value::List(y)) => equal_all(x, y),
        (Value::Product(x), Value::Product(y)) => equal_all(x, y),
        (Value::Record(x), Value::Record(y)) => {
            assert(value_fields_view((**x)@).len() == (**x)@.len());
            assert(value_fields_view((**y)@).len() == (**y)@.len());
            x.len() == y.len() && equal_fields(x, y)
        },
        (Value::MapOf(x), Value::MapOf(y)) => {
            assert(value_entries_view((**x)@).len() == (**x)@.len());
            assert(value_entries_view((**y)@).len() == (**y)@.len());
            x.len() == y.len() && equal_entries(x, y)
        },
        (Value::SetOf(x), Value::SetOf(y)) => {
            assert(values_view((**x)@).len() == (**x)@.len());
            assert(values_view((**y)@).len() == (**y)@.len());
            x.len() == y.len() && equal_members(x, y)
        },
        (Value::Type(x), Value::Type(y)) => x.equals(y),
        (Value::TypeTag(x), Value::TypeTag(y)) => x.equals(y),
        (Value::TypeDecl(x), Value::TypeDecl(y)) => same_decl(x, y),
        (Value::TypeDescriptor(x), Value::TypeDescriptor(y)) => x.equals(y),
        (Value::TypeSchema(x), Value::TypeSchema(y)) => equal_json(x, y),
        (Value::SemanticTypeId(x), Value::SemanticTypeId(y)) => same(x, y),
        (Value::PackedValue(x), Value::PackedValue(y)) => equal(x, y),
        (Value::JsonValue(x), Value::JsonValue(y)) => equal_json(x, y),
        (Value::HostInputs(x), Value::HostInputs(y)) => equal_json(x, y),
        (Value::Artifact(x), Value::Artifact(y)) => equal_json(x, y),
        (
            Value::Adt { constructor: c, payload: x, .. },
            Value::Adt { constructor: d, payload: y, .. },
        ) => c.equals(d) && equal(x, y),
        _ => false,
    }
}

fn equal_all(xs: &Vec<Value>, ys: &Vec<Value>) -> (r: bool)
    ensures
        r == all_equal(values_view(xs@), values_view(ys@)),
    decreases xs, 0nat, ys,
{
    let ghost a = values_view(xs@);
    let ghost b = values_view(ys@);
    let mut i: usize = 0;
    proof {
        assert(a.skip(0) =~= a);
        assert(b.skip(0) =~= b);
        assert(a.len() == xs@.len() && b.len() == ys@.len());
    }
    while i < xs.len() && i < ys.len()
        invariant
            i <= xs.len(),
            i <= ys.len(),
            a == values_view(xs@),
            b == values_view(ys@),
            a.len() == xs@.len(),
            b.len() == ys@.len(),
            all_equal(a, b) == all_equal(a.skip(i as int), b.skip(i as int)),
        decreases xs.len() - i,
    {
        proof {
            assert(a.skip(i as int)[0] == xs@[i as int]@);
            assert(b.skip(i as int)[0] == ys@[i as int]@);
            assert(a.skip(i as int).drop_first() =~= a.skip(i + 1));
            assert(b.skip(i as int).drop_first() =~= b.skip(i + 1));
        }
        if !equal(&xs[i], &ys[i]) {
            return false;
        }
        i = i + 1;
    }
    xs.len() == ys.len()
}

pub fn field_value<'a>(fields: &'a Vec<(String, Value)>, name: &str) -> (r: Option<&'a Value>)
    ensures
        match r {
            Some(v) => keyed(value_fields_view(fields@), name@, 0) == Some(v@),
            None => keyed(value_fields_view(fields@), name@, 0) is None,
        },
{
    let ghost all = value_fields_view(fields@);
    let mut i: usize = 0;
    assert(all.len() == fields@.len());
    while i < fields.len()
        invariant
            i <= fields.len(),
            all == value_fields_view(fields@),
            all.len() == fields@.len(),
            keyed(all, name@, 0) == keyed(all, name@, i as nat),
        decreases fields.len() - i,
    {
        assert(all[i as int] == (fields@[i as int].0@, fields@[i as int].1@));
        if same(&fields[i].0, name) {
            return Some(&fields[i].1);
        }
        i = i + 1;
    }
    None
}

fn equal_fields(xs: &Vec<(String, Value)>, ys: &Vec<(String, Value)>) -> (r: bool)
    ensures
        r == fields_equal(value_fields_view(xs@), value_fields_view(ys@)),
    decreases xs, 0nat, ys,
{
    let ghost a = value_fields_view(xs@);
    let ghost b = value_fields_view(ys@);
    let mut i: usize = 0;
    proof {
        assert(a.skip(0) =~= a);
        assert(a.len() == xs@.len());
    }
    while i < xs.len()
        invariant
            i <= xs.len(),
            a == value_fields_view(xs@),
            b == value_fields_view(ys@),
            a.len() == xs@.len(),
            fields_equal(a, b) == fields_equal(a.skip(i as int), b),
        decreases xs.len() - i,
    {
        proof {
            assert(a.skip(i as int)[0] == (xs@[i as int].0@, xs@[i as int].1@));
            assert(a.skip(i as int).drop_first() =~= a.skip(i + 1));
        }
        match field_value(ys, &xs[i].0) {
            Some(y) => {
                if !equal(&xs[i].1, y) {
                    return false;
                }
            },
            None => {
                return false;
            },
        }
        i = i + 1;
    }
    true
}

fn find_entry(x: &(Value, Value), ys: &Vec<(Value, Value)>) -> (r: bool)
    ensures
        r == entry_among((x.0@, x.1@), value_entries_view(ys@)),
    decreases x, 0nat, ys,
{
    let ghost b = value_entries_view(ys@);
    let ghost e = (x.0@, x.1@);
    let mut i: usize = 0;
    proof {
        assert(b.skip(0) =~= b);
        assert(b.len() == ys@.len());
    }
    while i < ys.len()
        invariant
            i <= ys.len(),
            b == value_entries_view(ys@),
            b.len() == ys@.len(),
            e == (x.0@, x.1@),
            entry_among(e, b) == entry_among(e, b.skip(i as int)),
        decreases ys.len() - i,
    {
        proof {
            assert(b.skip(i as int)[0] == (ys@[i as int].0@, ys@[i as int].1@));
            assert(b.skip(i as int).drop_first() =~= b.skip(i + 1));
        }
        if equal(&x.0, &ys[i].0) && equal(&x.1, &ys[i].1) {
            return true;
        }
        i = i + 1;
    }
    false
}

fn equal_entries(xs: &Vec<(Value, Value)>, ys: &Vec<(Value, Value)>) -> (r: bool)
    ensures
        r == entries_equal(value_entries_view(xs@), value_entries_view(ys@)),
    decreases xs, 0nat, ys,
{
    let ghost a = value_entries_view(xs@);
    let ghost b = value_entries_view(ys@);
    let mut i: usize = 0;
    proof {
        assert(a.skip(0) =~= a);
        assert(a.len() == xs@.len());
    }
    while i < xs.len()
        invariant
            i <= xs.len(),
            a == value_entries_view(xs@),
            b == value_entries_view(ys@),
            a.len() == xs@.len(),
            entries_equal(a, b) == entries_equal(a.skip(i as int), b),
        decreases xs.len() - i,
    {
        proof {
            assert(a.skip(i as int)[0] == (xs@[i as int].0@, xs@[i as int].1@));
            assert(a.skip(i as int).drop_first() =~= a.skip(i + 1));
        }
        if !find_entry(&xs[i], ys) {
            return false;
        }
        i = i + 1;
    }
    true
}

/// Whether a value is among some values.
pub fn contains_value(x: &Value, ys: &Vec<Value>) -> (r: bool)
    ensures
        r == value_among(x@, values_view(ys@)),
    decreases x, 3nat, ys,
{
    let ghost b = values_view(ys@);
    let mut i: usize = 0;
    proof {
        assert(b.skip(0) =~= b);
        assert(b.len() == ys@.len());
    }
    while i < ys.len()
        invariant
            i <= ys.len(),
            b == values_view(ys@),
            b.len() == ys@.len(),
            value_among(x@, b) == value_among(x@, b.skip(i as int)),
        decreases ys.len() - i,
    {
        proof {
            assert(b.skip(i as int)[0] == ys@[i as int]@);
            assert(b.skip(i as int).drop_first() =~= b.skip(i + 1));
        }
        if equal(x, &ys[i]) {
            return true;
        }
        i = i + 1;
    }
    false
}

fn equal_members(xs: &Vec<Value>, ys: &Vec<Value>) -> (r: bool)
    ensures
        r == members_equal(values_view(xs@), values_view(ys@)),
    decreases xs, 0nat, ys,
{
    let ghost a = values_view(xs@);
    let ghost b = values_view(ys@);
    let mut i: usize = 0;
    proof {
        assert(a.skip(0) =~= a);
        assert(a.len() == xs@.len());
    }
    while i < xs.len()
        invariant
            i <= xs.len(),
            a == values_view(xs@),
            b == values_view(ys@),
            a.len() == xs@.len(),
            members_equal(a, b) == members_equal(a.skip(i as int), b),
        decreases xs.len() - i,
    {
        proof {
            assert(a.skip(i as int)[0] == xs@[i as int]@);
            assert(a.skip(i as int).drop_first() =~= a.skip(i + 1));
        }
        if !contains_value(&xs[i], ys) {
            return false;
        }
        i = i + 1;
    }
    true
}

} // verus!
