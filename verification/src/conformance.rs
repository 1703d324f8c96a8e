//! Whether runtime values are of a type, and values that carry the type they were found to have.

use std::sync::Arc;
use vstd::prelude::*;

use crate::ast::{
    decl_constructors, kind_name, value_entries_view, value_fields_view, values_view,
    ConstructorDeclarationId, SConstructor, SConstructorId, SDeclBody, SValue, TypeDeclBody, Value,
};
use crate::codec::{value_fields_result, values_result};
use crate::compatible::field_named;
use crate::concrete::{ConcreteType, SConcrete};
use crate::env::{keyed, value_result, Env, SEnv};
use crate::error::{MagError, SError};
use crate::resolve::{closed_type, expansion_limit, type_error, unfolding_limit};
use crate::structure::structure_text;
use crate::substitution::{apply, bind_params, bound_params, substitute};
use crate::text::{cat2, cat3, cat4, cat5, cat6, decimal, join, joined, same, show_usize, strings};
use crate::type_rules::{opt_mag, unit_result};
use crate::types::{clone_fields, fields_view, type_text, types_view, MagType, SType};
use crate::value_types::{type_of, value_type};
use crate::values::{bare, field_value, raw};

verus! {

broadcast use vstd::seq_lib::group_seq_properties;

/// A type in which the variables that stand for types in scope have been put.
pub open spec fn realized(env: SEnv, t: SType) -> SType
    decreases t,
{
    match t {
        SType::Var(name) => match env.lookup(name) {
            Ok(SValue::Type(found)) => found,
            _ => t,
        },
        SType::Named(name, args) => SType::Named(name, realized_all(env, args)),
        SType::TypeTag(inner) => SType::TypeTag(Box::new(realized(env, *inner))),
        SType::List(inner) => SType::List(Box::new(realized(env, *inner))),
        SType::SetOf(inner) => SType::SetOf(Box::new(realized(env, *inner))),
        SType::MapOf(key, value) => SType::MapOf(
            Box::new(realized(env, *key)),
            Box::new(realized(env, *value)),
        ),
        SType::Record(fields) => SType::Record(realized_fields(env, fields)),
        SType::Product(items) => SType::Product(realized_all(env, items)),
        SType::Function(params, result) => SType::Function(
            realized_all(env, params),
            Box::new(realized(env, *result)),
        ),
        _ => t,
    }
}

pub open spec fn realized_all(env: SEnv, items: Seq<SType>) -> Seq<SType>
    decreases items,
{
    Seq::new(
        items.len(),
        |i: int|
            if 0 <= i < items.len() {
                realized(env, items[i])
            } else {
                arbitrary()
            },
    )
}

pub open spec fn realized_fields(env: SEnv, items: Seq<(Seq<char>, SType)>) -> Seq<
    (Seq<char>, SType),
>
    decreases items,
{
    Seq::new(
        items.len(),
        |i: int|
            if 0 <= i < items.len() {
                (items[i].0, realized(env, items[i].1))
            } else {
                arbitrary()
            },
    )
}

pub fn runtime_type(env: &Env, ty: &MagType) -> (r: MagType)
    ensures
        r@ == realized(env@, ty@),
    decreases ty,
{
    match ty {
        MagType::Var(name) => match env.lookup(name) {
            Ok(Value::Type(found)) => found,
            _ => ty.clone(),
        },
        MagType::Named(name, args) => {
            let made = runtime_types(env, args);
            let r = MagType::Named(name.clone(), made);
            assert(r@ == SType::Named(name@, types_view(made@)));
            r
        },
        MagType::TypeTag(inner) => MagType::TypeTag(Box::new(runtime_type(env, inner))),
        MagType::List(inner) => MagType::List(Box::new(runtime_type(env, inner))),
        MagType::SetOf(inner) => MagType::SetOf(Box::new(runtime_type(env, inner))),
        MagType::MapOf(key, value) => MagType::MapOf(
            Box::new(runtime_type(env, key)),
            Box::new(runtime_type(env, value)),
        ),
        MagType::Record(fields) => {
            let made = runtime_fields(env, fields);
            let r = MagType::Record(made);
            assert(r@ == SType::Record(fields_view(made@)));
            r
        },
        MagType::Product(items) => {
            let made = runtime_types(env, items);
            let r = MagType::Product(made);
            assert(r@ == SType::Product(types_view(made@)));
            r
        },
        MagType::Function(params, result) => {
            let made = runtime_types(env, params);
            let out = runtime_type(env, result);
            let r = MagType::Function(made, Box::new(out));
            assert(r@ == SType::Function(types_view(made@), Box::new(out@)));
            r
        },
        _ => ty.clone(),
    }
}

fn runtime_types(env: &Env, items: &Vec<MagType>) -> (r: Vec<MagType>)
    ensures
        types_view(r@) == realized_all(env@, types_view(items@)),
    decreases items,
{
    let ghost all = types_view(items@);
    let mut r: Vec<MagType> = Vec::new();
    let mut i: usize = 0;
    assert(all.len() == items@.len());
    while i < items.len()
        invariant
            i <= items.len(),
            r.len() == i,
            all == types_view(items@),
            all.len() == items@.len(),
            forall|j: int| 0 <= j < i ==> (#[trigger] r@[j])@ == realized(env@, all[j]),
        decreases items.len() - i,
    {
        assert(all[i as int] == items@[i as int]@);
        r.push(runtime_type(env, &items[i]));
        i = i + 1;
    }
    assert(types_view(r@) =~= realized_all(env@, all));
    r
}

fn runtime_fields(env: &Env, items: &Vec<(String, MagType)>) -> (r: Vec<(String, MagType)>)
    ensures
        fields_view(r@) == realized_fields(env@, fields_view(items@)),
    decreases items,
{
    let ghost all = fields_view(items@);
    let mut r: Vec<(String, MagType)> = Vec::new();
    let mut i: usize = 0;
    assert(all.len() == items@.len());
    while i < items.len()
        invariant
            i <= items.len(),
            r.len() == i,
            all == fields_view(items@),
            all.len() == items@.len(),
            forall|j: int|
                0 <= j < i ==> (#[trigger] r@[j]).0@ == all[j].0 && r@[j].1@ == realized(
                    env@,
                    all[j].1,
                ),
        decreases items.len() - i,
    {
        assert(all[i as int] == (items@[i as int].0@, items@[i as int].1@));
        r.push((items[i].0.clone(), runtime_type(env, &items[i].1)));
        i = i + 1;
    }
    assert(fields_view(r@) =~= realized_fields(env@, all));
    r
}

/// Whether the annotation of a value vouches for a type: it is that type, or a closed type that
/// the other accepts.
#[verifier::opaque]
pub open spec fn vouches(env: SEnv, evidence: SType, ty: SType) -> bool {
    evidence == ty || match (closed_type(env, ty), closed_type(env, evidence)) {
        (Ok(expected), Ok(actual)) => expected == actual,
        _ => false,
    }
}

fn evidence_vouches(env: &Env, evidence: &MagType, ty: &MagType) -> (r: bool)
    ensures
        r == vouches(env@, evidence@, ty@),
{
    proof {
        reveal(vouches);
    }
    if evidence.equals(ty) {
        return true;
    }
    match (ConcreteType::resolve(env, ty), ConcreteType::resolve(env, evidence)) {
        (Ok(expected), Ok(actual)) => expected.accepts(&actual),
        _ => false,
    }
}

/// Where the constructor of an identity stands among constructors.
pub open spec fn constructor_at(items: Seq<SConstructor>, id: SConstructorId, i: nat) -> Option<
    SConstructor,
>
    decreases items.len() - i,
{
    if i >= items.len() {
        None
    } else if items[i as int].id == id {
        Some(items[i as int])
    } else {
        constructor_at(items, id, i + 1)
    }
}

fn find_constructor_id(
    items: &Vec<crate::ast::ConstructorDecl>,
    id: &ConstructorDeclarationId,
) -> (r: Option<usize>)
    ensures
        match r {
            Some(i) => i < items@.len() && constructor_at(decl_constructors(items@), id@, 0)
                == Some(items@[i as int]@),
            None => constructor_at(decl_constructors(items@), id@, 0) is None,
        },
{
    let ghost all = decl_constructors(items@);
    let mut i: usize = 0;
    while i < items.len()
        invariant
            i <= items.len(),
            all == decl_constructors(items@),
            constructor_at(all, id@, 0) == constructor_at(all, id@, i as nat),
        decreases items.len() - i,
    {
        assert(all[i as int] == items@[i as int]@);
        if items[i].id.equals(id) {
            return Some(i);
        }
        i = i + 1;
    }
    None
}

/// Whether a value is of a type.
pub open spec fn conforms(env: SEnv, v: SValue, ty: SType, fuel: nat) -> bool
    decreases v, fuel, 2nat,
{
    match v {
        SValue::Typed(inner, evidence) => vouches(env, evidence, ty) || bare_conforms(
            env,
            *inner,
            ty,
            fuel,
        ),
        _ => bare_conforms(env, v, ty, fuel),
    }
}

/// The same whatever the annotations of the value.
pub open spec fn bare_conforms(env: SEnv, v: SValue, ty: SType, fuel: nat) -> bool
    decreases v, fuel, 1nat,
{
    match v {
        SValue::Typed(inner, _) => bare_conforms(env, *inner, ty, fuel),
        _ => match ty {
            SType::Artifact => v is Artifact,
            SType::JsonValue => v is JsonValue,
            SType::TypeDescriptor => v is TypeDescriptor,
            SType::TypeSchema => v is TypeSchema,
            SType::SemanticTypeId => v is SemanticTypeId,
            SType::PackedValue => v is PackedValue,
            SType::HostInputs => v is HostInputs,
            SType::Never => false,
            SType::Unit => v is Unit,
            SType::Bool => v is Bool,
            SType::Int => v is Int,
            SType::Float => v is Float,
            SType::String => v is Str,
            SType::List(item) => match v {
                SValue::List(items) => all_conform(env, items, *item),
                _ => false,
            },
            SType::SetOf(item) => match v {
                SValue::SetOf(items) => all_conform(env, items, *item),
                _ => false,
            },
            SType::EmptyList => match v {
                SValue::List(items) => items.len() == 0,
                _ => false,
            },
            SType::MapOf(_, item) => match v {
                SValue::MapOf(entries) => entries_conform(env, entries, *item),
                _ => false,
            },
            SType::Record(types) => match v {
                SValue::Record(fields) => fields.len() == types.len() && fields_conform(
                    env,
                    fields,
                    types,
                ),
                _ => false,
            },
            SType::Named(name, args) => match env.decl(name) {
                None => false,
                Some(decl) => {
                    let bound = bound_params(decl.params, args);
                    match decl.body {
                        SDeclBody::Nominal(body) => fuel > 0 && bare_conforms(
                            env,
                            v,
                            apply(body, bound),
                            (fuel - 1) as nat,
                        ),
                        SDeclBody::Adt(constructors) => match v {
                            SValue::Adt(_, id, payload) => match constructor_at(
                                constructors,
                                id,
                                0,
                            ) {
                                Some(c) => conforms(
                                    env,
                                    *payload,
                                    apply(c.payload, bound),
                                    expansion_limit(env),
                                ),
                                None => false,
                            },
                            _ => false,
                        },
                        SDeclBody::Native => false,
                    }
                },
            },
            SType::TypeTag(expected) => match v {
                SValue::TypeTag(actual) => closed_type(env, *expected) == Ok::<SConcrete, SError>(
                    actual,
                ),
                _ => false,
            },
            SType::Product(types) => match v {
                SValue::List(items) => items.len() == types.len() && positions_conform(
                    env,
                    items,
                    types,
                ),
                SValue::Product(items) => items.len() == types.len() && positions_conform(
                    env,
                    items,
                    types,
                ),
                _ => false,
            },
            SType::Function(_, _) => v is Fn,
            SType::Var(_) => true,
        },
    }
}

pub open spec fn all_conform(env: SEnv, items: Seq<SValue>, ty: SType) -> bool
    decreases items, 0nat, 0nat,
{
    if items.len() == 0 {
        true
    } else {
        conforms(env, items[0], ty, expansion_limit(env)) && all_conform(
            env,
            items.drop_first(),
            ty,
        )
    }
}

pub open spec fn entries_conform(env: SEnv, items: Seq<(SValue, SValue)>, ty: SType) -> bool
    decreases items, 0nat, 0nat,
{
    if items.len() == 0 {
        true
    } else {
        conforms(env, items[0].1, ty, expansion_limit(env)) && entries_conform(
            env,
            items.drop_first(),
            ty,
        )
    }
}

pub open spec fn positions_conform(env: SEnv, items: Seq<SValue>, types: Seq<SType>) -> bool
    decreases items, 0nat, 0nat,
{
    if items.len() == 0 || types.len() == 0 {
        true
    } else {
        conforms(env, items[0], types[0], expansion_limit(env)) && positions_conform(
            env,
            items.drop_first(),
            types.drop_first(),
        )
    }
}

/// Each field of the types stands among the fields and is of its type, in the order of the fields.
pub open spec fn fields_conform(
    env: SEnv,
    fields: Seq<(Seq<char>, SValue)>,
    types: Seq<(Seq<char>, SType)>,
) -> bool
    decreases fields, 0nat, 0nat,
{
    if fields.len() == 0 {
        true
    } else {
        match keyed(types, fields[0].0, 0) {
            Some(ty) => conforms(env, fields[0].1, ty, expansion_limit(env)) && fields_conform(
                env,
                fields.drop_first(),
                types,
            ),
            None => false,
        }
    }
}

fn does_conform(env: &Env, v: &Value, ty: &MagType, fuel: u64) -> (r: bool)
    ensures
        r == conforms(env@, v@, ty@, fuel as nat),
    decreases v, fuel, 2nat,
{
    match v {
        Value::Typed(inner, evidence) => evidence_vouches(env, evidence, ty) || bare_conform(
            env,
            inner,
            ty,
            fuel,
        ),
        _ => bare_conform(env, v, ty, fuel),
    }
}

fn bare_conform(env: &Env, v: &Value, ty: &MagType, fuel: u64) -> (r: bool)
    ensures
        r == bare_conforms(env@, v@, ty@, fuel as nat),
    decreases v, fuel, 1nat,
{
    match v {
        Value::Typed(inner, _) => {
            return bare_conform(env, inner, ty, fuel);
        },
        _ => {},
    }
    match ty {
        MagType::Artifact => matches!(v, Value::Artifact(_)),
        MagType::JsonValue => matches!(v, Value::JsonValue(_)),
        MagType::TypeDescriptor => matches!(v, Value::TypeDescriptor(_)),
        MagType::TypeSchema => matches!(v, Value::TypeSchema(_)),
        MagType::SemanticTypeId => matches!(v, Value::SemanticTypeId(_)),
        MagType::PackedValue => matches!(v, Value::PackedValue(_)),
        MagType::HostInputs => matches!(v, Value::HostInputs(_)),
        MagType::Never => false,
        MagType::Unit => matches!(v, Value::Unit),
        MagType::Bool => matches!(v, Value::Bool(_)),
        MagType::Int => matches!(v, Value::Int(_)),
        MagType::Float => matches!(v, Value::Float(_)),
        MagType::String => matches!(v, Value::Str(_)),
        MagType::List(item) => match v {
            Value::List(items) => conform_all(env, items, item),
            _ => false,
        },
        MagType::SetOf(item) => match v {
            Value::SetOf(items) => conform_all(env, items, item),
            _ => false,
        },
        MagType::EmptyList => match v {
            Value::List(items) => {
                assert(values_view((**items)@).len() == (**items)@.len());
                items.len() == 0
            },
            _ => false,
        },
        MagType::MapOf(_, item) => match v {
            Value::MapOf(entries) => conform_entries(env, entries, item),
            _ => false,
        },
        MagType::Record(types) => match v {
            Value::Record(fields) => {
                assert(ty@ == SType::Record(fields_view(types@)));
                assert(value_fields_view((**fields)@).len() == (**fields)@.len());
                assert(fields_view(types@).len() == types@.len());
                fields.len() == types.len() && conform_fields(env, fields, types)
            },
            _ => false,
        },
        MagType::Named(name, args) => {
            assert(ty@ == SType::Named(name@, types_view(args@)));
            match env.type_decl(name) {
                None => false,
                Some(decl) => {
                    let bound = bind_params(&decl.params, args);
                    match &decl.body {
                        TypeDeclBody::Nominal(body) => {
                            if fuel == 0 {
                                return false;
                            }
                            let inner = substitute(body, &bound);
                            bare_conform(env, v, &inner, fuel - 1)
                        },
                        TypeDeclBody::Adt(constructors) => match v {
                            Value::Adt { constructor, payload, .. } => match find_constructor_id(
                                constructors,
                                constructor,
                            ) {
                                Some(i) => {
                                    let inner = substitute(&constructors[i].payload, &bound);
                                    does_conform(env, payload, &inner, unfolding_limit(env))
                                },
                                None => false,
                            },
                            _ => false,
                        },
                        TypeDeclBody::Native => false,
                    }
                },
            }
        },
        MagType::TypeTag(expected) => match v {
            Value::TypeTag(actual) => match ConcreteType::resolve(env, expected) {
                Ok(t) => actual.equals(&t),
                Err(_) => false,
            },
            _ => false,
        },
        MagType::Product(types) => {
            assert(ty@ == SType::Product(types_view(types@)));
            assert(types_view(types@).len() == types@.len());
            match v {
                Value::List(items) => {
                    assert(values_view((**items)@).len() == (**items)@.len());
                    items.len() == types.len() && conform_positions(env, items, types)
                },
                Value::Product(items) => {
                    assert(values_view((**items)@).len() == (**items)@.len());
                    items.len() == types.len() && conform_positions(env, items, types)
                },
                _ => false,
            }
        },
        MagType::Function(_, _) => matches!(v, Value::Fn(_)),
        MagType::Var(_) => true,
    }
}

fn conform_all(env: &Env, items: &Vec<Value>, ty: &MagType) -> (r: bool)
    ensures
        r == all_conform(env@, values_view(items@), ty@),
    decreases items, 0nat, 0nat,
{
    let ghost all = values_view(items@);
    let mut i: usize = 0;
    proof {
        assert(all.len() == items@.len());
        assert(all.skip(0) =~= all);
    }
    while i < items.len()
        invariant
            i <= items.len(),
            all == values_view(items@),
            all.len() == items@.len(),
            all_conform(env@, all, ty@) == all_conform(env@, all.skip(i as int), ty@),
        decreases items.len() - i,
    {
        proof {
            assert(all.skip(i as int)[0] == items@[i as int]@);
            assert(all.skip(i as int).drop_first() =~= all.skip(i + 1));
        }
        if !does_conform(env, &items[i], ty, unfolding_limit(env)) {
            return false;
        }
        i = i + 1;
    }
    true
}

fn conform_entries(env: &Env, items: &Vec<(Value, Value)>, ty: &MagType) -> (r: bool)
    ensures
        r == entries_conform(env@, value_entries_view(items@), ty@),
    decreases items, 0nat, 0nat,
{
    let ghost all = value_entries_view(items@);
    let mut i: usize = 0;
    proof {
        assert(all.len() == items@.len());
        assert(all.skip(0) =~= all);
    }
    while i < items.len()
        invariant
            i <= items.len(),
            all == value_entries_view(items@),
            all.len() == items@.len(),
            entries_conform(env@, all, ty@) == entries_conform(env@, all.skip(i as int), ty@),
        decreases items.len() - i,
    {
        proof {
            assert(all.skip(i as int)[0] == (items@[i as int].0@, items@[i as int].1@));
            assert(all.skip(i as int).drop_first() =~= all.skip(i + 1));
        }
        if !does_conform(env, &items[i].1, ty, unfolding_limit(env)) {
            return false;
        }
        i = i + 1;
    }
    true
}

fn conform_positions(env: &Env, items: &Vec<Value>, types: &Vec<MagType>) -> (r: bool)
    requires
        items@.len() == types@.len(),
    ensures
        r == positions_conform(env@, values_view(items@), types_view(types@)),
    decreases items, 0nat, 0nat,
{
    let ghost all = values_view(items@);
    let ghost ts = types_view(types@);
    let mut i: usize = 0;
    proof {
        assert(all.len() == items@.len());
        assert(ts.len() == types@.len());
        assert(all.skip(0) =~= all);
        assert(ts.skip(0) =~= ts);
    }
    while i < items.len()
        invariant
            i <= items.len(),
            items@.len() == types@.len(),
            all == values_view(items@),
            ts == types_view(types@),
            all.len() == items@.len(),
            ts.len() == types@.len(),
            positions_conform(env@, all, ts) == positions_conform(
                env@,
                all.skip(i as int),
                ts.skip(i as int),
            ),
        decreases items.len() - i,
    {
        proof {
            assert(all.skip(i as int)[0] == items@[i as int]@);
            assert(ts.skip(i as int)[0] == types@[i as int]@);
            assert(all.skip(i as int).drop_first() =~= all.skip(i + 1));
            assert(ts.skip(i as int).drop_first() =~= ts.skip(i + 1));
        }
        if !does_conform(env, &items[i], &types[i], unfolding_limit(env)) {
            return false;
        }
        i = i + 1;
    }
    true
}

fn conform_fields(env: &Env, fields: &Vec<(String, Value)>, types: &Vec<(String, MagType)>) -> (r:
    bool)
    ensures
        r == fields_conform(env@, value_fields_view(fields@), fields_view(types@)),
    decreases fields, 0nat, 0nat,
{
    let ghost all = value_fields_view(fields@);
    let ghost ts = fields_view(types@);
    let mut i: usize = 0;
    proof {
        assert(all.len() == fields@.len());
        assert(all.skip(0) =~= all);
    }
    while i < fields.len()
        invariant
            i <= fields.len(),
            all == value_fields_view(fields@),
            ts == fields_view(types@),
            all.len() == fields@.len(),
            fields_conform(env@, all, ts) == fields_conform(env@, all.skip(i as int), ts),
        decreases fields.len() - i,
    {
        proof {
            assert(all.skip(i as int)[0] == (fields@[i as int].0@, fields@[i as int].1@));
            assert(all.skip(i as int).drop_first() =~= all.skip(i + 1));
        }
        match field_named(types, &fields[i].0) {
            Some(ty) => {
                if !does_conform(env, &fields[i].1, ty, unfolding_limit(env)) {
                    return false;
                }
            },
            None => {
                return false;
            },
        }
        i = i + 1;
    }
    true
}

/// The fields of a record type, under any number of nominal types.
pub open spec fn record_fields_of(env: SEnv, ty: SType, fuel: nat) -> Option<
    Seq<(Seq<char>, SType)>,
>
    decreases fuel,
{
    match ty {
        SType::Record(fields) => Some(fields),
        SType::Named(name, args) => match env.decl(name) {
            None => None,
            Some(decl) => match decl.body {
                SDeclBody::Nominal(body) => if fuel == 0 {
                    None
                } else {
                    record_fields_of(
                        env,
                        apply(body, bound_params(decl.params, args)),
                        (fuel - 1) as nat,
                    )
                },
                _ => None,
            },
        },
        _ => None,
    }
}

fn record_fields(env: &Env, ty: &MagType, fuel: u64) -> (r: Option<Vec<(String, MagType)>>)
    ensures
        match r {
            Some(f) => record_fields_of(env@, ty@, fuel as nat) == Some(fields_view(f@)),
            None => record_fields_of(env@, ty@, fuel as nat) is None,
        },
    decreases fuel,
{
    match ty {
        MagType::Record(fields) => {
            assert(ty@ == SType::Record(fields_view(fields@)));
            Some(clone_fields(fields))
        },
        MagType::Named(name, args) => {
            assert(ty@ == SType::Named(name@, types_view(args@)));
            match env.type_decl(name) {
                None => None,
                Some(decl) => match &decl.body {
                    TypeDeclBody::Nominal(body) => {
                        if fuel == 0 {
                            return None;
                        }
                        let bound = bind_params(&decl.params, args);
                        let inner = substitute(body, &bound);
                        record_fields(env, &inner, fuel - 1)
                    },
                    _ => None,
                },
            }
        },
        _ => None,
    }
}

/// The names of types that no field has.
pub open spec fn missing_fields(
    types: Seq<(Seq<char>, SType)>,
    fields: Seq<(Seq<char>, SValue)>,
) -> Seq<Seq<char>>
    decreases types.len(),
{
    if types.len() == 0 {
        Seq::empty()
    } else {
        let rest = missing_fields(types.drop_last(), fields);
        if keyed(fields, types.last().0, 0) is None {
            rest.push(types.last().0)
        } else {
            rest
        }
    }
}

/// The names of fields that no type has.
pub open spec fn unexpected_fields(
    types: Seq<(Seq<char>, SType)>,
    fields: Seq<(Seq<char>, SValue)>,
) -> Seq<Seq<char>>
    decreases fields.len(),
{
    if fields.len() == 0 {
        Seq::empty()
    } else {
        let rest = unexpected_fields(types, fields.drop_last());
        if keyed(types, fields.last().0, 0) is None {
            rest.push(fields.last().0)
        } else {
            rest
        }
    }
}

pub open spec fn actual_text(v: SValue) -> Seq<char> {
    match type_of(v) {
        Some(t) => type_text(t),
        None => kind_name(v),
    }
}

/// What is wrong with each field that is not of its type.
pub open spec fn invalid_fields(
    env: SEnv,
    types: Seq<(Seq<char>, SType)>,
    fields: Seq<(Seq<char>, SValue)>,
) -> Seq<Seq<char>>
    decreases types.len(),
{
    if types.len() == 0 {
        Seq::empty()
    } else {
        let rest = invalid_fields(env, types.drop_last(), fields);
        let (name, ty) = types.last();
        match keyed(fields, name, 0) {
            Some(v) => if conforms(env, v, ty, expansion_limit(env)) {
                rest
            } else {
                rest.push(name + ": expected "@ + type_text(ty) + ", got "@ + actual_text(v))
            },
            None => rest,
        }
    }
}

pub open spec fn detail(label: Seq<char>, names: Seq<Seq<char>>) -> Seq<Seq<char>> {
    if names.len() == 0 {
        Seq::empty()
    } else {
        seq![label + joined(names, ", "@)]
    }
}

/// How the fields of a value differ from those of a record type, if they do.
#[verifier::opaque]
pub open spec fn field_difference(env: SEnv, v: SValue, ty: SType) -> Option<Seq<char>> {
    match bare(v) {
        SValue::Record(fields) => match record_fields_of(env, ty, expansion_limit(env)) {
            None => None,
            Some(types) => {
                let details = detail("missing fields: "@, missing_fields(types, fields)) + detail(
                    "unexpected fields: "@,
                    unexpected_fields(types, fields),
                ) + detail("invalid fields: "@, invalid_fields(env, types, fields));
                if details.len() == 0 {
                    None
                } else {
                    Some(joined(details, "; "@))
                }
            },
        },
        _ => None,
    }
}

fn find_missing(types: &Vec<(String, MagType)>, fields: &Vec<(String, Value)>) -> (r: Vec<String>)
    ensures
        strings(r@) == missing_fields(fields_view(types@), value_fields_view(fields@)),
{
    let ghost ts = fields_view(types@);
    let ghost fs = value_fields_view(fields@);
    let mut r: Vec<String> = Vec::new();
    let mut i: usize = 0;
    proof {
        assert(ts.len() == types@.len());
        assert(ts.take(0) =~= Seq::empty());
        assert(strings(r@) =~= Seq::empty());
    }
    while i < types.len()
        invariant
            i <= types.len(),
            ts == fields_view(types@),
            fs == value_fields_view(fields@),
            ts.len() == types@.len(),
            strings(r@) == missing_fields(ts.take(i as int), fs),
        decreases types.len() - i,
    {
        let ghost so_far = strings(r@);
        proof {
            assert(ts.take(i + 1).drop_last() =~= ts.take(i as int));
            assert(ts.take(i + 1).last() == (types@[i as int].0@, types@[i as int].1@));
        }
        if field_value(fields, &types[i].0).is_none() {
            let name = types[i].0.clone();
            r.push(name);
            assert(strings(r@) =~= so_far.push(name@));
        }
        i = i + 1;
    }
    assert(ts.take(types.len() as int) =~= ts);
    r
}

fn find_unexpected(types: &Vec<(String, MagType)>, fields: &Vec<(String, Value)>) -> (r: Vec<
    String,
>)
    ensures
        strings(r@) == unexpected_fields(fields_view(types@), value_fields_view(fields@)),
{
    let ghost ts = fields_view(types@);
    let ghost fs = value_fields_view(fields@);
    let mut r: Vec<String> = Vec::new();
    let mut i: usize = 0;
    proof {
        assert(fs.len() == fields@.len());
        assert(fs.take(0) =~= Seq::empty());
        assert(strings(r@) =~= Seq::empty());
    }
    while i < fields.len()
        invariant
            i <= fields.len(),
            ts == fields_view(types@),
            fs == value_fields_view(fields@),
            fs.len() == fields@.len(),
            strings(r@) == unexpected_fields(ts, fs.take(i as int)),
        decreases fields.len() - i,
    {
        let ghost so_far = strings(r@);
        proof {
            assert(fs.take(i + 1).drop_last() =~= fs.take(i as int));
            assert(fs.take(i + 1).last() == (fields@[i as int].0@, fields@[i as int].1@));
        }
        if field_named(types, &fields[i].0).is_none() {
            let name = fields[i].0.clone();
            r.push(name);
            assert(strings(r@) =~= so_far.push(name@));
        }
        i = i + 1;
    }
    assert(fs.take(fields.len() as int) =~= fs);
    r
}

fn show_actual(v: &Value) -> (r: String)
    ensures
        r@ == actual_text(v@),
{
    match value_type(v) {
        Some(t) => t.show(),
        None => v.kind_text().to_owned(),
    }
}

fn find_invalid_fields(
    env: &Env,
    types: &Vec<(String, MagType)>,
    fields: &Vec<(String, Value)>,
) -> (r: Vec<String>)
    ensures
        strings(r@) == invalid_fields(env@, fields_view(types@), value_fields_view(fields@)),
{
    let ghost ts = fields_view(types@);
    let ghost fs = value_fields_view(fields@);
    let mut r: Vec<String> = Vec::new();
    let mut i: usize = 0;
    proof {
        assert(ts.len() == types@.len());
        assert(ts.take(0) =~= Seq::empty());
        assert(strings(r@) =~= Seq::empty());
    }
    while i < types.len()
        invariant
            i <= types.len(),
            ts == fields_view(types@),
            fs == value_fields_view(fields@),
            ts.len() == types@.len(),
            strings(r@) == invalid_fields(env@, ts.take(i as int), fs),
        decreases types.len() - i,
    {
        let ghost so_far = strings(r@);
        proof {
            assert(ts.take(i + 1).drop_last() =~= ts.take(i as int));
            assert(ts.take(i + 1).last() == (types@[i as int].0@, types@[i as int].1@));
        }
        match field_value(fields, &types[i].0) {
            Some(v) => {
                if !does_conform(env, v, &types[i].1, unfolding_limit(env)) {
                    let text = cat5(
                        &types[i].0,
                        ": expected ",
                        &types[i].1.show(),
                        ", got ",
                        &show_actual(v),
                    );
                    r.push(text);
                    assert(strings(r@) =~= so_far.push(text@));
                }
            },
            None => {},
        }
        i = i + 1;
    }
    assert(ts.take(types.len() as int) =~= ts);
    r
}

fn add_detail(details: &mut Vec<String>, label: &str, names: &Vec<String>)
    ensures
        strings(final(details)@) == strings(old(details)@) + detail(label@, strings(names@)),
{
    let ghost so_far = strings(details@);
    assert(strings(names@).len() == names@.len());
    if names.len() > 0 {
        let text = cat2(label, &join(names, ", "));
        details.push(text);
        assert(strings(details@) =~= so_far + seq![text@]);
    } else {
        assert(so_far + Seq::empty() =~= so_far);
    }
}

fn record_field_diff(env: &Env, v: &Value, ty: &MagType) -> (r: Option<String>)
    ensures
        match r {
            Some(s) => field_difference(env@, v@, ty@) == Some(s@),
            None => field_difference(env@, v@, ty@) is None,
        },
{
    proof {
        reveal(field_difference);
    }
    match raw(v) {
        Value::Record(fields) => match record_fields(env, ty, unfolding_limit(env)) {
            None => None,
            Some(types) => {
                let mut details: Vec<String> = Vec::new();
                assert(strings(details@) =~= Seq::empty());
                add_detail(&mut details, "missing fields: ", &find_missing(&types, fields));
                add_detail(&mut details, "unexpected fields: ", &find_unexpected(&types, fields));
                add_detail(
                    &mut details,
                    "invalid fields: ",
                    &find_invalid_fields(env, &types, fields),
                );
                proof {
                    let a = detail(
                        "missing fields: "@,
                        missing_fields(fields_view(types@), value_fields_view((**fields)@)),
                    );
                    assert(Seq::<Seq<char>>::empty() + a =~= a);
                    assert(strings(details@).len() == details@.len());
                }
                if details.len() == 0 {
                    None
                } else {
                    Some(join(&details, "; "))
                }
            },
        },
        _ => None,
    }
}

/// Why a value is not of a type.
#[verifier::opaque]
pub open spec fn validated(env: SEnv, v: SValue, ty: SType) -> Result<(), SError> {
    if conforms(env, v, ty, expansion_limit(env)) {
        Ok(())
    } else {
        match field_difference(env, v, ty) {
            Some(d) => type_error("value does not conform to "@ + type_text(ty) + ": "@ + d),
            None => type_error("value does not conform to "@ + type_text(ty)),
        }
    }
}

pub fn validate_value(env: &Env, v: &Value, ty: &MagType) -> (r: Result<(), MagError>)
    ensures
        unit_result(r) == validated(env@, v@, ty@),
{
    proof {
        reveal(validated);
    }
    if does_conform(env, v, ty, unfolding_limit(env)) {
        return Ok(());
    }
    match record_field_diff(env, v, ty) {
        Some(d) => Err(
            MagError::Type(cat4("value does not conform to ", &ty.show(), ": ", &d)),
        ),
        None => Err(MagError::Type(cat2("value does not conform to ", &ty.show()))),
    }
}

/// The nominal type that annotates a value, if the outermost annotation is one.
#[verifier::opaque]
pub open spec fn nominal_evidence(env: SEnv, v: SValue) -> Result<Option<SConcrete>, SError> {
    match v {
        SValue::Typed(_, evidence) => match closed_type(env, evidence) {
            Err(e) => Err(e),
            Ok(t) => Ok(
                if t is Named {
                    Some(t)
                } else {
                    None
                },
            ),
        },
        _ => Ok(None),
    }
}

/// What a value that is to carry a closed type must not carry already: another nominal type.
#[verifier::opaque]
pub open spec fn kept_evidence(env: SEnv, v: SValue, ty: SType) -> Result<(), SError> {
    match closed_type(env, ty) {
        Err(_) => Ok(()),
        Ok(accepted) => match nominal_evidence(env, v) {
            Err(e) => Err(e),
            Ok(Some(known)) => if accepted is Named && known != accepted {
                type_error(
                    "cannot replace constructor evidence "@ + structure_text(known) + " with "@
                        + structure_text(accepted),
                )
            } else {
                Ok(())
            },
            Ok(None) => Ok(()),
        },
    }
}

fn check_evidence(env: &Env, v: &Value, ty: &MagType) -> (r: Result<(), MagError>)
    ensures
        unit_result(r) == kept_evidence(env@, v@, ty@),
{
    proof {
        reveal(kept_evidence);
        reveal(nominal_evidence);
    }
    let accepted = match ConcreteType::resolve(env, ty) {
        Ok(t) => t,
        Err(_) => {
            return Ok(());
        },
    };
    match v {
        Value::Typed(_, evidence) => {
            let known = ConcreteType::resolve(env, evidence)?;
            let nominal = matches!(known, ConcreteType::Named { .. });
            let accepts_nominal = matches!(accepted, ConcreteType::Named { .. });
            if nominal && accepts_nominal && !known.equals(&accepted) {
                return Err(
                    MagError::Type(
                        cat4(
                            "cannot replace constructor evidence ",
                            &known.structure(),
                            " with ",
                            &accepted.structure(),
                        ),
                    ),
                );
            }
            Ok(())
        },
        _ => Ok(()),
    }
}

/// A value that carries a type which it was found to have: a product position by position.
pub open spec fn typed_value(env: SEnv, v: SValue, ty: SType) -> Result<SValue, SError>
    decreases ty, 2nat,
{
    match ty {
        SType::Product(types) => match bare(v) {
            SValue::List(items) => typed_product(env, items, types, ty),
            SValue::Product(items) => typed_product(env, items, types, ty),
            _ => type_error(
                "value does not conform to "@ + type_text(ty) + ": expected an ordered tuple"@,
            ),
        },
        _ => match validated(env, v, ty) {
            Err(e) => Err(e),
            Ok(_) => match kept_evidence(env, v, ty) {
                Err(e) => Err(e),
                Ok(_) => Ok(SValue::Typed(Box::new(v), ty)),
            },
        },
    }
}

pub open spec fn typed_product(
    env: SEnv,
    items: Seq<SValue>,
    types: Seq<SType>,
    ty: SType,
) -> Result<SValue, SError>
    decreases types, 1nat,
{
    if items.len() != types.len() {
        type_error(
            "value does not conform to "@ + type_text(ty) + ": expected "@ + decimal(types.len())
                + " tuple positions, got "@ + decimal(items.len()),
        )
    } else {
        match typed_positions(env, items, types, Seq::empty()) {
            Err(e) => Err(e),
            Ok(v) => Ok(SValue::Product(v)),
        }
    }
}

pub open spec fn typed_positions(
    env: SEnv,
    items: Seq<SValue>,
    types: Seq<SType>,
    done: Seq<SValue>,
) -> Result<Seq<SValue>, SError>
    decreases types, 0nat,
{
    if types.len() == 0 {
        Ok(done)
    } else {
        match typed_value(env, items[0], types[0]) {
            Err(e) => Err(e),
            Ok(v) => typed_positions(env, items.drop_first(), types.drop_first(), done.push(v)),
        }
    }
}

pub fn checked_typed_value(env: &Env, v: Value, ty: &MagType) -> (r: Result<Value, MagError>)
    ensures
        value_result(r) == typed_value(env@, v@, ty@),
    decreases ty, 2nat,
{
    match ty {
        MagType::Product(types) => {
            assert(ty@ == SType::Product(types_view(types@)));
            match raw(&v) {
                Value::List(items) => make_product(env, items, types, ty),
                Value::Product(items) => make_product(env, items, types, ty),
                _ => Err(
                    MagError::Type(
                        cat3(
                            "value does not conform to ",
                            &ty.show(),
                            ": expected an ordered tuple",
                        ),
                    ),
                ),
            }
        },
        _ => {
            validate_value(env, &v, ty)?;
            check_evidence(env, &v, ty)?;
            Ok(Value::Typed(Arc::new(v), ty.clone()))
        },
    }
}

fn make_product(env: &Env, items: &Vec<Value>, types: &Vec<MagType>, ty: &MagType) -> (r: Result<
    Value,
    MagError,
>)
    ensures
        value_result(r) == typed_product(env@, values_view(items@), types_view(types@), ty@),
    decreases types, 1nat,
{
    assert(values_view(items@).len() == items@.len());
    assert(types_view(types@).len() == types@.len());
    if items.len() != types.len() {
        return Err(
            MagError::Type(
                cat6(
                    "value does not conform to ",
                    &ty.show(),
                    ": expected ",
                    &show_usize(types.len()),
                    " tuple positions, got ",
                    &show_usize(items.len()),
                ),
            ),
        );
    }
    let made = make_positions(env, items, types)?;
    let r = Value::Product(Arc::new(made));
    assert(r@ == SValue::Product(values_view(made@)));
    Ok(r)
}

fn make_positions(env: &Env, items: &Vec<Value>, types: &Vec<MagType>) -> (r: Result<
    Vec<Value>,
    MagError,
>)
    requires
        items@.len() == types@.len(),
    ensures
        values_result(r) == typed_positions(
            env@,
            values_view(items@),
            types_view(types@),
            Seq::empty(),
        ),
    decreases types, 0nat,
{
    let ghost all = values_view(items@);
    let ghost ts = types_view(types@);
    let ghost whole = typed_positions(env@, all, ts, Seq::empty());
    let mut done: Vec<Value> = Vec::new();
    let mut i: usize = 0;
    proof {
        assert(all.len() == items@.len());
        assert(ts.len() == types@.len());
        assert(all.skip(0) =~= all);
        assert(ts.skip(0) =~= ts);
        assert(values_view(done@) =~= Seq::empty());
    }
    while i < types.len()
        invariant
            i <= types.len(),
            items@.len() == types@.len(),
            all == values_view(items@),
            ts == types_view(types@),
            all.len() == items@.len(),
            ts.len() == types@.len(),
            whole == typed_positions(env@, all, ts, Seq::empty()),
            whole == typed_positions(
                env@,
                all.skip(i as int),
                ts.skip(i as int),
                values_view(done@),
            ),
        decreases types.len() - i,
    {
        let ghost so_far = values_view(done@);
        proof {
            assert(all.skip(i as int)[0] == items@[i as int]@);
            assert(ts.skip(i as int)[0] == types@[i as int]@);
            assert(all.skip(i as int).drop_first() =~= all.skip(i + 1));
            assert(ts.skip(i as int).drop_first() =~= ts.skip(i + 1));
        }
        let v = checked_typed_value(env, items[i].clone(), &types[i])?;
        done.push(v);
        assert(values_view(done@) =~= so_far.push(v@));
        i = i + 1;
    }
    Ok(done)
}

/// Whether a value bears a type: a product position by position, any other value as a whole.
pub open spec fn bears(v: SValue, ty: SType) -> bool
    decreases ty,
{
    match ty {
        SType::Product(types) => v matches SValue::Product(items) && items.len() == types.len()
            && all_bear(items, types),
        _ => v matches SValue::Typed(_, t) && t == ty,
    }
}

pub open spec fn all_bear(items: Seq<SValue>, types: Seq<SType>) -> bool
    decreases types,
{
    forall|i: int|
        0 <= i < items.len() && 0 <= i < types.len() ==> bears(#[trigger] items[i], types[i])
}

/// A value that was given a type bears it, and of a product every position bears its own.
pub proof fn typed_values_bear_their_types(env: SEnv, v: SValue, ty: SType)
    requires
        typed_value(env, v, ty) is Ok,
    ensures
        bears(typed_value(env, v, ty)->Ok_0, ty),
    decreases ty, 1nat,
{
    match ty {
        SType::Product(types) => {
            let items = match bare(v) {
                SValue::List(items) => items,
                SValue::Product(items) => items,
                _ => Seq::empty(),
            };
            typed_positions_bear_their_types(env, items, types, types, Seq::empty());
        },
        _ => {},
    }
}

proof fn typed_positions_bear_their_types(
    env: SEnv,
    items: Seq<SValue>,
    types: Seq<SType>,
    all: Seq<SType>,
    done: Seq<SValue>,
)
    requires
        typed_positions(env, items, types, done) is Ok,
        done.len() + types.len() == all.len(),
        forall|i: int| 0 <= i < types.len() ==> #[trigger] types[i] == all[i + done.len()],
        all_bear(done, all),
    ensures
        typed_positions(env, items, types, done)->Ok_0.len() == all.len(),
        all_bear(typed_positions(env, items, types, done)->Ok_0, all),
    decreases types, 0nat,
{
    if types.len() > 0 {
        typed_values_bear_their_types(env, items[0], types[0]);
        let made = typed_value(env, items[0], types[0])->Ok_0;
        let next = done.push(made);
        assert(types[0] == all[0int + done.len()]);
        assert forall|i: int| 0 <= i < next.len() && 0 <= i < all.len() implies bears(
            #[trigger] next[i],
            all[i],
        ) by {
            if i < done.len() {
                assert(next[i] == done[i]);
            }
        }
        assert forall|i: int| 0 <= i < types.drop_first().len() implies #[trigger] types.drop_first()[i]
            == all[i + next.len()] by {
            assert(types.drop_first()[i] == types[i + 1]);
        }
        typed_positions_bear_their_types(
            env,
            items.drop_first(),
            types.drop_first(),
            all,
            next,
        );
    }
}

} // verus!
