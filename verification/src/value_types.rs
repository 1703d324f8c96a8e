//! The types of runtime values.

use vstd::prelude::*;

use crate::ast::{value_entries_view, value_fields_view, values_view, FnValue, SFn, SValue, Value};
use crate::concrete::open_type;
use crate::substitution::{apply, apply_all, substitute, substitute_all, Substitution};
use crate::text::{cat2, cat3, cat6, decimal, join, joined, show_usize, strings};
use crate::types::{
    clone_types, fields_view, show_types, type_text, type_texts, types_view, MagType, SType,
};

verus! {

/// The type of a value, where its contents tell one. A builtin function has none of its own, nor
/// has an empty map or set.
pub open spec fn type_of(value: SValue) -> Option<SType>
    decreases value,
{
    match value {
        SValue::Unit => Some(SType::Unit),
        SValue::Bool(_) => Some(SType::Bool),
        SValue::Int(_) => Some(SType::Int),
        SValue::Float(_) => Some(SType::Float),
        SValue::Str(_) => Some(SType::String),
        SValue::Keyword(_) => Some(SType::String),
        SValue::Symbol(_) => Some(SType::String),
        SValue::List(v) => if v.len() == 0 {
            Some(SType::EmptyList)
        } else {
            match type_of(v[0]) {
                Some(t) => Some(SType::List(Box::new(t))),
                None => None,
            }
        },
        SValue::Product(v) => match types_of(v) {
            Some(t) => Some(SType::Product(t)),
            None => None,
        },
        SValue::Record(f) => match field_types_of(f) {
            Some(t) => Some(SType::Record(t)),
            None => None,
        },
        SValue::MapOf(e) => if e.len() == 0 {
            None
        } else {
            match (type_of(e[0].0), type_of(e[0].1)) {
                (Some(k), Some(v)) => Some(SType::MapOf(Box::new(k), Box::new(v))),
                _ => None,
            }
        },
        SValue::SetOf(v) => if v.len() == 0 {
            None
        } else {
            match type_of(v[0]) {
                Some(t) => Some(SType::SetOf(Box::new(t))),
                None => None,
            }
        },
        SValue::Fn(f) => Some(SType::Function(f.param_types, Box::new(f.return_type))),
        SValue::Type(t) => Some(t),
        SValue::TypeDecl(d) => Some(SType::Named(d.name, Seq::empty())),
        SValue::TypeTag(t) => Some(SType::TypeTag(Box::new(open_type(t)))),
        SValue::TypeDescriptor(_) => Some(SType::TypeDescriptor),
        SValue::TypeSchema(_) => Some(SType::TypeSchema),
        SValue::SemanticTypeId(_) => Some(SType::SemanticTypeId),
        SValue::PackedValue(_) => Some(SType::PackedValue),
        SValue::JsonValue(_) => Some(SType::JsonValue),
        SValue::HostInputs(_) => Some(SType::HostInputs),
        SValue::Artifact(_) => Some(SType::Artifact),
        SValue::Adt(owner, _, _) => Some(owner),
        SValue::Typed(_, t) => Some(t),
        SValue::BuiltinFn(_) => None,
    }
}

/// The types of all values, where each has one.
pub open spec fn types_of(items: Seq<SValue>) -> Option<Seq<SType>>
    decreases items,
{
    if items.len() == 0 {
        Some(Seq::empty())
    } else {
        match (type_of(items[0]), types_of(items.drop_first())) {
            (Some(t), Some(rest)) => Some(seq![t] + rest),
            _ => None,
        }
    }
}

pub open spec fn field_types_of(items: Seq<(Seq<char>, SValue)>) -> Option<Seq<(Seq<char>, SType)>>
    decreases items,
{
    if items.len() == 0 {
        Some(Seq::empty())
    } else {
        match (type_of(items[0].1), field_types_of(items.drop_first())) {
            (Some(t), Some(rest)) => Some(seq![(items[0].0, t)] + rest),
            _ => None,
        }
    }
}

pub open spec fn opt_type(t: Option<MagType>) -> Option<SType> {
    match t {
        Some(t) => Some(t@),
        None => None,
    }
}

pub fn value_type(value: &Value) -> (r: Option<MagType>)
    ensures
        opt_type(r) == type_of(value@),
    decreases value,
{
    match value {
        Value::Unit => Some(MagType::Unit),
        Value::Bool(_) => Some(MagType::Bool),
        Value::Int(_) => Some(MagType::Int),
        Value::Float(_) => Some(MagType::Float),
        Value::Str(_) => Some(MagType::String),
        Value::Keyword(_) => Some(MagType::String),
        Value::Symbol(_) => Some(MagType::String),
        Value::List(v) => {
            assert(values_view(v@).len() == v@.len());
            if v.len() == 0 {
                Some(MagType::EmptyList)
            } else {
                match value_type(&v[0]) {
                    Some(t) => Some(MagType::List(Box::new(t))),
                    None => None,
                }
            }
        },
        Value::Product(v) => match value_types(v) {
            Some(t) => Some(MagType::Product(t)),
            None => None,
        },
        Value::Record(f) => match value_field_types(f) {
            Some(t) => Some(MagType::Record(t)),
            None => None,
        },
        Value::MapOf(e) => {
            assert(value_entries_view(e@).len() == e@.len());
            if e.len() == 0 {
                None
            } else {
                let key = value_type(&e[0].0);
                let item = value_type(&e[0].1);
                match (key, item) {
                    (Some(k), Some(v)) => Some(MagType::MapOf(Box::new(k), Box::new(v))),
                    _ => None,
                }
            }
        },
        Value::SetOf(v) => {
            assert(values_view(v@).len() == v@.len());
            if v.len() == 0 {
                None
            } else {
                match value_type(&v[0]) {
                    Some(t) => Some(MagType::SetOf(Box::new(t))),
                    None => None,
                }
            }
        },
        Value::Fn(f) => Some(
            MagType::Function(clone_types(&f.param_types), Box::new(f.return_type.clone())),
        ),
        Value::Type(t) => Some(t.clone()),
        Value::TypeDecl(d) => {
            let none: Vec<MagType> = Vec::new();
            assert(types_view(none@) =~= Seq::empty());
            Some(MagType::Named(d.name.clone(), none))
        },
        Value::TypeTag(t) => Some(MagType::TypeTag(Box::new(t.to_mag_type()))),
        Value::TypeDescriptor(_) => Some(MagType::TypeDescriptor),
        Value::TypeSchema(_) => Some(MagType::TypeSchema),
        Value::SemanticTypeId(_) => Some(MagType::SemanticTypeId),
        Value::PackedValue(_) => Some(MagType::PackedValue),
        Value::JsonValue(_) => Some(MagType::JsonValue),
        Value::HostInputs(_) => Some(MagType::HostInputs),
        Value::Artifact(_) => Some(MagType::Artifact),
        Value::Adt { owner, .. } => Some(owner.clone()),
        Value::Typed(_, t) => Some(t.clone()),
        Value::BuiltinFn(_) => None,
    }
}

fn value_types(items: &Vec<Value>) -> (r: Option<Vec<MagType>>)
    ensures
        match r {
            Some(t) => types_of(values_view(items@)) == Some(types_view(t@)),
            None => types_of(values_view(items@)) is None,
        },
    decreases items,
{
    let ghost all = values_view(items@);
    let mut r: Vec<MagType> = Vec::new();
    let mut i: usize = 0;
    assert(all.skip(0) =~= all);
    assert(types_view(r@) =~= Seq::empty());
    while i < items.len()
        invariant
            i <= items.len(),
            all == values_view(items@),
            all.len() == items.len(),
            types_of(all) is Some <==> types_of(all.skip(i as int)) is Some,
            types_of(all) is Some ==> types_of(all)->0 =~= types_view(r@) + types_of(
                all.skip(i as int),
            )->0,
        decreases items.len() - i,
    {
        let ghost before = types_view(r@);
        proof {
            assert(all.skip(i as int)[0] == items@[i as int]@);
            assert(all.skip(i as int).drop_first() =~= all.skip(i + 1));
        }
        match value_type(&items[i]) {
            Some(t) => {
                r.push(t);
                assert(types_view(r@) =~= before.push(t@));
            },
            None => {
                return None;
            },
        }
        i = i + 1;
    }

    Some(r)
}

fn value_field_types(items: &Vec<(String, Value)>) -> (r: Option<Vec<(String, MagType)>>)
    ensures
        match r {
            Some(t) => field_types_of(value_fields_view(items@)) == Some(fields_view(t@)),
            None => field_types_of(value_fields_view(items@)) is None,
        },
    decreases items,
{
    let ghost all = value_fields_view(items@);
    let mut r: Vec<(String, MagType)> = Vec::new();
    let mut i: usize = 0;
    assert(all.skip(0) =~= all);
    assert(fields_view(r@) =~= Seq::empty());
    while i < items.len()
        invariant
            i <= items.len(),
            all == value_fields_view(items@),
            all.len() == items.len(),
            field_types_of(all) is Some <==> field_types_of(all.skip(i as int)) is Some,
            field_types_of(all) is Some ==> field_types_of(all)->0 =~= fields_view(r@)
                + field_types_of(all.skip(i as int))->0,
        decreases items.len() - i,
    {
        let ghost before = fields_view(r@);
        proof {
            assert(all.skip(i as int)[0] == (items@[i as int].0@, items@[i as int].1@));
            assert(all.skip(i as int).drop_first() =~= all.skip(i + 1));
        }
        match value_type(&items[i].1) {
            Some(t) => {
                let name = items[i].0.clone();
                r.push((name, t));
                assert(fields_view(r@) =~= before.push((name@, t@)));
            },
            None => {
                return None;
            },
        }
        i = i + 1;
    }
    Some(r)
}

/// The substitution of `$0`, `$1` and so on for the first `n` parameters, in their order.
pub open spec fn positional(params: Seq<Seq<char>>, n: nat) -> Map<Seq<char>, SType>
    decreases n,
{
    if n == 0 {
        Map::empty()
    } else {
        positional(params, (n - 1) as nat).insert(
            params[n - 1],
            SType::Var("$"@ + decimal((n - 1) as nat)),
        )
    }
}

/// The text under which two bindings of one name count as the same overload: for a function, its
/// signature up to the names of its type parameters.
pub open spec fn overload_text(value: SValue) -> Option<Seq<char>> {
    match value {
        SValue::Type(t) => Some("Type<"@ + type_text(t) + ">"@),
        SValue::Fn(f) => {
            let m = positional(f.type_params, f.type_params.len());
            Some(
                "forall["@ + decimal(f.type_params.len()) + "].Fn("@ + joined(
                    type_texts(apply_all(f.param_types, m)),
                    ","@,
                ) + ")->"@ + type_text(apply(f.return_type, m)),
            )
        },
        _ => match type_of(value) {
            Some(t) => Some(type_text(t)),
            None => None,
        },
    }
}

pub fn canonical_value_type(value: &Value) -> (r: Option<String>)
    ensures
        crate::ast::option_text(r) == overload_text(value@),
{
    match value {
        Value::Type(t) => Some(cat3("Type<", &t.show(), ">")),
        Value::Fn(f) => {
            let mut m = Substitution::new();
            let mut i: usize = 0;
            while i < f.type_params.len()
                invariant
                    i <= f.type_params.len(),
                    m@ == positional(strings(f.type_params@), i as nat),
                decreases f.type_params.len() - i,
            {
                m.insert(&f.type_params[i], MagType::Var(cat2("$", &show_usize(i))));
                i = i + 1;
            }
            let params = show_types(&substitute_all(&f.param_types, &m));
            let result = substitute(&f.return_type, &m);
            Some(
                cat6(
                    "forall[",
                    &show_usize(f.type_params.len()),
                    "].Fn(",
                    &join(&params, ","),
                    ")->",
                    &result.show(),
                ),
            )
        },
        _ => match value_type(value) {
            Some(t) => Some(t.show()),
            None => None,
        },
    }
}

} // verus!
