//! The rules that read declarations: what an authored type denotes, which constructors an
//! algebraic type has, which field a record has, and which types support equality.

use vstd::prelude::*;

use crate::ast::{
    decl_constructors, ConstructorDecl, ConstructorDeclarationId, SConstructor, SConstructorId,
    SDeclBody, SValue, TypeDeclBody, Value, values_view,
};
use crate::authored::{authored_fields, authored_types, SAuthoredType, Type};
use crate::bindings::{Bindings, SBindings};
use crate::compatible::field_named;
use crate::env::{keyed, Env, SEnv};
use crate::error::{MagError, SError};
use crate::resolve::{expansion_limit, type_error, unfolding_limit, wrong_arguments};
use crate::substitution::{
    apply, bind_params, bound_params, substitute, NameSet, Substitution,
};
use crate::text::{
    before, cat2, cat3, cat4, cat5, comes_before, decimal, join, joined, same, show_usize, strings,
};
use crate::types::{fields_view, type_text, types_view, MagType, SType};

verus! {

broadcast use vstd::seq_lib::group_seq_properties;

pub open spec fn type_result(r: Result<MagType, MagError>) -> Result<SType, SError> {
    match r {
        Ok(t) => Ok(t@),
        Err(e) => Err(e@),
    }
}

/// The fields with one more put in its place by the order of names.
pub open spec fn with_field<V>(fields: Seq<(Seq<char>, V)>, name: Seq<char>, v: V) -> Seq<
    (Seq<char>, V),
>
    decreases fields.len(),
{
    if fields.len() == 0 {
        seq![(name, v)]
    } else if before(name, fields.last().0) {
        with_field(fields.drop_last(), name, v).push(fields.last())
    } else {
        fields.push((name, v))
    }
}

/// Puts a field in its place by the order of names.
pub fn put_field(fields: &mut Vec<(String, MagType)>, name: String, ty: MagType)
    ensures
        fields_view(final(fields)@) == with_field(fields_view(old(fields)@), name@, ty@),
    decreases old(fields)@.len(),
{
    let ghost all = fields_view(fields@);
    if fields.len() == 0 {
        fields.push((name, ty));
        assert(fields_view(fields@) =~= seq![(name@, ty@)]);
        return ;
    }
    let last: usize = fields.len() - 1;
    assert(all.last() == (fields@[last as int].0@, fields@[last as int].1@));
    if comes_before(&name, &fields[last].0) {
        let held = fields.pop().unwrap();
        assert(fields_view(fields@) =~= all.drop_last());
        put_field(fields, name, ty);
        let ghost so_far = fields_view(fields@);
        fields.push(held);
        assert(fields_view(fields@) =~= so_far.push((held.0@, held.1@)));
    } else {
        fields.push((name, ty));
        assert(fields_view(fields@) =~= all.push((name@, ty@)));
    }
}

/// The types among the values of a name: a type itself, or the nominal type of a declaration.
pub open spec fn types_among(values: Seq<SValue>) -> Seq<SType>
    decreases values.len(),
{
    if values.len() == 0 {
        Seq::empty()
    } else {
        let rest = types_among(values.drop_last());
        match values.last() {
            SValue::Type(t) => rest.push(t),
            SValue::TypeDecl(d) => rest.push(SType::Named(d.name, Seq::empty())),
            _ => rest,
        }
    }
}

fn collect_types(values: &Vec<Value>) -> (r: Vec<MagType>)
    ensures
        types_view(r@) == types_among(values_view(values@)),
{
    let ghost all = values_view(values@);
    let mut r: Vec<MagType> = Vec::new();
    let mut i: usize = 0;
    assert(all.take(0) =~= Seq::empty());
    assert(types_view(r@) =~= Seq::empty());
    while i < values.len()
        invariant
            i <= values.len(),
            all == values_view(values@),
            types_view(r@) == types_among(all.take(i as int)),
        decreases values.len() - i,
    {
        let ghost so_far = types_view(r@);
        proof {
            assert(all.take(i + 1).drop_last() =~= all.take(i as int));
            assert(all.take(i + 1).last() == values@[i as int]@);
        }
        match &values[i] {
            Value::Type(t) => {
                let t = t.clone();
                r.push(t);
                assert(types_view(r@) =~= so_far.push(t@));
            },
            Value::TypeDecl(d) => {
                let none: Vec<MagType> = Vec::new();
                assert(types_view(none@) =~= Seq::empty());
                let t = MagType::Named(d.name.clone(), none);
                assert(t@ == SType::Named(d.name@, Seq::empty()));
                r.push(t);
                assert(types_view(r@) =~= so_far.push(t@));
            },
            _ => {},
        }
        i = i + 1;
    }
    assert(all.take(values.len() as int) =~= all);
    r
}

/// The type that a bare name denotes.
pub open spec fn named_type(env: SEnv, name: Seq<char>) -> Result<SType, SError> {
    let candidates = env.candidates(name);
    let types = types_among(candidates);
    if types.len() == 1 {
        Ok(types[0])
    } else if types.len() > 1 {
        type_error("ambiguous type name "@ + name)
    } else if candidates.len() == 0 {
        Err(SError::Unresolved(name))
    } else {
        type_error(name + " is not a type"@)
    }
}

/// The type that a declared constructor of types denotes on its arguments: the native ones of
/// the core library are the list, map and set types.
pub open spec fn applied_type(name: Seq<char>, native: bool, args: Seq<SType>) -> Result<
    SType,
    SError,
> {
    if !native {
        Ok(SType::Named(name, args))
    } else if args.len() == 1 && name == "core.List"@ {
        Ok(SType::List(Box::new(args[0])))
    } else if args.len() == 2 && name == "core.Map"@ {
        Ok(SType::MapOf(Box::new(args[0]), Box::new(args[1])))
    } else if args.len() == 1 && name == "core.Set"@ {
        Ok(SType::SetOf(Box::new(args[0])))
    } else {
        type_error("unsupported native type application "@ + name)
    }
}

/// The type that an authored type denotes, with the type variables in scope.
#[verifier::opaque]
pub open spec fn denoted(env: SEnv, t: SAuthoredType, vars: Set<Seq<char>>) -> Result<
    SType,
    SError,
>
    decreases t,
{
    match t {
        SAuthoredType::Name(name) => if vars.contains(name) {
            Ok(SType::Var(name))
        } else {
            named_type(env, name)
        },
        SAuthoredType::Record(fields) => match denoted_fields(env, fields, vars, Seq::empty()) {
            Ok(f) => Ok(SType::Record(f)),
            Err(e) => Err(e),
        },
        SAuthoredType::Product(items) => match denoted_all(env, items, vars) {
            Ok(t) => Ok(SType::Product(t)),
            Err(e) => Err(e),
        },
        SAuthoredType::Tag(t) => match denoted(env, *t, vars) {
            Ok(t) => Ok(SType::TypeTag(Box::new(t))),
            Err(e) => Err(e),
        },
        SAuthoredType::Function(params, result) => match denoted_all(env, params, vars) {
            Err(e) => Err(e),
            Ok(p) => match denoted(env, *result, vars) {
                Err(e) => Err(e),
                Ok(r) => Ok(SType::Function(p, Box::new(r))),
            },
        },
        SAuthoredType::Apply(constructor, arguments) => match env.lookup(constructor) {
            Err(e) => Err(e),
            Ok(SValue::TypeDecl(decl)) => if decl.params.len() != arguments.len() {
                type_error(wrong_arguments(decl.name, decl.params.len(), arguments.len()))
            } else {
                match denoted_all(env, arguments, vars) {
                    Err(e) => Err(e),
                    Ok(args) => applied_type(decl.name, decl.body is Native, args),
                }
            },
            Ok(_) => type_error(constructor + " is not a declared type"@),
        },
        SAuthoredType::Invalid(message) => type_error(message),
    }
}

pub open spec fn denoted_all(
    env: SEnv,
    items: Seq<SAuthoredType>,
    vars: Set<Seq<char>>,
) -> Result<Seq<SType>, SError>
    decreases items,
{
    if items.len() == 0 {
        Ok(Seq::empty())
    } else {
        match denoted(env, items[0], vars) {
            Err(e) => Err(e),
            Ok(first) => match denoted_all(env, items.drop_first(), vars) {
                Err(e) => Err(e),
                Ok(rest) => Ok(seq![first] + rest),
            },
        }
    }
}

/// The fields of a record type, added to those that were denoted before.
pub open spec fn denoted_fields(
    env: SEnv,
    items: Seq<(Seq<char>, SAuthoredType)>,
    vars: Set<Seq<char>>,
    done: Seq<(Seq<char>, SType)>,
) -> Result<Seq<(Seq<char>, SType)>, SError>
    decreases items,
{
    if items.len() == 0 {
        Ok(done)
    } else {
        match denoted(env, items[0].1, vars) {
            Err(e) => Err(e),
            Ok(t) => if keyed(done, items[0].0, 0) is Some {
                type_error("duplicate record type field "@ + items[0].0)
            } else {
                denoted_fields(
                    env,
                    items.drop_first(),
                    vars,
                    with_field(done, items[0].0, t),
                )
            },
        }
    }
}

fn type_failure<T>(message: String) -> (r: Result<T, MagError>)
    ensures
        r is Err,
        r->Err_0@ == SError::Type(message@),
{
    Err(MagError::Type(message))
}

fn resolve_name(env: &Env, name: &str) -> (r: Result<MagType, MagError>)
    ensures
        type_result(r) == named_type(env@, name@),
{
    let candidates = env.lookup_candidates(name);
    assert(values_view(candidates@).len() == candidates@.len());
    let types = collect_types(&candidates);
    assert(types_view(types@).len() == types@.len());
    if types.len() == 1 {
        Ok(types[0].clone())
    } else if types.len() > 1 {
        type_failure(cat2("ambiguous type name ", name))
    } else if candidates.len() == 0 {
        Err(MagError::Unresolved(name.to_owned()))
    } else {
        type_failure(cat2(name, " is not a type"))
    }
}

fn apply_constructor(name: String, native: bool, args: Vec<MagType>) -> (r: Result<
    MagType,
    MagError,
>)
    ensures
        type_result(r) == applied_type(name@, native, types_view(args@)),
{
    assert(types_view(args@).len() == args@.len());
    if !native {
        Ok(MagType::Named(name, args))
    } else if args.len() == 1 && same(&name, "core.List") {
        Ok(MagType::List(Box::new(args[0].clone())))
    } else if args.len() == 2 && same(&name, "core.Map") {
        Ok(MagType::MapOf(Box::new(args[0].clone()), Box::new(args[1].clone())))
    } else if args.len() == 1 && same(&name, "core.Set") {
        Ok(MagType::SetOf(Box::new(args[0].clone())))
    } else {
        type_failure(cat2("unsupported native type application ", &name))
    }
}

pub fn resolve_type(env: &Env, authored: &Type, vars: &NameSet) -> (r: Result<MagType, MagError>)
    ensures
        type_result(r) == denoted(env@, authored@, vars@),
    decreases authored,
{
    proof {
        reveal(denoted);
    }
    match authored {
        Type::Name(name) => {
            if vars.contains(name) {
                Ok(MagType::Var(name.clone()))
            } else {
                resolve_name(env, name)
            }
        },
        Type::Record(fields) => match resolve_type_fields(env, fields, vars) {
            Ok(f) => Ok(MagType::Record(f)),
            Err(e) => Err(e),
        },
        Type::Product(items) => match resolve_types(env, items, vars) {
            Ok(t) => Ok(MagType::Product(t)),
            Err(e) => Err(e),
        },
        Type::Tag(t) => match resolve_type(env, t, vars) {
            Ok(t) => Ok(MagType::TypeTag(Box::new(t))),
            Err(e) => Err(e),
        },
        Type::Function { params, result } => match resolve_types(env, params, vars) {
            Err(e) => Err(e),
            Ok(p) => match resolve_type(env, result, vars) {
                Err(e) => Err(e),
                Ok(r) => Ok(MagType::Function(p, Box::new(r))),
            },
        },
        Type::Apply { constructor, arguments } => {
            assert(authored_types(arguments@).len() == arguments@.len());
            match env.lookup(constructor) {
                Err(e) => Err(e),
                Ok(Value::TypeDecl(decl)) => {
                    if decl.params.len() != arguments.len() {
                        return type_failure(
                            cat5(
                                &decl.name,
                                " expects ",
                                &show_usize(decl.params.len()),
                                " type arguments, got ",
                                &show_usize(arguments.len()),
                            ),
                        );
                    }
                    match resolve_types(env, arguments, vars) {
                        Err(e) => Err(e),
                        Ok(args) => {
                            let native = match decl.body {
                                TypeDeclBody::Native => true,
                                _ => false,
                            };
                            apply_constructor(decl.name, native, args)
                        },
                    }
                },
                Ok(_) => type_failure(cat2(constructor, " is not a declared type")),
            }
        },
        Type::Invalid(message) => type_failure(message.clone()),
    }
}

pub fn resolve_types(env: &Env, items: &Vec<Type>, vars: &NameSet) -> (r: Result<
    Vec<MagType>,
    MagError,
>)
    ensures
        match r {
            Ok(t) => denoted_all(env@, authored_types(items@), vars@) == Ok::<Seq<SType>, SError>(
                types_view(t@),
            ),
            Err(e) => denoted_all(env@, authored_types(items@), vars@) == Err::<
                Seq<SType>,
                SError,
            >(e@),
        },
    decreases items,
{
    proof {
        reveal(denoted);
    }
    let ghost all = authored_types(items@);
    let ghost whole = denoted_all(env@, all, vars@);
    let mut r: Vec<MagType> = Vec::new();
    let mut i: usize = 0;
    assert(all.skip(0) =~= all);
    assert(types_view(r@) =~= Seq::empty());
    while i < items.len()
        invariant
            i <= items.len(),
            all == authored_types(items@),
            all.len() == items@.len(),
            whole == denoted_all(env@, all, vars@),
            whole == match denoted_all(env@, all.skip(i as int), vars@) {
                Ok(rest) => Ok(types_view(r@) + rest),
                Err(e) => Err(e),
            },
        decreases items.len() - i,
    {
        let ghost so_far = types_view(r@);
        proof {
            reveal(denoted);
            assert(all.skip(i as int)[0] == items@[i as int]@);
            assert(all.skip(i as int).drop_first() =~= all.skip(i + 1));
        }
        match resolve_type(env, &items[i], vars) {
            Ok(t) => {
                r.push(t);
                proof {
                    assert(types_view(r@) =~= so_far.push(t@));
                    match denoted_all(env@, all.skip(i + 1), vars@) {
                        Ok(rest) => {
                            assert(so_far + (seq![t@] + rest) =~= so_far.push(t@) + rest);
                        },
                        Err(_) => {},
                    }
                }
            },
            Err(e) => {
                return Err(e);
            },
        }
        i = i + 1;
    }
    assert(types_view(r@) + Seq::empty() =~= types_view(r@));
    Ok(r)
}

pub fn resolve_type_fields(env: &Env, items: &Vec<(String, Type)>, vars: &NameSet) -> (r: Result<
    Vec<(String, MagType)>,
    MagError,
>)
    ensures
        match r {
            Ok(t) => denoted_fields(env@, authored_fields(items@), vars@, Seq::empty()) == Ok::<
                Seq<(Seq<char>, SType)>,
                SError,
            >(fields_view(t@)),
            Err(e) => denoted_fields(env@, authored_fields(items@), vars@, Seq::empty()) == Err::<
                Seq<(Seq<char>, SType)>,
                SError,
            >(e@),
        },
    decreases items,
{
    proof {
        reveal(denoted);
    }
    let ghost all = authored_fields(items@);
    let ghost whole = denoted_fields(env@, all, vars@, Seq::empty());
    let mut r: Vec<(String, MagType)> = Vec::new();
    let mut i: usize = 0;
    assert(all.skip(0) =~= all);
    assert(fields_view(r@) =~= Seq::empty());
    while i < items.len()
        invariant
            i <= items.len(),
            all == authored_fields(items@),
            all.len() == items@.len(),
            whole == denoted_fields(env@, all, vars@, Seq::empty()),
            whole == denoted_fields(env@, all.skip(i as int), vars@, fields_view(r@)),
        decreases items.len() - i,
    {
        proof {
            reveal(denoted);
            assert(all.skip(i as int)[0] == (items@[i as int].0@, items@[i as int].1@));
            assert(all.skip(i as int).drop_first() =~= all.skip(i + 1));
        }
        match resolve_type(env, &items[i].1, vars) {
            Ok(t) => {
                if field_named(&r, &items[i].0).is_some() {
                    return type_failure(cat2("duplicate record type field ", &items[i].0));
                }
                put_field(&mut r, items[i].0.clone(), t);
            },
            Err(e) => {
                return Err(e);
            },
        }
        i = i + 1;
    }
    Ok(r)
}

/// The constructors with their payloads at some arguments.
pub open spec fn instantiated(items: Seq<SConstructor>, bound: Map<Seq<char>, SType>) -> Seq<
    SConstructor,
> {
    Seq::new(
        items.len(),
        |i: int| SConstructor { id: items[i].id, payload: apply(items[i].payload, bound) },
    )
}

/// The constructors of an algebraic type at its arguments.
#[verifier::opaque]
pub open spec fn constructors_of(env: SEnv, owner: SType) -> Result<Seq<SConstructor>, SError> {
    match owner {
        SType::Named(name, arguments) => match env.decl(name) {
            None => type_error("unknown nominal type "@ + name),
            Some(decl) => if decl.params.len() != arguments.len() {
                type_error(wrong_arguments(name, decl.params.len(), arguments.len()))
            } else {
                match decl.body {
                    SDeclBody::Adt(constructors) => Ok(
                        instantiated(constructors, bound_params(decl.params, arguments)),
                    ),
                    _ => type_error("match expects an ADT value, got "@ + type_text(owner)),
                }
            },
        },
        _ => type_error("match expects an ADT value, got "@ + type_text(owner)),
    }
}

/// The constructor of a name, from position `i` on.
pub open spec fn constructor_named(items: Seq<SConstructor>, name: Seq<char>, i: nat) -> Option<
    SConstructor,
>
    decreases items.len() - i,
{
    if i >= items.len() {
        None
    } else if items[i as int].id.name == name {
        Some(items[i as int])
    } else {
        constructor_named(items, name, i + 1)
    }
}

/// The constructor of a name that an algebraic type has at its arguments.
#[verifier::opaque]
pub open spec fn constructor_of(env: SEnv, owner: SType, name: Seq<char>) -> Result<
    SConstructor,
    SError,
> {
    match constructors_of(env, owner) {
        Err(e) => Err(e),
        Ok(items) => match constructor_named(items, name, 0) {
            Some(c) => Ok(c),
            None => type_error(
                "constructor "@ + name + " is not a member of "@ + type_text(owner),
            ),
        },
    }
}

pub fn adt_constructors(env: &Env, owner: &MagType) -> (r: Result<Vec<ConstructorDecl>, MagError>)
    ensures
        match r {
            Ok(c) => constructors_of(env@, owner@) == Ok::<Seq<SConstructor>, SError>(
                decl_constructors(c@),
            ),
            Err(e) => constructors_of(env@, owner@) == Err::<Seq<SConstructor>, SError>(e@),
        },
{
    proof {
        reveal(constructors_of);
    }
    match owner {
        MagType::Named(name, arguments) => {
            assert(types_view(arguments@).len() == arguments@.len());
            let decl = match env.type_decl(name) {
                Some(decl) => decl,
                None => {
                    return type_failure(cat2("unknown nominal type ", name));
                },
            };
            if decl.params.len() != arguments.len() {
                return type_failure(
                    cat5(
                        name,
                        " expects ",
                        &show_usize(decl.params.len()),
                        " type arguments, got ",
                        &show_usize(arguments.len()),
                    ),
                );
            }
            match &decl.body {
                TypeDeclBody::Adt(constructors) => {
                    let bound = bind_params(&decl.params, arguments);
                    let mut r: Vec<ConstructorDecl> = Vec::new();
                    let mut i: usize = 0;
                    while i < constructors.len()
                        invariant
                            i <= constructors.len(),
                            r.len() == i,
                            forall|j: int|
                                0 <= j < i ==> (#[trigger] r@[j]).id@ == constructors@[j].id@
                                    && r@[j].payload@ == apply(constructors@[j].payload@, bound@),
                        decreases constructors.len() - i,
                    {
                        r.push(
                            ConstructorDecl {
                                id: constructors[i].id.clone(),
                                payload: substitute(&constructors[i].payload, &bound),
                            },
                        );
                        i = i + 1;
                    }
                    assert(decl_constructors(r@) =~= instantiated(
                        decl_constructors(constructors@),
                        bound@,
                    ));
                    Ok(r)
                },
                _ => type_failure(cat2("match expects an ADT value, got ", &owner.show())),
            }
        },
        _ => type_failure(cat2("match expects an ADT value, got ", &owner.show())),
    }
}

pub fn instantiated_constructor(env: &Env, owner: &MagType, name: &str) -> (r: Result<
    ConstructorDecl,
    MagError,
>)
    ensures
        match r {
            Ok(c) => constructor_of(env@, owner@, name@) == Ok::<SConstructor, SError>(c@),
            Err(e) => constructor_of(env@, owner@, name@) == Err::<SConstructor, SError>(e@),
        },
{
    proof {
        reveal(constructor_of);
    }
    let items = match adt_constructors(env, owner) {
        Ok(items) => items,
        Err(e) => {
            return Err(e);
        },
    };
    let ghost all = decl_constructors(items@);
    let mut i: usize = 0;
    while i < items.len()
        invariant
            i <= items.len(),
            all == decl_constructors(items@),
            constructors_of(env@, owner@) == Ok::<Seq<SConstructor>, SError>(all),
            constructor_named(all, name@, 0) == constructor_named(all, name@, i as nat),
        decreases items.len() - i,
    {
        if same(&items[i].id.name, name) {
            proof {
                reveal(constructor_of);
            }
            return Ok(items[i].clone());
        }
        i = i + 1;
    }
    type_failure(cat4("constructor ", name, " is not a member of ", &owner.show()))
}

/// The names of the constructors that are not among those seen.
pub open spec fn missing_names(items: Seq<SConstructor>, seen: Seq<SConstructorId>) -> Seq<
    Seq<char>,
>
    decreases items.len(),
{
    if items.len() == 0 {
        Seq::empty()
    } else {
        let rest = missing_names(items.drop_last(), seen);
        if seen.contains(items.last().id) {
            rest
        } else {
            rest.push(items.last().id.name)
        }
    }
}

/// Whether a match that has seen some constructors covers all.
#[verifier::opaque]
pub open spec fn exhaustive(items: Seq<SConstructor>, seen: Seq<SConstructorId>) -> Result<
    (),
    SError,
> {
    let missing = missing_names(items, seen);
    if missing.len() == 0 {
        Ok(())
    } else {
        type_error("non-exhaustive match; missing "@ + joined(missing, ", "@))
    }
}

pub open spec fn constructor_ids(items: Seq<ConstructorDeclarationId>) -> Seq<SConstructorId> {
    Seq::new(items.len(), |i: int| items[i]@)
}

pub fn has_constructor(
    items: &Vec<ConstructorDeclarationId>,
    id: &ConstructorDeclarationId,
) -> (r: bool)
    ensures
        r == constructor_ids(items@).contains(id@),
{
    let ghost all = constructor_ids(items@);
    let mut i: usize = 0;
    while i < items.len()
        invariant
            i <= items.len(),
            all == constructor_ids(items@),
            forall|j: int| 0 <= j < i ==> all[j] != id@,
        decreases items.len() - i,
    {
        if items[i].equals(id) {
            assert(all[i as int] == id@);
            return true;
        }
        i = i + 1;
    }
    false
}

pub open spec fn unit_result(r: Result<(), MagError>) -> Result<(), SError> {
    match r {
        Ok(_) => Ok(()),
        Err(e) => Err(e@),
    }
}

pub fn ensure_adt_exhaustive(
    items: &Vec<ConstructorDecl>,
    seen: &Vec<ConstructorDeclarationId>,
) -> (r: Result<(), MagError>)
    ensures
        unit_result(r) == exhaustive(decl_constructors(items@), constructor_ids(seen@)),
{
    proof {
        reveal(exhaustive);
    }
    let ghost all = decl_constructors(items@);
    let mut missing: Vec<String> = Vec::new();
    let mut i: usize = 0;
    assert(all.take(0) =~= Seq::empty());
    assert(strings(missing@) =~= Seq::empty());
    while i < items.len()
        invariant
            i <= items.len(),
            all == decl_constructors(items@),
            strings(missing@) == missing_names(all.take(i as int), constructor_ids(seen@)),
        decreases items.len() - i,
    {
        let ghost so_far = strings(missing@);
        proof {
            assert(all.take(i + 1).drop_last() =~= all.take(i as int));
            assert(all.take(i + 1).last() == items@[i as int]@);
        }
        if !has_constructor(seen, &items[i].id) {
            let name = items[i].id.name.clone();
            missing.push(name);
            assert(strings(missing@) =~= so_far.push(name@));
        }
        i = i + 1;
    }
    assert(all.take(items.len() as int) =~= all);
    if missing.len() == 0 {
        Ok(())
    } else {
        type_failure(cat2("non-exhaustive match; missing ", &join(&missing, ", ")))
    }
}

/// The type of a record's field, through the declarations of nominal records. A JSON value has
/// JSON fields.
#[verifier::opaque]
pub open spec fn field_of(env: SEnv, t: SType, key: Option<Seq<char>>, fuel: nat) -> Option<SType>
    decreases fuel,
{
    match t {
        SType::JsonValue => Some(SType::JsonValue),
        SType::Record(fields) => match key {
            Some(k) => keyed(fields, k, 0),
            None => None,
        },
        SType::Named(name, args) => match env.decl(name) {
            Some(decl) => match decl.body {
                SDeclBody::Nominal(body) => if fuel == 0 {
                    None
                } else {
                    field_of(
                        env,
                        apply(body, bound_params(decl.params, args)),
                        key,
                        (fuel - 1) as nat,
                    )
                },
                _ => None,
            },
            None => None,
        },
        _ => None,
    }
}

pub open spec fn opt_str(key: Option<&str>) -> Option<Seq<char>> {
    match key {
        Some(k) => Some(k@),
        None => None,
    }
}

pub open spec fn opt_mag(t: Option<MagType>) -> Option<SType> {
    match t {
        Some(t) => Some(t@),
        None => None,
    }
}

fn field_type_in(env: &Env, ty: &MagType, key: Option<&str>, fuel: u64) -> (r: Option<MagType>)
    ensures
        opt_mag(r) == field_of(env@, ty@, opt_str(key), fuel as nat),
    decreases fuel,
{
    proof {
        reveal(field_of);
    }
    match ty {
        MagType::JsonValue => Some(MagType::JsonValue),
        MagType::Record(fields) => match key {
            Some(k) => match field_named(fields, k) {
                Some(t) => Some(t.clone()),
                None => None,
            },
            None => None,
        },
        MagType::Named(name, args) => match env.type_decl(name) {
            Some(decl) => match &decl.body {
                TypeDeclBody::Nominal(body) => {
                    if fuel == 0 {
                        return None;
                    }
                    let bound = bind_params(&decl.params, args);
                    field_type_in(env, &substitute(body, &bound), key, fuel - 1)
                },
                _ => None,
            },
            None => None,
        },
        _ => None,
    }
}

/// The type of a record's field.
pub fn field_type(env: &Env, ty: &MagType, key: Option<&str>) -> (r: Option<MagType>)
    ensures
        opt_mag(r) == field_of(env@, ty@, opt_str(key), expansion_limit(env@)),
{
    field_type_in(env, ty, key, unfolding_limit(env))
}

/// The variables of a type that must support equality for the type to support it, or why the type
/// cannot. `visiting` holds the nominal types whose bodies are being visited.
pub open spec fn equality_vars(env: SEnv, t: SType, visiting: Seq<SType>, fuel: nat) -> Result<
    Set<Seq<char>>,
    Seq<char>,
>
    decreases fuel, 0nat, t,
{
    match t {
        SType::Var(name) => Ok(Set::empty().insert(name)),
        SType::Unit => Ok(Set::empty()),
        SType::Bool => Ok(Set::empty()),
        SType::Int => Ok(Set::empty()),
        SType::Float => Ok(Set::empty()),
        SType::String => Ok(Set::empty()),
        SType::JsonValue => Ok(Set::empty()),
        SType::Never => Ok(Set::empty()),
        SType::EmptyList => Ok(Set::empty()),
        SType::List(item) => equality_vars(env, *item, visiting, fuel),
        SType::SetOf(item) => equality_vars(env, *item, visiting, fuel),
        SType::MapOf(key, value) => match equality_vars(env, *key, visiting, fuel) {
            Err(m) => Err(m),
            Ok(k) => match equality_vars(env, *value, visiting, fuel) {
                Err(m) => Err(m),
                Ok(v) => Ok(k.union(v)),
            },
        },
        SType::Record(fields) => equality_field_vars(env, fields, visiting, fuel),
        SType::Product(items) => equality_all_vars(env, items, visiting, fuel),
        SType::Named(name, args) => match equality_all_vars(env, args, visiting, fuel) {
            Err(m) => Err(m),
            Ok(a) => if visiting.contains(t) {
                Ok(a)
            } else {
                match env.decl(name) {
                    None => Err("unknown nominal type "@ + name),
                    Some(decl) => if fuel == 0 {
                        Err("type expansion limit exceeded at "@ + name)
                    } else {
                        let bound = bound_params(decl.params, args);
                        let inner = visiting.push(t);
                        let body = match decl.body {
                            SDeclBody::Nominal(b) => equality_vars(
                                env,
                                apply(b, bound),
                                inner,
                                (fuel - 1) as nat,
                            ),
                            SDeclBody::Adt(c) => equality_payload_vars(
                                env,
                                c,
                                bound,
                                inner,
                                (fuel - 1) as nat,
                            ),
                            SDeclBody::Native => Err(
                                "type "@ + type_text(t)
                                    + " has opaque native behavior and does not support equality"@,
                            ),
                        };
                        match body {
                            Err(m) => Err(m),
                            Ok(b) => Ok(a.union(b)),
                        }
                    },
                }
            },
        },
        SType::Function(_, _) => Err(
            "function type "@ + type_text(t) + " does not support equality"@,
        ),
        _ => Err("type "@ + type_text(t) + " does not support equality"@),
    }
}

pub open spec fn equality_all_vars(
    env: SEnv,
    items: Seq<SType>,
    visiting: Seq<SType>,
    fuel: nat,
) -> Result<Set<Seq<char>>, Seq<char>>
    decreases fuel, 0nat, items,
{
    if items.len() == 0 {
        Ok(Set::empty())
    } else {
        match equality_vars(env, items[0], visiting, fuel) {
            Err(m) => Err(m),
            Ok(a) => match equality_all_vars(env, items.drop_first(), visiting, fuel) {
                Err(m) => Err(m),
                Ok(b) => Ok(a.union(b)),
            },
        }
    }
}

pub open spec fn equality_field_vars(
    env: SEnv,
    items: Seq<(Seq<char>, SType)>,
    visiting: Seq<SType>,
    fuel: nat,
) -> Result<Set<Seq<char>>, Seq<char>>
    decreases fuel, 0nat, items,
{
    if items.len() == 0 {
        Ok(Set::empty())
    } else {
        match equality_vars(env, items[0].1, visiting, fuel) {
            Err(m) => Err(m),
            Ok(a) => match equality_field_vars(env, items.drop_first(), visiting, fuel) {
                Err(m) => Err(m),
                Ok(b) => Ok(a.union(b)),
            },
        }
    }
}

pub open spec fn equality_payload_vars(
    env: SEnv,
    items: Seq<SConstructor>,
    bound: Map<Seq<char>, SType>,
    visiting: Seq<SType>,
    fuel: nat,
) -> Result<Set<Seq<char>>, Seq<char>>
    decreases fuel, 1nat, items,
{
    if items.len() == 0 {
        Ok(Set::empty())
    } else {
        match equality_vars(env, apply(items[0].payload, bound), visiting, fuel) {
            Err(m) => Err(m),
            Ok(a) => match equality_payload_vars(env, items.drop_first(), bound, visiting, fuel) {
                Err(m) => Err(m),
                Ok(b) => Ok(a.union(b)),
            },
        }
    }
}

/// What the addition of a type's variables to those collected so far comes to.
pub open spec fn collected(
    before: Set<Seq<char>>,
    found: Result<Set<Seq<char>>, Seq<char>>,
    after: Set<Seq<char>>,
    r: Result<(), String>,
) -> bool {
    match found {
        Ok(v) => r is Ok && after == before.union(v),
        Err(m) => r is Err && r->Err_0@ == m,
    }
}

fn is_visiting(visiting: &Vec<MagType>, ty: &MagType) -> (r: bool)
    ensures
        r == types_view(visiting@).contains(ty@),
{
    let ghost all = types_view(visiting@);
    let mut i: usize = 0;
    while i < visiting.len()
        invariant
            i <= visiting.len(),
            all == types_view(visiting@),
            all.len() == visiting@.len(),
            forall|j: int| 0 <= j < i ==> all[j] != ty@,
        decreases visiting.len() - i,
    {
        if visiting[i].equals(ty) {
            assert(all[i as int] == ty@);
            return true;
        }
        i = i + 1;
    }
    false
}

fn equality_admissible_in(
    env: &Env,
    ty: &MagType,
    variables: &mut NameSet,
    visiting: &mut Vec<MagType>,
    fuel: u64,
) -> (r: Result<(), String>)
    ensures
        final(visiting)@ == old(visiting)@,
        collected(
            old(variables)@,
            equality_vars(env@, ty@, types_view(old(visiting)@), fuel as nat),
            final(variables)@,
            r,
        ),
    decreases fuel, 0nat, ty,
{
    match ty {
        MagType::Var(name) => {
            variables.insert(name);
            assert(variables@ =~= old(variables)@.union(Set::empty().insert(name@)));
            Ok(())
        },
        MagType::Unit | MagType::Bool | MagType::Int | MagType::Float | MagType::String
        | MagType::JsonValue | MagType::Never | MagType::EmptyList => {
            assert(variables@ =~= old(variables)@.union(Set::empty()));
            Ok(())
        },
        MagType::List(item) => equality_admissible_in(env, item, variables, visiting, fuel),
        MagType::SetOf(item) => equality_admissible_in(env, item, variables, visiting, fuel),
        MagType::MapOf(key, value) => {
            match equality_admissible_in(env, key, variables, visiting, fuel) {
                Err(m) => Err(m),
                Ok(_) => {
                    let r = equality_admissible_in(env, value, variables, visiting, fuel);
                    proof {
                        let v = types_view(visiting@);
                        let a = equality_vars(env@, key@, v, fuel as nat);
                        let b = equality_vars(env@, value@, v, fuel as nat);
                        if b is Ok {
                            assert(old(variables)@.union(a->Ok_0).union(b->Ok_0)
                                =~= old(variables)@.union(a->Ok_0.union(b->Ok_0)));
                        }
                    }
                    r
                },
            }
        },
        MagType::Record(fields) => {
            equality_admissible_fields(env, fields, variables, visiting, fuel)
        },
        MagType::Product(items) => equality_admissible_all(env, items, variables, visiting, fuel),
        MagType::Named(name, args) => {
            match equality_admissible_all(env, args, variables, visiting, fuel) {
                Err(m) => {
                    return Err(m);
                },
                Ok(_) => {},
            }
            if is_visiting(visiting, ty) {
                return Ok(());
            }
            let decl = match env.type_decl(name) {
                Some(decl) => decl,
                None => {
                    return Err(cat2("unknown nominal type ", name));
                },
            };
            if fuel == 0 {
                return Err(cat2("type expansion limit exceeded at ", name));
            }
            let bound = bind_params(&decl.params, args);
            let ghost outer = visiting@;
            let ghost found = variables@;
            visiting.push(ty.clone());
            assert(types_view(visiting@) =~= types_view(outer).push(ty@));
            let r = match &decl.body {
                TypeDeclBody::Nominal(body) => {
                    let body = substitute(body, &bound);
                    equality_admissible_in(env, &body, variables, visiting, fuel - 1)
                },
                TypeDeclBody::Adt(constructors) => {
                    equality_admissible_payloads(
                        env,
                        constructors,
                        &bound,
                        variables,
                        visiting,
                        fuel - 1,
                    )
                },
                TypeDeclBody::Native => Err(
                    cat3(
                        "type ",
                        &ty.show(),
                        " has opaque native behavior and does not support equality",
                    ),
                ),
            };
            let _ = visiting.pop();
            assert(visiting@ =~= outer);
            proof {
                let a = equality_all_vars(
                    env@,
                    types_view(args@),
                    types_view(outer),
                    fuel as nat,
                )->Ok_0;
                let whole = equality_vars(env@, ty@, types_view(outer), fuel as nat);
                if whole is Ok {
                    let b = match decl@.body {
                        SDeclBody::Nominal(b) => equality_vars(
                            env@,
                            apply(b, bound@),
                            types_view(outer).push(ty@),
                            (fuel - 1) as nat,
                        ),
                        SDeclBody::Adt(c) => equality_payload_vars(
                            env@,
                            c,
                            bound@,
                            types_view(outer).push(ty@),
                            (fuel - 1) as nat,
                        ),
                        SDeclBody::Native => arbitrary(),
                    };
                    assert(old(variables)@.union(a).union(b->Ok_0) =~= old(variables)@.union(
                        a.union(b->Ok_0),
                    ));
                }
            }
            r
        },
        MagType::Function(_, _) => Err(
            cat3("function type ", &ty.show(), " does not support equality"),
        ),
        _ => Err(cat3("type ", &ty.show(), " does not support equality")),
    }
}

fn equality_admissible_all(
    env: &Env,
    items: &Vec<MagType>,
    variables: &mut NameSet,
    visiting: &mut Vec<MagType>,
    fuel: u64,
) -> (r: Result<(), String>)
    ensures
        final(visiting)@ == old(visiting)@,
        collected(
            old(variables)@,
            equality_all_vars(env@, types_view(items@), types_view(old(visiting)@), fuel as nat),
            final(variables)@,
            r,
        ),
    decreases fuel, 0nat, items,
{
    let ghost all = types_view(items@);
    let ghost seen = types_view(visiting@);
    let ghost whole = equality_all_vars(env@, all, seen, fuel as nat);
    let mut i: usize = 0;
    assert(all.skip(0) =~= all);
    while i < items.len()
        invariant
            i <= items.len(),
            all == types_view(items@),
            all.len() == items@.len(),
            visiting@ == old(visiting)@,
            seen == types_view(visiting@),
            whole == equality_all_vars(env@, all, seen, fuel as nat),
            match equality_all_vars(env@, all.skip(i as int), seen, fuel as nat) {
                Ok(rest) => whole is Ok && old(variables)@.union(whole->Ok_0) =~= variables@.union(
                    rest,
                ),
                Err(m) => whole == Err::<Set<Seq<char>>, Seq<char>>(m),
            },
        decreases items.len() - i,
    {
        proof {
            assert(all.skip(i as int)[0] == items@[i as int]@);
            assert(all.skip(i as int).drop_first() =~= all.skip(i + 1));
        }
        let ghost so_far = variables@;
        match equality_admissible_in(env, &items[i], variables, visiting, fuel) {
            Ok(_) => {
                proof {
                    let a = equality_vars(env@, all[i as int], seen, fuel as nat)->Ok_0;
                    let rest = equality_all_vars(env@, all.skip(i + 1), seen, fuel as nat);
                    if rest is Ok {
                        assert(so_far.union(a.union(rest->Ok_0)) =~= variables@.union(rest->Ok_0));
                    }
                }
            },
            Err(m) => {
                return Err(m);
            },
        }
        i = i + 1;
    }
    assert(variables@.union(Set::empty()) =~= variables@);
    Ok(())
}

fn equality_admissible_fields(
    env: &Env,
    items: &Vec<(String, MagType)>,
    variables: &mut NameSet,
    visiting: &mut Vec<MagType>,
    fuel: u64,
) -> (r: Result<(), String>)
    ensures
        final(visiting)@ == old(visiting)@,
        collected(
            old(variables)@,
            equality_field_vars(env@, fields_view(items@), types_view(old(visiting)@), fuel as nat),
            final(variables)@,
            r,
        ),
    decreases fuel, 0nat, items,
{
    let ghost all = fields_view(items@);
    let ghost seen = types_view(visiting@);
    let ghost whole = equality_field_vars(env@, all, seen, fuel as nat);
    let mut i: usize = 0;
    assert(all.skip(0) =~= all);
    while i < items.len()
        invariant
            i <= items.len(),
            all == fields_view(items@),
            all.len() == items@.len(),
            visiting@ == old(visiting)@,
            seen == types_view(visiting@),
            whole == equality_field_vars(env@, all, seen, fuel as nat),
            match equality_field_vars(env@, all.skip(i as int), seen, fuel as nat) {
                Ok(rest) => whole is Ok && old(variables)@.union(whole->Ok_0) =~= variables@.union(
                    rest,
                ),
                Err(m) => whole == Err::<Set<Seq<char>>, Seq<char>>(m),
            },
        decreases items.len() - i,
    {
        proof {
            assert(all.skip(i as int)[0] == (items@[i as int].0@, items@[i as int].1@));
            assert(all.skip(i as int).drop_first() =~= all.skip(i + 1));
        }
        let ghost so_far = variables@;
        match equality_admissible_in(env, &items[i].1, variables, visiting, fuel) {
            Ok(_) => {
                proof {
                    let a = equality_vars(env@, all[i as int].1, seen, fuel as nat)->Ok_0;
                    let rest = equality_field_vars(env@, all.skip(i + 1), seen, fuel as nat);
                    if rest is Ok {
                        assert(so_far.union(a.union(rest->Ok_0)) =~= variables@.union(rest->Ok_0));
                    }
                }
            },
            Err(m) => {
                return Err(m);
            },
        }
        i = i + 1;
    }
    assert(variables@.union(Set::empty()) =~= variables@);
    Ok(())
}

fn equality_admissible_payloads(
    env: &Env,
    items: &Vec<ConstructorDecl>,
    bound: &Substitution,
    variables: &mut NameSet,
    visiting: &mut Vec<MagType>,
    fuel: u64,
) -> (r: Result<(), String>)
    ensures
        final(visiting)@ == old(visiting)@,
        collected(
            old(variables)@,
            equality_payload_vars(
                env@,
                decl_constructors(items@),
                bound@,
                types_view(old(visiting)@),
                fuel as nat,
            ),
            final(variables)@,
            r,
        ),
    decreases fuel, 1nat, items,
{
    let ghost all = decl_constructors(items@);
    let ghost seen = types_view(visiting@);
    let ghost whole = equality_payload_vars(env@, all, bound@, seen, fuel as nat);
    let mut i: usize = 0;
    assert(all.skip(0) =~= all);
    while i < items.len()
        invariant
            i <= items.len(),
            all == decl_constructors(items@),
            all.len() == items@.len(),
            visiting@ == old(visiting)@,
            seen == types_view(visiting@),
            whole == equality_payload_vars(env@, all, bound@, seen, fuel as nat),
            match equality_payload_vars(env@, all.skip(i as int), bound@, seen, fuel as nat) {
                Ok(rest) => whole is Ok && old(variables)@.union(whole->Ok_0) =~= variables@.union(
                    rest,
                ),
                Err(m) => whole == Err::<Set<Seq<char>>, Seq<char>>(m),
            },
        decreases items.len() - i,
    {
        proof {
            assert(all.skip(i as int)[0] == items@[i as int]@);
            assert(all.skip(i as int).drop_first() =~= all.skip(i + 1));
        }
        let ghost so_far = variables@;
        let payload = substitute(&items[i].payload, bound);
        match equality_admissible_in(env, &payload, variables, visiting, fuel) {
            Ok(_) => {
                proof {
                    let a = equality_vars(env@, payload@, seen, fuel as nat)->Ok_0;
                    let rest = equality_payload_vars(
                        env@,
                        all.skip(i + 1),
                        bound@,
                        seen,
                        fuel as nat,
                    );
                    if rest is Ok {
                        assert(so_far.union(a.union(rest->Ok_0)) =~= variables@.union(rest->Ok_0));
                    }
                }
            },
            Err(m) => {
                return Err(m);
            },
        }
        i = i + 1;
    }
    assert(variables@.union(Set::empty()) =~= variables@);
    Ok(())
}

/// The variables that must support equality for a type to support it.
#[verifier::opaque]
pub open spec fn needs_equality(env: SEnv, t: SType) -> Result<Set<Seq<char>>, Seq<char>> {
    equality_vars(env, t, Seq::empty(), expansion_limit(env))
}

pub fn equality_variables(env: &Env, ty: &MagType) -> (r: Result<NameSet, String>)
    ensures
        match r {
            Ok(v) => needs_equality(env@, ty@) == Ok::<Set<Seq<char>>, Seq<char>>(v@),
            Err(m) => needs_equality(env@, ty@) == Err::<Set<Seq<char>>, Seq<char>>(m@),
        },
{
    proof {
        reveal(needs_equality);
    }
    let mut variables = NameSet::new();
    let mut visiting: Vec<MagType> = Vec::new();
    assert(types_view(visiting@) =~= Seq::empty());
    match equality_admissible_in(env, ty, &mut variables, &mut visiting, unfolding_limit(env)) {
        Ok(_) => {
            assert(variables@ =~= Set::empty().union(variables@));
            proof {
                let v = needs_equality(env@, ty@)->Ok_0;
                assert(Set::<Seq<char>>::empty().union(v) =~= v);
            }
            Ok(variables)
        },
        Err(m) => Err(m),
    }
}

/// The table after a type has been required to support equality, and whether it can.
pub open spec fn required_equality(env: SEnv, table: SBindings, t: SType) -> (
    SBindings,
    Result<(), SError>,
) {
    match needs_equality(env, t) {
        Ok(v) => (table.oblige(v), Ok(())),
        Err(m) => (table, type_error(m)),
    }
}

pub fn require_equality_admissible(env: &Env, table: &mut Bindings, ty: &MagType) -> (r: Result<
    (),
    MagError,
>)
    ensures
        (final(table)@, unit_result(r)) == required_equality(env@, old(table)@, ty@),
{
    match equality_variables(env, ty) {
        Ok(variables) => {
            table.record_equality_variables(&variables);
            Ok(())
        },
        Err(m) => Err(MagError::Type(m)),
    }
}

/// The same for each of some types at what stands for their variables, up to the first failure.
pub open spec fn required_all(
    env: SEnv,
    table: SBindings,
    types: Seq<SType>,
    subst: Map<Seq<char>, SType>,
) -> (SBindings, Result<(), SError>)
    decreases types.len(),
{
    if types.len() == 0 {
        (table, Ok(()))
    } else {
        let (after, r) = required_equality(env, table, apply(types[0], subst));
        match r {
            Err(e) => (after, Err(e)),
            Ok(_) => required_all(env, after, types.drop_first(), subst),
        }
    }
}

pub fn validate_equality_requirements(
    env: &Env,
    table: &mut Bindings,
    requirements: &Vec<MagType>,
    subst: &Substitution,
) -> (r: Result<(), MagError>)
    ensures
        (final(table)@, unit_result(r)) == required_all(
            env@,
            old(table)@,
            types_view(requirements@),
            subst@,
        ),
{
    let ghost all = types_view(requirements@);
    let ghost whole = required_all(env@, table@, all, subst@);
    let mut i: usize = 0;
    assert(all.skip(0) =~= all);
    while i < requirements.len()
        invariant
            i <= requirements.len(),
            all == types_view(requirements@),
            all.len() == requirements@.len(),
            whole == required_all(env@, old(table)@, all, subst@),
            whole == required_all(env@, table@, all.skip(i as int), subst@),
        decreases requirements.len() - i,
    {
        proof {
            assert(all.skip(i as int)[0] == requirements@[i as int]@);
            assert(all.skip(i as int).drop_first() =~= all.skip(i + 1));
        }
        let t = substitute(&requirements[i], subst);
        match require_equality_admissible(env, table, &t) {
            Ok(_) => {},
            Err(e) => {
                return Err(e);
            },
        }
        i = i + 1;
    }
    Ok(())
}

} // verus!
