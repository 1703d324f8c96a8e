//! Resolution of open types to closed ones through the declarations in scope.

use vstd::prelude::*;

use crate::ast::{
    clone_decl_constructors, decl_constructors, ConstructorDecl, SConstructor, SDecl, SDeclBody,
    TypeDecl, TypeDeclBody,
};
use crate::concrete::{
    clone_concretes, concrete_fields_view, concretes_view, constructors_view, equal_concretes,
    open_fields, open_type, open_types,
    ConcreteConstructor, ConcreteNamedBody, ConcreteType, SConcrete, SNamedBody,
};
use crate::env::{Env, SEnv};
use crate::error::{MagError, SError};
use crate::substitution::{
    apply, apply_fields, bind_params, bound_params, substitute, substitute_fields, Substitution,
};
use crate::text::{before, cat2, cat3, cat5, comes_before, decimal, same, show_usize, strings};
use crate::types::{fields_view, types_view, MagType, SType};

verus! {

broadcast use vstd::seq_lib::group_seq_properties;

/// How many more unfoldings than type declarations may be nested.
pub const EXPANSION_LIMIT: u64 = 4096;

/// How many declarations and bound variables may be unfolded inside one another. A declaration whose
/// body leads back to it unfolds without end, so bodies that end nest no deeper than there are
/// declarations.
pub open spec fn expansion_limit(env: SEnv) -> nat {
    if env.type_bindings > u64::MAX - EXPANSION_LIMIT {
        u64::MAX as nat
    } else {
        (EXPANSION_LIMIT + env.type_bindings) as nat
    }
}

pub fn unfolding_limit(env: &Env) -> (r: u64)
    ensures
        r as nat == expansion_limit(env@),
{
    if env.type_bindings > u64::MAX - EXPANSION_LIMIT {
        u64::MAX
    } else {
        EXPANSION_LIMIT + env.type_bindings
    }
}

/// A nominal type under resolution: its name and its arguments.
pub type SKey = (Seq<char>, Seq<SConcrete>);

pub open spec fn type_error<T>(message: Seq<char>) -> Result<T, SError> {
    Err(SError::Type(message))
}

pub open spec fn cannot_enter(name: Seq<char>) -> Result<SConcrete, SError> {
    type_error(name + " cannot enter a concrete semantic descriptor"@)
}

pub open spec fn wrong_arguments(name: Seq<char>, expected: nat, got: nat) -> Seq<char> {
    name + " expects "@ + decimal(expected) + " type arguments, got "@ + decimal(got)
}

/// The constructors with `c` put behind those whose names do not come after its own.
pub open spec fn placed(sorted: Seq<SConstructor>, c: SConstructor) -> Seq<SConstructor>
    decreases sorted.len(),
{
    if sorted.len() == 0 {
        seq![c]
    } else if before(c.id.name, sorted.last().id.name) {
        placed(sorted.drop_last(), c).push(sorted.last())
    } else {
        sorted.push(c)
    }
}

/// The constructors in the order of their names, those of one name in the order of declaration.
pub open spec fn by_name(items: Seq<SConstructor>) -> Seq<SConstructor>
    decreases items.len(),
{
    if items.len() == 0 {
        Seq::empty()
    } else {
        placed(by_name(items.drop_last()), items.last())
    }
}

/// The closed type of `t`, or why it has none. `resolving` holds the nominal types whose bodies
/// are being resolved around `t`; `fuel` bounds how many more may be unfolded.
pub open spec fn resolved(env: SEnv, t: SType, resolving: Seq<SKey>, fuel: nat) -> Result<
    SConcrete,
    SError,
>
    decreases fuel, 0nat, t,
{
    match t {
        SType::JsonValue => Ok(SConcrete::JsonValue),
        SType::Unit => Ok(SConcrete::Unit),
        SType::Bool => Ok(SConcrete::Bool),
        SType::Int => Ok(SConcrete::Int),
        SType::Float => Ok(SConcrete::Float),
        SType::String => Ok(SConcrete::String),
        SType::List(item) => match resolved(env, *item, resolving, fuel) {
            Ok(c) => Ok(SConcrete::List(Box::new(c))),
            Err(e) => Err(e),
        },
        SType::SetOf(item) => match resolved(env, *item, resolving, fuel) {
            Ok(c) => Ok(SConcrete::SetOf(Box::new(c))),
            Err(e) => Err(e),
        },
        SType::MapOf(key, value) => match resolved(env, *key, resolving, fuel) {
            Ok(k) => match resolved(env, *value, resolving, fuel) {
                Ok(v) => Ok(SConcrete::MapOf(Box::new(k), Box::new(v))),
                Err(e) => Err(e),
            },
            Err(e) => Err(e),
        },
        SType::Record(fields) => match resolved_fields(env, fields, resolving, fuel) {
            Ok(f) => Ok(SConcrete::Record(f)),
            Err(e) => Err(e),
        },
        SType::Product(items) => match resolved_all(env, items, resolving, fuel) {
            Ok(c) => Ok(SConcrete::Product(c)),
            Err(e) => Err(e),
        },
        SType::Named(name, args) => match env.decl(name) {
            None => type_error("unknown nominal type "@ + name),
            Some(decl) => if decl.params.len() != args.len() {
                type_error(wrong_arguments(name, decl.params.len(), args.len()))
            } else {
                match resolved_all(env, args, resolving, fuel) {
                    Err(e) => Err(e),
                    Ok(arguments) => if resolving.contains((name, arguments)) {
                        type_error("recursive semantic type "@ + name + " is unsupported"@)
                    } else if fuel == 0 {
                        type_error("type expansion limit exceeded at "@ + name)
                    } else {
                        resolved_body(
                            env,
                            name,
                            arguments,
                            decl,
                            bound_params(decl.params, args),
                            resolving.push((name, arguments)),
                            (fuel - 1) as nat,
                        )
                    },
                }
            },
        },
        SType::Var(name) => type_error(
            "unresolved type variable "@ + name + " cannot enter a concrete descriptor"@,
        ),
        SType::EmptyList => type_error(
            "untyped empty-list placeholder cannot enter a concrete descriptor"@,
        ),
        SType::Artifact => cannot_enter("Artifact"@),
        SType::TypeDescriptor => cannot_enter("TypeDescriptor"@),
        SType::TypeSchema => cannot_enter("TypeSchema"@),
        SType::SemanticTypeId => cannot_enter("SemanticTypeId"@),
        SType::PackedValue => cannot_enter("PackedValue"@),
        SType::HostInputs => cannot_enter("HostInputs"@),
        SType::Never => cannot_enter("Never"@),
        SType::TypeTag(_) => cannot_enter("TypeTag"@),
        SType::Function(_, _) => cannot_enter("Fn"@),
    }
}

/// The closed form of a declared type: a nominal one with its body, an algebraic one with its
/// constructors in the order of their names.
pub open spec fn resolved_body(
    env: SEnv,
    name: Seq<char>,
    arguments: Seq<SConcrete>,
    decl: SDecl,
    bound: Map<Seq<char>, SType>,
    resolving: Seq<SKey>,
    fuel: nat,
) -> Result<SConcrete, SError>
    decreases fuel, 2nat, arguments,
{
    match decl.body {
        SDeclBody::Nominal(SType::Record(fields)) => match resolved_fields(
            env,
            apply_fields(fields, bound),
            resolving,
            fuel,
        ) {
            Ok(f) => Ok(SConcrete::Named(name, arguments, SNamedBody::Fields(f))),
            Err(e) => Err(e),
        },
        SDeclBody::Nominal(body) => match resolved(env, apply(body, bound), resolving, fuel) {
            Ok(c) => Ok(SConcrete::Named(name, arguments, SNamedBody::Alias(Box::new(c)))),
            Err(e) => Err(e),
        },
        SDeclBody::Adt(constructors) => match resolved_constructors(
            env,
            by_name(constructors),
            bound,
            resolving,
            fuel,
        ) {
            Ok(c) => Ok(SConcrete::Adt(name, arguments, c)),
            Err(e) => Err(e),
        },
        SDeclBody::Native => type_error(
            "native type "@ + decl.name + " did not lower to its concrete representation"@,
        ),
    }
}

pub open spec fn resolved_all(
    env: SEnv,
    items: Seq<SType>,
    resolving: Seq<SKey>,
    fuel: nat,
) -> Result<Seq<SConcrete>, SError>
    decreases fuel, 0nat, items,
{
    if items.len() == 0 {
        Ok(Seq::empty())
    } else {
        match resolved(env, items[0], resolving, fuel) {
            Err(e) => Err(e),
            Ok(first) => match resolved_all(env, items.drop_first(), resolving, fuel) {
                Err(e) => Err(e),
                Ok(rest) => Ok(seq![first] + rest),
            },
        }
    }
}

pub open spec fn resolved_fields(
    env: SEnv,
    items: Seq<(Seq<char>, SType)>,
    resolving: Seq<SKey>,
    fuel: nat,
) -> Result<Seq<(Seq<char>, SConcrete)>, SError>
    decreases fuel, 0nat, items,
{
    if items.len() == 0 {
        Ok(Seq::empty())
    } else {
        match resolved(env, items[0].1, resolving, fuel) {
            Err(e) => Err(e),
            Ok(first) => match resolved_fields(env, items.drop_first(), resolving, fuel) {
                Err(e) => Err(e),
                Ok(rest) => Ok(seq![(items[0].0, first)] + rest),
            },
        }
    }
}

pub open spec fn resolved_constructors(
    env: SEnv,
    items: Seq<SConstructor>,
    bound: Map<Seq<char>, SType>,
    resolving: Seq<SKey>,
    fuel: nat,
) -> Result<Seq<(Seq<char>, SConcrete)>, SError>
    decreases fuel, 1nat, items,
{
    if items.len() == 0 {
        Ok(Seq::empty())
    } else {
        match resolved(env, apply(items[0].payload, bound), resolving, fuel) {
            Err(e) => Err(e),
            Ok(first) => match resolved_constructors(
                env,
                items.drop_first(),
                bound,
                resolving,
                fuel,
            ) {
                Err(e) => Err(e),
                Ok(rest) => Ok(seq![(items[0].id.name, first)] + rest),
            },
        }
    }
}

/// The closed type of `t`, or why it has none.
#[verifier::opaque]
pub open spec fn closed_type(env: SEnv, t: SType) -> Result<SConcrete, SError> {
    resolved(env, t, Seq::empty(), expansion_limit(env))
}

pub open spec fn keys_view(items: Seq<(String, Vec<ConcreteType>)>) -> Seq<SKey> {
    Seq::new(items.len(), |i: int| (items[i].0@, concretes_view(items[i].1@)))
}

pub open spec fn concrete_result(r: Result<ConcreteType, MagError>) -> Result<SConcrete, SError> {
    match r {
        Ok(c) => Ok(c@),
        Err(e) => Err(e@),
    }
}

fn type_failure<T>(message: String) -> (r: Result<T, MagError>)
    ensures
        r is Err,
        r->Err_0@ == SError::Type(message@),
{
    Err(MagError::Type(message))
}

fn unsupported<T>(name: &str) -> (r: Result<T, MagError>)
    ensures
        r is Err,
        r->Err_0@ == SError::Type(name@ + " cannot enter a concrete semantic descriptor"@),
{
    Err(MagError::Type(cat2(name, " cannot enter a concrete semantic descriptor")))
}

fn is_resolving(
    resolving: &Vec<(String, Vec<ConcreteType>)>,
    name: &str,
    arguments: &Vec<ConcreteType>,
) -> (r: bool)
    ensures
        r == keys_view(resolving@).contains((name@, concretes_view(arguments@))),
{
    let ghost all = keys_view(resolving@);
    let ghost key = (name@, concretes_view(arguments@));
    let mut i: usize = 0;
    while i < resolving.len()
        invariant
            i <= resolving.len(),
            all == keys_view(resolving@),
            key == (name@, concretes_view(arguments@)),
            forall|j: int| 0 <= j < i ==> all[j] != key,
        decreases resolving.len() - i,
    {
        if same(&resolving[i].0, name) && equal_concretes(&resolving[i].1, arguments) {
            assert(all[i as int] == key);
            return true;
        }
        i = i + 1;
    }
    false
}

fn place(sorted: &mut Vec<ConstructorDecl>, c: ConstructorDecl)
    ensures
        decl_constructors(final(sorted)@) == placed(decl_constructors(old(sorted)@), c@),
    decreases old(sorted)@.len(),
{
    let ghost all = decl_constructors(sorted@);
    if sorted.len() == 0 {
        sorted.push(c);
        assert(decl_constructors(sorted@) =~= seq![c@]);
        return ;
    }
    let last: usize = sorted.len() - 1;
    assert(all.last() == sorted@[last as int]@);
    if comes_before(&c.id.name, &sorted[last].id.name) {
        let held = sorted.pop().unwrap();
        assert(decl_constructors(sorted@) =~= all.drop_last());
        place(sorted, c);
        let ghost so_far = decl_constructors(sorted@);
        sorted.push(held);
        assert(decl_constructors(sorted@) =~= so_far.push(held@));
    } else {
        sorted.push(c);
        assert(decl_constructors(sorted@) =~= all.push(c@));
    }
}

fn sort_by_name(items: Vec<ConstructorDecl>) -> (r: Vec<ConstructorDecl>)
    ensures
        decl_constructors(r@) == by_name(decl_constructors(items@)),
{
    let ghost all = decl_constructors(items@);
    let mut r: Vec<ConstructorDecl> = Vec::new();
    let mut i: usize = 0;
    assert(all.take(0) =~= Seq::empty());
    assert(decl_constructors(r@) =~= Seq::empty());
    while i < items.len()
        invariant
            i <= items.len(),
            all == decl_constructors(items@),
            decl_constructors(r@) == by_name(all.take(i as int)),
        decreases items.len() - i,
    {
        proof {
            assert(all.take(i + 1).drop_last() =~= all.take(i as int));
            assert(all.take(i + 1).last() == items@[i as int]@);
        }
        place(&mut r, items[i].clone());
        i = i + 1;
    }
    assert(all.take(items.len() as int) =~= all);
    r
}

fn resolve_in(
    env: &Env,
    ty: &MagType,
    resolving: &mut Vec<(String, Vec<ConcreteType>)>,
    fuel: u64,
) -> (r: Result<ConcreteType, MagError>)
    ensures
        final(resolving)@ == old(resolving)@,
        concrete_result(r) == resolved(env@, ty@, keys_view(old(resolving)@), fuel as nat),
    decreases fuel, 0nat, ty,
{
    match ty {
        MagType::JsonValue => Ok(ConcreteType::JsonValue),
        MagType::Unit => Ok(ConcreteType::Unit),
        MagType::Bool => Ok(ConcreteType::Bool),
        MagType::Int => Ok(ConcreteType::Int),
        MagType::Float => Ok(ConcreteType::Float),
        MagType::String => Ok(ConcreteType::String),
        MagType::List(item) => match resolve_in(env, item, resolving, fuel) {
            Ok(c) => Ok(ConcreteType::List { item: Box::new(c) }),
            Err(e) => Err(e),
        },
        MagType::SetOf(item) => match resolve_in(env, item, resolving, fuel) {
            Ok(c) => Ok(ConcreteType::SetOf { item: Box::new(c) }),
            Err(e) => Err(e),
        },
        MagType::MapOf(key, value) => match resolve_in(env, key, resolving, fuel) {
            Ok(k) => match resolve_in(env, value, resolving, fuel) {
                Ok(v) => Ok(ConcreteType::MapOf { key: Box::new(k), value: Box::new(v) }),
                Err(e) => Err(e),
            },
            Err(e) => Err(e),
        },
        MagType::Record(fields) => match resolve_fields(env, fields, resolving, fuel) {
            Ok(fields) => Ok(ConcreteType::Record { fields }),
            Err(e) => Err(e),
        },
        MagType::Product(items) => match resolve_all(env, items, resolving, fuel) {
            Ok(items) => Ok(ConcreteType::Product { items }),
            Err(e) => Err(e),
        },
        MagType::Named(name, args) => {
            assert(types_view(args@).len() == args@.len());
            let decl = match env.type_decl(name) {
                Some(decl) => decl,
                None => {
                    return type_failure(cat2("unknown nominal type ", name));
                },
            };
            if decl.params.len() != args.len() {
                return type_failure(
                    cat5(
                        name,
                        " expects ",
                        &show_usize(decl.params.len()),
                        " type arguments, got ",
                        &show_usize(args.len()),
                    ),
                );
            }
            let arguments = match resolve_all(env, args, resolving, fuel) {
                Ok(arguments) => arguments,
                Err(e) => {
                    return Err(e);
                },
            };
            if is_resolving(resolving, name, &arguments) {
                return type_failure(cat3("recursive semantic type ", name, " is unsupported"));
            }
            if fuel == 0 {
                return type_failure(cat2("type expansion limit exceeded at ", name));
            }
            let bound = bind_params(&decl.params, args);
            let ghost outer = resolving@;
            let key = (name.clone(), clone_concretes(&arguments));
            resolving.push(key);
            assert(keys_view(resolving@) =~= keys_view(outer).push(
                (name@, concretes_view(arguments@)),
            ));
            let result = resolve_body(env, name, arguments, decl, &bound, resolving, fuel - 1);
            let _ = resolving.pop();
            assert(resolving@ =~= outer);
            result
        },
        MagType::Var(name) => type_failure(
            cat3("unresolved type variable ", name, " cannot enter a concrete descriptor"),
        ),
        MagType::EmptyList => type_failure(
            "untyped empty-list placeholder cannot enter a concrete descriptor".to_owned(),
        ),
        MagType::Artifact => unsupported("Artifact"),
        MagType::TypeDescriptor => unsupported("TypeDescriptor"),
        MagType::TypeSchema => unsupported("TypeSchema"),
        MagType::SemanticTypeId => unsupported("SemanticTypeId"),
        MagType::PackedValue => unsupported("PackedValue"),
        MagType::HostInputs => unsupported("HostInputs"),
        MagType::Never => unsupported("Never"),
        MagType::TypeTag(_) => unsupported("TypeTag"),
        MagType::Function(_, _) => unsupported("Fn"),
    }
}

fn resolve_body(
    env: &Env,
    name: &str,
    arguments: Vec<ConcreteType>,
    decl: TypeDecl,
    bound: &Substitution,
    resolving: &mut Vec<(String, Vec<ConcreteType>)>,
    fuel: u64,
) -> (r: Result<ConcreteType, MagError>)
    ensures
        final(resolving)@ == old(resolving)@,
        concrete_result(r) == resolved_body(
            env@,
            name@,
            concretes_view(arguments@),
            decl@,
            bound@,
            keys_view(old(resolving)@),
            fuel as nat,
        ),
    decreases fuel, 2nat, decl,
{
    match decl.body {
        TypeDeclBody::Nominal(MagType::Record(fields)) => {
            let fields = substitute_fields(&fields, bound);
            match resolve_fields(env, &fields, resolving, fuel) {
                Ok(fields) => {
                    let body = ConcreteNamedBody::Fields { fields };
                    assert(body@ == SNamedBody::Fields(concrete_fields_view(fields@)));
                    Ok(ConcreteType::Named { name: name.to_owned(), arguments, body })
                },
                Err(e) => Err(e),
            }
        },
        TypeDeclBody::Nominal(body) => {
            let body = substitute(&body, bound);
            match resolve_in(env, &body, resolving, fuel) {
                Ok(c) => {
                    let ghost model = c@;
                    let body = ConcreteNamedBody::Alias { ty: Box::new(c) };
                    assert(body@ == SNamedBody::Alias(Box::new(model)));
                    Ok(ConcreteType::Named { name: name.to_owned(), arguments, body })
                },
                Err(e) => Err(e),
            }
        },
        TypeDeclBody::Adt(constructors) => {
            let sorted = sort_by_name(constructors);
            match resolve_constructors(env, &sorted, bound, resolving, fuel) {
                Ok(constructors) => Ok(
                    ConcreteType::Adt { name: name.to_owned(), arguments, constructors },
                ),
                Err(e) => Err(e),
            }
        },
        TypeDeclBody::Native => type_failure(
            cat3(
                "native type ",
                &decl.name,
                " did not lower to its concrete representation",
            ),
        ),
    }
}

fn resolve_all(
    env: &Env,
    items: &Vec<MagType>,
    resolving: &mut Vec<(String, Vec<ConcreteType>)>,
    fuel: u64,
) -> (r: Result<Vec<ConcreteType>, MagError>)
    ensures
        final(resolving)@ == old(resolving)@,
        match r {
            Ok(c) => resolved_all(
                env@,
                types_view(items@),
                keys_view(old(resolving)@),
                fuel as nat,
            ) == Ok::<Seq<SConcrete>, SError>(concretes_view(c@)),
            Err(e) => resolved_all(
                env@,
                types_view(items@),
                keys_view(old(resolving)@),
                fuel as nat,
            ) == Err::<Seq<SConcrete>, SError>(e@),
        },
    decreases fuel, 0nat, items,
{
    let ghost all = types_view(items@);
    let ghost keys = keys_view(resolving@);
    let ghost whole = resolved_all(env@, all, keys, fuel as nat);
    let mut r: Vec<ConcreteType> = Vec::new();
    let mut i: usize = 0;
    assert(all.skip(0) =~= all);
    assert(concretes_view(r@) =~= Seq::empty());
    while i < items.len()
        invariant
            i <= items.len(),
            all == types_view(items@),
            all.len() == items.len(),
            resolving@ == old(resolving)@,
            keys == keys_view(resolving@),
            whole == resolved_all(env@, all, keys, fuel as nat),
            whole == match resolved_all(env@, all.skip(i as int), keys, fuel as nat) {
                Ok(rest) => Ok(concretes_view(r@) + rest),
                Err(e) => Err(e),
            },
        decreases items.len() - i,
    {
        let ghost before = concretes_view(r@);
        proof {
            assert(all.skip(i as int)[0] == items@[i as int]@);
            assert(all.skip(i as int).drop_first() =~= all.skip(i + 1));
        }
        match resolve_in(env, &items[i], resolving, fuel) {
            Ok(c) => {
                r.push(c);
                assert(concretes_view(r@) =~= before.push(c@));
                proof {
                    match resolved_all(env@, all.skip(i + 1), keys, fuel as nat) {
                        Ok(rest) => {
                            assert(before + (seq![c@] + rest) =~= before.push(c@) + rest);
                        },
                        Err(_) => {},
                    }
                }
            },
            Err(e) => {
                return Err(e);
            },
        }
        i = i + 1;
    }
    assert(concretes_view(r@) + Seq::empty() =~= concretes_view(r@));
    Ok(r)
}

fn resolve_fields(
    env: &Env,
    items: &Vec<(String, MagType)>,
    resolving: &mut Vec<(String, Vec<ConcreteType>)>,
    fuel: u64,
) -> (r: Result<Vec<(String, ConcreteType)>, MagError>)
    ensures
        final(resolving)@ == old(resolving)@,
        match r {
            Ok(c) => resolved_fields(
                env@,
                fields_view(items@),
                keys_view(old(resolving)@),
                fuel as nat,
            ) == Ok::<Seq<(Seq<char>, SConcrete)>, SError>(concrete_fields_view(c@)),
            Err(e) => resolved_fields(
                env@,
                fields_view(items@),
                keys_view(old(resolving)@),
                fuel as nat,
            ) == Err::<Seq<(Seq<char>, SConcrete)>, SError>(e@),
        },
    decreases fuel, 0nat, items,
{
    let ghost all = fields_view(items@);
    let ghost keys = keys_view(resolving@);
    let ghost whole = resolved_fields(env@, all, keys, fuel as nat);
    let mut r: Vec<(String, ConcreteType)> = Vec::new();
    let mut i: usize = 0;
    assert(all.skip(0) =~= all);
    assert(concrete_fields_view(r@) =~= Seq::empty());
    while i < items.len()
        invariant
            i <= items.len(),
            all == fields_view(items@),
            all.len() == items.len(),
            resolving@ == old(resolving)@,
            keys == keys_view(resolving@),
            whole == resolved_fields(env@, all, keys, fuel as nat),
            whole == match resolved_fields(env@, all.skip(i as int), keys, fuel as nat) {
                Ok(rest) => Ok(concrete_fields_view(r@) + rest),
                Err(e) => Err(e),
            },
        decreases items.len() - i,
    {
        let ghost before = concrete_fields_view(r@);
        proof {
            assert(all.skip(i as int)[0] == (items@[i as int].0@, items@[i as int].1@));
            assert(all.skip(i as int).drop_first() =~= all.skip(i + 1));
        }
        match resolve_in(env, &items[i].1, resolving, fuel) {
            Ok(c) => {
                let name = items[i].0.clone();
                r.push((name, c));
                assert(concrete_fields_view(r@) =~= before.push((name@, c@)));
                proof {
                    match resolved_fields(env@, all.skip(i + 1), keys, fuel as nat) {
                        Ok(rest) => {
                            assert(before + (seq![(name@, c@)] + rest) =~= before.push((name@, c@))
                                + rest);
                        },
                        Err(_) => {},
                    }
                }
            },
            Err(e) => {
                return Err(e);
            },
        }
        i = i + 1;
    }
    assert(concrete_fields_view(r@) + Seq::empty() =~= concrete_fields_view(r@));
    Ok(r)
}

fn resolve_constructors(
    env: &Env,
    items: &Vec<ConstructorDecl>,
    bound: &Substitution,
    resolving: &mut Vec<(String, Vec<ConcreteType>)>,
    fuel: u64,
) -> (r: Result<Vec<ConcreteConstructor>, MagError>)
    ensures
        final(resolving)@ == old(resolving)@,
        match r {
            Ok(c) => resolved_constructors(
                env@,
                decl_constructors(items@),
                bound@,
                keys_view(old(resolving)@),
                fuel as nat,
            ) == Ok::<Seq<(Seq<char>, SConcrete)>, SError>(constructors_view(c@)),
            Err(e) => resolved_constructors(
                env@,
                decl_constructors(items@),
                bound@,
                keys_view(old(resolving)@),
                fuel as nat,
            ) == Err::<Seq<(Seq<char>, SConcrete)>, SError>(e@),
        },
    decreases fuel, 1nat, items,
{
    let ghost all = decl_constructors(items@);
    let ghost keys = keys_view(resolving@);
    let ghost whole = resolved_constructors(env@, all, bound@, keys, fuel as nat);
    let mut r: Vec<ConcreteConstructor> = Vec::new();
    let mut i: usize = 0;
    assert(all.skip(0) =~= all);
    assert(constructors_view(r@) =~= Seq::empty());
    while i < items.len()
        invariant
            i <= items.len(),
            all == decl_constructors(items@),
            all.len() == items.len(),
            resolving@ == old(resolving)@,
            keys == keys_view(resolving@),
            whole == resolved_constructors(env@, all, bound@, keys, fuel as nat),
            whole == match resolved_constructors(
                env@,
                all.skip(i as int),
                bound@,
                keys,
                fuel as nat,
            ) {
                Ok(rest) => Ok(constructors_view(r@) + rest),
                Err(e) => Err(e),
            },
        decreases items.len() - i,
    {
        let ghost before = constructors_view(r@);
        proof {
            assert(all.skip(i as int)[0] == items@[i as int]@);
            assert(all.skip(i as int).drop_first() =~= all.skip(i + 1));
        }
        let payload = substitute(&items[i].payload, bound);
        match resolve_in(env, &payload, resolving, fuel) {
            Ok(c) => {
                let name = items[i].id.name.clone();
                r.push(ConcreteConstructor { name, payload: c });
                assert(constructors_view(r@) =~= before.push((name@, c@)));
                proof {
                    match resolved_constructors(env@, all.skip(i + 1), bound@, keys, fuel as nat) {
                        Ok(rest) => {
                            assert(before + (seq![(name@, c@)] + rest) =~= before.push((name@, c@))
                                + rest);
                        },
                        Err(_) => {},
                    }
                }
            },
            Err(e) => {
                return Err(e);
            },
        }
        i = i + 1;
    }
    assert(constructors_view(r@) + Seq::empty() =~= constructors_view(r@));
    Ok(r)
}

impl ConcreteType {
    /// The closed type of an open one, in the declarations that an environment sees.
    pub fn resolve(env: &Env, ty: &MagType) -> (r: Result<ConcreteType, MagError>)
        ensures
            concrete_result(r) == closed_type(env@, ty@),
    {
        proof {
            reveal(closed_type);
        }
        let mut resolving: Vec<(String, Vec<ConcreteType>)> = Vec::new();
        assert(keys_view(resolving@) =~= Seq::empty());
        resolve_in(env, ty, &mut resolving, unfolding_limit(env))
    }
}

/// Opening what a type was resolved to gives the type.
pub proof fn resolved_types_open_to_themselves(env: SEnv, t: SType)
    ensures
        closed_type(env, t) is Ok ==> open_type(closed_type(env, t)->Ok_0) == t,
{
    reveal(closed_type);
    resolving_keeps_the_type(env, t, Seq::empty(), expansion_limit(env));
}

proof fn resolving_keeps_the_type(env: SEnv, t: SType, resolving: Seq<SKey>, fuel: nat)
    ensures
        resolved(env, t, resolving, fuel) is Ok ==> open_type(
            resolved(env, t, resolving, fuel)->Ok_0,
        ) == t,
    decreases t,
{
    reveal_with_fuel(resolved, 2);
    reveal_with_fuel(resolved_body, 2);
    match t {
        SType::List(item) => {
            resolving_keeps_the_type(env, *item, resolving, fuel);
        },
        SType::SetOf(item) => {
            resolving_keeps_the_type(env, *item, resolving, fuel);
        },
        SType::MapOf(key, value) => {
            resolving_keeps_the_type(env, *key, resolving, fuel);
            resolving_keeps_the_type(env, *value, resolving, fuel);
        },
        SType::Record(fields) => {
            resolving_keeps_fields(env, fields, resolving, fuel);
        },
        SType::Product(items) => {
            resolving_keeps_all(env, items, resolving, fuel);
        },
        SType::Named(name, args) => {
            resolving_keeps_all(env, args, resolving, fuel);
        },
        _ => {},
    }
}

proof fn resolving_keeps_all(env: SEnv, items: Seq<SType>, resolving: Seq<SKey>, fuel: nat)
    ensures
        resolved_all(env, items, resolving, fuel) is Ok ==> open_types(
            resolved_all(env, items, resolving, fuel)->Ok_0,
        ) == items,
    decreases items,
{
    let r = resolved_all(env, items, resolving, fuel);
    if items.len() == 0 {
        assert(r is Ok ==> open_types(r->Ok_0) =~= items);
    } else {
        resolving_keeps_the_type(env, items[0], resolving, fuel);
        resolving_keeps_all(env, items.drop_first(), resolving, fuel);
        if r is Ok {
            let rest = resolved_all(env, items.drop_first(), resolving, fuel)->Ok_0;
            assert(r->Ok_0.drop_first() =~= rest);
            assert forall|i: int| 0 <= i < items.len() implies open_types(r->Ok_0)[i]
                == items[i] by {
                if i > 0 {
                    assert(open_types(rest)[i - 1] == open_type(rest[i - 1]));
                    assert(items.drop_first()[i - 1] == items[i]);
                }
            }
            assert(open_types(rest).len() == rest.len());
            assert(open_types(r->Ok_0) =~= items);
        }
    }
}

proof fn resolving_keeps_fields(
    env: SEnv,
    items: Seq<(Seq<char>, SType)>,
    resolving: Seq<SKey>,
    fuel: nat,
)
    ensures
        resolved_fields(env, items, resolving, fuel) is Ok ==> open_fields(
            resolved_fields(env, items, resolving, fuel)->Ok_0,
        ) == items,
    decreases items,
{
    let r = resolved_fields(env, items, resolving, fuel);
    if items.len() == 0 {
        assert(r is Ok ==> open_fields(r->Ok_0) =~= items);
    } else {
        resolving_keeps_the_type(env, items[0].1, resolving, fuel);
        resolving_keeps_fields(env, items.drop_first(), resolving, fuel);
        if r is Ok {
            let rest = resolved_fields(env, items.drop_first(), resolving, fuel)->Ok_0;
            assert(r->Ok_0.drop_first() =~= rest);
            assert forall|i: int| 0 <= i < items.len() implies open_fields(r->Ok_0)[i]
                == items[i] by {
                if i > 0 {
                    assert(open_fields(rest)[i - 1] == (rest[i - 1].0, open_type(rest[i - 1].1)));
                    assert(items.drop_first()[i - 1] == items[i]);
                }
            }
            assert(open_fields(rest).len() == rest.len());
            assert(open_fields(r->Ok_0) =~= items);
        }
    }
}

} // verus!
