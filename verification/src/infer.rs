//! Inference: the type of an authored expression among the types of its local names.

use vstd::prelude::*;

use crate::ast::{
    decl_constructors, values_view, ConstructorDeclarationId, SConstructorId, SValue, Value,
};
use crate::authored::{
    authoring_failure, expr_fields_view, exprs_view, match_arms_view, parameters_view, Expr,
    Function, MatchArm, Parameter, SAuthoredType, SExpr, SFunction, SMatchArm, Type,
};
use crate::bindings::{Bindings, SBindings};
use crate::builtins::{bvar, list, map_of, set_of, slist, smap, sset, stag, tag, var};
use crate::compatible::{
    compatible, compatible_alone, field_named, fit_any, fit_result, fits, SSubst,
};
use crate::env::{is_data, keyed, value_result, with_key, Env, SEnv};
use crate::error::{MagError, SError};
use crate::resolve::{expansion_limit, type_error};
use crate::substitution::{
    apply, collect_vars, has_type_variables, occurs, substitute, vars, NameSet, Substitution,
};
use crate::text::{
    cat2, cat3, cat4, cat5, cat6, decimal, join, joined, quoted, quoted_text, same, show_usize,
    strings,
};
use crate::type_rules::{
    adt_constructors, constructor_ids, constructor_of, constructors_of, denoted, ensure_adt_exhaustive,
    exhaustive, field_of, field_type, has_constructor, instantiated_constructor, opt_mag, opt_str,
    put_field, require_equality_admissible, required_equality, resolve_type, type_result,
    unit_result, with_field,
};
use crate::types::{
    clone_types, equal_types, fields_view, show_types, type_text, type_texts, types_view, MagType,
    SType,
};
use crate::value_types::{opt_type, type_of, value_type};

verus! {

broadcast use vstd::seq_lib::group_seq_properties;

/// The types that the local names have, innermost last.
pub type Locals = Vec<(String, Vec<MagType>)>;

/// The model of [`Locals`].
pub type SLocals = Seq<(Seq<char>, Seq<SType>)>;

/// The table after an expression has been looked at, and its type or why it has none.
pub type STyped = (SBindings, Result<SType, SError>);

pub open spec fn locals_view(items: Seq<(String, Vec<MagType>)>) -> SLocals {
    Seq::new(items.len(), |i: int| (items[i].0@, types_view(items[i].1@)))
}

/// The type variables that occur in the types of the locals.
#[verifier::opaque]
pub open spec fn local_vars(locals: SLocals) -> Set<Seq<char>> {
    Set::new(|n: Seq<char>| local_occurs(locals, n))
}

pub open spec fn local_occurs(locals: SLocals, n: Seq<char>) -> bool {
    exists|i: int, j: int|
        0 <= i < locals.len() && 0 <= j < locals[i].1.len() && occurs(
            #[trigger] locals[i].1[j],
            n,
        )
}

pub fn local_type_vars(locals: &Locals) -> (r: NameSet)
    ensures
        r@ == local_vars(locals_view(locals@)),
{
    proof {
        reveal(local_vars);
    }
    let ghost all = locals_view(locals@);
    let mut r = NameSet::new();
    let mut i: usize = 0;
    while i < locals.len()
        invariant
            i <= locals.len(),
            all == locals_view(locals@),
            forall|n: Seq<char>|
                #[trigger] r@.contains(n) ==> local_occurs(all, n),
            forall|k: int, j: int, n: Seq<char>|
                0 <= k < i && 0 <= j < all[k].1.len() && occurs(#[trigger] all[k].1[j], n)
                    ==> #[trigger] r@.contains(n),
        decreases locals.len() - i,
    {
        let mut j: usize = 0;
        assert(all[i as int].1 == types_view(locals@[i as int].1@));
        assert(all[i as int].1.len() == locals@[i as int].1@.len());
        while j < locals[i].1.len()
            invariant
                i < locals.len(),
                j <= locals@[i as int].1@.len(),
                all == locals_view(locals@),
                all[i as int].1 == types_view(locals@[i as int].1@),
                all[i as int].1.len() == locals@[i as int].1@.len(),
                forall|n: Seq<char>| #[trigger] r@.contains(n) ==> local_occurs(all, n),
                forall|k: int, l: int, n: Seq<char>|
                    0 <= k < i && 0 <= l < all[k].1.len() && occurs(#[trigger] all[k].1[l], n)
                        ==> #[trigger] r@.contains(n),
                forall|l: int, n: Seq<char>|
                    0 <= l < j && occurs(#[trigger] all[i as int].1[l], n)
                        ==> #[trigger] r@.contains(n),
            decreases locals@[i as int].1@.len() - j,
        {
            collect_vars(&locals[i].1[j], &mut r);
            proof {
                assert(all[i as int].1[j as int] == locals@[i as int].1@[j as int]@);
            }
            j = j + 1;
        }
        i = i + 1;
    }
    assert forall|n: Seq<char>| r@.contains(n) <==> local_occurs(all, n) by {
        if local_occurs(all, n) {
            let (k, j) = choose|k: int, j: int|
                0 <= k < all.len() && 0 <= j < all[k].1.len() && occurs(
                    #[trigger] all[k].1[j],
                    n,
                );
            assert(r@.contains(n));
        }
    }
    assert(r@ =~= local_vars(all));
    r
}

/// The locals with one more type under a name, which must not have it yet.
#[verifier::opaque]
pub open spec fn with_local(locals: SLocals, name: Seq<char>, t: SType) -> Result<SLocals, SError> {
    let types = match keyed(locals, name, 0) {
        Some(types) => types,
        None => Seq::empty(),
    };
    if types.contains(t) {
        type_error("duplicate visible overload "@ + name + ": "@ + type_text(t))
    } else {
        Ok(with_key(locals, name, types.push(t), 0))
    }
}

fn local_index(locals: &Locals, name: &str) -> (r: Option<usize>)
    ensures
        match r {
            Some(i) => {
                &&& i < locals@.len()
                &&& keyed(locals_view(locals@), name@, 0) == Some(types_view(locals@[i as int].1@))
                &&& locals@[i as int].0@ == name@
                &&& forall|v: Seq<SType>|
                    with_key(locals_view(locals@), name@, v, 0) == locals_view(locals@).update(
                        i as int,
                        (name@, v),
                    )
            },
            None => {
                &&& keyed(locals_view(locals@), name@, 0) is None
                &&& forall|v: Seq<SType>|
                    with_key(locals_view(locals@), name@, v, 0) == locals_view(locals@).push(
                        (name@, v),
                    )
            },
        },
{
    let ghost all = locals_view(locals@);
    let mut i: usize = 0;
    while i < locals.len()
        invariant
            i <= locals.len(),
            all == locals_view(locals@),
            keyed(all, name@, 0) == keyed(all, name@, i as nat),
            forall|v: Seq<SType>| with_key(all, name@, v, 0) == with_key(all, name@, v, i as nat),
        decreases locals.len() - i,
    {
        if same(&locals[i].0, name) {
            return Some(i);
        }
        i = i + 1;
    }
    None
}

pub fn has_type(types: &Vec<MagType>, t: &MagType) -> (r: bool)
    ensures
        r == types_view(types@).contains(t@),
{
    let ghost all = types_view(types@);
    let mut i: usize = 0;
    while i < types.len()
        invariant
            i <= types.len(),
            all == types_view(types@),
            all.len() == types@.len(),
            forall|j: int| 0 <= j < i ==> all[j] != t@,
        decreases types.len() - i,
    {
        if types[i].equals(t) {
            assert(all[i as int] == t@);
            return true;
        }
        i = i + 1;
    }
    false
}

pub fn clone_locals(locals: &Locals) -> (r: Locals)
    ensures
        locals_view(r@) == locals_view(locals@),
{
    let mut r: Locals = Vec::new();
    let mut i: usize = 0;
    while i < locals.len()
        invariant
            i <= locals.len(),
            r.len() == i,
            forall|j: int|
                0 <= j < i ==> (#[trigger] r@[j]).0@ == locals@[j].0@ && types_view(r@[j].1@)
                    == types_view(locals@[j].1@),
        decreases locals.len() - i,
    {
        r.push((locals[i].0.clone(), clone_types(&locals[i].1)));
        i = i + 1;
    }
    assert(locals_view(r@) =~= locals_view(locals@));
    r
}

pub fn add_local(locals: &mut Locals, name: &str, ty: MagType) -> (r: Result<(), MagError>)
    ensures
        match with_local(locals_view(old(locals)@), name@, ty@) {
            Ok(after) => r is Ok && locals_view(final(locals)@) == after,
            Err(e) => r is Err && r->Err_0@ == e && final(locals)@ == old(locals)@,
        },
{
    proof {
        reveal(with_local);
    }
    let ghost all = locals_view(locals@);
    let ghost model = ty@;
    match local_index(locals, name) {
        Some(i) => {
            if has_type(&locals[i].1, &ty) {
                return Err(
                    MagError::Type(cat4("duplicate visible overload ", name, ": ", &ty.show())),
                );
            }
            let mut types = clone_types(&locals[i].1);
            let ghost before = types_view(types@);
            types.push(ty);
            assert(types_view(types@) =~= before.push(model));
            let label = name.to_owned();
            locals.set(i, (label, types));
            assert(locals_view(locals@) =~= all.update(i as int, (name@, before.push(model))));
            Ok(())
        },
        None => {
            let types = vec![ty];
            assert(types_view(types@) =~= Seq::<SType>::empty().push(model));
            let label = name.to_owned();
            locals.push((label, types));
            assert(locals_view(locals@) =~= all.push((name@, Seq::empty().push(model))));
            Ok(())
        },
    }
}

pub open spec fn arity_message(name: Seq<char>, expected: nat, got: nat) -> Seq<char> {
    name + " expects "@ + decimal(expected) + " arguments, got "@ + decimal(got)
}

/// The type of a tag's subject, where the type is that of a tag.
pub open spec fn tagged(r: Result<SType, SError>, message: Seq<char>) -> Result<SType, SError> {
    match r {
        Ok(SType::TypeTag(t)) => Ok(*t),
        Ok(t) => type_error(message + type_text(t)),
        Err(e) => Err(e),
    }
}

/// The type, where it fits what is expected.
pub open spec fn expecting(env: SEnv, r: Result<SType, SError>, expected: SType) -> Result<
    SType,
    SError,
> {
    match r {
        Ok(t) => match fits(env, t, expected) {
            Ok(_) => Ok(t),
            Err(m) => type_error(m),
        },
        Err(e) => Err(e),
    }
}

/// The type of a local name, or of one that the environment binds.
#[verifier::opaque]
pub open spec fn name_type(env: SEnv, locals: SLocals, name: Seq<char>) -> Result<SType, SError> {
    match keyed(locals, name, 0) {
        Some(types) => if types.len() == 1 {
            Ok(types[0])
        } else {
            let data = types.filter(|t: SType| !(t is Function));
            if data.len() == 1 {
                Ok(data[0])
            } else {
                type_error(
                    "ambiguous overload "@ + name + "; candidates: "@ + joined(
                        type_texts(types),
                        ", "@,
                    ),
                )
            }
        },
        None => match env.lookup(name) {
            Ok(v) => match type_of(v) {
                Some(t) => Ok(t),
                None => Err(SError::Unresolved(name)),
            },
            Err(_) => Err(SError::Unresolved(name)),
        },
    }
}

/// How many of the types fit `target`.
pub open spec fn fitting(env: SEnv, types: Seq<SType>, target: SType, n: nat) -> nat
    decreases n,
{
    if n == 0 {
        0
    } else {
        fitting(env, types, target, (n - 1) as nat) + if fits(env, types[n - 1], target) is Ok {
            1nat
        } else {
            0nat
        }
    }
}

/// Whether an ascription may pick among the overloads of a name.
#[verifier::opaque]
pub open spec fn ascribed_name(
    env: SEnv,
    locals: SLocals,
    name: Seq<char>,
    target: SType,
) -> Result<SType, SError> {
    let types = match keyed(locals, name, 0) {
        Some(types) => types,
        None => Seq::empty(),
    };
    if types.len() > 1 {
        let n = fitting(env, types, target, types.len());
        if n == 1 {
            Ok(target)
        } else if n == 0 {
            type_error("no overload "@ + name + " matches "@ + type_text(target))
        } else {
            type_error("ambiguous overload "@ + name + " for "@ + type_text(target))
        }
    } else if env.candidates(name).len() > 1 {
        match env.lookup_by_type(name, target) {
            Ok(_) => Ok(target),
            Err(e) => Err(e),
        }
    } else {
        Ok(target)
    }
}

/// The signature of a function: its parameters and its result in the variables given.
#[verifier::opaque]
pub open spec fn signature(env: SEnv, vars: Set<Seq<char>>, f: SFunction) -> Result<SType, SError> {
    let scope = vars.union(f.type_params.to_set());
    match parameter_types(env, f.params, scope) {
        Err(e) => Err(e),
        Ok(params) => match denoted(env, f.result, scope) {
            Err(e) => Err(e),
            Ok(result) => Ok(SType::Function(params, Box::new(result))),
        },
    }
}

pub open spec fn parameter_types(
    env: SEnv,
    params: Seq<(Seq<char>, SAuthoredType)>,
    vars: Set<Seq<char>>,
) -> Result<Seq<SType>, SError>
    decreases params.len(),
{
    if params.len() == 0 {
        Ok(Seq::empty())
    } else {
        match denoted(env, params[0].1, vars) {
            Err(e) => Err(e),
            Ok(first) => match parameter_types(env, params.drop_first(), vars) {
                Err(e) => Err(e),
                Ok(rest) => Ok(seq![first] + rest),
            },
        }
    }
}

pub fn resolve_parameters(env: &Env, params: &Vec<Parameter>, vars: &NameSet) -> (r: Result<
    Vec<MagType>,
    MagError,
>)
    ensures
        match r {
            Ok(t) => parameter_types(env@, parameters_view(params@), vars@) == Ok::<
                Seq<SType>,
                SError,
            >(types_view(t@)),
            Err(e) => parameter_types(env@, parameters_view(params@), vars@) == Err::<
                Seq<SType>,
                SError,
            >(e@),
        },
{
    let ghost all = parameters_view(params@);
    let ghost whole = parameter_types(env@, all, vars@);
    let mut r: Vec<MagType> = Vec::new();
    let mut i: usize = 0;
    assert(all.skip(0) =~= all);
    assert(types_view(r@) =~= Seq::empty());
    while i < params.len()
        invariant
            i <= params.len(),
            all == parameters_view(params@),
            whole == parameter_types(env@, all, vars@),
            whole == match parameter_types(env@, all.skip(i as int), vars@) {
                Ok(rest) => Ok(types_view(r@) + rest),
                Err(e) => Err(e),
            },
        decreases params.len() - i,
    {
        let ghost so_far = types_view(r@);
        proof {
            assert(all.skip(i as int)[0] == (params@[i as int].name@, params@[i as int].ty@));
            assert(all.skip(i as int).drop_first() =~= all.skip(i + 1));
        }
        match resolve_type(env, &params[i].ty, vars) {
            Ok(t) => {
                r.push(t);
                proof {
                    assert(types_view(r@) =~= so_far.push(t@));
                    match parameter_types(env@, all.skip(i + 1), vars@) {
                        Ok(rest) => {
                            assert(so_far + (seq![t@] + rest) =~= so_far.push(t@) + rest);
                        },
                        Err(_) => {},
                    }
                }
            },
            Err(e) => {
                return Err(e);
            },
        }
        i = i + 1;
    }
    assert(types_view(r@) + Seq::empty() =~= types_view(r@));
    Ok(r)
}

pub fn infer_fn_signature(env: &Env, vars: &NameSet, function: &Function) -> (r: Result<
    MagType,
    MagError,
>)
    ensures
        type_result(r) == signature(env@, vars@, function@),
{
    proof {
        reveal(signature);
    }
    let mut scope = vars.clone();
    scope.extend_names(&function.type_params);
    match resolve_parameters(env, &function.params, &scope) {
        Err(e) => Err(e),
        Ok(params) => match resolve_type(env, &function.result, &scope) {
            Err(e) => Err(e),
            Ok(result) => Ok(MagType::Function(params, Box::new(result))),
        },
    }
}

/// The comparison of arguments with parameters in order: what stands for the variables after one
/// argument is put into the next parameter.
#[verifier::opaque]
pub open spec fn fit_params(
    env: SEnv,
    args: Seq<SType>,
    params: Seq<SType>,
    subst: SSubst,
) -> (SSubst, Result<(), Seq<char>>)
    decreases params.len(),
{
    if params.len() == 0 {
        (subst, Ok(()))
    } else {
        let (after, r) = fit_any(env, args[0], apply(params[0], subst), subst);
        match r {
            Ok(_) => fit_params(env, args.drop_first(), params.drop_first(), after),
            Err(m) => (after, Err(m)),
        }
    }
}

pub fn compatible_params(
    env: &Env,
    args: &Vec<MagType>,
    params: &Vec<MagType>,
    subst: &mut Substitution,
) -> (r: Result<(), String>)
    requires
        args@.len() == params@.len(),
    ensures
        (final(subst)@, fit_result(r)) == fit_params(
            env@,
            types_view(args@),
            types_view(params@),
            old(subst)@,
        ),
{
    proof {
        reveal(fit_params);
    }
    let ghost all_a = types_view(args@);
    let ghost all_p = types_view(params@);
    let ghost whole = fit_params(env@, all_a, all_p, subst@);
    let mut i: usize = 0;
    assert(all_a.skip(0) =~= all_a);
    assert(all_p.skip(0) =~= all_p);
    while i < params.len()
        invariant
            i <= params.len(),
            args@.len() == params@.len(),
            all_a == types_view(args@),
            all_p == types_view(params@),
            all_a.len() == args@.len(),
            all_p.len() == params@.len(),
            whole == fit_params(env@, all_a, all_p, old(subst)@),
            whole == fit_params(env@, all_a.skip(i as int), all_p.skip(i as int), subst@),
        decreases params.len() - i,
    {
        proof {
            reveal(fit_params);
            assert(all_a.skip(i as int)[0] == args@[i as int]@);
            assert(all_p.skip(i as int)[0] == params@[i as int]@);
            assert(all_a.skip(i as int).drop_first() =~= all_a.skip(i + 1));
            assert(all_p.skip(i as int).drop_first() =~= all_p.skip(i + 1));
        }
        let expected = substitute(&params[i], subst);
        match compatible(env, &args[i], &expected, subst) {
            Ok(_) => {},
            Err(m) => {
                return Err(m);
            },
        }
        i = i + 1;
    }
    Ok(())
}

/// A function's signature among overloads: whether it is free of type variables of its own, its
/// parameters and its result.
pub struct Signature {
    pub concrete: bool,
    pub params: Vec<MagType>,
    pub result: MagType,
}

/// The model of a [`Signature`].
#[verifier::ext_equal]
pub struct SSignature {
    pub concrete: bool,
    pub params: Seq<SType>,
    pub result: SType,
}

impl View for Signature {
    type V = SSignature;

    open spec fn view(&self) -> SSignature {
        SSignature {
            concrete: self.concrete,
            params: types_view(self.params@),
            result: self.result@,
        }
    }
}

pub open spec fn signatures_view(items: Seq<Signature>) -> Seq<SSignature> {
    Seq::new(items.len(), |i: int| items[i]@)
}

/// The signatures of the function types among the types of a local name.
#[verifier::opaque]
pub open spec fn local_signatures(types: Seq<SType>) -> Seq<SSignature>
    decreases types.len(),
{
    if types.len() == 0 {
        Seq::empty()
    } else {
        let rest = local_signatures(types.drop_last());
        match types.last() {
            SType::Function(params, result) => rest.push(
                SSignature {
                    concrete: !(exists|n: Seq<char>| occurs(types.last(), n)),
                    params,
                    result: *result,
                },
            ),
            _ => rest,
        }
    }
}

/// Those signatures, and the signatures of the functions among the values of the name that are
/// not among them yet.
#[verifier::opaque]
pub open spec fn all_signatures(known: Seq<SSignature>, values: Seq<SValue>) -> Seq<SSignature>
    decreases values.len(),
{
    if values.len() == 0 {
        known
    } else {
        let rest = all_signatures(known, values.drop_last());
        match values.last() {
            SValue::Fn(f) => {
                let s = SSignature {
                    concrete: f.type_params.len() == 0,
                    params: f.param_types,
                    result: f.return_type,
                };
                if rest.contains(s) {
                    rest
                } else {
                    rest.push(s)
                }
            },
            _ => rest,
        }
    }
}

/// The result of a signature on arguments of these types, where they fit.
pub open spec fn signature_result(env: SEnv, s: SSignature, args: Seq<SType>) -> Option<SType> {
    if s.params.len() != args.len() {
        None
    } else {
        let (subst, r) = fit_params(env, args, s.params, Map::empty());
        match r {
            Ok(_) => Some(apply(s.result, subst)),
            Err(_) => None,
        }
    }
}

/// The results of the signatures that take the arguments, each with whether it is concrete.
#[verifier::opaque]
pub open spec fn matching_results(env: SEnv, items: Seq<SSignature>, args: Seq<SType>) -> Seq<
    (bool, SType),
>
    decreases items.len(),
{
    if items.len() == 0 {
        Seq::empty()
    } else {
        let rest = matching_results(env, items.drop_last(), args);
        match signature_result(env, items.last(), args) {
            Some(t) => rest.push((items.last().concrete, t)),
            None => rest,
        }
    }
}

/// The one result that is meant: of several, the only concrete one.
#[verifier::opaque]
pub open spec fn narrowed(items: Seq<(bool, SType)>) -> Seq<(bool, SType)> {
    let concrete = items.filter(|p: (bool, SType)| p.0);
    if items.len() > 1 && concrete.len() == 1 {
        concrete
    } else {
        items
    }
}

fn collect_local_signatures(types: &Vec<MagType>) -> (r: Vec<Signature>)
    ensures
        signatures_view(r@) == local_signatures(types_view(types@)),
{
    proof {
        reveal(local_signatures);
    }
    let ghost all = types_view(types@);
    let mut r: Vec<Signature> = Vec::new();
    let mut i: usize = 0;
    assert(all.take(0) =~= Seq::empty());
    assert(signatures_view(r@) =~= Seq::empty());
    while i < types.len()
        invariant
            i <= types.len(),
            all == types_view(types@),
            signatures_view(r@) == local_signatures(all.take(i as int)),
        decreases types.len() - i,
    {
        let ghost so_far = signatures_view(r@);
        proof {
            reveal(local_signatures);
            assert(all.take(i + 1).drop_last() =~= all.take(i as int));
            assert(all.take(i + 1).last() == types@[i as int]@);
        }
        match &types[i] {
            MagType::Function(params, result) => {
                let s = Signature {
                    concrete: !has_type_variables(&types[i]),
                    params: clone_types(params),
                    result: (**result).clone(),
                };
                r.push(s);
                assert(signatures_view(r@) =~= so_far.push(s@));
            },
            _ => {},
        }
        i = i + 1;
    }
    assert(all.take(types.len() as int) =~= all);
    r
}

fn has_signature(items: &Vec<Signature>, s: &Signature) -> (r: bool)
    ensures
        r == signatures_view(items@).contains(s@),
{
    let ghost all = signatures_view(items@);
    let mut i: usize = 0;
    while i < items.len()
        invariant
            i <= items.len(),
            all == signatures_view(items@),
            forall|j: int| 0 <= j < i ==> all[j] != s@,
        decreases items.len() - i,
    {
        if items[i].concrete == s.concrete && equal_types(&items[i].params, &s.params)
            && items[i].result.equals(&s.result) {
            assert(all[i as int] == s@);
            return true;
        }
        i = i + 1;
    }
    false
}

fn collect_signatures(known: Vec<Signature>, values: &Vec<Value>) -> (r: Vec<Signature>)
    ensures
        signatures_view(r@) == all_signatures(signatures_view(known@), values_view(values@)),
{
    proof {
        reveal(all_signatures);
    }
    let ghost all = values_view(values@);
    let ghost first = signatures_view(known@);
    let mut r = known;
    let mut i: usize = 0;
    assert(all.take(0) =~= Seq::empty());
    while i < values.len()
        invariant
            i <= values.len(),
            all == values_view(values@),
            signatures_view(r@) == all_signatures(first, all.take(i as int)),
        decreases values.len() - i,
    {
        let ghost so_far = signatures_view(r@);
        proof {
            reveal(all_signatures);
            assert(all.take(i + 1).drop_last() =~= all.take(i as int));
            assert(all.take(i + 1).last() == values@[i as int]@);
        }
        match &values[i] {
            Value::Fn(f) => {
                let s = Signature {
                    concrete: f.type_params.len() == 0,
                    params: clone_types(&f.param_types),
                    result: f.return_type.clone(),
                };
                if !has_signature(&r, &s) {
                    r.push(s);
                    assert(signatures_view(r@) =~= so_far.push(s@));
                }
            },
            _ => {},
        }
        i = i + 1;
    }
    assert(all.take(values.len() as int) =~= all);
    r
}

pub open spec fn pairs_view(items: Seq<(bool, MagType)>) -> Seq<(bool, SType)> {
    Seq::new(items.len(), |i: int| (items[i].0, items[i].1@))
}

fn collect_matching(env: &Env, items: &Vec<Signature>, args: &Vec<MagType>) -> (r: Vec<
    (bool, MagType),
>)
    ensures
        pairs_view(r@) == matching_results(env@, signatures_view(items@), types_view(args@)),
{
    proof {
        reveal(matching_results);
    }
    let ghost all = signatures_view(items@);
    let mut r: Vec<(bool, MagType)> = Vec::new();
    let mut i: usize = 0;
    assert(all.take(0) =~= Seq::empty());
    assert(pairs_view(r@) =~= Seq::empty());
    assert(types_view(args@).len() == args@.len());
    while i < items.len()
        invariant
            i <= items.len(),
            all == signatures_view(items@),
            types_view(args@).len() == args@.len(),
            pairs_view(r@) == matching_results(env@, all.take(i as int), types_view(args@)),
        decreases items.len() - i,
    {
        let ghost so_far = pairs_view(r@);
        proof {
            reveal(matching_results);
            assert(all.take(i + 1).drop_last() =~= all.take(i as int));
            assert(all.take(i + 1).last() == items@[i as int]@);
            assert(types_view(items@[i as int].params@).len() == items@[i as int].params@.len());
        }
        if items[i].params.len() == args.len() {
            let mut subst = Substitution::new();
            match compatible_params(env, args, &items[i].params, &mut subst) {
                Ok(_) => {
                    let pair = (items[i].concrete, substitute(&items[i].result, &subst));
                    r.push(pair);
                    assert(pairs_view(r@) =~= so_far.push((pair.0, pair.1@)));
                },
                Err(_) => {},
            }
        }
        i = i + 1;
    }
    assert(all.take(items.len() as int) =~= all);
    r
}

fn narrow(items: Vec<(bool, MagType)>) -> (r: Vec<(bool, MagType)>)
    ensures
        pairs_view(r@) == narrowed(pairs_view(items@)),
{
    proof {
        reveal(narrowed);
    }
    let ghost all = pairs_view(items@);
    let ghost keep = |p: (bool, SType)| p.0;
    let mut concrete: Vec<(bool, MagType)> = Vec::new();
    let mut i: usize = 0;
    assert(all.take(0).filter(keep) =~= Seq::empty());
    assert(pairs_view(concrete@) =~= Seq::empty());
    while i < items.len()
        invariant
            i <= items.len(),
            all == pairs_view(items@),
            keep == (|p: (bool, SType)| p.0),
            pairs_view(concrete@) == all.take(i as int).filter(keep),
        decreases items.len() - i,
    {
        let ghost so_far = pairs_view(concrete@);
        proof {
            crate::env::filter_step(all, keep, i as int);
        }
        if items[i].0 {
            let pair = (true, items[i].1.clone());
            concrete.push(pair);
            assert(pairs_view(concrete@) =~= so_far.push((pair.0, pair.1@)));
        }
        i = i + 1;
    }
    assert(all.take(items.len() as int) =~= all);
    assert(pairs_view(concrete@).len() == concrete@.len());
    if items.len() > 1 && concrete.len() == 1 {
        concrete
    } else {
        items
    }
}

/// Whether one of the values is a builtin function.
#[verifier::opaque]
pub open spec fn has_builtin(values: Seq<SValue>) -> bool {
    exists|i: int| 0 <= i < values.len() && (#[trigger] values[i]) is BuiltinFn
}

pub fn any_builtin(values: &Vec<Value>) -> (r: bool)
    ensures
        r == has_builtin(values_view(values@)),
{
    proof {
        reveal(has_builtin);
    }
    let ghost all = values_view(values@);
    let mut i: usize = 0;
    while i < values.len()
        invariant
            i <= values.len(),
            all == values_view(values@),
            all.len() == values@.len(),
            forall|j: int| 0 <= j < i ==> !((#[trigger] all[j]) is BuiltinFn),
        decreases values.len() - i,
    {
        match &values[i] {
            Value::BuiltinFn(_) => {
                proof {
                    reveal(has_builtin);
                    assert(all[i as int] is BuiltinFn);
                }
                return true;
            },
            _ => {},
        }
        i = i + 1;
    }
    false
}

/// The key of a field access that is written out.
pub open spec fn literal_key(e: SExpr) -> Option<Seq<char>> {
    match e {
        SExpr::Str(s) => Some(s),
        SExpr::Keyword(s) => Some(s),
        _ => None,
    }
}

pub fn written_key(e: &Expr) -> (r: Option<&str>)
    ensures
        opt_str(r) == literal_key(e@),
{
    match e {
        Expr::Str(s) => Some(s.as_str()),
        Expr::Keyword(s) => Some(s.as_str()),
        _ => None,
    }
}

/// How a message shows an optional key.
pub open spec fn key_text(key: Option<Seq<char>>) -> Seq<char> {
    match key {
        Some(k) => "Some("@ + quoted_text(k) + ")"@,
        None => "None"@,
    }
}

pub fn show_key(key: Option<&str>) -> (r: String)
    ensures
        r@ == key_text(opt_str(key)),
{
    match key {
        Some(k) => cat3("Some(", &quoted(k), ")"),
        None => "None".to_owned(),
    }
}

pub open spec fn types_result(r: Result<Vec<MagType>, MagError>) -> Result<Seq<SType>, SError> {
    match r {
        Ok(t) => Ok(types_view(t@)),
        Err(e) => Err(e@),
    }
}

/// The types of a call's arguments: the table after the one at a position has been looked at, and
/// its type.
pub type Arguments = spec_fn(SBindings, int) -> STyped;

pub open spec fn argument_types(env: SEnv, locals: SLocals, args: Seq<SExpr>) -> Arguments
    decreases args, 0nat,
{
    |table: SBindings, i: int|
        if 0 <= i < args.len() {
            inferred(env, table, locals, args[i])
        } else {
            arbitrary()
        }
}

/// The type of an expression.
pub open spec fn inferred(env: SEnv, table: SBindings, locals: SLocals, e: SExpr) -> STyped
    decreases e, 2nat,
{
    match e {
        SExpr::Unit => (table, Ok(SType::Unit)),
        SExpr::Bool(_) => (table, Ok(SType::Bool)),
        SExpr::Int(_) => (table, Ok(SType::Int)),
        SExpr::Float(_) => (table, Ok(SType::Float)),
        SExpr::Str(_) => (table, Ok(SType::String)),
        SExpr::Keyword(_) => (table, Ok(SType::String)),
        SExpr::Name(name) => (table, name_type(env, locals, name)),
        SExpr::Vector(items) => list_type(env, table, locals, items),
        SExpr::Fields(fields) => record_type(env, table, locals, fields),
        SExpr::If(_, _, _) => if_type(env, table, locals, e),
        SExpr::Construct(_, _, _) => construct_type(env, table, locals, e),
        SExpr::Match(_, _) => match_type(env, table, locals, e),
        SExpr::Ascribe(target, value) => (table, ascribed_type(env, locals, target, *value)),
        SExpr::TypeTag(target) => (table, tag_type(env, locals, target)),
        SExpr::Function(f) => (table, signature(env, local_vars(locals), f)),
        SExpr::Call(_, _) => call_type(env, table, locals, e),
        SExpr::Invalid(error) => (table, Err(authoring_failure(error))),
    }
}

/// The type of a list: that of its first item, which the others must fit.
pub open spec fn list_type(
    env: SEnv,
    table: SBindings,
    locals: SLocals,
    items: Seq<SExpr>,
) -> STyped
    decreases items, 1nat,
{
    if items.len() == 0 {
        (table, Ok(SType::EmptyList))
    } else {
        let (after, first) = inferred(env, table, locals, items[0]);
        match first {
            Err(e) => (after, Err(e)),
            Ok(item) => {
                let (after, rest) = inferred_like(env, after, locals, items.drop_first(), item);
                match rest {
                    Err(e) => (after, Err(e)),
                    Ok(_) => (after, Ok(slist(item))),
                }
            },
        }
    }
}

pub open spec fn record_type(
    env: SEnv,
    table: SBindings,
    locals: SLocals,
    fields: Seq<(Seq<char>, SExpr)>,
) -> STyped
    decreases fields, 1nat,
{
    let (after, r) = inferred_fields(env, table, locals, fields, Seq::empty());
    match r {
        Err(e) => (after, Err(e)),
        Ok(f) => (after, Ok(SType::Record(f))),
    }
}

/// The type of a conditional: that of its second branch, which the first must fit.
pub open spec fn if_type(env: SEnv, table: SBindings, locals: SLocals, e: SExpr) -> STyped
    decreases e, 1nat,
{
    match e {
        SExpr::If(condition, then_branch, else_branch) => {
            let (s1, c) = inferred(env, table, locals, *condition);
            match expecting(env, c, SType::Bool) {
                Err(e) => (s1, Err(e)),
                Ok(_) => {
                    let (s2, a) = inferred(env, s1, locals, *then_branch);
                    match a {
                        Err(e) => (s2, Err(e)),
                        Ok(left) => {
                            let (s3, b) = inferred(env, s2, locals, *else_branch);
                            match b {
                                Err(e) => (s3, Err(e)),
                                Ok(right) => match fits(env, left, right) {
                                    Ok(_) => (s3, Ok(right)),
                                    Err(_) => (s3, type_error(branch_message(left, right))),
                                },
                            }
                        },
                    }
                },
            }
        },
        _ => arbitrary(),
    }
}

/// The type of a constructed value: its owner, where the payload fits the constructor's.
pub open spec fn construct_type(env: SEnv, table: SBindings, locals: SLocals, e: SExpr) -> STyped
    decreases e, 1nat,
{
    match e {
        SExpr::Construct(owner, constructor, payload) => match denoted(
            env,
            owner,
            local_vars(locals),
        ) {
            Err(e) => (table, Err(e)),
            Ok(owner) => match constructor_of(env, owner, constructor) {
                Err(e) => (table, Err(e)),
                Ok(c) => {
                    let (after, r) = inferred(env, table, locals, *payload);
                    match expecting(env, r, c.payload) {
                        Err(e) => (after, Err(e)),
                        Ok(_) => (after, Ok(owner)),
                    }
                },
            },
        },
        _ => arbitrary(),
    }
}

/// The type of a match: that of its first arm, which those of the others fit, where the arms
/// cover every constructor.
pub open spec fn match_type(env: SEnv, table: SBindings, locals: SLocals, e: SExpr) -> STyped
    decreases e, 1nat,
{
    match e {
        SExpr::Match(value, arms) => {
            let (s1, r) = inferred(env, table, locals, *value);
            match r {
                Err(e) => (s1, Err(e)),
                Ok(owner) => match constructors_of(env, owner) {
                    Err(e) => (s1, Err(e)),
                    Ok(constructors) => {
                        let (s2, r) = inferred_arms(
                            env,
                            s1,
                            locals,
                            owner,
                            arms,
                            Seq::empty(),
                            None,
                        );
                        match r {
                            Err(e) => (s2, Err(e)),
                            Ok((seen, result)) => match exhaustive(constructors, seen) {
                                Err(e) => (s2, Err(e)),
                                Ok(_) => (
                                    s2,
                                    Ok(
                                        match result {
                                            Some(t) => t,
                                            None => SType::Unit,
                                        },
                                    ),
                                ),
                            },
                        }
                    },
                },
            }
        },
        _ => arbitrary(),
    }
}

/// The type of an ascription: its target, where a name among overloads can have it.
#[verifier::opaque]
pub open spec fn ascribed_type(
    env: SEnv,
    locals: SLocals,
    target: SAuthoredType,
    value: SExpr,
) -> Result<SType, SError> {
    match denoted(env, target, local_vars(locals)) {
        Err(e) => Err(e),
        Ok(target) => match value {
            SExpr::Name(name) => ascribed_name(env, locals, name, target),
            _ => Ok(target),
        },
    }
}

#[verifier::opaque]
pub open spec fn tag_type(env: SEnv, locals: SLocals, target: SAuthoredType) -> Result<
    SType,
    SError,
> {
    match denoted(env, target, local_vars(locals)) {
        Err(e) => Err(e),
        Ok(t) => Ok(stag(t)),
    }
}

pub open spec fn call_type(env: SEnv, table: SBindings, locals: SLocals, e: SExpr) -> STyped
    decreases e, 1nat,
{
    match e {
        SExpr::Call(callee, args) => match *callee {
            SExpr::Name(name) => named_call(env, table, locals, name, args),
            _ => {
                let (after, r) = inferred(env, table, locals, *callee);
                value_call(env, after, locals, r, args)
            },
        },
        _ => arbitrary(),
    }
}

pub open spec fn branch_message(left: SType, right: SType) -> Seq<char> {
    "if branches must return one compatible type, got "@ + type_text(left) + " and "@ + type_text(
        right,
    )
}

/// The type of a call of a name: by the one overload that takes the arguments, else by the rule
/// of the builtin of that name, else as a call of a value.
pub open spec fn named_call(
    env: SEnv,
    table: SBindings,
    locals: SLocals,
    name: Seq<char>,
    args: Seq<SExpr>,
) -> STyped
    decreases args, 3nat,
{
    let candidates = env.candidates(name);
    let types = match keyed(locals, name, 0) {
        Some(types) => types,
        None => Seq::empty(),
    };
    let signatures = all_signatures(local_signatures(types), candidates);
    if signatures.len() > 0 {
        let (after, r) = inferred_all(env, table, locals, args);
        match r {
            Err(e) => (after, Err(e)),
            Ok(arguments) => {
                let results = narrowed(matching_results(env, signatures, arguments));
                if results.len() == 1 {
                    (after, Ok(results[0].1))
                } else if results.len() > 1 {
                    (after, type_error("ambiguous overload "@ + name + " for call"@))
                } else if has_builtin(candidates) {
                    builtin_rule(env, after, name, args, argument_types(env, locals, args))
                } else {
                    (after, type_error("no overload "@ + name + " matches call"@))
                }
            },
        }
    } else if has_builtin(candidates) {
        builtin_rule(env, table, name, args, argument_types(env, locals, args))
    } else {
        value_call(env, table, locals, name_type(env, locals, name), args)
    }
}

/// The type of a call of a value whose type is known.
pub open spec fn value_call(
    env: SEnv,
    table: SBindings,
    locals: SLocals,
    callable: Result<SType, SError>,
    args: Seq<SExpr>,
) -> STyped
    decreases args, 2nat,
{
    match callable {
        Err(e) => (table, Err(e)),
        Ok(SType::Function(params, result)) => if params.len() != args.len() {
            (table, type_error(arity_message("call"@, params.len(), args.len())))
        } else {
            let (after, r) = inferred_all(env, table, locals, args);
            match r {
                Err(e) => (after, Err(e)),
                Ok(arguments) => {
                    let (subst, fit) = fit_params(env, arguments, params, Map::empty());
                    match fit {
                        Err(m) => (after, type_error(m)),
                        Ok(_) => (after, Ok(apply(*result, subst))),
                    }
                },
            }
        },
        Ok(t) => (table, type_error("cannot call "@ + type_text(t))),
    }
}

/// The types of expressions one after another, up to the first that has none.
pub open spec fn inferred_all(
    env: SEnv,
    table: SBindings,
    locals: SLocals,
    items: Seq<SExpr>,
) -> (SBindings, Result<Seq<SType>, SError>)
    decreases items, 0nat,
{
    if items.len() == 0 {
        (table, Ok(Seq::empty()))
    } else {
        let (after, r) = inferred(env, table, locals, items[0]);
        match r {
            Err(e) => (after, Err(e)),
            Ok(first) => {
                let (after, r) = inferred_all(env, after, locals, items.drop_first());
                match r {
                    Err(e) => (after, Err(e)),
                    Ok(rest) => (after, Ok(seq![first] + rest)),
                }
            },
        }
    }
}

/// Whether the expressions one after another have types that fit `item`.
pub open spec fn inferred_like(
    env: SEnv,
    table: SBindings,
    locals: SLocals,
    items: Seq<SExpr>,
    item: SType,
) -> (SBindings, Result<(), SError>)
    decreases items, 0nat,
{
    if items.len() == 0 {
        (table, Ok(()))
    } else {
        let (after, r) = inferred(env, table, locals, items[0]);
        match expecting(env, r, item) {
            Err(e) => (after, Err(e)),
            Ok(_) => inferred_like(env, after, locals, items.drop_first(), item),
        }
    }
}

/// The fields of a record one after another, added to those found before.
pub open spec fn inferred_fields(
    env: SEnv,
    table: SBindings,
    locals: SLocals,
    items: Seq<(Seq<char>, SExpr)>,
    done: Seq<(Seq<char>, SType)>,
) -> (SBindings, Result<Seq<(Seq<char>, SType)>, SError>)
    decreases items, 0nat,
{
    if items.len() == 0 {
        (table, Ok(done))
    } else {
        let (after, r) = inferred(env, table, locals, items[0].1);
        match r {
            Err(e) => (after, Err(e)),
            Ok(t) => if keyed(done, items[0].0, 0) is Some {
                (after, type_error("duplicate record field "@ + items[0].0))
            } else {
                inferred_fields(
                    env,
                    after,
                    locals,
                    items.drop_first(),
                    with_field(done, items[0].0, t),
                )
            },
        }
    }
}

pub open spec fn arm_message(current: SType, body: SType) -> Seq<char> {
    "match arms must return one compatible type, got "@ + type_text(current) + " and "@ + type_text(
        body,
    )
}

/// The arms of a match one after another: the constructors seen, and the type of the first arm,
/// which those of the others fit.
pub open spec fn inferred_arms(
    env: SEnv,
    table: SBindings,
    locals: SLocals,
    owner: SType,
    arms: Seq<SMatchArm>,
    seen: Seq<SConstructorId>,
    result: Option<SType>,
) -> (SBindings, Result<(Seq<SConstructorId>, Option<SType>), SError>)
    decreases arms, 0nat,
{
    if arms.len() == 0 {
        (table, Ok((seen, result)))
    } else {
        match constructor_of(env, owner, arms[0].constructor) {
            Err(e) => (table, Err(e)),
            Ok(c) => if seen.contains(c.id) {
                (table, type_error("duplicate match arm for "@ + arms[0].constructor))
            } else {
                match with_local(locals, arms[0].binding, c.payload) {
                    Err(e) => (table, Err(e)),
                    Ok(arm_locals) => {
                        let (after, r) = inferred(env, table, arm_locals, *arms[0].body);
                        match r {
                            Err(e) => (after, Err(e)),
                            Ok(body) => match result {
                                None => inferred_arms(
                                    env,
                                    after,
                                    locals,
                                    owner,
                                    arms.drop_first(),
                                    seen.push(c.id),
                                    Some(body),
                                ),
                                Some(current) => match fits(env, body, current) {
                                    Err(_) => (after, type_error(arm_message(current, body))),
                                    Ok(_) => inferred_arms(
                                        env,
                                        after,
                                        locals,
                                        owner,
                                        arms.drop_first(),
                                        seen.push(c.id),
                                        result,
                                    ),
                                },
                            },
                        }
                    },
                }
            },
        }
    }
}

/// The type rule of the identity of a value's type.
#[verifier::opaque]
pub open spec fn value_type_id_rule(
    env: SEnv,
    s0: SBindings,
    name: Seq<char>,
    args: Seq<SExpr>,
    of: Arguments,
) -> STyped {
    if args.len() != 2 {
        (s0, type_error(arity_message(name, 2, args.len())))
    } else {
        let (s1, r1) = of(s0, 0);
        match r1 {
            Err(e) => (s1, Err(e)),
            Ok(actual) => {
                let (s2, r2) = of(s1, 1);
                match r2 {
                    Err(e) => (s2, Err(e)),
                    Ok(SType::TypeTag(expected)) => match fits(env, *expected, actual) {
                        Err(m) => (s2, type_error(m)),
                        Ok(_) => (s2, Ok(SType::SemanticTypeId)),
                    },
                    Ok(SType::TypeDescriptor) => (s2, Ok(SType::SemanticTypeId)),
                    Ok(_) => (
                        s2,
                        type_error("value-type-id expects TypeTag or TypeDescriptor evidence"@),
                    ),
                }
            },
        }
    }
}

fn wrong_arity(name: &str, expected: usize, got: usize) -> (r: MagError)
    ensures
        r@ == SError::Type(arity_message(name@, expected as nat, got as nat)),
{
    MagError::Type(
        cat5(name, " expects ", &show_usize(expected), " arguments, got ", &show_usize(got)),
    )
}

fn tag_subject(r: Result<MagType, MagError>, message: &str) -> (s: Result<MagType, MagError>)
    ensures
        type_result(s) == tagged(type_result(r), message@),
{
    match r {
        Ok(MagType::TypeTag(t)) => Ok(*t),
        Ok(t) => Err(MagError::Type(cat2(message, &t.show()))),
        Err(e) => Err(e),
    }
}

fn expect_type(env: &Env, r: Result<MagType, MagError>, expected: &MagType) -> (s: Result<
    MagType,
    MagError,
>)
    ensures
        type_result(s) == expecting(env@, type_result(r), expected@),
{
    match r {
        Ok(t) => match compatible_alone(env, &t, expected) {
            Ok(_) => Ok(t),
            Err(m) => Err(MagError::Type(m)),
        },
        Err(e) => Err(e),
    }
}

fn fit_types(env: &Env, actual: &MagType, expected: &MagType) -> (r: Result<(), MagError>)
    ensures
        unit_result(r) == match fits(env@, actual@, expected@) {
            Ok(_) => Ok(()),
            Err(m) => type_error(m),
        },
{
    match compatible_alone(env, actual, expected) {
        Ok(_) => Ok(()),
        Err(m) => Err(MagError::Type(m)),
    }
}

fn infer_name(env: &Env, locals: &Locals, name: &str) -> (r: Result<MagType, MagError>)
    ensures
        type_result(r) == name_type(env@, locals_view(locals@), name@),
{
    proof {
        reveal(name_type);
    }
    match local_index(locals, name) {
        Some(i) => {
            let types = &locals[i].1;
            assert(types_view(types@).len() == types@.len());
            if types.len() == 1 {
                return Ok(types[0].clone());
            }
            let data = data_types(types);
            assert(types_view(data@).len() == data@.len());
            if data.len() == 1 {
                Ok(data[0].clone())
            } else {
                Err(
                    MagError::Type(
                        cat4(
                            "ambiguous overload ",
                            name,
                            "; candidates: ",
                            &join(&show_types(types), ", "),
                        ),
                    ),
                )
            }
        },
        None => match env.lookup(name) {
            Ok(v) => match value_type(&v) {
                Some(t) => Ok(t),
                None => Err(MagError::Unresolved(name.to_owned())),
            },
            Err(_) => Err(MagError::Unresolved(name.to_owned())),
        },
    }
}

fn data_types(types: &Vec<MagType>) -> (r: Vec<MagType>)
    ensures
        types_view(r@) == types_view(types@).filter(|t: SType| !(t is Function)),
{
    let ghost all = types_view(types@);
    let ghost keep = |t: SType| !(t is Function);
    let mut r: Vec<MagType> = Vec::new();
    let mut i: usize = 0;
    assert(all.take(0).filter(keep) =~= Seq::empty());
    assert(types_view(r@) =~= Seq::empty());
    while i < types.len()
        invariant
            i <= types.len(),
            all == types_view(types@),
            keep == (|t: SType| !(t is Function)),
            types_view(r@) == all.take(i as int).filter(keep),
        decreases types.len() - i,
    {
        let ghost so_far = types_view(r@);
        proof {
            crate::env::filter_step(all, keep, i as int);
            assert(all[i as int] == types@[i as int]@);
        }
        match &types[i] {
            MagType::Function(_, _) => {},
            t => {
                let t = t.clone();
                r.push(t);
                assert(types_view(r@) =~= so_far.push(t@));
            },
        }
        i = i + 1;
    }
    assert(all.take(types.len() as int) =~= all);
    r
}

fn infer_ascribed_name(env: &Env, locals: &Locals, name: &str, target: MagType) -> (r: Result<
    MagType,
    MagError,
>)
    ensures
        type_result(r) == ascribed_name(env@, locals_view(locals@), name@, target@),
{
    proof {
        reveal(ascribed_name);
    }
    match local_index(locals, name) {
        Some(i) => {
            let types = &locals[i].1;
            let ghost all = types_view(types@);
            assert(all.len() == types@.len());
            if types.len() > 1 {
                let mut n: usize = 0;
                let mut j: usize = 0;
                while j < types.len()
                    invariant
                        j <= types.len(),
                        all == types_view(types@),
                        all.len() == types@.len(),
                        n <= j,
                        n == fitting(env@, all, target@, j as nat),
                    decreases types.len() - j,
                {
                    assert(all[j as int] == types@[j as int]@);
                    if compatible_alone(env, &types[j], &target).is_ok() {
                        n = n + 1;
                    }
                    j = j + 1;
                }
                return if n == 1 {
                    Ok(target)
                } else if n == 0 {
                    Err(MagError::Type(cat4("no overload ", name, " matches ", &target.show())))
                } else {
                    Err(MagError::Type(cat4("ambiguous overload ", name, " for ", &target.show())))
                };
            }
        },
        None => {},
    }
    let candidates = env.lookup_candidates(name);
    assert(values_view(candidates@).len() == candidates@.len());
    if candidates.len() > 1 {
        match env.lookup_by_type(name, &target) {
            Ok(_) => Ok(target),
            Err(e) => Err(e),
        }
    } else {
        Ok(target)
    }
}

/// The type of an expression.
pub fn infer(env: &Env, table: &mut Bindings, locals: &Locals, expr: &Expr) -> (r: Result<
    MagType,
    MagError,
>)
    ensures
        (final(table)@, type_result(r)) == inferred(
            env@,
            old(table)@,
            locals_view(locals@),
            expr@,
        ),
    decreases expr, 2nat,
{
    match expr {
        Expr::Unit => Ok(MagType::Unit),
        Expr::Bool(_) => Ok(MagType::Bool),
        Expr::Int(_) => Ok(MagType::Int),
        Expr::Float(_) => Ok(MagType::Float),
        Expr::Str(_) => Ok(MagType::String),
        Expr::Keyword(_) => Ok(MagType::String),
        Expr::Name(name) => infer_name(env, locals, name),
        Expr::Vector(items) => infer_list(env, table, locals, items),
        Expr::Fields(fields) => match infer_fields(env, table, locals, fields) {
            Ok(f) => Ok(MagType::Record(f)),
            Err(e) => Err(e),
        },
        Expr::If { .. } => infer_if(env, table, locals, expr),
        Expr::Construct { .. } => infer_construct(env, table, locals, expr),
        Expr::Match { .. } => infer_match(env, table, locals, expr),
        Expr::Ascribe { target, value } => infer_ascribed(env, locals, target, value),
        Expr::TypeTag(target) => infer_tag(env, locals, target),
        Expr::Function(f) => {
            let vars = local_type_vars(locals);
            infer_fn_signature(env, &vars, f)
        },
        Expr::Call { .. } => infer_call(env, table, locals, expr),
        Expr::Invalid(error) => Err(error.clone().into_mag_error()),
    }
}

fn infer_if(env: &Env, table: &mut Bindings, locals: &Locals, expr: &Expr) -> (r: Result<
    MagType,
    MagError,
>)
    requires
        expr is If,
    ensures
        (final(table)@, type_result(r)) == if_type(
            env@,
            old(table)@,
            locals_view(locals@),
            expr@,
        ),
    decreases expr, 1nat,
{
    match expr {
        Expr::If { condition, then_branch, else_branch } => {
            let _ = expect_type(env, infer(env, table, locals, condition), &MagType::Bool)?;
            let left = infer(env, table, locals, then_branch)?;
            let right = infer(env, table, locals, else_branch)?;
            if compatible_alone(env, &left, &right).is_err() {
                return Err(
                    MagError::Type(
                        cat4(
                            "if branches must return one compatible type, got ",
                            &left.show(),
                            " and ",
                            &right.show(),
                        ),
                    ),
                );
            }
            Ok(right)
        },
        _ => Ok(MagType::Unit),
    }
}

fn infer_construct(env: &Env, table: &mut Bindings, locals: &Locals, expr: &Expr) -> (r: Result<
    MagType,
    MagError,
>)
    requires
        expr is Construct,
    ensures
        (final(table)@, type_result(r)) == construct_type(
            env@,
            old(table)@,
            locals_view(locals@),
            expr@,
        ),
    decreases expr, 1nat,
{
    match expr {
        Expr::Construct { owner, constructor, payload } => {
            let vars = local_type_vars(locals);
            let owner = resolve_type(env, owner, &vars)?;
            let constructor = instantiated_constructor(env, &owner, constructor)?;
            let _ = expect_type(env, infer(env, table, locals, payload), &constructor.payload)?;
            Ok(owner)
        },
        _ => Ok(MagType::Unit),
    }
}

fn infer_match(env: &Env, table: &mut Bindings, locals: &Locals, expr: &Expr) -> (r: Result<
    MagType,
    MagError,
>)
    requires
        expr is Match,
    ensures
        (final(table)@, type_result(r)) == match_type(
            env@,
            old(table)@,
            locals_view(locals@),
            expr@,
        ),
    decreases expr, 1nat,
{
    match expr {
        Expr::Match { value, arms } => {
            let owner = infer(env, table, locals, value)?;
            let constructors = adt_constructors(env, &owner)?;
            let (seen, result) = infer_arms(env, table, locals, &owner, arms)?;
            ensure_adt_exhaustive(&constructors, &seen)?;
            Ok(
                match result {
                    Some(t) => t,
                    None => MagType::Unit,
                },
            )
        },
        _ => Ok(MagType::Unit),
    }
}

fn infer_ascribed(env: &Env, locals: &Locals, target: &Type, value: &Expr) -> (r: Result<
    MagType,
    MagError,
>)
    ensures
        type_result(r) == ascribed_type(env@, locals_view(locals@), target@, value@),
{
    proof {
        reveal(ascribed_type);
    }
    let vars = local_type_vars(locals);
    let target = resolve_type(env, target, &vars)?;
    match value {
        Expr::Name(name) => infer_ascribed_name(env, locals, name, target),
        _ => Ok(target),
    }
}

fn infer_tag(env: &Env, locals: &Locals, target: &Type) -> (r: Result<MagType, MagError>)
    ensures
        type_result(r) == tag_type(env@, locals_view(locals@), target@),
{
    proof {
        reveal(tag_type);
    }
    let vars = local_type_vars(locals);
    let t = resolve_type(env, target, &vars)?;
    Ok(tag(t))
}

fn infer_call(env: &Env, table: &mut Bindings, locals: &Locals, expr: &Expr) -> (r: Result<
    MagType,
    MagError,
>)
    requires
        expr is Call,
    ensures
        (final(table)@, type_result(r)) == call_type(
            env@,
            old(table)@,
            locals_view(locals@),
            expr@,
        ),
    decreases expr, 1nat,
{
    match expr {
        Expr::Call { callee, args } => {
            match &**callee {
                Expr::Name(name) => infer_named_call(env, table, locals, name, args),
                _ => {
                    let callable = infer(env, table, locals, callee);
                    infer_value_call(env, table, locals, callable, args)
                },
            }
        },
        _ => Ok(MagType::Unit),
    }
}

fn infer_list(env: &Env, table: &mut Bindings, locals: &Locals, items: &Vec<Expr>) -> (r: Result<
    MagType,
    MagError,
>)
    ensures
        (final(table)@, type_result(r)) == list_type(
            env@,
            old(table)@,
            locals_view(locals@),
            exprs_view(items@),
        ),
    decreases items, 1nat,
{
    let ghost all = exprs_view(items@);
    assert(all.len() == items@.len());
    if items.len() == 0 {
        return Ok(MagType::EmptyList);
    }
    assert(all[0] == items@[0]@);
    let first = infer(env, table, locals, &items[0])?;
    let ghost start = table@;
    let ghost whole = inferred_like(env@, start, locals_view(locals@), all.drop_first(), first@);
    let mut i: usize = 1;
    assert(all.skip(1) =~= all.drop_first());
    while i < items.len()
        invariant
            1 <= i <= items.len(),
            all == exprs_view(items@),
            all.len() == items@.len(),
            all == exprs_view(items@),
            inferred(env@, old(table)@, locals_view(locals@), all[0]) == (
                start,
                Ok::<SType, SError>(first@),
            ),
            whole == inferred_like(env@, start, locals_view(locals@), all.drop_first(), first@),
            whole == inferred_like(
                env@,
                table@,
                locals_view(locals@),
                all.skip(i as int),
                first@,
            ),
        decreases items.len() - i,
    {
        proof {
            assert(all.skip(i as int)[0] == items@[i as int]@);
            assert(all.skip(i as int).drop_first() =~= all.skip(i + 1));
        }
        let _ = expect_type(env, infer(env, table, locals, &items[i]), &first)?;
        i = i + 1;
    }
    Ok(list(first))
}

fn infer_all(env: &Env, table: &mut Bindings, locals: &Locals, items: &Vec<Expr>) -> (r: Result<
    Vec<MagType>,
    MagError,
>)
    ensures
        (final(table)@, types_result(r)) == inferred_all(
            env@,
            old(table)@,
            locals_view(locals@),
            exprs_view(items@),
        ),
    decreases items, 0nat,
{
    let ghost all = exprs_view(items@);
    let ghost l = locals_view(locals@);
    let ghost whole = inferred_all(env@, table@, l, all);
    let mut r: Vec<MagType> = Vec::new();
    let mut i: usize = 0;
    assert(all.skip(0) =~= all);
    assert(types_view(r@) =~= Seq::empty());
    proof {
        let (t, x) = whole;
        assert(x is Ok ==> types_view(r@) + x->Ok_0 =~= x->Ok_0);
    }
    while i < items.len()
        invariant
            i <= items.len(),
            all == exprs_view(items@),
            all.len() == items@.len(),
            l == locals_view(locals@),
            whole == inferred_all(env@, old(table)@, l, all),
            ({
                let (t, x) = inferred_all(env@, table@, l, all.skip(i as int));
                whole == (
                    t,
                    match x {
                        Ok(rest) => Ok(types_view(r@) + rest),
                        Err(e) => Err(e),
                    },
                )
            }),
        decreases items.len() - i,
    {
        let ghost so_far = types_view(r@);
        proof {
            assert(all.skip(i as int)[0] == items@[i as int]@);
            assert(all.skip(i as int).drop_first() =~= all.skip(i + 1));
        }
        let t = infer(env, table, locals, &items[i])?;
        r.push(t);
        proof {
            assert(types_view(r@) =~= so_far.push(t@));
            match inferred_all(env@, table@, l, all.skip(i + 1)).1 {
                Ok(rest) => {
                    assert(so_far + (seq![t@] + rest) =~= so_far.push(t@) + rest);
                },
                Err(_) => {},
            }
        }
        i = i + 1;
    }
    assert(types_view(r@) + Seq::empty() =~= types_view(r@));
    Ok(r)
}

fn infer_fields(
    env: &Env,
    table: &mut Bindings,
    locals: &Locals,
    items: &Vec<(String, Expr)>,
) -> (r: Result<Vec<(String, MagType)>, MagError>)
    ensures
        ({
            let (t, x) = inferred_fields(
                env@,
                old(table)@,
                locals_view(locals@),
                expr_fields_view(items@),
                Seq::empty(),
            );
            final(table)@ == t && match r {
                Ok(f) => x == Ok::<Seq<(Seq<char>, SType)>, SError>(fields_view(f@)),
                Err(e) => x == Err::<Seq<(Seq<char>, SType)>, SError>(e@),
            }
        }),
    decreases items, 0nat,
{
    let ghost all = expr_fields_view(items@);
    let ghost l = locals_view(locals@);
    let ghost whole = inferred_fields(env@, table@, l, all, Seq::empty());
    let mut r: Vec<(String, MagType)> = Vec::new();
    let mut i: usize = 0;
    assert(all.skip(0) =~= all);
    assert(fields_view(r@) =~= Seq::empty());
    while i < items.len()
        invariant
            i <= items.len(),
            all == expr_fields_view(items@),
            all.len() == items@.len(),
            l == locals_view(locals@),
            whole == inferred_fields(env@, old(table)@, l, all, Seq::empty()),
            whole == inferred_fields(env@, table@, l, all.skip(i as int), fields_view(r@)),
        decreases items.len() - i,
    {
        proof {
            assert(all.skip(i as int)[0] == (items@[i as int].0@, items@[i as int].1@));
            assert(all.skip(i as int).drop_first() =~= all.skip(i + 1));
        }
        let t = infer(env, table, locals, &items[i].1)?;
        if field_named(&r, &items[i].0).is_some() {
            return Err(MagError::Type(cat2("duplicate record field ", &items[i].0)));
        }
        put_field(&mut r, items[i].0.clone(), t);
        i = i + 1;
    }
    Ok(r)
}

fn infer_arms(
    env: &Env,
    table: &mut Bindings,
    locals: &Locals,
    owner: &MagType,
    arms: &Vec<MatchArm>,
) -> (r: Result<(Vec<ConstructorDeclarationId>, Option<MagType>), MagError>)
    ensures
        ({
            let (t, x) = inferred_arms(
                env@,
                old(table)@,
                locals_view(locals@),
                owner@,
                match_arms_view(arms@),
                Seq::empty(),
                None,
            );
            final(table)@ == t && match r {
                Ok((seen, result)) => x == Ok::<(Seq<SConstructorId>, Option<SType>), SError>(
                    (constructor_ids(seen@), opt_type(result)),
                ),
                Err(e) => x == Err::<(Seq<SConstructorId>, Option<SType>), SError>(e@),
            }
        }),
    decreases arms, 0nat,
{
    let ghost all = match_arms_view(arms@);
    let ghost l = locals_view(locals@);
    let ghost whole = inferred_arms(env@, table@, l, owner@, all, Seq::empty(), None);
    let mut seen: Vec<ConstructorDeclarationId> = Vec::new();
    let mut result: Option<MagType> = None;
    let mut i: usize = 0;
    assert(all.skip(0) =~= all);
    assert(constructor_ids(seen@) =~= Seq::empty());
    while i < arms.len()
        invariant
            i <= arms.len(),
            all == match_arms_view(arms@),
            all.len() == arms@.len(),
            l == locals_view(locals@),
            whole == inferred_arms(env@, old(table)@, l, owner@, all, Seq::empty(), None),
            whole == inferred_arms(
                env@,
                table@,
                l,
                owner@,
                all.skip(i as int),
                constructor_ids(seen@),
                opt_type(result),
            ),
        decreases arms.len() - i,
    {
        let ghost so_far = constructor_ids(seen@);
        let ghost arm = all[i as int];
        proof {
            assert(all.skip(i as int)[0] == arm);
            assert(arm.constructor == arms@[i as int].constructor@);
            assert(arm.binding == arms@[i as int].binding@);
            assert(*arm.body == arms@[i as int].body@);
            assert(all.skip(i as int).drop_first() =~= all.skip(i + 1));
        }
        let c = instantiated_constructor(env, owner, &arms[i].constructor)?;
        if has_constructor(&seen, &c.id) {
            return Err(MagError::Type(cat2("duplicate match arm for ", &arms[i].constructor)));
        }
        let ghost id = c.id@;
        seen.push(c.id);
        assert(constructor_ids(seen@) =~= so_far.push(id));
        let mut arm_locals = clone_locals(locals);
        add_local(&mut arm_locals, &arms[i].binding, c.payload)?;
        let body = infer(env, table, &arm_locals, &arms[i].body)?;
        match &result {
            None => {
                result = Some(body);
            },
            Some(current) => {
                if compatible_alone(env, &body, current).is_err() {
                    return Err(
                        MagError::Type(
                            cat4(
                                "match arms must return one compatible type, got ",
                                &current.show(),
                                " and ",
                                &body.show(),
                            ),
                        ),
                    );
                }
            },
        }
        i = i + 1;
    }
    Ok((seen, result))
}

fn infer_named_call(
    env: &Env,
    table: &mut Bindings,
    locals: &Locals,
    name: &str,
    args: &Vec<Expr>,
) -> (r: Result<MagType, MagError>)
    ensures
        (final(table)@, type_result(r)) == named_call(
            env@,
            old(table)@,
            locals_view(locals@),
            name@,
            exprs_view(args@),
        ),
    decreases args, 3nat,
{
    let candidates = env.lookup_candidates(name);
    let known = match local_index(locals, name) {
        Some(i) => collect_local_signatures(&locals[i].1),
        None => {
            let none: Vec<MagType> = Vec::new();
            assert(types_view(none@) =~= Seq::empty());
            collect_local_signatures(&none)
        },
    };
    let signatures = collect_signatures(known, &candidates);
    assert(signatures_view(signatures@).len() == signatures@.len());
    if signatures.len() > 0 {
        let arguments = infer_all(env, table, locals, args)?;
        let results = narrow(collect_matching(env, &signatures, &arguments));
        assert(pairs_view(results@).len() == results@.len());
        if results.len() == 1 {
            Ok(results[0].1.clone())
        } else if results.len() > 1 {
            Err(MagError::Type(cat3("ambiguous overload ", name, " for call")))
        } else if any_builtin(&candidates) {
            infer_builtin(env, table, locals, name, args)
        } else {
            Err(MagError::Type(cat3("no overload ", name, " matches call")))
        }
    } else if any_builtin(&candidates) {
        infer_builtin(env, table, locals, name, args)
    } else {
        let callable = infer_name(env, locals, name);
        infer_value_call(env, table, locals, callable, args)
    }
}

fn infer_value_call(
    env: &Env,
    table: &mut Bindings,
    locals: &Locals,
    callable: Result<MagType, MagError>,
    args: &Vec<Expr>,
) -> (r: Result<MagType, MagError>)
    ensures
        (final(table)@, type_result(r)) == value_call(
            env@,
            old(table)@,
            locals_view(locals@),
            type_result(callable),
            exprs_view(args@),
        ),
    decreases args, 2nat,
{
    assert(exprs_view(args@).len() == args@.len());
    match callable? {
        MagType::Function(params, result) => {
            assert(types_view(params@).len() == params@.len());
            if params.len() != args.len() {
                return Err(wrong_arity("call", params.len(), args.len()));
            }
            let arguments = infer_all(env, table, locals, args)?;
            proof {
                assert(types_view(arguments@).len() == arguments@.len());
                inferred_all_len(env@, old(table)@, locals_view(locals@), exprs_view(args@));
            }
            let mut subst = Substitution::new();
            match compatible_params(env, &arguments, &params, &mut subst) {
                Ok(_) => Ok(substitute(&result, &subst)),
                Err(m) => Err(MagError::Type(m)),
            }
        },
        t => Err(MagError::Type(cat2("cannot call ", &t.show()))),
    }
}

proof fn inferred_all_len(env: SEnv, table: SBindings, locals: SLocals, items: Seq<SExpr>)
    ensures
        match inferred_all(env, table, locals, items).1 {
            Ok(t) => t.len() == items.len(),
            Err(_) => true,
        },
    decreases items.len(),
{
    if items.len() > 0 {
        let (after, _) = inferred(env, table, locals, items[0]);
        inferred_all_len(env, after, locals, items.drop_first());
    }
}

fn infer_value_type_id(
    env: &Env,
    table: &mut Bindings,
    locals: &Locals,
    name: &str,
    args: &Vec<Expr>,
) -> (r: Result<MagType, MagError>)
    ensures
        (final(table)@, type_result(r)) == value_type_id_rule(
            env@,
            old(table)@,
            name@,
            exprs_view(args@),
            argument_types(env@, locals_view(locals@), exprs_view(args@)),
        ),
    decreases args, 1nat,
{
    proof {
        reveal(value_type_id_rule);
        assert(exprs_view(args@).len() == args@.len());
    }
    if args.len() != 2 {
        return Err(wrong_arity(name, 2, args.len()));
    }
    let actual = infer(env, table, locals, &args[0])?;
    match infer(env, table, locals, &args[1])? {
        MagType::TypeTag(expected) => {
            fit_types(env, &expected, &actual)?;
            Ok(MagType::SemanticTypeId)
        },
        MagType::TypeDescriptor => Ok(MagType::SemanticTypeId),
        _ => Err(
            MagError::Type("value-type-id expects TypeTag or TypeDescriptor evidence".to_owned()),
        ),
    }
}

/// The type rule of an empty map.
#[verifier::opaque]
pub open spec fn map_empty_rule(
    env: SEnv,
    s0: SBindings,
    name: Seq<char>,
    args: Seq<SExpr>,
    of: Arguments,
) -> STyped {
    if !(1 <= args.len() <= 2) {
        (s0, type_error("__map-empty expects 1-2 arguments, got "@ + decimal(args.len())))
    } else {
        let (s1, r1) = of(s0, 0);
        match tagged(r1, "__map-empty expects TypeTag keys, got "@) {
            Err(e) => (s1, Err(e)),
            Ok(key) => {
                let (s2, r2) = required_equality(env, s1, key);
                match r2 {
                    Err(e) => (s2, Err(e)),
                    Ok(_) => {
                        if args.len() == 2 {
                            let (s3, r3) = of(s2, 1);
                            match tagged(r3, "__map-empty expects TypeTag values, got "@) {
                                Err(e) => (s3, Err(e)),
                                Ok(value) => {
                                    (s3, Ok(smap(key, value)))
                                },
                            }
                        } else {
                            (s2, Ok(smap(key, bvar("value"@))))
                        }
                    },
                }
            },
        }
    }
}

fn infer_map_empty(
    env: &Env,
    table: &mut Bindings,
    locals: &Locals,
    name: &str,
    args: &Vec<Expr>,
) -> (r: Result<MagType, MagError>)
    ensures
        (final(table)@, type_result(r)) == map_empty_rule(
            env@,
            old(table)@,
            name@,
            exprs_view(args@),
            argument_types(env@, locals_view(locals@), exprs_view(args@)),
        ),
    decreases args, 1nat,
{
    proof {
        reveal(map_empty_rule);
        assert(exprs_view(args@).len() == args@.len());
    }
    if args.len() < 1 || args.len() > 2 {
        return Err(MagError::Type(cat2("__map-empty expects 1-2 arguments, got ", &show_usize(args.len()))));
    }
    let key = tag_subject(infer(env, table, locals, &args[0]), "__map-empty expects TypeTag keys, got ")?;
    require_equality_admissible(env, table, &key)?;
    if args.len() == 2 {
        let value = tag_subject(infer(env, table, locals, &args[1]), "__map-empty expects TypeTag values, got ")?;
        Ok(map_of(key.clone(), value.clone()))
    } else {
        Ok(map_of(key.clone(), var("value")))
    }
}

/// The type rule of reading and extending a map.
#[verifier::opaque]
pub open spec fn map_access_rule(
    env: SEnv,
    s0: SBindings,
    name: Seq<char>,
    args: Seq<SExpr>,
    of: Arguments,
) -> STyped {
    let expected: nat = if name == "__map-insert"@ || name == "__map-put"@ || name == "__map-get-or"@ {
        3
    } else {
        2
    };
    if args.len() != expected {
        (s0, type_error(arity_message(name, expected, args.len())))
    } else {
        let (s1, r1) = of(s0, 0);
        match r1 {
            Err(e) => (s1, Err(e)),
            Ok(target) => {
                match target {
                    SType::MapOf(key, value) => {
                        let (s2, r2) = required_equality(env, s1, *key);
                        match r2 {
                            Err(e) => (s2, Err(e)),
                            Ok(_) => {
                                let (s3, r3) = of(s2, 1);
                                match expecting(env, r3, *key) {
                                    Err(e) => (s3, Err(e)),
                                    Ok(_actual_key) => {
                                        if name == "__map-insert"@ || name == "__map-put"@ || name == "__map-get-or"@ {
                                            let (s4, r4) = of(s3, 2);
                                            match expecting(env, r4, *value) {
                                                Err(e) => (s4, Err(e)),
                                                Ok(_actual_value) => {
                                                    if name == "__map-get-or"@ {
                                                        (s4, Ok(*value))
                                                    } else {
                                                        (s4, Ok(smap(*key, *value)))
                                                    }
                                                },
                                            }
                                        } else {
                                            if name == "__map-get"@ {
                                                (s3, Ok(*value))
                                            } else {
                                                (s3, Ok(SType::Bool))
                                            }
                                        }
                                    },
                                }
                            },
                        }
                    },
                    _ => (s1, type_error(name + " expects Map, got "@ + type_text(target))),
                }
            },
        }
    }
}

fn infer_map_access(
    env: &Env,
    table: &mut Bindings,
    locals: &Locals,
    name: &str,
    args: &Vec<Expr>,
) -> (r: Result<MagType, MagError>)
    ensures
        (final(table)@, type_result(r)) == map_access_rule(
            env@,
            old(table)@,
            name@,
            exprs_view(args@),
            argument_types(env@, locals_view(locals@), exprs_view(args@)),
        ),
    decreases args, 1nat,
{
    proof {
        reveal(map_access_rule);
        assert(exprs_view(args@).len() == args@.len());
    }
    let expected: usize = if same(name, "__map-insert") || same(name, "__map-put") || same(name, "__map-get-or") {
        3
    } else {
        2
    };
    if args.len() != expected {
        return Err(wrong_arity(name, expected, args.len()));
    }
    let target = infer(env, table, locals, &args[0])?;
    match &target {
        MagType::MapOf(key, value) => {
            require_equality_admissible(env, table, key)?;
            let _actual_key = expect_type(env, infer(env, table, locals, &args[1]), key)?;
            if same(name, "__map-insert") || same(name, "__map-put") || same(name, "__map-get-or") {
                let _actual_value = expect_type(env, infer(env, table, locals, &args[2]), value)?;
                if same(name, "__map-get-or") {
                    Ok((**value).clone())
                } else {
                    Ok(map_of((**key).clone(), (**value).clone()))
                }
            } else {
                if same(name, "__map-get") {
                    Ok((**value).clone())
                } else {
                    Ok(MagType::Bool)
                }
            }
        },
        _ => Err(MagError::Type(cat3(name, " expects Map, got ", &target.show()))),
    }
}

/// The type rule of the union of two maps.
#[verifier::opaque]
pub open spec fn map_union_rule(
    env: SEnv,
    s0: SBindings,
    name: Seq<char>,
    args: Seq<SExpr>,
    of: Arguments,
) -> STyped {
    if args.len() != 2 {
        (s0, type_error(arity_message(name, 2, args.len())))
    } else {
        let (s1, r1) = of(s0, 0);
        match r1 {
            Err(e) => (s1, Err(e)),
            Ok(left) => {
                let (s2, r2) = of(s1, 1);
                match r2 {
                    Err(e) => (s2, Err(e)),
                    Ok(right) => {
                        match fits(env, right, left) {
                            Err(m) => (s2, type_error(m)),
                            Ok(_) => {
                                match left {
                                    SType::MapOf(key, value) => {
                                        let (s3, r3) = required_equality(env, s2, *key);
                                        match r3 {
                                            Err(e) => (s3, Err(e)),
                                            Ok(_) => {
                                                (s3, Ok(smap(*key, *value)))
                                            },
                                        }
                                    },
                                    _ => (s2, type_error("__map-union-left expects Map, got "@ + type_text(left))),
                                }
                            },
                        }
                    },
                }
            },
        }
    }
}

fn infer_map_union(
    env: &Env,
    table: &mut Bindings,
    locals: &Locals,
    name: &str,
    args: &Vec<Expr>,
) -> (r: Result<MagType, MagError>)
    ensures
        (final(table)@, type_result(r)) == map_union_rule(
            env@,
            old(table)@,
            name@,
            exprs_view(args@),
            argument_types(env@, locals_view(locals@), exprs_view(args@)),
        ),
    decreases args, 1nat,
{
    proof {
        reveal(map_union_rule);
        assert(exprs_view(args@).len() == args@.len());
    }
    if args.len() != 2 {
        return Err(wrong_arity(name, 2, args.len()));
    }
    let left = infer(env, table, locals, &args[0])?;
    let right = infer(env, table, locals, &args[1])?;
    fit_types(env, &right, &left)?;
    match &left {
        MagType::MapOf(key, value) => {
            require_equality_admissible(env, table, key)?;
            Ok(map_of((**key).clone(), (**value).clone()))
        },
        _ => Err(MagError::Type(cat2("__map-union-left expects Map, got ", &left.show()))),
    }
}

/// The type rule of the size of a map.
#[verifier::opaque]
pub open spec fn map_count_rule(
    env: SEnv,
    s0: SBindings,
    name: Seq<char>,
    args: Seq<SExpr>,
    of: Arguments,
) -> STyped {
    if args.len() != 1 {
        (s0, type_error(arity_message(name, 1, args.len())))
    } else {
        let (s1, r1) = of(s0, 0);
        match r1 {
            Err(e) => (s1, Err(e)),
            Ok(target) => {
                match target {
                    SType::MapOf(key, _value) => {
                        let (s2, r2) = required_equality(env, s1, *key);
                        match r2 {
                            Err(e) => (s2, Err(e)),
                            Ok(_) => {
                                (s2, Ok(SType::Int))
                            },
                        }
                    },
                    _ => (s1, type_error("__map-count expects Map, got "@ + type_text(target))),
                }
            },
        }
    }
}

fn infer_map_count(
    env: &Env,
    table: &mut Bindings,
    locals: &Locals,
    name: &str,
    args: &Vec<Expr>,
) -> (r: Result<MagType, MagError>)
    ensures
        (final(table)@, type_result(r)) == map_count_rule(
            env@,
            old(table)@,
            name@,
            exprs_view(args@),
            argument_types(env@, locals_view(locals@), exprs_view(args@)),
        ),
    decreases args, 1nat,
{
    proof {
        reveal(map_count_rule);
        assert(exprs_view(args@).len() == args@.len());
    }
    if args.len() != 1 {
        return Err(wrong_arity(name, 1, args.len()));
    }
    let target = infer(env, table, locals, &args[0])?;
    match &target {
        MagType::MapOf(key, _value) => {
            require_equality_admissible(env, table, key)?;
            Ok(MagType::Int)
        },
        _ => Err(MagError::Type(cat2("__map-count expects Map, got ", &target.show()))),
    }
}

/// The type rule of an empty set.
#[verifier::opaque]
pub open spec fn set_empty_rule(
    env: SEnv,
    s0: SBindings,
    name: Seq<char>,
    args: Seq<SExpr>,
    of: Arguments,
) -> STyped {
    if args.len() != 1 {
        (s0, type_error(arity_message(name, 1, args.len())))
    } else {
        let (s1, r1) = of(s0, 0);
        match tagged(r1, "__set-empty expects TypeTag, got "@) {
            Err(e) => (s1, Err(e)),
            Ok(item) => {
                let (s2, r2) = required_equality(env, s1, item);
                match r2 {
                    Err(e) => (s2, Err(e)),
                    Ok(_) => {
                        (s2, Ok(sset(item)))
                    },
                }
            },
        }
    }
}

fn infer_set_empty(
    env: &Env,
    table: &mut Bindings,
    locals: &Locals,
    name: &str,
    args: &Vec<Expr>,
) -> (r: Result<MagType, MagError>)
    ensures
        (final(table)@, type_result(r)) == set_empty_rule(
            env@,
            old(table)@,
            name@,
            exprs_view(args@),
            argument_types(env@, locals_view(locals@), exprs_view(args@)),
        ),
    decreases args, 1nat,
{
    proof {
        reveal(set_empty_rule);
        assert(exprs_view(args@).len() == args@.len());
    }
    if args.len() != 1 {
        return Err(wrong_arity(name, 1, args.len()));
    }
    let item = tag_subject(infer(env, table, locals, &args[0]), "__set-empty expects TypeTag, got ")?;
    require_equality_admissible(env, table, &item)?;
    Ok(set_of(item.clone()))
}

/// The type rule of reading and extending a set.
#[verifier::opaque]
pub open spec fn set_access_rule(
    env: SEnv,
    s0: SBindings,
    name: Seq<char>,
    args: Seq<SExpr>,
    of: Arguments,
) -> STyped {
    if args.len() != 2 {
        (s0, type_error(arity_message(name, 2, args.len())))
    } else {
        let (s1, r1) = of(s0, 0);
        match r1 {
            Err(e) => (s1, Err(e)),
            Ok(target) => {
                match target {
                    SType::SetOf(item) => {
                        let (s2, r2) = required_equality(env, s1, *item);
                        match r2 {
                            Err(e) => (s2, Err(e)),
                            Ok(_) => {
                                let (s3, r3) = of(s2, 1);
                                match expecting(env, r3, *item) {
                                    Err(e) => (s3, Err(e)),
                                    Ok(_actual) => {
                                        if name == "__set-insert"@ {
                                            (s3, Ok(sset(*item)))
                                        } else {
                                            (s3, Ok(SType::Bool))
                                        }
                                    },
                                }
                            },
                        }
                    },
                    _ => (s1, type_error(name + " expects Set, got "@ + type_text(target))),
                }
            },
        }
    }
}

fn infer_set_access(
    env: &Env,
    table: &mut Bindings,
    locals: &Locals,
    name: &str,
    args: &Vec<Expr>,
) -> (r: Result<MagType, MagError>)
    ensures
        (final(table)@, type_result(r)) == set_access_rule(
            env@,
            old(table)@,
            name@,
            exprs_view(args@),
            argument_types(env@, locals_view(locals@), exprs_view(args@)),
        ),
    decreases args, 1nat,
{
    proof {
        reveal(set_access_rule);
        assert(exprs_view(args@).len() == args@.len());
    }
    if args.len() != 2 {
        return Err(wrong_arity(name, 2, args.len()));
    }
    let target = infer(env, table, locals, &args[0])?;
    match &target {
        MagType::SetOf(item) => {
            require_equality_admissible(env, table, item)?;
            let _actual = expect_type(env, infer(env, table, locals, &args[1]), item)?;
            if same(name, "__set-insert") {
                Ok(set_of((**item).clone()))
            } else {
                Ok(MagType::Bool)
            }
        },
        _ => Err(MagError::Type(cat3(name, " expects Set, got ", &target.show()))),
    }
}

/// The type rule of the size of a set.
#[verifier::opaque]
pub open spec fn set_count_rule(
    env: SEnv,
    s0: SBindings,
    name: Seq<char>,
    args: Seq<SExpr>,
    of: Arguments,
) -> STyped {
    if args.len() != 1 {
        (s0, type_error(arity_message(name, 1, args.len())))
    } else {
        let (s1, r1) = of(s0, 0);
        match r1 {
            Err(e) => (s1, Err(e)),
            Ok(target) => {
                match target {
                    SType::SetOf(item) => {
                        let (s2, r2) = required_equality(env, s1, *item);
                        match r2 {
                            Err(e) => (s2, Err(e)),
                            Ok(_) => {
                                (s2, Ok(SType::Int))
                            },
                        }
                    },
                    _ => (s1, type_error("__set-count expects Set, got "@ + type_text(target))),
                }
            },
        }
    }
}

fn infer_set_count(
    env: &Env,
    table: &mut Bindings,
    locals: &Locals,
    name: &str,
    args: &Vec<Expr>,
) -> (r: Result<MagType, MagError>)
    ensures
        (final(table)@, type_result(r)) == set_count_rule(
            env@,
            old(table)@,
            name@,
            exprs_view(args@),
            argument_types(env@, locals_view(locals@), exprs_view(args@)),
        ),
    decreases args, 1nat,
{
    proof {
        reveal(set_count_rule);
        assert(exprs_view(args@).len() == args@.len());
    }
    if args.len() != 1 {
        return Err(wrong_arity(name, 1, args.len()));
    }
    let target = infer(env, table, locals, &args[0])?;
    match &target {
        MagType::SetOf(item) => {
            require_equality_admissible(env, table, item)?;
            Ok(MagType::Int)
        },
        _ => Err(MagError::Type(cat2("__set-count expects Set, got ", &target.show()))),
    }
}

/// The type rule of a field of a record.
#[verifier::opaque]
pub open spec fn get_rule(
    env: SEnv,
    s0: SBindings,
    name: Seq<char>,
    args: Seq<SExpr>,
    of: Arguments,
) -> STyped {
    if args.len() != 2 {
        (s0, type_error(arity_message(name, 2, args.len())))
    } else {
        let (s1, r1) = of(s0, 0);
        match r1 {
            Err(e) => (s1, Err(e)),
            Ok(target) => {
                if target is HostInputs || target is MapOf {
                    (s1, type_error("get expects a record, got "@ + type_text(target)))
                } else {
                    let (s2, r2) = of(s1, 1);
                    match expecting(env, r2, SType::String) {
                        Err(e) => (s2, Err(e)),
                        Ok(_key) => {
                            match field_of(env, target, literal_key(args[1]), expansion_limit(env)) {
                                None => (s2, type_error("cannot get "@ + key_text(literal_key(args[1])) + " from "@ + type_text(target))),
                                Some(output) => {
                                    (s2, Ok(output))
                                },
                            }
                        },
                    }
                }
            },
        }
    }
}

fn infer_get(
    env: &Env,
    table: &mut Bindings,
    locals: &Locals,
    name: &str,
    args: &Vec<Expr>,
) -> (r: Result<MagType, MagError>)
    ensures
        (final(table)@, type_result(r)) == get_rule(
            env@,
            old(table)@,
            name@,
            exprs_view(args@),
            argument_types(env@, locals_view(locals@), exprs_view(args@)),
        ),
    decreases args, 1nat,
{
    proof {
        reveal(get_rule);
        assert(exprs_view(args@).len() == args@.len());
    }
    if args.len() != 2 {
        return Err(wrong_arity(name, 2, args.len()));
    }
    let target = infer(env, table, locals, &args[0])?;
    if matches!(target, MagType::HostInputs | MagType::MapOf(_, _)) {
        return Err(MagError::Type(cat2("get expects a record, got ", &target.show())));
    }
    let _key = expect_type(env, infer(env, table, locals, &args[1]), &MagType::String)?;
    let key = written_key(&args[1]);
    let output = match field_type(env, &target, key) {
        Some(t) => t,
        None => {
            return Err(MagError::Type(cat4("cannot get ", &show_key(key), " from ", &target.show())));
        },
    };
    Ok(output.clone())
}

/// The type rule of a record with a field replaced.
#[verifier::opaque]
pub open spec fn assoc_rule(
    env: SEnv,
    s0: SBindings,
    name: Seq<char>,
    args: Seq<SExpr>,
    of: Arguments,
) -> STyped {
    if args.len() != 3 {
        (s0, type_error(arity_message(name, 3, args.len())))
    } else {
        let (s1, r1) = of(s0, 0);
        match r1 {
            Err(e) => (s1, Err(e)),
            Ok(target) => {
                if target is MapOf {
                    (s1, type_error("assoc expects a record"@))
                } else {
                    let (s2, r2) = of(s1, 1);
                    match expecting(env, r2, SType::String) {
                        Err(e) => (s2, Err(e)),
                        Ok(_key) => {
                            match field_of(env, target, literal_key(args[1]), expansion_limit(env)) {
                                None => (s2, type_error("cannot assoc "@ + key_text(literal_key(args[1])) + " into "@ + type_text(target))),
                                Some(expected) => {
                                    let (s3, r3) = of(s2, 2);
                                    match expecting(env, r3, expected) {
                                        Err(e) => (s3, Err(e)),
                                        Ok(_value) => {
                                            (s3, Ok(target))
                                        },
                                    }
                                },
                            }
                        },
                    }
                }
            },
        }
    }
}

fn infer_assoc(
    env: &Env,
    table: &mut Bindings,
    locals: &Locals,
    name: &str,
    args: &Vec<Expr>,
) -> (r: Result<MagType, MagError>)
    ensures
        (final(table)@, type_result(r)) == assoc_rule(
            env@,
            old(table)@,
            name@,
            exprs_view(args@),
            argument_types(env@, locals_view(locals@), exprs_view(args@)),
        ),
    decreases args, 1nat,
{
    proof {
        reveal(assoc_rule);
        assert(exprs_view(args@).len() == args@.len());
    }
    if args.len() != 3 {
        return Err(wrong_arity(name, 3, args.len()));
    }
    let target = infer(env, table, locals, &args[0])?;
    if matches!(target, MagType::MapOf(_, _)) {
        return Err(MagError::Type("assoc expects a record".to_owned()));
    }
    let _key = expect_type(env, infer(env, table, locals, &args[1]), &MagType::String)?;
    let key = written_key(&args[1]);
    let expected = match field_type(env, &target, key) {
        Some(t) => t,
        None => {
            return Err(MagError::Type(cat4("cannot assoc ", &show_key(key), " into ", &target.show())));
        },
    };
    let _value = expect_type(env, infer(env, table, locals, &args[2]), &expected)?;
    Ok(target.clone())
}

/// The type rule of the size of a collection.
#[verifier::opaque]
pub open spec fn count_rule(
    env: SEnv,
    s0: SBindings,
    name: Seq<char>,
    args: Seq<SExpr>,
    of: Arguments,
) -> STyped {
    if args.len() != 1 {
        (s0, type_error(arity_message(name, 1, args.len())))
    } else {
        let (s1, r1) = of(s0, 0);
        match r1 {
            Err(e) => (s1, Err(e)),
            Ok(actual) => {
                if !(actual is List || actual is Record || actual is String) {
                    (s1, type_error("count expects a collection, got "@ + type_text(actual)))
                } else {
                    (s1, Ok(SType::Int))
                }
            },
        }
    }
}

fn infer_count(
    env: &Env,
    table: &mut Bindings,
    locals: &Locals,
    name: &str,
    args: &Vec<Expr>,
) -> (r: Result<MagType, MagError>)
    ensures
        (final(table)@, type_result(r)) == count_rule(
            env@,
            old(table)@,
            name@,
            exprs_view(args@),
            argument_types(env@, locals_view(locals@), exprs_view(args@)),
        ),
    decreases args, 1nat,
{
    proof {
        reveal(count_rule);
        assert(exprs_view(args@).len() == args@.len());
    }
    if args.len() != 1 {
        return Err(wrong_arity(name, 1, args.len()));
    }
    let actual = infer(env, table, locals, &args[0])?;
    if !matches!(actual, MagType::List(_) | MagType::Record(_) | MagType::String) {
        return Err(MagError::Type(cat2("count expects a collection, got ", &actual.show())));
    }
    Ok(MagType::Int)
}

/// The type rule of equality.
#[verifier::opaque]
pub open spec fn equal_rule(
    env: SEnv,
    s0: SBindings,
    name: Seq<char>,
    args: Seq<SExpr>,
    of: Arguments,
) -> STyped {
    if args.len() != 2 {
        (s0, type_error(arity_message(name, 2, args.len())))
    } else {
        let (s1, r1) = of(s0, 0);
        match r1 {
            Err(e) => (s1, Err(e)),
            Ok(left) => {
                let (s2, r2) = of(s1, 1);
                match r2 {
                    Err(e) => (s2, Err(e)),
                    Ok(right) => {
                        match fits(env, left, right) {
                            Err(m) => (s2, type_error(m)),
                            Ok(_) => {
                                let (s3, r3) = required_equality(env, s2, left);
                                match r3 {
                                    Err(e) => (s3, Err(e)),
                                    Ok(_) => {
                                        let (s4, r4) = required_equality(env, s3, right);
                                        match r4 {
                                            Err(e) => (s4, Err(e)),
                                            Ok(_) => {
                                                (s4, Ok(SType::Bool))
                                            },
                                        }
                                    },
                                }
                            },
                        }
                    },
                }
            },
        }
    }
}

fn infer_equal(
    env: &Env,
    table: &mut Bindings,
    locals: &Locals,
    name: &str,
    args: &Vec<Expr>,
) -> (r: Result<MagType, MagError>)
    ensures
        (final(table)@, type_result(r)) == equal_rule(
            env@,
            old(table)@,
            name@,
            exprs_view(args@),
            argument_types(env@, locals_view(locals@), exprs_view(args@)),
        ),
    decreases args, 1nat,
{
    proof {
        reveal(equal_rule);
        assert(exprs_view(args@).len() == args@.len());
    }
    if args.len() != 2 {
        return Err(wrong_arity(name, 2, args.len()));
    }
    let left = infer(env, table, locals, &args[0])?;
    let right = infer(env, table, locals, &args[1])?;
    fit_types(env, &left, &right)?;
    require_equality_admissible(env, table, &left)?;
    require_equality_admissible(env, table, &right)?;
    Ok(MagType::Bool)
}

/// The type rule of negation.
#[verifier::opaque]
pub open spec fn not_rule(
    env: SEnv,
    s0: SBindings,
    name: Seq<char>,
    args: Seq<SExpr>,
    of: Arguments,
) -> STyped {
    if args.len() != 1 {
        (s0, type_error(arity_message(name, 1, args.len())))
    } else {
        let (s1, r1) = of(s0, 0);
        match expecting(env, r1, SType::Bool) {
            Err(e) => (s1, Err(e)),
            Ok(_actual) => {
                (s1, Ok(SType::Bool))
            },
        }
    }
}

fn infer_not(
    env: &Env,
    table: &mut Bindings,
    locals: &Locals,
    name: &str,
    args: &Vec<Expr>,
) -> (r: Result<MagType, MagError>)
    ensures
        (final(table)@, type_result(r)) == not_rule(
            env@,
            old(table)@,
            name@,
            exprs_view(args@),
            argument_types(env@, locals_view(locals@), exprs_view(args@)),
        ),
    decreases args, 1nat,
{
    proof {
        reveal(not_rule);
        assert(exprs_view(args@).len() == args@.len());
    }
    if args.len() != 1 {
        return Err(wrong_arity(name, 1, args.len()));
    }
    let _actual = expect_type(env, infer(env, table, locals, &args[0]), &MagType::Bool)?;
    Ok(MagType::Bool)
}

/// The type rule of an input of the host.
#[verifier::opaque]
pub open spec fn host_input_rule(
    env: SEnv,
    s0: SBindings,
    name: Seq<char>,
    args: Seq<SExpr>,
    of: Arguments,
) -> STyped {
    if args.len() != 2 {
        (s0, type_error(arity_message(name, 2, args.len())))
    } else {
        let (s1, r1) = of(s0, 0);
        match expecting(env, r1, SType::String) {
            Err(e) => (s1, Err(e)),
            Ok(_key) => {
                let (s2, r2) = of(s1, 1);
                match tagged(r2, "host-input expects TypeTag, got "@) {
                    Err(e) => (s2, Err(e)),
                    Ok(expected) => {
                        (s2, Ok(expected))
                    },
                }
            },
        }
    }
}

fn infer_host_input(
    env: &Env,
    table: &mut Bindings,
    locals: &Locals,
    name: &str,
    args: &Vec<Expr>,
) -> (r: Result<MagType, MagError>)
    ensures
        (final(table)@, type_result(r)) == host_input_rule(
            env@,
            old(table)@,
            name@,
            exprs_view(args@),
            argument_types(env@, locals_view(locals@), exprs_view(args@)),
        ),
    decreases args, 1nat,
{
    proof {
        reveal(host_input_rule);
        assert(exprs_view(args@).len() == args@.len());
    }
    if args.len() != 2 {
        return Err(wrong_arity(name, 2, args.len()));
    }
    let _key = expect_type(env, infer(env, table, locals, &args[0]), &MagType::String)?;
    let expected = tag_subject(infer(env, table, locals, &args[1]), "host-input expects TypeTag, got ")?;
    Ok(expected.clone())
}

/// The type rule of the descriptor of a tag.
#[verifier::opaque]
pub open spec fn type_evidence_rule(
    env: SEnv,
    s0: SBindings,
    name: Seq<char>,
    args: Seq<SExpr>,
    of: Arguments,
) -> STyped {
    if args.len() != 1 {
        (s0, type_error(arity_message(name, 1, args.len())))
    } else {
        let (s1, r1) = of(s0, 0);
        match tagged(r1, "type-evidence expects TypeTag, got "@) {
            Err(e) => (s1, Err(e)),
            Ok(_subject) => {
                (s1, Ok(SType::TypeDescriptor))
            },
        }
    }
}

fn infer_type_evidence(
    env: &Env,
    table: &mut Bindings,
    locals: &Locals,
    name: &str,
    args: &Vec<Expr>,
) -> (r: Result<MagType, MagError>)
    ensures
        (final(table)@, type_result(r)) == type_evidence_rule(
            env@,
            old(table)@,
            name@,
            exprs_view(args@),
            argument_types(env@, locals_view(locals@), exprs_view(args@)),
        ),
    decreases args, 1nat,
{
    proof {
        reveal(type_evidence_rule);
        assert(exprs_view(args@).len() == args@.len());
    }
    if args.len() != 1 {
        return Err(wrong_arity(name, 1, args.len()));
    }
    let _subject = tag_subject(infer(env, table, locals, &args[0]), "type-evidence expects TypeTag, got ")?;
    Ok(MagType::TypeDescriptor)
}

/// The type rule of the schema of a tag.
#[verifier::opaque]
pub open spec fn type_schema_rule(
    env: SEnv,
    s0: SBindings,
    name: Seq<char>,
    args: Seq<SExpr>,
    of: Arguments,
) -> STyped {
    if args.len() != 1 {
        (s0, type_error(arity_message(name, 1, args.len())))
    } else {
        let (s1, r1) = of(s0, 0);
        match tagged(r1, "type-schema expects TypeTag, got "@) {
            Err(e) => (s1, Err(e)),
            Ok(_subject) => {
                (s1, Ok(SType::TypeSchema))
            },
        }
    }
}

fn infer_type_schema(
    env: &Env,
    table: &mut Bindings,
    locals: &Locals,
    name: &str,
    args: &Vec<Expr>,
) -> (r: Result<MagType, MagError>)
    ensures
        (final(table)@, type_result(r)) == type_schema_rule(
            env@,
            old(table)@,
            name@,
            exprs_view(args@),
            argument_types(env@, locals_view(locals@), exprs_view(args@)),
        ),
    decreases args, 1nat,
{
    proof {
        reveal(type_schema_rule);
        assert(exprs_view(args@).len() == args@.len());
    }
    if args.len() != 1 {
        return Err(wrong_arity(name, 1, args.len()));
    }
    let _subject = tag_subject(infer(env, table, locals, &args[0]), "type-schema expects TypeTag, got ")?;
    Ok(MagType::TypeSchema)
}

/// The type rule of the identity of a descriptor.
#[verifier::opaque]
pub open spec fn type_id_rule(
    env: SEnv,
    s0: SBindings,
    name: Seq<char>,
    args: Seq<SExpr>,
    of: Arguments,
) -> STyped {
    if args.len() != 1 {
        (s0, type_error(arity_message(name, 1, args.len())))
    } else {
        let (s1, r1) = of(s0, 0);
        match expecting(env, r1, SType::TypeDescriptor) {
            Err(e) => (s1, Err(e)),
            Ok(_descriptor) => {
                (s1, Ok(SType::SemanticTypeId))
            },
        }
    }
}

fn infer_type_id(
    env: &Env,
    table: &mut Bindings,
    locals: &Locals,
    name: &str,
    args: &Vec<Expr>,
) -> (r: Result<MagType, MagError>)
    ensures
        (final(table)@, type_result(r)) == type_id_rule(
            env@,
            old(table)@,
            name@,
            exprs_view(args@),
            argument_types(env@, locals_view(locals@), exprs_view(args@)),
        ),
    decreases args, 1nat,
{
    proof {
        reveal(type_id_rule);
        assert(exprs_view(args@).len() == args@.len());
    }
    if args.len() != 1 {
        return Err(wrong_arity(name, 1, args.len()));
    }
    let _descriptor = expect_type(env, infer(env, table, locals, &args[0]), &MagType::TypeDescriptor)?;
    Ok(MagType::SemanticTypeId)
}

/// The type rule of the descriptor of a value.
#[verifier::opaque]
pub open spec fn value_type_evidence_rule(
    env: SEnv,
    s0: SBindings,
    name: Seq<char>,
    args: Seq<SExpr>,
    of: Arguments,
) -> STyped {
    if args.len() != 2 {
        (s0, type_error(arity_message(name, 2, args.len())))
    } else {
        let (s1, r1) = of(s0, 0);
        match r1 {
            Err(e) => (s1, Err(e)),
            Ok(_value) => {
                let (s2, r2) = of(s1, 1);
                match expecting(env, r2, SType::TypeDescriptor) {
                    Err(e) => (s2, Err(e)),
                    Ok(_evidence) => {
                        (s2, Ok(SType::TypeDescriptor))
                    },
                }
            },
        }
    }
}

fn infer_value_type_evidence(
    env: &Env,
    table: &mut Bindings,
    locals: &Locals,
    name: &str,
    args: &Vec<Expr>,
) -> (r: Result<MagType, MagError>)
    ensures
        (final(table)@, type_result(r)) == value_type_evidence_rule(
            env@,
            old(table)@,
            name@,
            exprs_view(args@),
            argument_types(env@, locals_view(locals@), exprs_view(args@)),
        ),
    decreases args, 1nat,
{
    proof {
        reveal(value_type_evidence_rule);
        assert(exprs_view(args@).len() == args@.len());
    }
    if args.len() != 2 {
        return Err(wrong_arity(name, 2, args.len()));
    }
    let _value = infer(env, table, locals, &args[0])?;
    let _evidence = expect_type(env, infer(env, table, locals, &args[1]), &MagType::TypeDescriptor)?;
    Ok(MagType::TypeDescriptor)
}

/// The type rule of the first value that counts as true.
#[verifier::opaque]
pub open spec fn or_rule(
    env: SEnv,
    s0: SBindings,
    name: Seq<char>,
    args: Seq<SExpr>,
    of: Arguments,
) -> STyped {
    if args.len() != 2 {
        (s0, type_error(arity_message(name, 2, args.len())))
    } else {
        let (s1, r1) = of(s0, 0);
        match r1 {
            Err(e) => (s1, Err(e)),
            Ok(a) => {
                let (s2, r2) = of(s1, 1);
                match r2 {
                    Err(e) => (s2, Err(e)),
                    Ok(b) => {
                        match fits(env, a, b) {
                            Err(_) => (s2, type_error("or operands must return one compatible type, got "@ + type_text(a) + " and "@ + type_text(b))),
                            Ok(_) => {
                                (s2, Ok(b))
                            },
                        }
                    },
                }
            },
        }
    }
}

fn infer_or(
    env: &Env,
    table: &mut Bindings,
    locals: &Locals,
    name: &str,
    args: &Vec<Expr>,
) -> (r: Result<MagType, MagError>)
    ensures
        (final(table)@, type_result(r)) == or_rule(
            env@,
            old(table)@,
            name@,
            exprs_view(args@),
            argument_types(env@, locals_view(locals@), exprs_view(args@)),
        ),
    decreases args, 1nat,
{
    proof {
        reveal(or_rule);
        assert(exprs_view(args@).len() == args@.len());
    }
    if args.len() != 2 {
        return Err(wrong_arity(name, 2, args.len()));
    }
    let a = infer(env, table, locals, &args[0])?;
    let b = infer(env, table, locals, &args[1])?;
    if compatible_alone(env, &a, &b).is_err() {
        return Err(MagError::Type(cat4("or operands must return one compatible type, got ", &a.show(), " and ", &b.show())));
    }
    Ok(b.clone())
}

/// The type rule of canonical text.
#[verifier::opaque]
pub open spec fn canonical_rule(
    env: SEnv,
    s0: SBindings,
    name: Seq<char>,
    args: Seq<SExpr>,
    of: Arguments,
) -> STyped {
    if args.len() != 1 {
        (s0, type_error(arity_message(name, 1, args.len())))
    } else {
        let (s1, r1) = of(s0, 0);
        match r1 {
            Err(e) => (s1, Err(e)),
            Ok(_value) => {
                (s1, Ok(SType::String))
            },
        }
    }
}

fn infer_canonical(
    env: &Env,
    table: &mut Bindings,
    locals: &Locals,
    name: &str,
    args: &Vec<Expr>,
) -> (r: Result<MagType, MagError>)
    ensures
        (final(table)@, type_result(r)) == canonical_rule(
            env@,
            old(table)@,
            name@,
            exprs_view(args@),
            argument_types(env@, locals_view(locals@), exprs_view(args@)),
        ),
    decreases args, 1nat,
{
    proof {
        reveal(canonical_rule);
        assert(exprs_view(args@).len() == args@.len());
    }
    if args.len() != 1 {
        return Err(wrong_arity(name, 1, args.len()));
    }
    let _value = infer(env, table, locals, &args[0])?;
    Ok(MagType::String)
}

/// The type rule of the name of a function.
#[verifier::opaque]
pub open spec fn function_name_rule(
    env: SEnv,
    s0: SBindings,
    name: Seq<char>,
    args: Seq<SExpr>,
    of: Arguments,
) -> STyped {
    if args.len() != 1 {
        (s0, type_error(arity_message(name, 1, args.len())))
    } else {
        let (s1, r1) = of(s0, 0);
        match r1 {
            Err(e) => (s1, Err(e)),
            Ok(actual) => {
                if !(actual is Function) {
                    (s1, type_error("function-name expects a function, got "@ + type_text(actual)))
                } else {
                    (s1, Ok(SType::String))
                }
            },
        }
    }
}

fn infer_function_name(
    env: &Env,
    table: &mut Bindings,
    locals: &Locals,
    name: &str,
    args: &Vec<Expr>,
) -> (r: Result<MagType, MagError>)
    ensures
        (final(table)@, type_result(r)) == function_name_rule(
            env@,
            old(table)@,
            name@,
            exprs_view(args@),
            argument_types(env@, locals_view(locals@), exprs_view(args@)),
        ),
    decreases args, 1nat,
{
    proof {
        reveal(function_name_rule);
        assert(exprs_view(args@).len() == args@.len());
    }
    if args.len() != 1 {
        return Err(wrong_arity(name, 1, args.len()));
    }
    let actual = infer(env, table, locals, &args[0])?;
    if !matches!(actual, MagType::Function(_, _)) {
        return Err(MagError::Type(cat2("function-name expects a function, got ", &actual.show())));
    }
    Ok(MagType::String)
}

/// The type rule of conformity with a descriptor.
#[verifier::opaque]
pub open spec fn conforms_rule(
    env: SEnv,
    s0: SBindings,
    name: Seq<char>,
    args: Seq<SExpr>,
    of: Arguments,
) -> STyped {
    if args.len() != 2 {
        (s0, type_error(arity_message(name, 2, args.len())))
    } else {
        let (s1, r1) = of(s0, 0);
        match r1 {
            Err(e) => (s1, Err(e)),
            Ok(_value) => {
                let (s2, r2) = of(s1, 1);
                match expecting(env, r2, SType::TypeDescriptor) {
                    Err(e) => (s2, Err(e)),
                    Ok(_evidence) => {
                        (s2, Ok(SType::Bool))
                    },
                }
            },
        }
    }
}

fn infer_conforms(
    env: &Env,
    table: &mut Bindings,
    locals: &Locals,
    name: &str,
    args: &Vec<Expr>,
) -> (r: Result<MagType, MagError>)
    ensures
        (final(table)@, type_result(r)) == conforms_rule(
            env@,
            old(table)@,
            name@,
            exprs_view(args@),
            argument_types(env@, locals_view(locals@), exprs_view(args@)),
        ),
    decreases args, 1nat,
{
    proof {
        reveal(conforms_rule);
        assert(exprs_view(args@).len() == args@.len());
    }
    if args.len() != 2 {
        return Err(wrong_arity(name, 2, args.len()));
    }
    let _value = infer(env, table, locals, &args[0])?;
    let _evidence = expect_type(env, infer(env, table, locals, &args[1]), &MagType::TypeDescriptor)?;
    Ok(MagType::Bool)
}

/// The type rule of failure.
#[verifier::opaque]
pub open spec fn fail_rule(
    env: SEnv,
    s0: SBindings,
    name: Seq<char>,
    args: Seq<SExpr>,
    of: Arguments,
) -> STyped {
    if args.len() != 1 {
        (s0, type_error(arity_message(name, 1, args.len())))
    } else {
        let (s1, r1) = of(s0, 0);
        match r1 {
            Err(e) => (s1, Err(e)),
            Ok(_value) => {
                (s1, Ok(SType::Never))
            },
        }
    }
}

fn infer_fail(
    env: &Env,
    table: &mut Bindings,
    locals: &Locals,
    name: &str,
    args: &Vec<Expr>,
) -> (r: Result<MagType, MagError>)
    ensures
        (final(table)@, type_result(r)) == fail_rule(
            env@,
            old(table)@,
            name@,
            exprs_view(args@),
            argument_types(env@, locals_view(locals@), exprs_view(args@)),
        ),
    decreases args, 1nat,
{
    proof {
        reveal(fail_rule);
        assert(exprs_view(args@).len() == args@.len());
    }
    if args.len() != 1 {
        return Err(wrong_arity(name, 1, args.len()));
    }
    let _value = infer(env, table, locals, &args[0])?;
    Ok(MagType::Never)
}

/// The type rule of packing.
#[verifier::opaque]
pub open spec fn pack_rule(
    env: SEnv,
    s0: SBindings,
    name: Seq<char>,
    args: Seq<SExpr>,
    of: Arguments,
) -> STyped {
    if args.len() != 1 {
        (s0, type_error(arity_message(name, 1, args.len())))
    } else {
        let (s1, r1) = of(s0, 0);
        match r1 {
            Err(e) => (s1, Err(e)),
            Ok(_value) => {
                (s1, Ok(SType::PackedValue))
            },
        }
    }
}

fn infer_pack(
    env: &Env,
    table: &mut Bindings,
    locals: &Locals,
    name: &str,
    args: &Vec<Expr>,
) -> (r: Result<MagType, MagError>)
    ensures
        (final(table)@, type_result(r)) == pack_rule(
            env@,
            old(table)@,
            name@,
            exprs_view(args@),
            argument_types(env@, locals_view(locals@), exprs_view(args@)),
        ),
    decreases args, 1nat,
{
    proof {
        reveal(pack_rule);
        assert(exprs_view(args@).len() == args@.len());
    }
    if args.len() != 1 {
        return Err(wrong_arity(name, 1, args.len()));
    }
    let _value = infer(env, table, locals, &args[0])?;
    Ok(MagType::PackedValue)
}

/// The type rule of the emptiness of a packed record.
#[verifier::opaque]
pub open spec fn packed_empty_rule(
    env: SEnv,
    s0: SBindings,
    name: Seq<char>,
    args: Seq<SExpr>,
    of: Arguments,
) -> STyped {
    if args.len() != 1 {
        (s0, type_error(arity_message(name, 1, args.len())))
    } else {
        let (s1, r1) = of(s0, 0);
        match expecting(env, r1, SType::PackedValue) {
            Err(e) => (s1, Err(e)),
            Ok(_value) => {
                (s1, Ok(SType::Bool))
            },
        }
    }
}

fn infer_packed_empty(
    env: &Env,
    table: &mut Bindings,
    locals: &Locals,
    name: &str,
    args: &Vec<Expr>,
) -> (r: Result<MagType, MagError>)
    ensures
        (final(table)@, type_result(r)) == packed_empty_rule(
            env@,
            old(table)@,
            name@,
            exprs_view(args@),
            argument_types(env@, locals_view(locals@), exprs_view(args@)),
        ),
    decreases args, 1nat,
{
    proof {
        reveal(packed_empty_rule);
        assert(exprs_view(args@).len() == args@.len());
    }
    if args.len() != 1 {
        return Err(wrong_arity(name, 1, args.len()));
    }
    let _value = expect_type(env, infer(env, table, locals, &args[0]), &MagType::PackedValue)?;
    Ok(MagType::Bool)
}

/// The type rule of the fields of a packed record.
#[verifier::opaque]
pub open spec fn packed_record_rule(
    env: SEnv,
    s0: SBindings,
    name: Seq<char>,
    args: Seq<SExpr>,
    of: Arguments,
) -> STyped {
    let expected: nat = if name == "packed-field-conforms?"@ {
        3
    } else {
        2
    };
    if args.len() != expected {
        (s0, type_error(arity_message(name, expected, args.len())))
    } else {
        let (s1, r1) = of(s0, 0);
        match expecting(env, r1, SType::PackedValue) {
            Err(e) => (s1, Err(e)),
            Ok(_value) => {
                let (s2, r2) = of(s1, 1);
                match expecting(env, r2, if name == "packed-record-has-only-keys?"@ { slist(SType::String) } else { SType::String }) {
                    Err(e) => (s2, Err(e)),
                    Ok(_key) => {
                        if name == "packed-field-conforms?"@ {
                            let (s3, r3) = of(s2, 2);
                            match expecting(env, r3, SType::TypeDescriptor) {
                                Err(e) => (s3, Err(e)),
                                Ok(_descriptor) => {
                                    (s3, Ok(SType::Bool))
                                },
                            }
                        } else {
                            (s2, Ok(SType::Bool))
                        }
                    },
                }
            },
        }
    }
}

fn infer_packed_record(
    env: &Env,
    table: &mut Bindings,
    locals: &Locals,
    name: &str,
    args: &Vec<Expr>,
) -> (r: Result<MagType, MagError>)
    ensures
        (final(table)@, type_result(r)) == packed_record_rule(
            env@,
            old(table)@,
            name@,
            exprs_view(args@),
            argument_types(env@, locals_view(locals@), exprs_view(args@)),
        ),
    decreases args, 1nat,
{
    proof {
        reveal(packed_record_rule);
        assert(exprs_view(args@).len() == args@.len());
    }
    let expected: usize = if same(name, "packed-field-conforms?") {
        3
    } else {
        2
    };
    if args.len() != expected {
        return Err(wrong_arity(name, expected, args.len()));
    }
    let _value = expect_type(env, infer(env, table, locals, &args[0]), &MagType::PackedValue)?;
    let wanted = if same(name, "packed-record-has-only-keys?") {
        list(MagType::String)
    } else {
        MagType::String
    };
    let _key = expect_type(env, infer(env, table, locals, &args[1]), &wanted)?;
    if same(name, "packed-field-conforms?") {
        let _descriptor = expect_type(env, infer(env, table, locals, &args[2]), &MagType::TypeDescriptor)?;
        Ok(MagType::Bool)
    } else {
        Ok(MagType::Bool)
    }
}

/// The type rule of the relations of descriptors.
#[verifier::opaque]
pub open spec fn descriptors_rule(
    env: SEnv,
    s0: SBindings,
    name: Seq<char>,
    args: Seq<SExpr>,
    of: Arguments,
) -> STyped {
    if args.len() != 2 {
        (s0, type_error(arity_message(name, 2, args.len())))
    } else {
        let (s1, r1) = of(s0, 0);
        match expecting(env, r1, SType::TypeDescriptor) {
            Err(e) => (s1, Err(e)),
            Ok(_descriptor) => {
                let (s2, r2) = of(s1, 1);
                match expecting(env, r2, if name == "descriptor-accepts?"@ || name == "descriptor-accepts-value?"@ { SType::TypeDescriptor } else { slist(SType::TypeDescriptor) }) {
                    Err(e) => (s2, Err(e)),
                    Ok(_other) => {
                        if name == "descriptor-input-assignments"@ {
                            (s2, Ok(slist(SType::Int)))
                        } else {
                            (s2, Ok(SType::Bool))
                        }
                    },
                }
            },
        }
    }
}

fn infer_descriptors(
    env: &Env,
    table: &mut Bindings,
    locals: &Locals,
    name: &str,
    args: &Vec<Expr>,
) -> (r: Result<MagType, MagError>)
    ensures
        (final(table)@, type_result(r)) == descriptors_rule(
            env@,
            old(table)@,
            name@,
            exprs_view(args@),
            argument_types(env@, locals_view(locals@), exprs_view(args@)),
        ),
    decreases args, 1nat,
{
    proof {
        reveal(descriptors_rule);
        assert(exprs_view(args@).len() == args@.len());
    }
    if args.len() != 2 {
        return Err(wrong_arity(name, 2, args.len()));
    }
    let _descriptor = expect_type(env, infer(env, table, locals, &args[0]), &MagType::TypeDescriptor)?;
    let wanted = if same(name, "descriptor-accepts?") || same(name, "descriptor-accepts-value?") {
        MagType::TypeDescriptor
    } else {
        list(MagType::TypeDescriptor)
    };
    let _other = expect_type(env, infer(env, table, locals, &args[1]), &wanted)?;
    if same(name, "descriptor-input-assignments") {
        Ok(list(MagType::Int))
    } else {
        Ok(MagType::Bool)
    }
}

/// The type rule of a table of descriptors.
#[verifier::opaque]
pub open spec fn descriptor_table_rule(
    env: SEnv,
    s0: SBindings,
    name: Seq<char>,
    args: Seq<SExpr>,
    of: Arguments,
) -> STyped {
    if args.len() != 1 {
        (s0, type_error(arity_message(name, 1, args.len())))
    } else {
        let (s1, r1) = of(s0, 0);
        match expecting(env, r1, slist(SType::TypeDescriptor)) {
            Err(e) => (s1, Err(e)),
            Ok(_descriptors) => {
                (s1, Ok(smap(SType::String, SType::TypeDescriptor)))
            },
        }
    }
}

fn infer_descriptor_table(
    env: &Env,
    table: &mut Bindings,
    locals: &Locals,
    name: &str,
    args: &Vec<Expr>,
) -> (r: Result<MagType, MagError>)
    ensures
        (final(table)@, type_result(r)) == descriptor_table_rule(
            env@,
            old(table)@,
            name@,
            exprs_view(args@),
            argument_types(env@, locals_view(locals@), exprs_view(args@)),
        ),
    decreases args, 1nat,
{
    proof {
        reveal(descriptor_table_rule);
        assert(exprs_view(args@).len() == args@.len());
    }
    if args.len() != 1 {
        return Err(wrong_arity(name, 1, args.len()));
    }
    let _descriptors = expect_type(env, infer(env, table, locals, &args[0]), &list(MagType::TypeDescriptor))?;
    Ok(map_of(MagType::String, MagType::TypeDescriptor))
}

/// The type rule of reading a file.
#[verifier::opaque]
pub open spec fn read_rule(
    env: SEnv,
    s0: SBindings,
    name: Seq<char>,
    args: Seq<SExpr>,
    of: Arguments,
) -> STyped {
    if !(1 <= args.len() <= 2) {
        (s0, type_error("read expects 1-2 arguments, got "@ + decimal(args.len())))
    } else {
        let (s1, r1) = of(s0, 0);
        match expecting(env, r1, SType::String) {
            Err(e) => (s1, Err(e)),
            Ok(_path) => {
                if args.len() == 2 {
                    let (s2, r2) = of(s1, 1);
                    match r2 {
                        Err(e) => (s2, Err(e)),
                        Ok(_fallback) => {
                            (s2, Ok(SType::String))
                        },
                    }
                } else {
                    (s1, Ok(SType::String))
                }
            },
        }
    }
}

fn infer_read(
    env: &Env,
    table: &mut Bindings,
    locals: &Locals,
    name: &str,
    args: &Vec<Expr>,
) -> (r: Result<MagType, MagError>)
    ensures
        (final(table)@, type_result(r)) == read_rule(
            env@,
            old(table)@,
            name@,
            exprs_view(args@),
            argument_types(env@, locals_view(locals@), exprs_view(args@)),
        ),
    decreases args, 1nat,
{
    proof {
        reveal(read_rule);
        assert(exprs_view(args@).len() == args@.len());
    }
    if args.len() < 1 || args.len() > 2 {
        return Err(MagError::Type(cat2("read expects 1-2 arguments, got ", &show_usize(args.len()))));
    }
    let _path = expect_type(env, infer(env, table, locals, &args[0]), &MagType::String)?;
    if args.len() == 2 {
        let _fallback = infer(env, table, locals, &args[1])?;
        Ok(MagType::String)
    } else {
        Ok(MagType::String)
    }
}

/// The type rule of reading a JSON file.
#[verifier::opaque]
pub open spec fn read_json_rule(
    env: SEnv,
    s0: SBindings,
    name: Seq<char>,
    args: Seq<SExpr>,
    of: Arguments,
) -> STyped {
    if args.len() != 1 {
        (s0, type_error(arity_message(name, 1, args.len())))
    } else {
        let (s1, r1) = of(s0, 0);
        match expecting(env, r1, SType::String) {
            Err(e) => (s1, Err(e)),
            Ok(_path) => {
                (s1, Ok(SType::JsonValue))
            },
        }
    }
}

fn infer_read_json(
    env: &Env,
    table: &mut Bindings,
    locals: &Locals,
    name: &str,
    args: &Vec<Expr>,
) -> (r: Result<MagType, MagError>)
    ensures
        (final(table)@, type_result(r)) == read_json_rule(
            env@,
            old(table)@,
            name@,
            exprs_view(args@),
            argument_types(env@, locals_view(locals@), exprs_view(args@)),
        ),
    decreases args, 1nat,
{
    proof {
        reveal(read_json_rule);
        assert(exprs_view(args@).len() == args@.len());
    }
    if args.len() != 1 {
        return Err(wrong_arity(name, 1, args.len()));
    }
    let _path = expect_type(env, infer(env, table, locals, &args[0]), &MagType::String)?;
    Ok(MagType::JsonValue)
}

/// The type rule of an artifact. The positions of a vector that is made an artifact may have types
/// of their own.
#[verifier::opaque]
pub open spec fn artifact_rule(
    env: SEnv,
    s0: SBindings,
    name: Seq<char>,
    args: Seq<SExpr>,
    of: Arguments,
) -> STyped {
    if args.len() != 1 {
        (s0, type_error(arity_message(name, 1, args.len())))
    } else if args[0] is Vector {
        (s0, Ok(SType::Artifact))
    } else {
        let (s1, r1) = of(s0, 0);
        match r1 {
            Err(e) => (s1, Err(e)),
            Ok(_value) => {
                (s1, Ok(SType::Artifact))
            },
        }
    }
}

fn infer_artifact(
    env: &Env,
    table: &mut Bindings,
    locals: &Locals,
    name: &str,
    args: &Vec<Expr>,
) -> (r: Result<MagType, MagError>)
    ensures
        (final(table)@, type_result(r)) == artifact_rule(
            env@,
            old(table)@,
            name@,
            exprs_view(args@),
            argument_types(env@, locals_view(locals@), exprs_view(args@)),
        ),
    decreases args, 1nat,
{
    proof {
        reveal(artifact_rule);
        assert(exprs_view(args@).len() == args@.len());
    }
    if args.len() != 1 {
        return Err(wrong_arity(name, 1, args.len()));
    }
    assert(exprs_view(args@)[0] == args@[0]@);
    match &args[0] {
        Expr::Vector(_) => {},
        _ => {
            let _value = infer(env, table, locals, &args[0])?;
        },
    }
    Ok(MagType::Artifact)
}

/// The type rule of text without its margin.
#[verifier::opaque]
pub open spec fn strip_margin_rule(
    env: SEnv,
    s0: SBindings,
    name: Seq<char>,
    args: Seq<SExpr>,
    of: Arguments,
) -> STyped {
    if args.len() != 1 {
        (s0, type_error(arity_message(name, 1, args.len())))
    } else {
        let (s1, r1) = of(s0, 0);
        match expecting(env, r1, SType::String) {
            Err(e) => (s1, Err(e)),
            Ok(_value) => {
                (s1, Ok(SType::String))
            },
        }
    }
}

fn infer_strip_margin(
    env: &Env,
    table: &mut Bindings,
    locals: &Locals,
    name: &str,
    args: &Vec<Expr>,
) -> (r: Result<MagType, MagError>)
    ensures
        (final(table)@, type_result(r)) == strip_margin_rule(
            env@,
            old(table)@,
            name@,
            exprs_view(args@),
            argument_types(env@, locals_view(locals@), exprs_view(args@)),
        ),
    decreases args, 1nat,
{
    proof {
        reveal(strip_margin_rule);
        assert(exprs_view(args@).len() == args@.len());
    }
    if args.len() != 1 {
        return Err(wrong_arity(name, 1, args.len()));
    }
    let _value = expect_type(env, infer(env, table, locals, &args[0]), &MagType::String)?;
    Ok(MagType::String)
}

/// The type rule of text with parts replaced.
#[verifier::opaque]
pub open spec fn replace_rule(
    env: SEnv,
    s0: SBindings,
    name: Seq<char>,
    args: Seq<SExpr>,
    of: Arguments,
) -> STyped {
    if args.len() != 3 {
        (s0, type_error(arity_message(name, 3, args.len())))
    } else {
        let (s1, r1) = of(s0, 0);
        match expecting(env, r1, SType::String) {
            Err(e) => (s1, Err(e)),
            Ok(_a) => {
                let (s2, r2) = of(s1, 1);
                match expecting(env, r2, SType::String) {
                    Err(e) => (s2, Err(e)),
                    Ok(_b) => {
                        let (s3, r3) = of(s2, 2);
                        match expecting(env, r3, SType::String) {
                            Err(e) => (s3, Err(e)),
                            Ok(_c) => {
                                (s3, Ok(SType::String))
                            },
                        }
                    },
                }
            },
        }
    }
}

fn infer_replace(
    env: &Env,
    table: &mut Bindings,
    locals: &Locals,
    name: &str,
    args: &Vec<Expr>,
) -> (r: Result<MagType, MagError>)
    ensures
        (final(table)@, type_result(r)) == replace_rule(
            env@,
            old(table)@,
            name@,
            exprs_view(args@),
            argument_types(env@, locals_view(locals@), exprs_view(args@)),
        ),
    decreases args, 1nat,
{
    proof {
        reveal(replace_rule);
        assert(exprs_view(args@).len() == args@.len());
    }
    if args.len() != 3 {
        return Err(wrong_arity(name, 3, args.len()));
    }
    let _a = expect_type(env, infer(env, table, locals, &args[0]), &MagType::String)?;
    let _b = expect_type(env, infer(env, table, locals, &args[1]), &MagType::String)?;
    let _c = expect_type(env, infer(env, table, locals, &args[2]), &MagType::String)?;
    Ok(MagType::String)
}

/// The type rule of concatenation.
#[verifier::opaque]
pub open spec fn concat_rule(
    env: SEnv,
    s0: SBindings,
    name: Seq<char>,
    args: Seq<SExpr>,
    of: Arguments,
) -> STyped {
    if args.len() != 2 {
        (s0, type_error(arity_message(name, 2, args.len())))
    } else {
        let (s1, r1) = of(s0, 0);
        match r1 {
            Err(e) => (s1, Err(e)),
            Ok(a) => {
                let (s2, r2) = of(s1, 1);
                match r2 {
                    Err(e) => (s2, Err(e)),
                    Ok(b) => {
                        match fits(env, a, b) {
                            Err(m) => (s2, type_error(m)),
                            Ok(_) => {
                                (s2, Ok(a))
                            },
                        }
                    },
                }
            },
        }
    }
}

fn infer_concat(
    env: &Env,
    table: &mut Bindings,
    locals: &Locals,
    name: &str,
    args: &Vec<Expr>,
) -> (r: Result<MagType, MagError>)
    ensures
        (final(table)@, type_result(r)) == concat_rule(
            env@,
            old(table)@,
            name@,
            exprs_view(args@),
            argument_types(env@, locals_view(locals@), exprs_view(args@)),
        ),
    decreases args, 1nat,
{
    proof {
        reveal(concat_rule);
        assert(exprs_view(args@).len() == args@.len());
    }
    if args.len() != 2 {
        return Err(wrong_arity(name, 2, args.len()));
    }
    let a = infer(env, table, locals, &args[0])?;
    let b = infer(env, table, locals, &args[1])?;
    fit_types(env, &a, &b)?;
    Ok(a.clone())
}

/// The type rule of a list without one item.
#[verifier::opaque]
pub open spec fn remove_at_rule(
    env: SEnv,
    s0: SBindings,
    name: Seq<char>,
    args: Seq<SExpr>,
    of: Arguments,
) -> STyped {
    if args.len() != 2 {
        (s0, type_error(arity_message(name, 2, args.len())))
    } else {
        let (s1, r1) = of(s0, 0);
        match r1 {
            Err(e) => (s1, Err(e)),
            Ok(collection) => {
                let (s2, r2) = of(s1, 1);
                match expecting(env, r2, SType::Int) {
                    Err(e) => (s2, Err(e)),
                    Ok(_index) => {
                        if !(collection is List) {
                            (s2, type_error("remove-at expects List, got "@ + type_text(collection)))
                        } else {
                            (s2, Ok(collection))
                        }
                    },
                }
            },
        }
    }
}

fn infer_remove_at(
    env: &Env,
    table: &mut Bindings,
    locals: &Locals,
    name: &str,
    args: &Vec<Expr>,
) -> (r: Result<MagType, MagError>)
    ensures
        (final(table)@, type_result(r)) == remove_at_rule(
            env@,
            old(table)@,
            name@,
            exprs_view(args@),
            argument_types(env@, locals_view(locals@), exprs_view(args@)),
        ),
    decreases args, 1nat,
{
    proof {
        reveal(remove_at_rule);
        assert(exprs_view(args@).len() == args@.len());
    }
    if args.len() != 2 {
        return Err(wrong_arity(name, 2, args.len()));
    }
    let collection = infer(env, table, locals, &args[0])?;
    let _index = expect_type(env, infer(env, table, locals, &args[1]), &MagType::Int)?;
    if !matches!(collection, MagType::List(_)) {
        return Err(MagError::Type(cat2("remove-at expects List, got ", &collection.show())));
    }
    Ok(collection.clone())
}

/// The type rule of the keys of a record.
#[verifier::opaque]
pub open spec fn keys_rule(
    env: SEnv,
    s0: SBindings,
    name: Seq<char>,
    args: Seq<SExpr>,
    of: Arguments,
) -> STyped {
    if args.len() != 1 {
        (s0, type_error(arity_message(name, 1, args.len())))
    } else {
        let (s1, r1) = of(s0, 0);
        match r1 {
            Err(e) => (s1, Err(e)),
            Ok(actual) => {
                if !(actual is Record) {
                    (s1, type_error("keys expects a record, got "@ + type_text(actual)))
                } else {
                    (s1, Ok(slist(SType::String)))
                }
            },
        }
    }
}

fn infer_keys(
    env: &Env,
    table: &mut Bindings,
    locals: &Locals,
    name: &str,
    args: &Vec<Expr>,
) -> (r: Result<MagType, MagError>)
    ensures
        (final(table)@, type_result(r)) == keys_rule(
            env@,
            old(table)@,
            name@,
            exprs_view(args@),
            argument_types(env@, locals_view(locals@), exprs_view(args@)),
        ),
    decreases args, 1nat,
{
    proof {
        reveal(keys_rule);
        assert(exprs_view(args@).len() == args@.len());
    }
    if args.len() != 1 {
        return Err(wrong_arity(name, 1, args.len()));
    }
    let actual = infer(env, table, locals, &args[0])?;
    if !matches!(actual, MagType::Record(_)) {
        return Err(MagError::Type(cat2("keys expects a record, got ", &actual.show())));
    }
    Ok(list(MagType::String))
}

/// The type rule of the first item of a list.
#[verifier::opaque]
pub open spec fn first_rule(
    env: SEnv,
    s0: SBindings,
    name: Seq<char>,
    args: Seq<SExpr>,
    of: Arguments,
) -> STyped {
    if args.len() != 1 {
        (s0, type_error(arity_message(name, 1, args.len())))
    } else {
        let (s1, r1) = of(s0, 0);
        match r1 {
            Err(e) => (s1, Err(e)),
            Ok(actual) => {
                match actual {
                    SType::List(item) => {
                        (s1, Ok(*item))
                    },
                    _ => (s1, type_error("first expects List, got "@ + type_text(actual))),
                }
            },
        }
    }
}

fn infer_first(
    env: &Env,
    table: &mut Bindings,
    locals: &Locals,
    name: &str,
    args: &Vec<Expr>,
) -> (r: Result<MagType, MagError>)
    ensures
        (final(table)@, type_result(r)) == first_rule(
            env@,
            old(table)@,
            name@,
            exprs_view(args@),
            argument_types(env@, locals_view(locals@), exprs_view(args@)),
        ),
    decreases args, 1nat,
{
    proof {
        reveal(first_rule);
        assert(exprs_view(args@).len() == args@.len());
    }
    if args.len() != 1 {
        return Err(wrong_arity(name, 1, args.len()));
    }
    let actual = infer(env, table, locals, &args[0])?;
    match &actual {
        MagType::List(item) => {
            Ok((**item).clone())
        },
        _ => Err(MagError::Type(cat2("first expects List, got ", &actual.show()))),
    }
}

/// The type rule of a function over a list.
#[verifier::opaque]
pub open spec fn over_list_rule(
    env: SEnv,
    s0: SBindings,
    name: Seq<char>,
    args: Seq<SExpr>,
    of: Arguments,
) -> STyped {
    if args.len() != 2 {
        (s0, type_error(arity_message(name, 2, args.len())))
    } else {
        let (s1, r1) = of(s0, 0);
        match r1 {
            Err(e) => (s1, Err(e)),
            Ok(fun) => {
                let (s2, r2) = of(s1, 1);
                match r2 {
                    Err(e) => (s2, Err(e)),
                    Ok(collection) => {
                        match collection {
                            SType::List(item) => {
                                match fun {
                                    SType::Function(params, result) => {
                                        if params.len() != 1 {
                                            (s2, type_error(name + " callback expects 1 parameter"@))
                                        } else {
                                            match fits(env, *item, params[0]) {
                                                Err(m) => (s2, type_error(m)),
                                                Ok(_) => {
                                                    if name == "filter"@ {
                                                        match fits(env, *result, SType::Bool) {
                                                            Err(m) => (s2, type_error(m)),
                                                            Ok(_) => {
                                                                (s2, Ok(slist(*item)))
                                                            },
                                                        }
                                                    } else {
                                                        if name == "sort-by"@ || name == "group-by"@ {
                                                            match fits(env, *result, SType::String) {
                                                                Err(m) => (s2, type_error(m)),
                                                                Ok(_) => {
                                                                    if name == "group-by"@ {
                                                                        (s2, Ok(smap(SType::String, slist(*item))))
                                                                    } else {
                                                                        (s2, Ok(slist(*item)))
                                                                    }
                                                                },
                                                            }
                                                        } else {
                                                            if name == "flat-map"@ {
                                                                if !(*result is List) {
                                                                    (s2, type_error("flat-map callback must return List, got "@ + type_text(*result)))
                                                                } else {
                                                                    (s2, Ok(*result))
                                                                }
                                                            } else {
                                                                (s2, Ok(slist(*result)))
                                                            }
                                                        }
                                                    }
                                                },
                                            }
                                        }
                                    },
                                    _ => (s2, type_error(name + " expects function"@)),
                                }
                            },
                            _ => (s2, type_error(name + " expects List"@)),
                        }
                    },
                }
            },
        }
    }
}

fn infer_over_list(
    env: &Env,
    table: &mut Bindings,
    locals: &Locals,
    name: &str,
    args: &Vec<Expr>,
) -> (r: Result<MagType, MagError>)
    ensures
        (final(table)@, type_result(r)) == over_list_rule(
            env@,
            old(table)@,
            name@,
            exprs_view(args@),
            argument_types(env@, locals_view(locals@), exprs_view(args@)),
        ),
    decreases args, 1nat,
{
    proof {
        reveal(over_list_rule);
        assert(exprs_view(args@).len() == args@.len());
    }
    if args.len() != 2 {
        return Err(wrong_arity(name, 2, args.len()));
    }
    let fun = infer(env, table, locals, &args[0])?;
    let collection = infer(env, table, locals, &args[1])?;
    match &collection {
        MagType::List(item) => {
            match &fun {
                MagType::Function(params, result) => {
                    assert(types_view(params@).len() == params@.len());
                    if params.len() != 1 {
                        return Err(MagError::Type(cat2(name, " callback expects 1 parameter")));
                    }
                    fit_types(env, item, &params[0])?;
                    if same(name, "filter") {
                        fit_types(env, result, &MagType::Bool)?;
                        Ok(list((**item).clone()))
                    } else {
                        if same(name, "sort-by") || same(name, "group-by") {
                            fit_types(env, result, &MagType::String)?;
                            if same(name, "group-by") {
                                Ok(map_of(MagType::String, list((**item).clone())))
                            } else {
                                Ok(list((**item).clone()))
                            }
                        } else {
                            if same(name, "flat-map") {
                                if !matches!(**result, MagType::List(_)) {
                                    return Err(MagError::Type(cat2("flat-map callback must return List, got ", &result.show())));
                                }
                                Ok((**result).clone())
                            } else {
                                Ok(list((**result).clone()))
                            }
                        }
                    }
                },
                _ => Err(MagError::Type(cat2(name, " expects function"))),
            }
        },
        _ => Err(MagError::Type(cat2(name, " expects List"))),
    }
}

/// The type rule of a function over positions and items.
#[verifier::opaque]
pub open spec fn indexed_map_rule(
    env: SEnv,
    s0: SBindings,
    name: Seq<char>,
    args: Seq<SExpr>,
    of: Arguments,
) -> STyped {
    if args.len() != 2 {
        (s0, type_error(arity_message(name, 2, args.len())))
    } else {
        let (s1, r1) = of(s0, 0);
        match r1 {
            Err(e) => (s1, Err(e)),
            Ok(fun) => {
                let (s2, r2) = of(s1, 1);
                match r2 {
                    Err(e) => (s2, Err(e)),
                    Ok(collection) => {
                        match collection {
                            SType::List(item) => {
                                match fun {
                                    SType::Function(params, result) => {
                                        if params.len() != 2 {
                                            (s2, type_error("indexed-map callback expects 2 parameters"@))
                                        } else {
                                            match fits(env, SType::Int, params[0]) {
                                                Err(m) => (s2, type_error(m)),
                                                Ok(_) => {
                                                    match fits(env, *item, params[1]) {
                                                        Err(m) => (s2, type_error(m)),
                                                        Ok(_) => {
                                                            (s2, Ok(slist(*result)))
                                                        },
                                                    }
                                                },
                                            }
                                        }
                                    },
                                    _ => (s2, type_error("indexed-map expects function"@)),
                                }
                            },
                            _ => (s2, type_error("indexed-map expects List"@)),
                        }
                    },
                }
            },
        }
    }
}

fn infer_indexed_map(
    env: &Env,
    table: &mut Bindings,
    locals: &Locals,
    name: &str,
    args: &Vec<Expr>,
) -> (r: Result<MagType, MagError>)
    ensures
        (final(table)@, type_result(r)) == indexed_map_rule(
            env@,
            old(table)@,
            name@,
            exprs_view(args@),
            argument_types(env@, locals_view(locals@), exprs_view(args@)),
        ),
    decreases args, 1nat,
{
    proof {
        reveal(indexed_map_rule);
        assert(exprs_view(args@).len() == args@.len());
    }
    if args.len() != 2 {
        return Err(wrong_arity(name, 2, args.len()));
    }
    let fun = infer(env, table, locals, &args[0])?;
    let collection = infer(env, table, locals, &args[1])?;
    match &collection {
        MagType::List(item) => {
            match &fun {
                MagType::Function(params, result) => {
                    assert(types_view(params@).len() == params@.len());
                    if params.len() != 2 {
                        return Err(MagError::Type("indexed-map callback expects 2 parameters".to_owned()));
                    }
                    fit_types(env, &MagType::Int, &params[0])?;
                    fit_types(env, item, &params[1])?;
                    Ok(list((**result).clone()))
                },
                _ => Err(MagError::Type("indexed-map expects function".to_owned())),
            }
        },
        _ => Err(MagError::Type("indexed-map expects List".to_owned())),
    }
}

/// The type rule of a fold over a list.
#[verifier::opaque]
pub open spec fn fold_rule(
    env: SEnv,
    s0: SBindings,
    name: Seq<char>,
    args: Seq<SExpr>,
    of: Arguments,
) -> STyped {
    if args.len() != 3 {
        (s0, type_error(arity_message(name, 3, args.len())))
    } else {
        let (s1, r1) = of(s0, 0);
        match r1 {
            Err(e) => (s1, Err(e)),
            Ok(fun) => {
                let (s2, r2) = of(s1, 1);
                match r2 {
                    Err(e) => (s2, Err(e)),
                    Ok(init) => {
                        let (s3, r3) = of(s2, 2);
                        match r3 {
                            Err(e) => (s3, Err(e)),
                            Ok(collection) => {
                                match collection {
                                    SType::List(item) => {
                                        match fun {
                                            SType::Function(params, result) => {
                                                if params.len() != 2 {
                                                    (s3, type_error("fold callback expects 2 parameters"@))
                                                } else {
                                                    match fits(env, init, params[0]) {
                                                        Err(m) => (s3, type_error(m)),
                                                        Ok(_) => {
                                                            match fits(env, *item, params[1]) {
                                                                Err(m) => (s3, type_error(m)),
                                                                Ok(_) => {
                                                                    match fits(env, *result, params[0]) {
                                                                        Err(m) => (s3, type_error(m)),
                                                                        Ok(_) => {
                                                                            (s3, Ok(*result))
                                                                        },
                                                                    }
                                                                },
                                                            }
                                                        },
                                                    }
                                                }
                                            },
                                            _ => (s3, type_error("fold expects function"@)),
                                        }
                                    },
                                    _ => (s3, type_error("fold expects List"@)),
                                }
                            },
                        }
                    },
                }
            },
        }
    }
}

fn infer_fold(
    env: &Env,
    table: &mut Bindings,
    locals: &Locals,
    name: &str,
    args: &Vec<Expr>,
) -> (r: Result<MagType, MagError>)
    ensures
        (final(table)@, type_result(r)) == fold_rule(
            env@,
            old(table)@,
            name@,
            exprs_view(args@),
            argument_types(env@, locals_view(locals@), exprs_view(args@)),
        ),
    decreases args, 1nat,
{
    proof {
        reveal(fold_rule);
        assert(exprs_view(args@).len() == args@.len());
    }
    if args.len() != 3 {
        return Err(wrong_arity(name, 3, args.len()));
    }
    let fun = infer(env, table, locals, &args[0])?;
    let init = infer(env, table, locals, &args[1])?;
    let collection = infer(env, table, locals, &args[2])?;
    match &collection {
        MagType::List(item) => {
            match &fun {
                MagType::Function(params, result) => {
                    assert(types_view(params@).len() == params@.len());
                    if params.len() != 2 {
                        return Err(MagError::Type("fold callback expects 2 parameters".to_owned()));
                    }
                    fit_types(env, &init, &params[0])?;
                    fit_types(env, item, &params[1])?;
                    fit_types(env, result, &params[0])?;
                    Ok((**result).clone())
                },
                _ => Err(MagError::Type("fold expects function".to_owned())),
            }
        },
        _ => Err(MagError::Type("fold expects List".to_owned())),
    }
}

/// The type of a call of a builtin, by the rule of its name.
#[verifier::opaque]
pub open spec fn builtin_rule(
    env: SEnv,
    table: SBindings,
    name: Seq<char>,
    args: Seq<SExpr>,
    of: Arguments,
) -> STyped {
    if name == "str"@ {
        (table, Ok(SType::String))
    } else if name == "value-type-id"@ {
        value_type_id_rule(env, table, name, args, of)
    } else if name == "__map-empty"@ {
        map_empty_rule(env, table, name, args, of)
    } else if name == "__map-insert"@ || name == "__map-put"@ || name == "__map-get-or"@ || name == "__map-get"@ || name == "__map-contains"@ {
        map_access_rule(env, table, name, args, of)
    } else if name == "__map-union-left"@ {
        map_union_rule(env, table, name, args, of)
    } else if name == "__map-count"@ {
        map_count_rule(env, table, name, args, of)
    } else if name == "__set-empty"@ {
        set_empty_rule(env, table, name, args, of)
    } else if name == "__set-insert"@ || name == "__set-contains"@ {
        set_access_rule(env, table, name, args, of)
    } else if name == "__set-count"@ {
        set_count_rule(env, table, name, args, of)
    } else if name == "get"@ {
        get_rule(env, table, name, args, of)
    } else if name == "assoc"@ {
        assoc_rule(env, table, name, args, of)
    } else if name == "count"@ {
        count_rule(env, table, name, args, of)
    } else if name == "="@ {
        equal_rule(env, table, name, args, of)
    } else if name == "not"@ {
        not_rule(env, table, name, args, of)
    } else if name == "host-input"@ {
        host_input_rule(env, table, name, args, of)
    } else if name == "type-evidence"@ {
        type_evidence_rule(env, table, name, args, of)
    } else if name == "type-schema"@ {
        type_schema_rule(env, table, name, args, of)
    } else if name == "type-id"@ {
        type_id_rule(env, table, name, args, of)
    } else if name == "value-type-evidence"@ {
        value_type_evidence_rule(env, table, name, args, of)
    } else if name == "or"@ {
        or_rule(env, table, name, args, of)
    } else if name == "canonical"@ {
        canonical_rule(env, table, name, args, of)
    } else if name == "function-name"@ {
        function_name_rule(env, table, name, args, of)
    } else if name == "conforms?"@ {
        conforms_rule(env, table, name, args, of)
    } else if name == "fail"@ {
        fail_rule(env, table, name, args, of)
    } else if name == "pack"@ {
        pack_rule(env, table, name, args, of)
    } else if name == "packed-empty-record?"@ {
        packed_empty_rule(env, table, name, args, of)
    } else if name == "packed-record-has-only-key?"@ || name == "packed-record-has-only-keys?"@ || name == "packed-field-conforms?"@ {
        packed_record_rule(env, table, name, args, of)
    } else if name == "descriptor-accepts?"@ || name == "descriptor-accepts-value?"@ || name == "descriptor-input-covered-by?"@ || name == "descriptor-input-assignments"@ || name == "descriptor-output-covered-by?"@ {
        descriptors_rule(env, table, name, args, of)
    } else if name == "descriptor-table"@ {
        descriptor_table_rule(env, table, name, args, of)
    } else if name == "read"@ {
        read_rule(env, table, name, args, of)
    } else if name == "read-json"@ {
        read_json_rule(env, table, name, args, of)
    } else if name == "artifact"@ {
        artifact_rule(env, table, name, args, of)
    } else if name == "strip-margin"@ {
        strip_margin_rule(env, table, name, args, of)
    } else if name == "replace"@ {
        replace_rule(env, table, name, args, of)
    } else if name == "concat"@ {
        concat_rule(env, table, name, args, of)
    } else if name == "remove-at"@ {
        remove_at_rule(env, table, name, args, of)
    } else if name == "keys"@ {
        keys_rule(env, table, name, args, of)
    } else if name == "first"@ {
        first_rule(env, table, name, args, of)
    } else if name == "map"@ || name == "filter"@ || name == "flat-map"@ || name == "sort-by"@ || name == "group-by"@ {
        over_list_rule(env, table, name, args, of)
    } else if name == "indexed-map"@ {
        indexed_map_rule(env, table, name, args, of)
    } else if name == "fold"@ {
        fold_rule(env, table, name, args, of)
    } else {
        (table, type_error("no type rule for builtin "@ + name))
    }
}

pub fn infer_builtin(
    env: &Env,
    table: &mut Bindings,
    locals: &Locals,
    name: &str,
    args: &Vec<Expr>,
) -> (r: Result<MagType, MagError>)
    ensures
        (final(table)@, type_result(r)) == builtin_rule(
            env@,
            old(table)@,
            name@,
            exprs_view(args@),
            argument_types(env@, locals_view(locals@), exprs_view(args@)),
        ),
    decreases args, 2nat,
{
    proof {
        reveal(builtin_rule);
    }
    if same(name, "str") {
        Ok(MagType::String)
    } else if same(name, "value-type-id") {
        infer_value_type_id(env, table, locals, name, args)
    } else if same(name, "__map-empty") {
        infer_map_empty(env, table, locals, name, args)
    } else if same(name, "__map-insert") || same(name, "__map-put") || same(name, "__map-get-or") || same(name, "__map-get") || same(name, "__map-contains") {
        infer_map_access(env, table, locals, name, args)
    } else if same(name, "__map-union-left") {
        infer_map_union(env, table, locals, name, args)
    } else if same(name, "__map-count") {
        infer_map_count(env, table, locals, name, args)
    } else if same(name, "__set-empty") {
        infer_set_empty(env, table, locals, name, args)
    } else if same(name, "__set-insert") || same(name, "__set-contains") {
        infer_set_access(env, table, locals, name, args)
    } else if same(name, "__set-count") {
        infer_set_count(env, table, locals, name, args)
    } else if same(name, "get") {
        infer_get(env, table, locals, name, args)
    } else if same(name, "assoc") {
        infer_assoc(env, table, locals, name, args)
    } else if same(name, "count") {
        infer_count(env, table, locals, name, args)
    } else if same(name, "=") {
        infer_equal(env, table, locals, name, args)
    } else if same(name, "not") {
        infer_not(env, table, locals, name, args)
    } else if same(name, "host-input") {
        infer_host_input(env, table, locals, name, args)
    } else if same(name, "type-evidence") {
        infer_type_evidence(env, table, locals, name, args)
    } else if same(name, "type-schema") {
        infer_type_schema(env, table, locals, name, args)
    } else if same(name, "type-id") {
        infer_type_id(env, table, locals, name, args)
    } else if same(name, "value-type-evidence") {
        infer_value_type_evidence(env, table, locals, name, args)
    } else if same(name, "or") {
        infer_or(env, table, locals, name, args)
    } else if same(name, "canonical") {
        infer_canonical(env, table, locals, name, args)
    } else if same(name, "function-name") {
        infer_function_name(env, table, locals, name, args)
    } else if same(name, "conforms?") {
        infer_conforms(env, table, locals, name, args)
    } else if same(name, "fail") {
        infer_fail(env, table, locals, name, args)
    } else if same(name, "pack") {
        infer_pack(env, table, locals, name, args)
    } else if same(name, "packed-empty-record?") {
        infer_packed_empty(env, table, locals, name, args)
    } else if same(name, "packed-record-has-only-key?") || same(name, "packed-record-has-only-keys?") || same(name, "packed-field-conforms?") {
        infer_packed_record(env, table, locals, name, args)
    } else if same(name, "descriptor-accepts?") || same(name, "descriptor-accepts-value?") || same(name, "descriptor-input-covered-by?") || same(name, "descriptor-input-assignments") || same(name, "descriptor-output-covered-by?") {
        infer_descriptors(env, table, locals, name, args)
    } else if same(name, "descriptor-table") {
        infer_descriptor_table(env, table, locals, name, args)
    } else if same(name, "read") {
        infer_read(env, table, locals, name, args)
    } else if same(name, "read-json") {
        infer_read_json(env, table, locals, name, args)
    } else if same(name, "artifact") {
        infer_artifact(env, table, locals, name, args)
    } else if same(name, "strip-margin") {
        infer_strip_margin(env, table, locals, name, args)
    } else if same(name, "replace") {
        infer_replace(env, table, locals, name, args)
    } else if same(name, "concat") {
        infer_concat(env, table, locals, name, args)
    } else if same(name, "remove-at") {
        infer_remove_at(env, table, locals, name, args)
    } else if same(name, "keys") {
        infer_keys(env, table, locals, name, args)
    } else if same(name, "first") {
        infer_first(env, table, locals, name, args)
    } else if same(name, "map") || same(name, "filter") || same(name, "flat-map") || same(name, "sort-by") || same(name, "group-by") {
        infer_over_list(env, table, locals, name, args)
    } else if same(name, "indexed-map") {
        infer_indexed_map(env, table, locals, name, args)
    } else if same(name, "fold") {
        infer_fold(env, table, locals, name, args)
    } else {
        Err(MagError::Type(cat2("no type rule for builtin ", name)))
    }
}

} // verus!
