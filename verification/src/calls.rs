//! Calls of function values: what stands for a function's type variables, and the type of the
//! result.

use vstd::prelude::*;

use crate::ast::{values_view, FnValue, SFn, SValue, Value};
use crate::bindings::{Bindings, SBindings};
use crate::candidates::{as_vars, name_vars};
use crate::compatible::{compatible, fit_any, SSubst};
use crate::env::{Env, SEnv};
use crate::error::{MagError, SError};
use crate::infer::{compatible_params, fit_params, types_result};
use crate::resolve::type_error;
use crate::substitution::{apply, substitute, Substitution};
use crate::text::{cat2, cat3, cat4, decimal, show_usize, strings};
use crate::type_rules::{required_all, unit_result, validate_equality_requirements};
use crate::types::{type_text, types_view, MagType, SType};
use crate::value_types::{type_of, value_type};

verus! {

broadcast use vstd::seq_lib::group_seq_properties;

/// The type of a call's result and what stands for the type variables, or why the call cannot be.
pub type SCall = (SBindings, Result<(SType, SSubst), SError>);

pub open spec fn call_result(r: Result<(MagType, Substitution), MagError>) -> Result<
    (SType, SSubst),
    SError,
> {
    match r {
        Ok((t, s)) => Ok((t@, s@)),
        Err(e) => Err(e@),
    }
}

/// The types of some values, up to the first that has none.
pub open spec fn argument_value_types(args: Seq<SValue>, done: Seq<SType>) -> Result<
    Seq<SType>,
    SError,
>
    decreases args.len() - done.len(),
{
    if done.len() >= args.len() {
        Ok(done)
    } else {
        match type_of(args[done.len() as int]) {
            Some(t) => argument_value_types(args, done.push(t)),
            None => type_error(
                "cannot pass "@ + crate::ast::kind_name(args[done.len() as int])
                    + " as a typed argument"@,
            ),
        }
    }
}

fn collect_value_types(args: &Vec<Value>) -> (r: Result<Vec<MagType>, MagError>)
    ensures
        types_result(r) == argument_value_types(values_view(args@), Seq::empty()),
        r is Ok ==> r->Ok_0@.len() == args@.len(),
{
    let ghost all = values_view(args@);
    let ghost whole = argument_value_types(all, Seq::empty());
    let mut done: Vec<MagType> = Vec::new();
    assert(all.len() == args@.len());
    assert(types_view(done@) =~= Seq::empty());
    while done.len() < args.len()
        invariant
            done@.len() <= args@.len(),
            types_view(done@).len() == done@.len(),
            all == values_view(args@),
            all.len() == args@.len(),
            whole == argument_value_types(all, Seq::empty()),
            whole == argument_value_types(all, types_view(done@)),
        decreases args.len() - done.len(),
    {
        let ghost so_far = types_view(done@);
        let i = done.len();
        assert(all[i as int] == args@[i as int]@);
        match value_type(&args[i]) {
            Some(t) => {
                done.push(t);
                assert(types_view(done@) =~= so_far.push(t@));
            },
            None => {
                return Err(
                    MagError::Type(
                        cat3("cannot pass ", args[i].kind_text(), " as a typed argument"),
                    ),
                );
            },
        }
    }
    Ok(done)
}

/// The end of a call: the function's equality requirements must be met by what stands for its
/// variables.
pub open spec fn required_call(
    env: SEnv,
    table: SBindings,
    f: SFn,
    result: SType,
    subst: SSubst,
) -> SCall {
    let (after, met) = required_all(env, table, as_vars(f.equality_params), subst);
    match met {
        Err(e) => (after, Err(e)),
        Ok(_) => (after, Ok((result, subst))),
    }
}

fn require_call(
    env: &Env,
    table: &mut Bindings,
    function: &FnValue,
    result: MagType,
    subst: Substitution,
) -> (r: Result<(MagType, Substitution), MagError>)
    ensures
        (final(table)@, call_result(r)) == required_call(
            env@,
            old(table)@,
            function@,
            result@,
            subst@,
        ),
{
    let requirements = name_vars(&function.equality_params);
    validate_equality_requirements(env, table, &requirements, &subst)?;
    Ok((result, subst))
}

/// A call with given arguments: their types are held against the parameters in order.
#[verifier::opaque]
pub open spec fn called(env: SEnv, table: SBindings, f: SFn, args: Seq<SValue>) -> SCall {
    if f.param_types.len() != args.len() {
        (table, Err(SError::Arity(f.param_types.len(), args.len())))
    } else {
        match argument_value_types(args, Seq::empty()) {
            Err(e) => (table, Err(e)),
            Ok(types) => {
                let (subst, fit) = fit_params(env, types, f.param_types, Map::empty());
                match fit {
                    Err(m) => (table, type_error(m)),
                    Ok(_) => required_call(
                        env,
                        table,
                        f,
                        apply(f.return_type, subst),
                        subst,
                    ),
                }
            },
        }
    }
}

pub fn check_call(env: &Env, table: &mut Bindings, function: &FnValue, args: &Vec<Value>) -> (r:
    Result<(MagType, Substitution), MagError>)
    ensures
        (final(table)@, call_result(r)) == called(
            env@,
            old(table)@,
            function@,
            values_view(args@),
        ),
{
    proof {
        reveal(called);
        assert(values_view(args@).len() == args@.len());
        assert(types_view(function.param_types@).len() == function.param_types@.len());
    }
    if function.param_types.len() != args.len() {
        return Err(MagError::Arity { expected: function.param_types.len(), got: args.len() });
    }
    let types = collect_value_types(args)?;
    let mut subst = Substitution::new();
    match compatible_params(env, &types, &function.param_types, &mut subst) {
        Err(m) => {
            return Err(MagError::Type(m));
        },
        Ok(_) => {},
    }
    let result = substitute(&function.return_type, &subst);
    require_call(env, table, function, result, subst)
}

/// A call at a type that the call's callee was compiled to: the parameters and the result of that
/// type are held against the function's own.
#[verifier::opaque]
pub open spec fn called_at(env: SEnv, table: SBindings, f: SFn, resolved: SType) -> SCall {
    match resolved {
        SType::Function(params, result) => if params.len() != f.param_types.len() {
            (
                table,
                type_error(
                    "checked call arity changed from "@ + decimal(f.param_types.len()) + " to "@
                        + decimal(params.len()),
                ),
            )
        } else {
            let (subst, fit) = fit_params(env, params, f.param_types, Map::empty());
            match fit {
                Err(m) => (table, type_error(m)),
                Ok(_) => {
                    let (subst, fit) = fit_any(env, *result, apply(f.return_type, subst), subst);
                    match fit {
                        Err(m) => (table, type_error(m)),
                        Ok(_) => required_call(env, table, f, *result, subst),
                    }
                },
            }
        },
        _ => (
            table,
            type_error("checked call target must be a function, got "@ + type_text(resolved)),
        ),
    }
}

pub fn check_resolved_call(
    env: &Env,
    table: &mut Bindings,
    function: &FnValue,
    resolved: &MagType,
) -> (r: Result<(MagType, Substitution), MagError>)
    ensures
        (final(table)@, call_result(r)) == called_at(env@, old(table)@, function@, resolved@),
{
    proof {
        reveal(called_at);
        assert(types_view(function.param_types@).len() == function.param_types@.len());
    }
    match resolved {
        MagType::Function(params, result) => {
            assert(resolved@ == SType::Function(types_view(params@), Box::new((**result)@)));
            assert(types_view(params@).len() == params@.len());
            if params.len() != function.param_types.len() {
                return Err(
                    MagError::Type(
                        cat4(
                            "checked call arity changed from ",
                            &show_usize(function.param_types.len()),
                            " to ",
                            &show_usize(params.len()),
                        ),
                    ),
                );
            }
            let mut subst = Substitution::new();
            match compatible_params(env, params, &function.param_types, &mut subst) {
                Err(m) => {
                    return Err(MagError::Type(m));
                },
                Ok(_) => {},
            }
            let expected = substitute(&function.return_type, &subst);
            match compatible(env, result, &expected, &mut subst) {
                Err(m) => {
                    return Err(MagError::Type(m));
                },
                Ok(_) => {},
            }
            require_call(env, table, function, (**result).clone(), subst)
        },
        _ => Err(
            MagError::Type(cat2("checked call target must be a function, got ", &resolved.show())),
        ),
    }
}

} // verus!
