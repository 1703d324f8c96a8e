//! Equality obligations of checked expressions. A function's constraints must survive value
//! transport (records, conditionals, returned callbacks), not only a direct call through its
//! original name.

use std::sync::Arc;
use vstd::prelude::*;

use crate::ast::{
    arms_view, bindings_view, checked_fields_view, checked_view, share, BindingId, CheckedBinding,
    CheckedBlock, CheckedExpr, CheckedExprKind, CheckedFn, CheckedMatchArm, SArm, SBinding, SBlock,
    SChecked, SCheckedFn, SKind,
};
use crate::bindings::{Bindings, SBindings};
use crate::candidates::{
    as_vars, name_vars, resolved_binding_requirements, resolved_requirements,
};
use crate::compatible::{compatible_with_bindable, field_named, fit_binding, SSubst};
use crate::env::{keyed, Env, SEnv};
use crate::error::{MagError, SError};
use crate::resolve::type_error;
use crate::substitution::{apply, collect_vars, substitute, vars, NameSet, Substitution};
use crate::text::{
    before, before_is_total, before_is_transitive, clone_names, comes_before, contains_name, same_names,
    strings,
};
use crate::type_rules::{
    equality_variables, needs_equality, required_all, unit_result, validate_equality_requirements,
};
use crate::types::{fields_view, types_view, MagType, SType};

verus! {

broadcast use vstd::seq_lib::group_seq_properties;

/// The table after some obligations were recorded, and whether they can be met.
pub type SOutcome = (SBindings, Result<(), SError>);

/// What stands for the variables of an expression's type where another type is expected of it.
#[verifier::opaque]
pub open spec fn specialization(env: SEnv, ty: SType, expected: SType, outer: SSubst) -> SSubst {
    let original = apply(ty, outer);
    fit_binding(env, apply(expected, outer), original, outer, vars(original)).0
}

fn specialize_type(env: &Env, ty: &MagType, expected: &MagType, outer: &Substitution) -> (r:
    Substitution)
    ensures
        r@ == specialization(env@, ty@, expected@, outer@),
{
    proof {
        reveal(specialization);
    }
    let mut r = outer.clone();
    let original = substitute(ty, outer);
    let expected = substitute(expected, outer);
    let mut bindable = NameSet::new();
    collect_vars(&original, &mut bindable);
    assert(bindable@ =~= vars(original@));
    let _ = compatible_with_bindable(env, &expected, &original, &mut r, &bindable);
    r
}

/// The obligations that an expression has where a type is expected of it.
pub open spec fn specialized(
    env: SEnv,
    table: SBindings,
    e: SChecked,
    expected: SType,
    outer: SSubst,
) -> SOutcome
    decreases e, 1nat,
{
    let subst = specialization(env, e.ty, expected, outer);
    specialized_kind(env, table, e, apply(e.ty, subst), subst)
}

/// The obligations of an expression's parts, at its resolved type.
pub open spec fn specialized_kind(
    env: SEnv,
    table: SBindings,
    e: SChecked,
    resolved: SType,
    subst: SSubst,
) -> SOutcome
    decreases e, 0nat,
{
    match e.kind {
        SKind::BindingRef(id) => required_all(
            env,
            table,
            resolved_requirements(env, table, id, resolved),
            subst,
        ),
        SKind::Function(f) => {
            let (s1, r) = required_all(env, table, as_vars(f.equality_params), subst);
            match r {
                Err(e) => (s1, Err(e)),
                Ok(_) => {
                    let (s2, r) = specialized_bindings(env, s1, f.body.bindings, subst);
                    match r {
                        Err(e) => (s2, Err(e)),
                        Ok(_) => specialized_each(env, s2, f.body.expressions, subst),
                    }
                },
            }
        },
        SKind::Call(callee, args) => {
            let signature = apply(callee.ty, subst);
            let (s1, r) = specialized(env, table, *callee, signature, subst);
            match r {
                Err(e) => (s1, Err(e)),
                Ok(_) => match signature {
                    SType::Function(params, _) => specialized_args(env, s1, args, params, subst),
                    _ => (s1, Ok(())),
                },
            }
        },
        SKind::Vector(items) => specialized_items(env, table, items, resolved, 0, subst),
        SKind::Fields(fields) => specialized_fields(env, table, fields, resolved, subst),
        SKind::If(condition, then_branch, else_branch) => {
            let (s1, r) = specialized(env, table, *condition, SType::Bool, subst);
            match r {
                Err(e) => (s1, Err(e)),
                Ok(_) => {
                    let (s2, r) = specialized(env, s1, *then_branch, resolved, subst);
                    match r {
                        Err(e) => (s2, Err(e)),
                        Ok(_) => specialized(env, s2, *else_branch, resolved, subst),
                    }
                },
            }
        },
        SKind::Ascribe(_, value) => specialized(env, table, *value, resolved, subst),
        SKind::Construct(_, _, payload) => specialized(env, table, *payload, payload.ty, subst),
        SKind::Match(value, arms) => {
            let (s1, r) = specialized(env, table, *value, value.ty, subst);
            match r {
                Err(e) => (s1, Err(e)),
                Ok(_) => specialized_arms(env, s1, arms, resolved, subst),
            }
        },
        _ => (table, Ok(())),
    }
}

pub open spec fn specialized_bindings(
    env: SEnv,
    table: SBindings,
    items: Seq<SBinding>,
    subst: SSubst,
) -> SOutcome
    decreases items, 0nat,
{
    if items.len() == 0 {
        (table, Ok(()))
    } else {
        let (after, r) = specialized(env, table, items[0].initializer, items[0].ty, subst);
        match r {
            Err(e) => (after, Err(e)),
            Ok(_) => specialized_bindings(env, after, items.drop_first(), subst),
        }
    }
}

pub open spec fn specialized_each(
    env: SEnv,
    table: SBindings,
    items: Seq<SChecked>,
    subst: SSubst,
) -> SOutcome
    decreases items, 0nat,
{
    if items.len() == 0 {
        (table, Ok(()))
    } else {
        let (after, r) = specialized(env, table, items[0], items[0].ty, subst);
        match r {
            Err(e) => (after, Err(e)),
            Ok(_) => specialized_each(env, after, items.drop_first(), subst),
        }
    }
}

pub open spec fn specialized_args(
    env: SEnv,
    table: SBindings,
    items: Seq<SChecked>,
    params: Seq<SType>,
    subst: SSubst,
) -> SOutcome
    decreases items, 0nat,
{
    if items.len() == 0 || params.len() == 0 {
        (table, Ok(()))
    } else {
        let (after, r) = specialized(env, table, items[0], params[0], subst);
        match r {
            Err(e) => (after, Err(e)),
            Ok(_) => specialized_args(env, after, items.drop_first(), params.drop_first(), subst),
        }
    }
}

/// The type that is expected of the item at a position of a list or product.
pub open spec fn item_expected(resolved: SType, own: SType, i: nat) -> SType {
    match resolved {
        SType::List(item) => *item,
        SType::Product(items) => if i < items.len() {
            items[i as int]
        } else {
            own
        },
        _ => own,
    }
}

pub open spec fn specialized_items(
    env: SEnv,
    table: SBindings,
    items: Seq<SChecked>,
    resolved: SType,
    i: nat,
    subst: SSubst,
) -> SOutcome
    decreases items, 0nat,
{
    if items.len() == 0 {
        (table, Ok(()))
    } else {
        let (after, r) = specialized(
            env,
            table,
            items[0],
            item_expected(resolved, items[0].ty, i),
            subst,
        );
        match r {
            Err(e) => (after, Err(e)),
            Ok(_) => specialized_items(env, after, items.drop_first(), resolved, i + 1, subst),
        }
    }
}

/// The type that is expected of a field of a record.
pub open spec fn field_expected(resolved: SType, own: SType, name: Seq<char>) -> SType {
    match resolved {
        SType::Record(fields) => match keyed(fields, name, 0) {
            Some(t) => t,
            None => own,
        },
        _ => own,
    }
}

pub open spec fn specialized_fields(
    env: SEnv,
    table: SBindings,
    items: Seq<(Seq<char>, SChecked)>,
    resolved: SType,
    subst: SSubst,
) -> SOutcome
    decreases items, 0nat,
{
    if items.len() == 0 {
        (table, Ok(()))
    } else {
        let (after, r) = specialized(
            env,
            table,
            items[0].1,
            field_expected(resolved, items[0].1.ty, items[0].0),
            subst,
        );
        match r {
            Err(e) => (after, Err(e)),
            Ok(_) => specialized_fields(env, after, items.drop_first(), resolved, subst),
        }
    }
}

pub open spec fn specialized_arms(
    env: SEnv,
    table: SBindings,
    items: Seq<SArm>,
    resolved: SType,
    subst: SSubst,
) -> SOutcome
    decreases items, 0nat,
{
    if items.len() == 0 {
        (table, Ok(()))
    } else {
        let (after, r) = specialized(env, table, *items[0].body, resolved, subst);
        match r {
            Err(e) => (after, Err(e)),
            Ok(_) => specialized_arms(env, after, items.drop_first(), resolved, subst),
        }
    }
}

pub fn check_equality_specialization(
    env: &Env,
    table: &mut Bindings,
    expression: &CheckedExpr,
    expected: &MagType,
    outer: &Substitution,
) -> (r: Result<(), MagError>)
    ensures
        (final(table)@, unit_result(r)) == specialized(
            env@,
            old(table)@,
            expression@,
            expected@,
            outer@,
        ),
    decreases expression, 1nat,
{
    let subst = specialize_type(env, &expression.ty, expected, outer);
    let resolved = substitute(&expression.ty, &subst);
    check_kind(env, table, expression, &resolved, &subst)
}

fn check_kind(
    env: &Env,
    table: &mut Bindings,
    expression: &CheckedExpr,
    resolved: &MagType,
    subst: &Substitution,
) -> (r: Result<(), MagError>)
    ensures
        (final(table)@, unit_result(r)) == specialized_kind(
            env@,
            old(table)@,
            expression@,
            resolved@,
            subst@,
        ),
    decreases expression, 0nat,
{
    assert(expression@.kind == expression.kind.model());
    match &expression.kind {
        CheckedExprKind::BindingRef(id) => {
            let requirements = resolved_binding_requirements(env, table, *id, resolved);
            validate_equality_requirements(env, table, &requirements, subst)
        },
        CheckedExprKind::Function(f) => {
            assert(expression@.kind == SKind::Function((**f)@));
            assert(*(**f)@.body == (*f.body)@);
            validate_equality_requirements(env, table, &name_vars(&f.equality_params), subst)?;
            check_bindings(env, table, &f.body.bindings, subst)?;
            check_each(env, table, &f.body.expressions, subst)
        },
        CheckedExprKind::Call { callee, args } => {
            let signature = substitute(&callee.ty, subst);
            check_equality_specialization(env, table, callee, &signature, subst)?;
            match &signature {
                MagType::Function(params, _) => check_args(env, table, args, params, subst),
                _ => Ok(()),
            }
        },
        CheckedExprKind::Vector(items) => check_items(env, table, items, resolved, subst),
        CheckedExprKind::Fields(fields) => check_fields(env, table, fields, resolved, subst),
        CheckedExprKind::If { condition, then_branch, else_branch } => {
            check_equality_specialization(env, table, condition, &MagType::Bool, subst)?;
            check_equality_specialization(env, table, then_branch, resolved, subst)?;
            check_equality_specialization(env, table, else_branch, resolved, subst)
        },
        CheckedExprKind::Ascribe { value, .. } => {
            check_equality_specialization(env, table, value, resolved, subst)
        },
        CheckedExprKind::Construct { payload, .. } => {
            check_equality_specialization(env, table, payload, &payload.ty, subst)
        },
        CheckedExprKind::Match { value, arms } => {
            check_equality_specialization(env, table, value, &value.ty, subst)?;
            check_arms(env, table, arms, resolved, subst)
        },
        _ => Ok(()),
    }
}

fn check_bindings(
    env: &Env,
    table: &mut Bindings,
    items: &Vec<CheckedBinding>,
    subst: &Substitution,
) -> (r: Result<(), MagError>)
    ensures
        (final(table)@, unit_result(r)) == specialized_bindings(
            env@,
            old(table)@,
            bindings_view(items@),
            subst@,
        ),
    decreases items, 0nat,
{
    let ghost all = bindings_view(items@);
    let ghost whole = specialized_bindings(env@, table@, all, subst@);
    let mut i: usize = 0;
    assert(all.skip(0) =~= all);
    while i < items.len()
        invariant
            i <= items.len(),
            all == bindings_view(items@),
            all.len() == items@.len(),
            whole == specialized_bindings(env@, old(table)@, all, subst@),
            whole == specialized_bindings(env@, table@, all.skip(i as int), subst@),
        decreases items.len() - i,
    {
        proof {
            let item = all.skip(i as int)[0];
            assert(item == all[i as int]);
            assert(item.initializer == (*items@[i as int].initializer)@);
            assert(item.ty == items@[i as int].ty@);
            assert(all.skip(i as int).drop_first() =~= all.skip(i + 1));
        }
        check_equality_specialization(env, table, &items[i].initializer, &items[i].ty, subst)?;
        i = i + 1;
    }
    Ok(())
}

fn check_each(env: &Env, table: &mut Bindings, items: &Vec<CheckedExpr>, subst: &Substitution) -> (r:
    Result<(), MagError>)
    ensures
        (final(table)@, unit_result(r)) == specialized_each(
            env@,
            old(table)@,
            checked_view(items@),
            subst@,
        ),
    decreases items, 0nat,
{
    let ghost all = checked_view(items@);
    let ghost whole = specialized_each(env@, table@, all, subst@);
    let mut i: usize = 0;
    assert(all.skip(0) =~= all);
    while i < items.len()
        invariant
            i <= items.len(),
            all == checked_view(items@),
            all.len() == items@.len(),
            whole == specialized_each(env@, old(table)@, all, subst@),
            whole == specialized_each(env@, table@, all.skip(i as int), subst@),
        decreases items.len() - i,
    {
        proof {
            assert(all.skip(i as int)[0] == items@[i as int]@);
            assert(all.skip(i as int).drop_first() =~= all.skip(i + 1));
        }
        check_equality_specialization(env, table, &items[i], &items[i].ty, subst)?;
        i = i + 1;
    }
    Ok(())
}

fn check_args(
    env: &Env,
    table: &mut Bindings,
    items: &Vec<CheckedExpr>,
    params: &Vec<MagType>,
    subst: &Substitution,
) -> (r: Result<(), MagError>)
    ensures
        (final(table)@, unit_result(r)) == specialized_args(
            env@,
            old(table)@,
            checked_view(items@),
            types_view(params@),
            subst@,
        ),
    decreases items, 0nat,
{
    let ghost all = checked_view(items@);
    let ghost types = types_view(params@);
    let ghost whole = specialized_args(env@, table@, all, types, subst@);
    let mut i: usize = 0;
    assert(all.skip(0) =~= all);
    assert(types.skip(0) =~= types);
    while i < items.len() && i < params.len()
        invariant
            i <= items.len(),
            i <= params.len(),
            all == checked_view(items@),
            all.len() == items@.len(),
            types == types_view(params@),
            types.len() == params@.len(),
            whole == specialized_args(env@, old(table)@, all, types, subst@),
            whole == specialized_args(
                env@,
                table@,
                all.skip(i as int),
                types.skip(i as int),
                subst@,
            ),
        decreases items.len() - i,
    {
        proof {
            assert(all.skip(i as int)[0] == items@[i as int]@);
            assert(types.skip(i as int)[0] == params@[i as int]@);
            assert(all.skip(i as int).drop_first() =~= all.skip(i + 1));
            assert(types.skip(i as int).drop_first() =~= types.skip(i + 1));
        }
        check_equality_specialization(env, table, &items[i], &params[i], subst)?;
        i = i + 1;
    }
    Ok(())
}

fn check_items(
    env: &Env,
    table: &mut Bindings,
    items: &Vec<CheckedExpr>,
    resolved: &MagType,
    subst: &Substitution,
) -> (r: Result<(), MagError>)
    ensures
        (final(table)@, unit_result(r)) == specialized_items(
            env@,
            old(table)@,
            checked_view(items@),
            resolved@,
            0,
            subst@,
        ),
    decreases items, 0nat,
{
    let ghost all = checked_view(items@);
    let ghost whole = specialized_items(env@, table@, all, resolved@, 0, subst@);
    let mut i: usize = 0;
    assert(all.skip(0) =~= all);
    while i < items.len()
        invariant
            i <= items.len(),
            all == checked_view(items@),
            all.len() == items@.len(),
            whole == specialized_items(env@, old(table)@, all, resolved@, 0, subst@),
            whole == specialized_items(
                env@,
                table@,
                all.skip(i as int),
                resolved@,
                i as nat,
                subst@,
            ),
        decreases items.len() - i,
    {
        proof {
            assert(all.skip(i as int)[0] == items@[i as int]@);
            assert(all.skip(i as int).drop_first() =~= all.skip(i + 1));
        }
        let expected = match resolved {
            MagType::List(item) => &**item,
            MagType::Product(types) => {
                assert(types_view(types@).len() == types@.len());
                if i < types.len() {
                    &types[i]
                } else {
                    &items[i].ty
                }
            },
            _ => &items[i].ty,
        };
        assert(expected@ == item_expected(resolved@, items@[i as int]@.ty, i as nat));
        check_equality_specialization(env, table, &items[i], expected, subst)?;
        i = i + 1;
    }
    Ok(())
}

fn check_fields(
    env: &Env,
    table: &mut Bindings,
    items: &Vec<(String, CheckedExpr)>,
    resolved: &MagType,
    subst: &Substitution,
) -> (r: Result<(), MagError>)
    ensures
        (final(table)@, unit_result(r)) == specialized_fields(
            env@,
            old(table)@,
            checked_fields_view(items@),
            resolved@,
            subst@,
        ),
    decreases items, 0nat,
{
    let ghost all = checked_fields_view(items@);
    let ghost whole = specialized_fields(env@, table@, all, resolved@, subst@);
    let mut i: usize = 0;
    assert(all.skip(0) =~= all);
    while i < items.len()
        invariant
            i <= items.len(),
            all == checked_fields_view(items@),
            all.len() == items@.len(),
            whole == specialized_fields(env@, old(table)@, all, resolved@, subst@),
            whole == specialized_fields(env@, table@, all.skip(i as int), resolved@, subst@),
        decreases items.len() - i,
    {
        proof {
            assert(all.skip(i as int)[0] == (items@[i as int].0@, items@[i as int].1@));
            assert(all.skip(i as int).drop_first() =~= all.skip(i + 1));
        }
        let expected = match resolved {
            MagType::Record(fields) => match field_named(fields, &items[i].0) {
                Some(t) => t,
                None => &items[i].1.ty,
            },
            _ => &items[i].1.ty,
        };
        assert(expected@ == field_expected(
            resolved@,
            items@[i as int].1@.ty,
            items@[i as int].0@,
        ));
        check_equality_specialization(env, table, &items[i].1, expected, subst)?;
        i = i + 1;
    }
    Ok(())
}

fn check_arms(
    env: &Env,
    table: &mut Bindings,
    items: &Vec<CheckedMatchArm>,
    resolved: &MagType,
    subst: &Substitution,
) -> (r: Result<(), MagError>)
    ensures
        (final(table)@, unit_result(r)) == specialized_arms(
            env@,
            old(table)@,
            arms_view(items@),
            resolved@,
            subst@,
        ),
    decreases items, 0nat,
{
    let ghost all = arms_view(items@);
    let ghost whole = specialized_arms(env@, table@, all, resolved@, subst@);
    let mut i: usize = 0;
    assert(all.skip(0) =~= all);
    while i < items.len()
        invariant
            i <= items.len(),
            all == arms_view(items@),
            all.len() == items@.len(),
            whole == specialized_arms(env@, old(table)@, all, resolved@, subst@),
            whole == specialized_arms(env@, table@, all.skip(i as int), resolved@, subst@),
        decreases items.len() - i,
    {
        proof {
            let item = all.skip(i as int)[0];
            assert(item == all[i as int]);
            assert(*item.body == items@[i as int].body@);
            assert(all.skip(i as int).drop_first() =~= all.skip(i + 1));
        }
        check_equality_specialization(env, table, &items[i].body, resolved, subst)?;
        i = i + 1;
    }
    Ok(())
}

} // verus!
