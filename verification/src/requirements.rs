//! The equality requirements of a block's bindings: the least that are closed under the calls that
//! the bindings make of one another.

use std::sync::Arc;
use vstd::prelude::*;

use crate::ast::{
    arms_view, bindings_view, checked_fields_view, checked_view, params_view, share, BindingId,
    CheckedBinding, CheckedBlock, CheckedExpr, CheckedExprKind, CheckedFn, CheckedMatchArm,
    CheckedParam, SArm, SBinding, SBlock, SChecked, SCheckedFn, SKind, SParam,
};
use crate::bindings::{Bindings, SBindings};
use crate::candidates::{resolved_binding_requirements, resolved_requirements};
use crate::env::{Env, SEnv};
use crate::error::{MagError, SError};
use crate::resolve::type_error;
use crate::specialize::{check_equality_specialization, specialized, SOutcome};
use crate::substitution::{NameSet, Substitution};
use crate::text::{clone_names, contains_name, order_names, ordered, same_names, strings};
use crate::type_rules::{equality_variables, needs_equality, unit_result};
use crate::types::{types_view, MagType, SType};

verus! {

broadcast use vstd::seq_lib::group_seq_properties;

/// The bindings that an expression calls by name, each with the type of the callee, outermost
/// first.
pub open spec fn calls_in(e: SChecked) -> Seq<(BindingId, SType)>
    decreases e, 1nat,
{
    match e.kind {
        SKind::Call(callee, args) => {
            let own = match callee.kind {
                SKind::BindingRef(id) => seq![(id, callee.ty)],
                _ => Seq::empty(),
            };
            own + calls_in(*callee) + calls_in_all(args)
        },
        SKind::Vector(items) => calls_in_all(items),
        SKind::Fields(fields) => calls_in_fields(fields),
        SKind::If(a, b, c) => calls_in(*a) + calls_in(*b) + calls_in(*c),
        SKind::Construct(_, _, payload) => calls_in(*payload),
        SKind::Ascribe(_, value) => calls_in(*value),
        SKind::Match(value, arms) => calls_in(*value) + calls_in_arms(arms),
        SKind::Function(f) => calls_in_bindings(f.body.bindings) + calls_in_all(
            f.body.expressions,
        ),
        _ => Seq::empty(),
    }
}

pub open spec fn calls_in_all(items: Seq<SChecked>) -> Seq<(BindingId, SType)>
    decreases items, 0nat,
{
    if items.len() == 0 {
        Seq::empty()
    } else {
        calls_in(items[0]) + calls_in_all(items.drop_first())
    }
}

pub open spec fn calls_in_fields(items: Seq<(Seq<char>, SChecked)>) -> Seq<(BindingId, SType)>
    decreases items, 0nat,
{
    if items.len() == 0 {
        Seq::empty()
    } else {
        calls_in(items[0].1) + calls_in_fields(items.drop_first())
    }
}

pub open spec fn calls_in_arms(items: Seq<SArm>) -> Seq<(BindingId, SType)>
    decreases items, 0nat,
{
    if items.len() == 0 {
        Seq::empty()
    } else {
        calls_in(*items[0].body) + calls_in_arms(items.drop_first())
    }
}

pub open spec fn calls_in_bindings(items: Seq<SBinding>) -> Seq<(BindingId, SType)>
    decreases items, 0nat,
{
    if items.len() == 0 {
        Seq::empty()
    } else {
        calls_in(items[0].initializer) + calls_in_bindings(items.drop_first())
    }
}

pub open spec fn calls_in_block(block: SBlock) -> Seq<(BindingId, SType)> {
    calls_in_bindings(block.bindings) + calls_in_all(block.expressions)
}

pub open spec fn calls_view(items: Seq<(BindingId, MagType)>) -> Seq<(BindingId, SType)> {
    Seq::new(items.len(), |i: int| (items[i].0, items[i].1@))
}

pub fn collect_called_bindings(expression: &CheckedExpr, calls: &mut Vec<(BindingId, MagType)>)
    ensures
        calls_view(final(calls)@) == calls_view(old(calls)@) + calls_in(expression@),
    decreases expression, 1nat,
{
    let ghost start = calls_view(calls@);
    assert(expression@.kind == expression.kind.model());
    match &expression.kind {
        CheckedExprKind::Call { callee, args } => {
            assert(callee@.kind == callee.kind.model());
            let ghost own: Seq<(BindingId, SType)> = match callee@.kind {
                SKind::BindingRef(id) => seq![(id, callee@.ty)],
                _ => Seq::empty(),
            };
            match &callee.kind {
                CheckedExprKind::BindingRef(id) => {
                    calls.push((*id, callee.ty.clone()));
                    assert(calls_view(calls@) =~= start + own);
                },
                _ => {
                    assert(calls_view(calls@) =~= start + own);
                },
            }
            collect_called_bindings(callee, calls);
            collect_all(args, calls);
            assert(calls_view(calls@) =~= start + (own + calls_in(callee@) + calls_in_all(
                checked_view(args@),
            )));
        },
        CheckedExprKind::Vector(items) => {
            collect_all(items, calls);
        },
        CheckedExprKind::Fields(fields) => {
            collect_fields(fields, calls);
        },
        CheckedExprKind::If { condition, then_branch, else_branch } => {
            collect_called_bindings(condition, calls);
            collect_called_bindings(then_branch, calls);
            collect_called_bindings(else_branch, calls);
            assert(calls_view(calls@) =~= start + (calls_in(condition@) + calls_in(then_branch@)
                + calls_in(else_branch@)));
        },
        CheckedExprKind::Construct { payload, .. } => {
            collect_called_bindings(payload, calls);
        },
        CheckedExprKind::Ascribe { value, .. } => {
            collect_called_bindings(value, calls);
        },
        CheckedExprKind::Match { value, arms } => {
            collect_called_bindings(value, calls);
            collect_arms(arms, calls);
            assert(calls_view(calls@) =~= start + (calls_in(value@) + calls_in_arms(
                arms_view(arms@),
            )));
        },
        CheckedExprKind::Function(f) => {
            assert(expression@.kind == SKind::Function((**f)@));
            assert(*(**f)@.body == (*f.body)@);
            collect_bindings(&f.body.bindings, calls);
            collect_all(&f.body.expressions, calls);
            assert(calls_view(calls@) =~= start + (calls_in_bindings(
                bindings_view(f.body.bindings@),
            ) + calls_in_all(checked_view(f.body.expressions@))));
        },
        _ => {
            assert(calls_view(calls@) =~= start + Seq::empty());
        },
    }
}

fn collect_all(items: &Vec<CheckedExpr>, calls: &mut Vec<(BindingId, MagType)>)
    ensures
        calls_view(final(calls)@) == calls_view(old(calls)@) + calls_in_all(checked_view(items@)),
    decreases items, 0nat,
{
    let ghost all = checked_view(items@);
    let ghost whole = calls_view(calls@) + calls_in_all(all);
    let mut i: usize = 0;
    assert(all.skip(0) =~= all);
    while i < items.len()
        invariant
            i <= items.len(),
            all == checked_view(items@),
            all.len() == items@.len(),
            whole =~= calls_view(calls@) + calls_in_all(all.skip(i as int)),
        decreases items.len() - i,
    {
        proof {
            assert(all.skip(i as int)[0] == items@[i as int]@);
            assert(all.skip(i as int).drop_first() =~= all.skip(i + 1));
        }
        collect_called_bindings(&items[i], calls);
        i = i + 1;
    }
    assert(whole =~= calls_view(calls@));
}

fn collect_fields(items: &Vec<(String, CheckedExpr)>, calls: &mut Vec<(BindingId, MagType)>)
    ensures
        calls_view(final(calls)@) == calls_view(old(calls)@) + calls_in_fields(
            checked_fields_view(items@),
        ),
    decreases items, 0nat,
{
    let ghost all = checked_fields_view(items@);
    let ghost whole = calls_view(calls@) + calls_in_fields(all);
    let mut i: usize = 0;
    assert(all.skip(0) =~= all);
    while i < items.len()
        invariant
            i <= items.len(),
            all == checked_fields_view(items@),
            all.len() == items@.len(),
            whole =~= calls_view(calls@) + calls_in_fields(all.skip(i as int)),
        decreases items.len() - i,
    {
        proof {
            assert(all.skip(i as int)[0] == (items@[i as int].0@, items@[i as int].1@));
            assert(all.skip(i as int).drop_first() =~= all.skip(i + 1));
        }
        collect_called_bindings(&items[i].1, calls);
        i = i + 1;
    }
    assert(whole =~= calls_view(calls@));
}

fn collect_arms(items: &Vec<CheckedMatchArm>, calls: &mut Vec<(BindingId, MagType)>)
    ensures
        calls_view(final(calls)@) == calls_view(old(calls)@) + calls_in_arms(arms_view(items@)),
    decreases items, 0nat,
{
    let ghost all = arms_view(items@);
    let ghost whole = calls_view(calls@) + calls_in_arms(all);
    let mut i: usize = 0;
    assert(all.skip(0) =~= all);
    while i < items.len()
        invariant
            i <= items.len(),
            all == arms_view(items@),
            all.len() == items@.len(),
            whole =~= calls_view(calls@) + calls_in_arms(all.skip(i as int)),
        decreases items.len() - i,
    {
        proof {
            assert(all.skip(i as int)[0] == all[i as int]);
            assert(*all[i as int].body == items@[i as int].body@);
            assert(all.skip(i as int).drop_first() =~= all.skip(i + 1));
        }
        collect_called_bindings(&items[i].body, calls);
        i = i + 1;
    }
    assert(whole =~= calls_view(calls@));
}

fn collect_bindings(items: &Vec<CheckedBinding>, calls: &mut Vec<(BindingId, MagType)>)
    ensures
        calls_view(final(calls)@) == calls_view(old(calls)@) + calls_in_bindings(
            bindings_view(items@),
        ),
    decreases items, 0nat,
{
    let ghost all = bindings_view(items@);
    let ghost whole = calls_view(calls@) + calls_in_bindings(all);
    let mut i: usize = 0;
    assert(all.skip(0) =~= all);
    while i < items.len()
        invariant
            i <= items.len(),
            all == bindings_view(items@),
            all.len() == items@.len(),
            whole =~= calls_view(calls@) + calls_in_bindings(all.skip(i as int)),
        decreases items.len() - i,
    {
        proof {
            assert(all.skip(i as int)[0] == all[i as int]);
            assert(all[i as int].initializer == (*items@[i as int].initializer)@);
            assert(all.skip(i as int).drop_first() =~= all.skip(i + 1));
        }
        collect_called_bindings(&items[i].initializer, calls);
        i = i + 1;
    }
    assert(whole =~= calls_view(calls@));
}

/// The variables that must support equality for some types to support it, added to those found
/// before, up to the first type that cannot.
pub open spec fn needed_by_types(env: SEnv, types: Seq<SType>, found: Set<Seq<char>>) -> Result<
    Set<Seq<char>>,
    SError,
>
    decreases types.len(),
{
    if types.len() == 0 {
        Ok(found)
    } else {
        match needs_equality(env, types[0]) {
            Err(m) => type_error(m),
            Ok(v) => needed_by_types(env, types.drop_first(), found.union(v)),
        }
    }
}

/// The same for the requirements of each binding that is called.
pub open spec fn needed_by_calls(
    env: SEnv,
    table: SBindings,
    calls: Seq<(BindingId, SType)>,
    found: Set<Seq<char>>,
) -> Result<Set<Seq<char>>, SError>
    decreases calls.len(),
{
    if calls.len() == 0 {
        Ok(found)
    } else {
        match needed_by_types(
            env,
            resolved_requirements(env, table, calls[0].0, calls[0].1),
            found,
        ) {
            Err(e) => Err(e),
            Ok(more) => needed_by_calls(env, table, calls.drop_first(), more),
        }
    }
}

fn collect_needed_types(env: &Env, types: &Vec<MagType>, found: &mut NameSet) -> (r: Result<
    (),
    MagError,
>)
    ensures
        match needed_by_types(env@, types_view(types@), old(found)@) {
            Ok(v) => r is Ok && final(found)@ == v,
            Err(e) => r is Err && r->Err_0@ == e,
        },
{
    let ghost all = types_view(types@);
    let ghost whole = needed_by_types(env@, all, found@);
    let mut i: usize = 0;
    assert(all.skip(0) =~= all);
    while i < types.len()
        invariant
            i <= types.len(),
            all == types_view(types@),
            all.len() == types@.len(),
            whole == needed_by_types(env@, all, old(found)@),
            whole == needed_by_types(env@, all.skip(i as int), found@),
        decreases types.len() - i,
    {
        proof {
            assert(all.skip(i as int)[0] == types@[i as int]@);
            assert(all.skip(i as int).drop_first() =~= all.skip(i + 1));
        }
        match equality_variables(env, &types[i]) {
            Ok(v) => {
                found.extend(&v);
            },
            Err(m) => {
                return Err(MagError::Type(m));
            },
        }
        i = i + 1;
    }
    Ok(())
}

fn collect_needed_calls(
    env: &Env,
    table: &Bindings,
    calls: &Vec<(BindingId, MagType)>,
    found: &mut NameSet,
) -> (r: Result<(), MagError>)
    ensures
        match needed_by_calls(env@, table@, calls_view(calls@), old(found)@) {
            Ok(v) => r is Ok && final(found)@ == v,
            Err(e) => r is Err && r->Err_0@ == e,
        },
{
    let ghost all = calls_view(calls@);
    let ghost whole = needed_by_calls(env@, table@, all, found@);
    let mut i: usize = 0;
    assert(all.skip(0) =~= all);
    while i < calls.len()
        invariant
            i <= calls.len(),
            all == calls_view(calls@),
            whole == needed_by_calls(env@, table@, all, old(found)@),
            whole == needed_by_calls(env@, table@, all.skip(i as int), found@),
        decreases calls.len() - i,
    {
        proof {
            assert(all.skip(i as int)[0] == (calls@[i as int].0, calls@[i as int].1@));
            assert(all.skip(i as int).drop_first() =~= all.skip(i + 1));
        }
        let requirements = resolved_binding_requirements(env, table, calls[i].0, &calls[i].1);
        collect_needed_types(env, &requirements, found)?;
        i = i + 1;
    }
    Ok(())
}

/// The variables that the parts of a binding's initializer require to support equality, with the
/// obligations of the enclosing expression left as they were.
#[verifier::opaque]
pub open spec fn own_obligations(env: SEnv, table: SBindings, b: SBinding) -> (
    SBindings,
    Result<Set<Seq<char>>, SError>,
) {
    let (after, r) = specialized(
        env,
        table.with_obligations(Set::empty()),
        b.initializer,
        b.ty,
        Map::empty(),
    );
    (
        after.with_obligations(table.obligations),
        match r {
            Ok(_) => Ok(after.obligations),
            Err(e) => Err(e),
        },
    )
}

/// The variables that a binding requires to support equality, in order: for a function, those of
/// its type parameters that its parts require, those recorded before, and those that the bindings
/// it calls require of it.
#[verifier::opaque]
pub open spec fn binding_requirements(env: SEnv, table: SBindings, b: SBinding) -> (
    SBindings,
    Result<Seq<Seq<char>>, SError>,
) {
    let (after, r) = own_obligations(env, table, b);
    match r {
        Err(e) => (after, Err(e)),
        Ok(own) => match b.initializer.kind {
            SKind::Function(f) => {
                let first = after.equality_of(b.id).to_set().union(
                    own.intersect(f.type_params.to_set()),
                );
                match needed_by_calls(env, after, calls_in_block(*f.body), first) {
                    Err(e) => (after, Err(e)),
                    Ok(all) => (after, Ok(ordered(all))),
                }
            },
            _ => (after, Ok(ordered(own))),
        },
    }
}

fn collect_own_obligations(env: &Env, table: &mut Bindings, b: &CheckedBinding) -> (r: Result<
    NameSet,
    MagError,
>)
    ensures
        ({
            let (t, x) = own_obligations(
                env@,
                old(table)@,
                SBinding {
                    id: b.id,
                    name: b.name@,
                    ty: b.ty@,
                    initializer: (*b.initializer)@,
                },
            );
            final(table)@ == t && match r {
                Ok(v) => x == Ok::<Set<Seq<char>>, SError>(v@),
                Err(e) => x == Err::<Set<Seq<char>>, SError>(e@),
            }
        }),
{
    proof {
        reveal(own_obligations);
    }
    let outer = table.begin_obligations();
    let none = Substitution::new();
    let checked = check_equality_specialization(env, table, &b.initializer, &b.ty, &none);
    let own = table.end_obligations(outer);
    match checked {
        Ok(_) => Ok(own),
        Err(e) => Err(e),
    }
}

/// The names of a set that are among some names, added to another set.
fn extend_shared(out: &mut NameSet, own: &NameSet, names: &Vec<String>)
    ensures
        final(out)@ == old(out)@.union(own@.intersect(strings(names@).to_set())),
{
    let ghost all = strings(names@);
    let mut i: usize = 0;
    while i < names.len()
        invariant
            i <= names.len(),
            all == strings(names@),
            forall|n: Seq<char>| #[trigger]
                out@.contains(n) ==> old(out)@.contains(n) || (own@.contains(n) && all.contains(n)),
            forall|n: Seq<char>| old(out)@.contains(n) ==> #[trigger] out@.contains(n),
            forall|j: int| 0 <= j < i && own@.contains(#[trigger] all[j]) ==> out@.contains(all[j]),
        decreases names.len() - i,
    {
        assert(all[i as int] == names@[i as int]@);
        if own.contains(&names[i]) {
            out.insert(&names[i]);
        }
        i = i + 1;
    }
    assert forall|n: Seq<char>| out@.contains(n) <==> old(out)@.union(
        own@.intersect(all.to_set()),
    ).contains(n) by {
        if own@.contains(n) && all.contains(n) {
            let j = choose|j: int| 0 <= j < all.len() && all[j] == n;
            assert(out@.contains(all[j]));
        }
    }
    assert(out@ =~= old(out)@.union(own@.intersect(all.to_set())));
}

proof fn view_is_names(s: NameSet)
    ensures
        s@ == strings(s.names@).to_set(),
{
    assert forall|n: Seq<char>| s@.contains(n) <==> strings(s.names@).to_set().contains(n) by {
        if strings(s.names@).contains(n) {
            let j = choose|j: int| 0 <= j < s.names@.len() && strings(s.names@)[j] == n;
            assert(s.names@[j]@ == n);
        }
        if s@.contains(n) {
            let j = choose|j: int| 0 <= j < s.names@.len() && (#[trigger] s.names@[j])@ == n;
            assert(strings(s.names@)[j] == n);
        }
    }
    assert(s@ =~= strings(s.names@).to_set());
}

pub open spec fn names_result(r: Result<Vec<String>, MagError>) -> Result<
    Seq<Seq<char>>,
    SError,
> {
    match r {
        Ok(v) => Ok(strings(v@)),
        Err(e) => Err(e@),
    }
}

fn find_requirements(env: &Env, table: &mut Bindings, b: &CheckedBinding) -> (r: Result<
    Vec<String>,
    MagError,
>)
    ensures
        (final(table)@, names_result(r)) == binding_requirements(
            env@,
            old(table)@,
            SBinding { id: b.id, name: b.name@, ty: b.ty@, initializer: (*b.initializer)@ },
        ),
{
    proof {
        reveal(binding_requirements);
    }
    let own = collect_own_obligations(env, table, b)?;
    assert((*b.initializer)@.kind == b.initializer.kind.model());
    match &b.initializer.kind {
        CheckedExprKind::Function(f) => {
            assert((*b.initializer)@.kind == SKind::Function((**f)@));
            assert(*(**f)@.body == (*f.body)@);
            let mut found = NameSet::new();
            let recorded = table.equality_requirements(b.id);
            found.extend_names(&recorded);
            assert(found@ =~= strings(recorded@).to_set());
            extend_shared(&mut found, &own, &f.type_params);
            let mut calls: Vec<(BindingId, MagType)> = Vec::new();
            assert(calls_view(calls@) =~= Seq::empty());
            collect_bindings(&f.body.bindings, &mut calls);
            collect_all(&f.body.expressions, &mut calls);
            assert(calls_view(calls@) =~= calls_in_block(*(**f)@.body));
            collect_needed_calls(env, table, &calls, &mut found)?;
            proof {
                view_is_names(found);
            }
            Ok(order_names(&found.names))
        },
        _ => {
            proof {
                view_is_names(own);
            }
            Ok(order_names(&own.names))
        },
    }
}

/// One pass over the bindings: each gets what it requires, and the pass tells whether any changed.
pub open spec fn requirement_pass(
    env: SEnv,
    table: SBindings,
    items: Seq<SBinding>,
    changed: bool,
) -> (SBindings, Result<bool, SError>)
    decreases items.len(),
{
    if items.len() == 0 {
        (table, Ok(changed))
    } else {
        let (after, r) = binding_requirements(env, table, items[0]);
        match r {
            Err(e) => (after, Err(e)),
            Ok(names) => if names == after.equality_of(items[0].id) {
                requirement_pass(env, after, items.drop_first(), changed)
            } else {
                requirement_pass(
                    env,
                    after.set_equality(items[0].id, names),
                    items.drop_first(),
                    true,
                )
            },
        }
    }
}

fn pass_requirements(env: &Env, table: &mut Bindings, items: &Vec<CheckedBinding>) -> (r: Result<
    bool,
    MagError,
>)
    ensures
        ({
            let (t, x) = requirement_pass(env@, old(table)@, bindings_view(items@), false);
            final(table)@ == t && match r {
                Ok(c) => x == Ok::<bool, SError>(c),
                Err(e) => x == Err::<bool, SError>(e@),
            }
        }),
{
    let ghost all = bindings_view(items@);
    let ghost whole = requirement_pass(env@, table@, all, false);
    let mut changed = false;
    let mut i: usize = 0;
    assert(all.skip(0) =~= all);
    while i < items.len()
        invariant
            i <= items.len(),
            all == bindings_view(items@),
            all.len() == items@.len(),
            whole == requirement_pass(env@, old(table)@, all, false),
            whole == requirement_pass(env@, table@, all.skip(i as int), changed),
        decreases items.len() - i,
    {
        proof {
            assert(all.skip(i as int)[0] == all[i as int]);
            assert(all[i as int] == (SBinding {
                id: items@[i as int].id,
                name: items@[i as int].name@,
                ty: items@[i as int].ty@,
                initializer: (*items@[i as int].initializer)@,
            }));
            assert(all.skip(i as int).drop_first() =~= all.skip(i + 1));
        }
        let names = find_requirements(env, table, &items[i])?;
        let known = table.equality_requirements(items[i].id);
        if !same_names(&names, &known) {
            table.set_equality_requirements(items[i].id, names);
            changed = true;
        }
        i = i + 1;
    }
    Ok(changed)
}

/// Passes over the bindings until nothing changes.
pub open spec fn settled_requirements(
    env: SEnv,
    table: SBindings,
    items: Seq<SBinding>,
    fuel: nat,
) -> SOutcome
    decreases fuel,
{
    let (after, r) = requirement_pass(env, table, items, false);
    match r {
        Err(e) => (after, Err(e)),
        Ok(changed) => if !changed {
            (after, Ok(()))
        } else if fuel == 0 {
            (after, type_error("equality requirement limit exceeded"@))
        } else {
            settled_requirements(env, after, items, (fuel - 1) as nat)
        },
    }
}

fn settle_requirements(env: &Env, table: &mut Bindings, items: &Vec<CheckedBinding>) -> (r: Result<
    (),
    MagError,
>)
    ensures
        (final(table)@, unit_result(r)) == settled_requirements(
            env@,
            old(table)@,
            bindings_view(items@),
            u64::MAX as nat,
        ),
{
    let ghost all = bindings_view(items@);
    let ghost whole = settled_requirements(env@, table@, all, u64::MAX as nat);
    let mut fuel: u64 = u64::MAX;
    loop
        invariant
            all == bindings_view(items@),
            whole == settled_requirements(env@, table@, all, fuel as nat),
            whole == settled_requirements(env@, old(table)@, all, u64::MAX as nat),
        decreases fuel,
    {
        let changed = pass_requirements(env, table, items)?;
        if !changed {
            return Ok(());
        }
        if fuel == 0 {
            return Err(MagError::Type("equality requirement limit exceeded".to_owned()));
        }
        fuel = fuel - 1;
    }
}

/// The names that are also among others.
pub open spec fn shared_names(names: Seq<Seq<char>>, others: Seq<Seq<char>>) -> Seq<Seq<char>> {
    names.filter(|n: Seq<char>| others.contains(n))
}

pub fn keep_shared(names: &Vec<String>, others: &Vec<String>) -> (r: Vec<String>)
    ensures
        strings(r@) == shared_names(strings(names@), strings(others@)),
{
    let ghost all = strings(names@);
    let ghost keep = |n: Seq<char>| strings(others@).contains(n);
    let mut r: Vec<String> = Vec::new();
    let mut i: usize = 0;
    assert(all.take(0).filter(keep) =~= Seq::empty());
    assert(strings(r@) =~= Seq::empty());
    while i < names.len()
        invariant
            i <= names.len(),
            all == strings(names@),
            keep == (|n: Seq<char>| strings(others@).contains(n)),
            strings(r@) == all.take(i as int).filter(keep),
        decreases names.len() - i,
    {
        let ghost so_far = strings(r@);
        proof {
            crate::env::filter_step(all, keep, i as int);
            assert(all[i as int] == names@[i as int]@);
        }
        if contains_name(others, &names[i]) {
            let name = names[i].clone();
            r.push(name);
            assert(strings(r@) =~= so_far.push(name@));
        }
        i = i + 1;
    }
    assert(all.take(names.len() as int) =~= all);
    r
}

/// A binding whose function carries the requirements recorded for it.
pub open spec fn with_requirements(table: SBindings, b: SBinding) -> SBinding {
    match b.initializer.kind {
        SKind::Function(f) => SBinding {
            initializer: SChecked {
                ty: b.ty,
                kind: SKind::Function(
                    SCheckedFn {
                        equality_params: shared_names(table.equality_of(b.id), f.type_params),
                        ..f
                    },
                ),
            },
            ..b
        },
        _ => b,
    }
}

pub open spec fn all_with_requirements(table: SBindings, items: Seq<SBinding>) -> Seq<SBinding> {
    Seq::new(items.len(), |i: int| with_requirements(table, items[i]))
}

/// The outcome for a block's bindings: the table with the settled requirements, and the bindings
/// whose functions carry them.
#[verifier::opaque]
pub open spec fn finalized(env: SEnv, table: SBindings, items: Seq<SBinding>) -> (
    SBindings,
    Result<Seq<SBinding>, SError>,
) {
    let (after, r) = settled_requirements(env, table, items, u64::MAX as nat);
    match r {
        Err(e) => (after, Err(e)),
        Ok(_) => (after, Ok(all_with_requirements(after, items))),
    }
}

fn clone_params(items: &Vec<CheckedParam>) -> (r: Vec<CheckedParam>)
    ensures
        params_view(r@) == params_view(items@),
{
    let mut r: Vec<CheckedParam> = Vec::new();
    let mut i: usize = 0;
    while i < items.len()
        invariant
            i <= items.len(),
            r.len() == i,
            forall|j: int| 0 <= j < i ==> (#[trigger] r@[j])@ == items@[j]@,
        decreases items.len() - i,
    {
        r.push(items[i].clone());
        i = i + 1;
    }
    assert(params_view(r@) =~= params_view(items@));
    r
}

pub fn finalize_block_equality_requirements(
    env: &Env,
    table: &mut Bindings,
    items: Vec<CheckedBinding>,
) -> (r: Result<Vec<CheckedBinding>, MagError>)
    ensures
        ({
            let (t, x) = finalized(env@, old(table)@, bindings_view(items@));
            final(table)@ == t && match r {
                Ok(b) => x == Ok::<Seq<SBinding>, SError>(bindings_view(b@)),
                Err(e) => x == Err::<Seq<SBinding>, SError>(e@),
            }
        }),
{
    proof {
        reveal(finalized);
    }
    settle_requirements(env, table, &items)?;
    let ghost all = bindings_view(items@);
    let mut r: Vec<CheckedBinding> = Vec::new();
    let mut i: usize = 0;
    assert(bindings_view(r@) =~= Seq::empty());
    while i < items.len()
        invariant
            i <= items.len(),
            all == bindings_view(items@),
            all.len() == items@.len(),
            bindings_view(r@) =~= all_with_requirements(table@, all).take(i as int),
        decreases items.len() - i,
    {
        let ghost so_far = bindings_view(r@);
        let b = &items[i];
        proof {
            assert(all[i as int].initializer == (*b.initializer)@);
            assert((*b.initializer)@.kind == b.initializer.kind.model());
        }
        let initializer = match &b.initializer.kind {
            CheckedExprKind::Function(f) => {
                let known = table.equality_requirements(b.id);
                let updated = CheckedFn {
                    name: match &f.name {
                        Some(n) => Some(n.clone()),
                        None => None,
                    },
                    type_params: clone_names(&f.type_params),
                    equality_params: keep_shared(&known, &f.type_params),
                    params: clone_params(&f.params),
                    result: f.result.clone(),
                    body: share(&f.body),
                };
                let ghost model = updated@;
                let kind = CheckedExprKind::Function(Arc::new(updated));
                assert(kind.model() == SKind::Function(model));
                let made = CheckedExpr { ty: b.ty.clone(), kind };
                assert(made@ == (SChecked { ty: b.ty@, kind: SKind::Function(model) }));
                Arc::new(made)
            },
            _ => share(&b.initializer),
        };
        let binding = CheckedBinding {
            id: b.id,
            name: b.name.clone(),
            ty: b.ty.clone(),
            initializer,
        };
        let ghost model = SBinding {
            id: binding.id,
            name: binding.name@,
            ty: binding.ty@,
            initializer: (*binding.initializer)@,
        };
        proof {
            assert(model == with_requirements(table@, all[i as int]));
        }
        r.push(binding);
        assert(bindings_view(r@) =~= so_far.push(model));
        i = i + 1;
    }
    assert(bindings_view(r@) =~= all_with_requirements(table@, all));
    Ok(r)
}

} // verus!
