//! Compilation of authored blocks: every name of the result is the identity of a binding, and every
//! expression carries its type, so that evaluation repeats neither name nor overload resolution.

use std::sync::Arc;
use vstd::prelude::*;

use crate::ast::{
    arms_view, bindings_view, checked_fields_view, checked_view, option_text, params_view,
    BindingId, CheckedBinding, CheckedBlock, CheckedExpr, CheckedExprKind, CheckedFn,
    CheckedMatchArm, CheckedParam, ConstructorDeclarationId, SArm, SBinding, SBlock, SChecked,
    SCheckedFn, SConstructor, SConstructorId, SKind, SParam,
};
use crate::authored::{
    authoring_failure, expr_fields_view, exprs_view, items_view, match_arms_view, parameters_view,
    BlockItem, Expr, Function, MatchArm, Parameter, SAuthoredType, SExpr, SFunction, SItem,
    SMatchArm, Type,
};
use crate::bindings::{Bindings, SBindings};
use crate::builtins::{list, map_of, opt_ref, sfun, slist, smap, stag, tag, types1, types2, types3};
use crate::candidates::{
    all_candidates, all_visible, as_vars, builtin_id, builtin_of, candidates_view, declared,
    insert_checked_candidate, instance, instance_requirements, instance_vars,
    instantiate_candidate, instantiated_equality_requirements, name_vars, scope_candidates,
    scope_locals, scope_vars, scope_view, scopes_view, type_binder_key, visible, visible_candidates,
    visible_type_variables, visible_types, CheckedCandidate, CheckedScope, SCandidate, SScope,
};
use crate::compatible::{
    compatible_static, compatible_with_bindable, field_named, fit_binding, fit_static, SSubst,
};
use crate::env::{filter_step, keyed, Env, SEnv};
use crate::error::{error_text, MagError, SError};
use crate::infer::{
    argument_types, arm_message, branch_message, builtin_rule, infer, infer_builtin,
    infer_fn_signature, inferred, key_text, literal_key, locals_view, parameter_types,
    resolve_parameters, show_key, signature, written_key, STyped,
};
use crate::requirements::{finalize_block_equality_requirements, finalized};
use crate::resolve::{expansion_limit, type_error};
use crate::specialize::{check_equality_specialization, specialized, SOutcome};
use crate::substitution::{
    apply, apply_all, has_type_variables, internal_type_variables, internal_vars, occurs,
    substitute, substitute_all, NameSet, Substitution,
};
use crate::text::{
    cat2, cat3, cat4, cat5, cat6, clone_names, contains_name, join, joined, same, strings,
};
use crate::type_rules::{
    adt_constructors, constructor_ids, constructor_of, constructors_of, denoted,
    ensure_adt_exhaustive, exhaustive, field_of, field_type, has_constructor,
    instantiated_constructor, opt_mag, opt_str, put_field, require_equality_admissible,
    required_all, required_equality, resolve_type, type_result, unit_result,
    validate_equality_requirements, with_field,
};
use crate::types::{
    clone_types, fields_view, show_types, type_text, type_texts, types_view, MagType, SType,
};
use crate::value_types::opt_type;

verus! {

broadcast use vstd::seq_lib::group_seq_properties;

/// The table after something has been compiled, and what came of it.
pub type SMade = (SBindings, Result<SChecked, SError>);

/// The parts of an expression: what comes of compiling the one at a position where a type may be
/// expected.
pub type Maker = spec_fn(SBindings, int, Option<SType>) -> SMade;

/// The same for parts that have scopes of their own.
pub type ScopedMaker = spec_fn(SBindings, int, Seq<SScope>, Option<SType>) -> SMade;

/// The same for the items of a block, where one may be bound under an identity.
pub type ItemMaker = spec_fn(
    SBindings,
    int,
    Seq<SScope>,
    Option<SType>,
    Option<BindingId>,
) -> SMade;

/// The body of a function whose result type is given.
pub type BodyMaker = spec_fn(SBindings, Seq<SScope>, SType) -> (
    SBindings,
    Result<SBlock, SError>,
);

pub open spec fn made_result(r: Result<CheckedExpr, MagError>) -> Result<SChecked, SError> {
    match r {
        Ok(e) => Ok(e@),
        Err(e) => Err(e@),
    }
}

pub open spec fn made_all_result(r: Result<Vec<CheckedExpr>, MagError>) -> Result<
    Seq<SChecked>,
    SError,
> {
    match r {
        Ok(v) => Ok(checked_view(v@)),
        Err(e) => Err(e@),
    }
}

pub open spec fn block_result(r: Result<CheckedBlock, MagError>) -> Result<SBlock, SError> {
    match r {
        Ok(b) => Ok(b@),
        Err(e) => Err(e@),
    }
}

/// The types of checked expressions.
pub open spec fn types_made(items: Seq<SChecked>) -> Seq<SType> {
    Seq::new(items.len(), |i: int| items[i].ty)
}

fn made_types(items: &Vec<CheckedExpr>) -> (r: Vec<MagType>)
    ensures
        types_view(r@) == types_made(checked_view(items@)),
{
    let mut r: Vec<MagType> = Vec::new();
    let mut i: usize = 0;
    assert(checked_view(items@).len() == items@.len());
    while i < items.len()
        invariant
            i <= items.len(),
            r.len() == i,
            forall|j: int| 0 <= j < i ==> (#[trigger] r@[j])@ == items@[j].ty@,
        decreases items.len() - i,
    {
        r.push(items[i].ty.clone());
        i = i + 1;
    }
    assert forall|j: int| 0 <= j < items@.len() implies types_view(r@)[j] == types_made(
        checked_view(items@),
    )[j] by {
        assert(r@[j]@ == items@[j].ty@);
        assert(checked_view(items@)[j] == items@[j]@);
    }
    assert(types_view(r@) =~= types_made(checked_view(items@)));
    r
}

/// A call of the binding `id` at a type.
pub open spec fn call_of(
    id: BindingId,
    params: Seq<SType>,
    output: SType,
    args: Seq<SChecked>,
) -> SChecked {
    SChecked {
        ty: output,
        kind: SKind::Call(
            Box::new(SChecked { ty: sfun(params, output), kind: SKind::BindingRef(id) }),
            args,
        ),
    }
}

fn make(ty: MagType, kind: CheckedExprKind) -> (r: CheckedExpr)
    ensures
        r@ == (SChecked { ty: ty@, kind: kind.model() }),
{
    CheckedExpr { ty, kind }
}

fn make_call(id: BindingId, params: Vec<MagType>, output: MagType, args: Vec<CheckedExpr>) -> (r:
    CheckedExpr)
    ensures
        r@ == call_of(id, types_view(params@), output@, checked_view(args@)),
{
    let ty = MagType::Function(params, Box::new(output.clone()));
    assert(ty@ == sfun(types_view(params@), output@));
    let callee = make(ty, CheckedExprKind::BindingRef(id));
    let kind = CheckedExprKind::Call { callee: Box::new(callee), args };
    assert(kind.model() == SKind::Call(Box::new(callee@), checked_view(args@)));
    make(output, kind)
}

fn exprs1(a: CheckedExpr) -> (r: Vec<CheckedExpr>)
    ensures
        checked_view(r@) == seq![a@],
{
    let r = vec![a];
    assert(checked_view(r@) =~= seq![a@]);
    r
}

fn exprs2(a: CheckedExpr, b: CheckedExpr) -> (r: Vec<CheckedExpr>)
    ensures
        checked_view(r@) == seq![a@, b@],
{
    let r = vec![a, b];
    assert(checked_view(r@) =~= seq![a@, b@]);
    r
}

fn exprs3(a: CheckedExpr, b: CheckedExpr, c: CheckedExpr) -> (r: Vec<CheckedExpr>)
    ensures
        checked_view(r@) == seq![a@, b@, c@],
{
    let r = vec![a, b, c];
    assert(checked_view(r@) =~= seq![a@, b@, c@]);
    r
}

fn push_made(items: &mut Vec<CheckedExpr>, item: CheckedExpr)
    ensures
        checked_view(final(items)@) == checked_view(old(items)@).push(item@),
        final(items)@.len() == old(items)@.len() + 1,
{
    let ghost before = checked_view(items@);
    items.push(item);
    assert(checked_view(items@) =~= before.push(item@));
}

fn clone_candidates(items: &Vec<CheckedCandidate>) -> (r: Vec<CheckedCandidate>)
    ensures
        candidates_view(r@) == candidates_view(items@),
{
    let mut r: Vec<CheckedCandidate> = Vec::new();
    let mut i: usize = 0;
    while i < items.len()
        invariant
            i <= items.len(),
            r.len() == i,
            forall|j: int| 0 <= j < i ==> (#[trigger] r@[j])@ == items@[j]@,
        decreases items.len() - i,
    {
        r.push(items[i].clone());
        i = i + 1;
    }
    assert(candidates_view(r@) =~= candidates_view(items@));
    r
}

fn clone_scope(scope: &CheckedScope) -> (r: CheckedScope)
    ensures
        scope_view(r@) == scope_view(scope@),
{
    let ghost all = scope_view(scope@);
    let mut r: CheckedScope = Vec::new();
    let mut i: usize = 0;
    while i < scope.len()
        invariant
            i <= scope.len(),
            r.len() == i,
            all == scope_view(scope@),
            scope_view(r@) =~= all.take(i as int),
        decreases scope.len() - i,
    {
        let ghost so_far = scope_view(r@);
        let name = scope[i].0.clone();
        let items = clone_candidates(&scope[i].1);
        let ghost entry = (name@, candidates_view(items@));
        r.push((name, items));
        assert(scope_view(r@) =~= so_far.push(entry));
        i = i + 1;
    }
    assert(scope_view(r@) =~= all);
    r
}

/// The scopes with one more inside them.
fn extend_scopes(scopes: &Vec<CheckedScope>, inner: CheckedScope) -> (r: Vec<CheckedScope>)
    ensures
        scopes_view(r@) == scopes_view(scopes@).push(scope_view(inner@)),
{
    let ghost all = scopes_view(scopes@);
    let mut r: Vec<CheckedScope> = Vec::new();
    let mut i: usize = 0;
    while i < scopes.len()
        invariant
            i <= scopes.len(),
            r.len() == i,
            all == scopes_view(scopes@),
            scopes_view(r@) =~= all.take(i as int),
        decreases scopes.len() - i,
    {
        let ghost so_far = scopes_view(r@);
        let scope = clone_scope(&scopes[i]);
        let ghost entry = scope_view(scope@);
        r.push(scope);
        assert(scopes_view(r@) =~= so_far.push(entry));
        i = i + 1;
    }
    let ghost so_far = scopes_view(r@);
    let ghost entry = scope_view(inner@);
    r.push(inner);
    assert(scopes_view(r@) =~= so_far.push(entry));
    r
}

/// A candidate that a name may stand for, at the type that it has there.
pub struct Match {
    pub id: BindingId,
    pub generic: bool,
    pub ty: MagType,
}

/// The model of a [`Match`].
#[verifier::ext_equal]
pub struct SMatch {
    pub id: BindingId,
    pub generic: bool,
    pub ty: SType,
}

impl View for Match {
    type V = SMatch;

    open spec fn view(&self) -> SMatch {
        SMatch { id: self.id, generic: self.generic, ty: self.ty@ }
    }
}

pub open spec fn matches_view(items: Seq<Match>) -> Seq<SMatch> {
    Seq::new(items.len(), |i: int| items[i]@)
}

/// The type that a candidate has where a type may be expected of it, where it can have it.
#[verifier::opaque]
pub open spec fn usable_type(env: SEnv, c: SCandidate, expected: Option<SType>) -> Option<SType> {
    let t = instance(c);
    match expected {
        None => Some(t),
        Some(target) => {
            let bindable = instance_vars(c).union(internal_vars(target));
            if c.generic_binders.len() > 0 {
                let (s, r) = fit_binding(env, target, t, Map::empty(), bindable);
                match r {
                    Ok(_) => Some(apply(t, s)),
                    Err(_) => None,
                }
            } else {
                match fit_binding(env, t, target, Map::empty(), bindable).1 {
                    Ok(_) => Some(t),
                    Err(_) => None,
                }
            }
        },
    }
}

fn find_usable_type(env: &Env, c: &CheckedCandidate, expected: Option<&MagType>) -> (r: Option<
    MagType,
>)
    ensures
        opt_type(r) == usable_type(env@, c@, opt_ref(expected)),
{
    proof {
        reveal(usable_type);
    }
    let (ty, mut bindable) = instantiate_candidate(c);
    match expected {
        None => Some(ty),
        Some(target) => {
            let internal = internal_type_variables(target);
            bindable.extend(&internal);
            let mut subst = Substitution::new();
            if c.generic_binders.len() > 0 {
                match compatible_with_bindable(env, target, &ty, &mut subst, &bindable) {
                    Ok(_) => Some(substitute(&ty, &subst)),
                    Err(_) => None,
                }
            } else {
                match compatible_with_bindable(env, &ty, target, &mut subst, &bindable) {
                    Ok(_) => Some(ty),
                    Err(_) => None,
                }
            }
        },
    }
}

pub open spec fn usable(env: SEnv, items: Seq<SCandidate>, expected: Option<SType>) -> Seq<SMatch>
    decreases items.len(),
{
    if items.len() == 0 {
        Seq::empty()
    } else {
        let rest = usable(env, items.drop_last(), expected);
        match usable_type(env, items.last(), expected) {
            Some(ty) => rest.push(
                SMatch {
                    id: items.last().id,
                    generic: items.last().generic_binders.len() > 0,
                    ty,
                },
            ),
            None => rest,
        }
    }
}

/// The one that is not generic, where there is exactly one such among several.
pub open spec fn prefer_plain(items: Seq<SMatch>) -> Seq<SMatch> {
    let plain = items.filter(|m: SMatch| !m.generic);
    if items.len() > 1 && plain.len() == 1 {
        plain
    } else {
        items
    }
}

/// The one that is no function, where there is exactly one such among several and nothing says
/// what is expected.
pub open spec fn prefer_data(items: Seq<SMatch>, expected: Option<SType>) -> Seq<SMatch> {
    let data = items.filter(|m: SMatch| !(m.ty is Function));
    if expected is None && items.len() > 1 && data.len() == 1 {
        data
    } else {
        items
    }
}

pub open spec fn match_types(items: Seq<SMatch>) -> Seq<SType> {
    Seq::new(items.len(), |i: int| items[i].ty)
}

pub open spec fn expected_text(expected: Option<SType>) -> Seq<char> {
    match expected {
        Some(t) => type_text(t),
        None => "context"@,
    }
}

/// What a name stands for: the one binding of that name that can have the type expected.
#[verifier::opaque]
pub open spec fn symbol_made(
    env: SEnv,
    table: SBindings,
    scopes: Seq<SScope>,
    name: Seq<char>,
    expected: Option<SType>,
) -> Result<SChecked, SError> {
    let candidates = all_visible(env, table, scopes, name);
    let found = prefer_data(prefer_plain(usable(env, candidates, expected)), expected);
    if found.len() == 1 {
        Ok(SChecked { ty: found[0].ty, kind: SKind::BindingRef(found[0].id) })
    } else if found.len() == 0 && candidates.len() == 0 {
        Err(SError::Unresolved(name))
    } else if found.len() == 0 {
        type_error("no overload "@ + name + " matches "@ + expected_text(expected))
    } else {
        type_error(
            "ambiguous overload "@ + name + "; candidates: "@ + joined(
                type_texts(match_types(found)),
                ", "@,
            ),
        )
    }
}

fn collect_usable(env: &Env, items: &Vec<CheckedCandidate>, expected: Option<&MagType>) -> (r: Vec<
    Match,
>)
    ensures
        matches_view(r@) == usable(env@, candidates_view(items@), opt_ref(expected)),
{
    let ghost all = candidates_view(items@);
    let mut r: Vec<Match> = Vec::new();
    let mut i: usize = 0;
    assert(all.take(0) =~= Seq::empty());
    assert(matches_view(r@) =~= Seq::empty());
    while i < items.len()
        invariant
            i <= items.len(),
            all == candidates_view(items@),
            matches_view(r@) == usable(env@, all.take(i as int), opt_ref(expected)),
        decreases items.len() - i,
    {
        let ghost so_far = matches_view(r@);
        proof {
            assert(all.take(i + 1).drop_last() =~= all.take(i as int));
            assert(all.take(i + 1).last() == items@[i as int]@);
        }
        match find_usable_type(env, &items[i], expected) {
            Some(ty) => {
                let m = Match { id: items[i].id, generic: items[i].generic_binders.len() > 0, ty };
                r.push(m);
                assert(matches_view(r@) =~= so_far.push(m@));
            },
            None => {},
        }
        i = i + 1;
    }
    assert(all.take(items.len() as int) =~= all);
    r
}

fn clone_match(m: &Match) -> (r: Match)
    ensures
        r@ == m@,
{
    Match { id: m.id, generic: m.generic, ty: m.ty.clone() }
}

fn keep_plain(items: Vec<Match>) -> (r: Vec<Match>)
    ensures
        matches_view(r@) == prefer_plain(matches_view(items@)),
{
    let ghost all = matches_view(items@);
    let ghost keep = |m: SMatch| !m.generic;
    let mut r: Vec<Match> = Vec::new();
    let mut i: usize = 0;
    assert(all.take(0).filter(keep) =~= Seq::empty());
    assert(matches_view(r@) =~= Seq::empty());
    while i < items.len()
        invariant
            i <= items.len(),
            all == matches_view(items@),
            keep == (|m: SMatch| !m.generic),
            matches_view(r@) == all.take(i as int).filter(keep),
        decreases items.len() - i,
    {
        let ghost so_far = matches_view(r@);
        proof {
            filter_step(all, keep, i as int);
        }
        if !items[i].generic {
            let m = clone_match(&items[i]);
            r.push(m);
            assert(matches_view(r@) =~= so_far.push(m@));
        }
        i = i + 1;
    }
    assert(all.take(items.len() as int) =~= all);
    if items.len() > 1 && r.len() == 1 {
        r
    } else {
        items
    }
}

fn is_function(ty: &MagType) -> (r: bool)
    ensures
        r == (ty@ is Function),
{
    match ty {
        MagType::Function(_, _) => true,
        _ => false,
    }
}

fn keep_data(items: Vec<Match>, expected: Option<&MagType>) -> (r: Vec<Match>)
    ensures
        matches_view(r@) == prefer_data(matches_view(items@), opt_ref(expected)),
{
    let ghost all = matches_view(items@);
    let ghost keep = |m: SMatch| !(m.ty is Function);
    let mut r: Vec<Match> = Vec::new();
    let mut i: usize = 0;
    assert(all.take(0).filter(keep) =~= Seq::empty());
    assert(matches_view(r@) =~= Seq::empty());
    while i < items.len()
        invariant
            i <= items.len(),
            all == matches_view(items@),
            keep == (|m: SMatch| !(m.ty is Function)),
            matches_view(r@) == all.take(i as int).filter(keep),
        decreases items.len() - i,
    {
        let ghost so_far = matches_view(r@);
        proof {
            filter_step(all, keep, i as int);
        }
        if !is_function(&items[i].ty) {
            let m = clone_match(&items[i]);
            r.push(m);
            assert(matches_view(r@) =~= so_far.push(m@));
        }
        i = i + 1;
    }
    assert(all.take(items.len() as int) =~= all);
    if expected.is_none() && items.len() > 1 && r.len() == 1 {
        r
    } else {
        items
    }
}

fn take_types(items: &Vec<Match>) -> (r: Vec<MagType>)
    ensures
        types_view(r@) == match_types(matches_view(items@)),
{
    let mut r: Vec<MagType> = Vec::new();
    let mut i: usize = 0;
    while i < items.len()
        invariant
            i <= items.len(),
            r.len() == i,
            forall|j: int| 0 <= j < i ==> (#[trigger] r@[j])@ == items@[j].ty@,
        decreases items.len() - i,
    {
        r.push(items[i].ty.clone());
        i = i + 1;
    }
    assert forall|j: int| 0 <= j < items@.len() implies types_view(r@)[j] == match_types(
        matches_view(items@),
    )[j] by {
        assert(r@[j]@ == items@[j].ty@);
    }
    assert(types_view(r@) =~= match_types(matches_view(items@)));
    r
}

fn compile_symbol(
    env: &Env,
    table: &Bindings,
    scopes: &Vec<CheckedScope>,
    name: &str,
    expected: Option<&MagType>,
) -> (r: Result<CheckedExpr, MagError>)
    ensures
        made_result(r) == symbol_made(
            env@,
            table@,
            scopes_view(scopes@),
            name@,
            opt_ref(expected),
        ),
{
    proof {
        reveal(symbol_made);
    }
    let candidates = all_candidates(env, table, scopes, name);
    let found = keep_data(keep_plain(collect_usable(env, &candidates, expected)), expected);
    assert(candidates@.len() == candidates_view(candidates@).len());
    assert(found@.len() == matches_view(found@).len());
    if found.len() == 1 {
        assert(matches_view(found@)[0] == found@[0]@);
        Ok(make(found[0].ty.clone(), CheckedExprKind::BindingRef(found[0].id)))
    } else if found.len() == 0 && candidates.len() == 0 {
        Err(MagError::Unresolved(name.to_owned()))
    } else if found.len() == 0 {
        let context = match expected {
            Some(t) => t.show(),
            None => "context".to_owned(),
        };
        Err(MagError::Type(cat4("no overload ", name, " matches ", &context)))
    } else {
        let types = take_types(&found);
        Err(
            MagError::Type(
                cat4(
                    "ambiguous overload ",
                    name,
                    "; candidates: ",
                    &join(&show_types(&types), ", "),
                ),
            ),
        )
    }
}

/// What stands for the variables of a call's result where a type is expected of it.
#[verifier::opaque]
pub open spec fn constrained(
    env: SEnv,
    output: SType,
    expected: SType,
    subst: SSubst,
    bindable: Set<Seq<char>>,
) -> (SSubst, Result<(), SError>) {
    let (s, r) = if exists|n: Seq<char>| occurs(output, n) {
        fit_binding(env, expected, output, subst, bindable)
    } else {
        fit_binding(env, output, expected, subst, bindable)
    };
    (
        s,
        match r {
            Ok(_) => Ok(()),
            Err(m) => type_error(m),
        },
    )
}

fn constrain_result(
    env: &Env,
    output: &MagType,
    expected: &MagType,
    subst: &mut Substitution,
    bindable: &NameSet,
) -> (r: Result<(), MagError>)
    ensures
        (final(subst)@, unit_result(r)) == constrained(
            env@,
            output@,
            expected@,
            old(subst)@,
            bindable@,
        ),
{
    proof {
        reveal(constrained);
    }
    let fit = if has_type_variables(output) {
        compatible_with_bindable(env, expected, output, subst, bindable)
    } else {
        compatible_with_bindable(env, output, expected, subst, bindable)
    };
    match fit {
        Ok(_) => Ok(()),
        Err(m) => Err(MagError::Type(m)),
    }
}

/// What stands for the variables after a result was held against the type expected, if any is.
pub open spec fn constrained_by(
    env: SEnv,
    output: SType,
    expected: Option<SType>,
    subst: SSubst,
    bindable: Set<Seq<char>>,
) -> (SSubst, Result<(), SError>) {
    match expected {
        Some(t) => constrained(env, output, t, subst, bindable),
        None => (subst, Ok(())),
    }
}

fn constrain_by(
    env: &Env,
    output: &MagType,
    expected: Option<&MagType>,
    subst: &mut Substitution,
    bindable: &NameSet,
) -> (r: Result<(), MagError>)
    ensures
        (final(subst)@, unit_result(r)) == constrained_by(
            env@,
            output@,
            opt_ref(expected),
            old(subst)@,
            bindable@,
        ),
{
    match expected {
        Some(t) => constrain_result(env, output, t, subst, bindable),
        None => Ok(()),
    }
}

/// Whether a type fits the one expected, if any is.
#[verifier::opaque]
pub open spec fn expected_fit(env: SEnv, ty: SType, expected: Option<SType>) -> Result<
    (),
    SError,
> {
    match expected {
        Some(t) => match fit_static(env, ty, t, Map::empty()).1 {
            Ok(_) => Ok(()),
            Err(m) => type_error(m),
        },
        None => Ok(()),
    }
}

fn fit_expected(env: &Env, ty: &MagType, expected: Option<&MagType>) -> (r: Result<(), MagError>)
    ensures
        unit_result(r) == expected_fit(env@, ty@, opt_ref(expected)),
{
    proof {
        reveal(expected_fit);
    }
    match expected {
        Some(t) => {
            let mut none = Substitution::new();
            match compatible_static(env, ty, t, &mut none) {
                Ok(_) => Ok(()),
                Err(m) => Err(MagError::Type(m)),
            }
        },
        None => Ok(()),
    }
}

/// Whether one type fits another with nothing bound before.
pub open spec fn static_fit(env: SEnv, actual: SType, expected: SType) -> Result<(), Seq<char>> {
    fit_static(env, actual, expected, Map::empty()).1
}

fn fits_static(env: &Env, actual: &MagType, expected: &MagType) -> (r: Result<(), String>)
    ensures
        crate::compatible::fit_result(r) == static_fit(env@, actual@, expected@),
{
    let mut none = Substitution::new();
    compatible_static(env, actual, expected, &mut none)
}

/// What becomes of an expression once its form has been compiled: it must have the type expected,
/// and its parts their obligations met.
#[verifier::opaque]
pub open spec fn finished(
    env: SEnv,
    table: SBindings,
    r: Result<SChecked, SError>,
    expected: Option<SType>,
) -> SMade {
    match r {
        Err(e) => (table, Err(e)),
        Ok(value) => match expected_fit(env, value.ty, expected) {
            Err(e) => (table, Err(e)),
            Ok(_) => {
                let target = match expected {
                    Some(t) => t,
                    None => value.ty,
                };
                let (after, met) = specialized(env, table, value, target, Map::empty());
                match met {
                    Err(e) => (after, Err(e)),
                    Ok(_) => (after, Ok(value)),
                }
            },
        },
    }
}

fn finish(
    env: &Env,
    table: &mut Bindings,
    made: Result<CheckedExpr, MagError>,
    expected: Option<&MagType>,
) -> (r: Result<CheckedExpr, MagError>)
    ensures
        (final(table)@, made_result(r)) == finished(
            env@,
            old(table)@,
            made_result(made),
            opt_ref(expected),
        ),
{
    proof {
        reveal(finished);
    }
    match made {
        Err(e) => Err(e),
        Ok(value) => {
            match fit_expected(env, &value.ty, expected) {
                Err(e) => {
                    return Err(e);
                },
                Ok(_) => {},
            }
            let none = Substitution::new();
            let met = match expected {
                Some(t) => check_equality_specialization(env, table, &value, t, &none),
                None => check_equality_specialization(env, table, &value, &value.ty, &none),
            };
            match met {
                Err(e) => Err(e),
                Ok(_) => Ok(value),
            }
        },
    }
}

/// The parts of a call or a list.
pub open spec fn arguments(env: SEnv, scopes: Seq<SScope>, args: Seq<SExpr>) -> Maker
    decreases args, 0nat,
{
    |table: SBindings, i: int, expected: Option<SType>|
        if 0 <= i < args.len() {
            compiled(env, table, scopes, args[i], expected)
        } else {
            arbitrary()
        }
}

/// The positions of the vector that the first argument of a call is.
pub open spec fn first_positions(env: SEnv, scopes: Seq<SScope>, args: Seq<SExpr>) -> Maker
    decreases args, 0nat,
{
    if args.len() > 0 {
        match args[0] {
            SExpr::Vector(items) => arguments(env, scopes, items),
            _ => arbitrary(),
        }
    } else {
        arbitrary()
    }
}

/// The values of a record's fields.
pub open spec fn field_values(
    env: SEnv,
    scopes: Seq<SScope>,
    fields: Seq<(Seq<char>, SExpr)>,
) -> Maker
    decreases fields, 0nat,
{
    |table: SBindings, i: int, expected: Option<SType>|
        if 0 <= i < fields.len() {
            compiled(env, table, scopes, fields[i].1, expected)
        } else {
            arbitrary()
        }
}

/// The bodies of a match's arms.
pub open spec fn arm_bodies(env: SEnv, arms: Seq<SMatchArm>) -> ScopedMaker
    decreases arms, 0nat,
{
    |table: SBindings, i: int, scopes: Seq<SScope>, expected: Option<SType>|
        if 0 <= i < arms.len() {
            compiled(env, table, scopes, *arms[i].body, expected)
        } else {
            arbitrary()
        }
}

/// The items of a block: a function that is bound carries the name and the identity.
pub open spec fn item_values(env: SEnv, items: Seq<SItem>) -> ItemMaker
    decreases items, 0nat,
{
    |
        table: SBindings,
        i: int,
        scopes: Seq<SScope>,
        expected: Option<SType>,
        id: Option<BindingId>,
    |
        if 0 <= i < items.len() {
            match items[i] {
                SItem::Let(name, SExpr::Function(f)) => function_made(
                    env,
                    table,
                    scopes,
                    Some(name),
                    f,
                    expected,
                    id,
                ),
                SItem::Let(_, e) => compiled(env, table, scopes, e, expected),
                SItem::Expr(e) => compiled(env, table, scopes, e, expected),
                SItem::Invalid(_) => arbitrary(),
            }
        } else {
            arbitrary()
        }
}

pub open spec fn body_value(env: SEnv, items: Seq<SItem>) -> BodyMaker
    decreases items, 2nat,
{
    |table: SBindings, scopes: Seq<SScope>, result: SType|
        block_made(env, table, scopes, items, Some(result))
}

/// What a block compiles to among the scopes around it, where a type may be expected of its last
/// expression.
pub open spec fn block_made(
    env: SEnv,
    table: SBindings,
    outer: Seq<SScope>,
    items: Seq<SItem>,
    expected: Option<SType>,
) -> (SBindings, Result<SBlock, SError>)
    decreases items, 1nat,
{
    block_rule(env, table, outer, items, expected, item_values(env, items))
}

pub open spec fn function_made(
    env: SEnv,
    table: SBindings,
    scopes: Seq<SScope>,
    name: Option<Seq<char>>,
    f: SFunction,
    expected: Option<SType>,
    id: Option<BindingId>,
) -> SMade
    decreases f, 1nat,
{
    function_rule(env, table, scopes, name, f, expected, id, body_value(env, f.body))
}

/// What an expression compiles to among the scopes around it, where a type may be expected of it.
pub open spec fn compiled(
    env: SEnv,
    table: SBindings,
    scopes: Seq<SScope>,
    e: SExpr,
    expected: Option<SType>,
) -> SMade
    decreases e, 3nat,
{
    let (after, r) = form_made(env, table, scopes, e, expected);
    finished(env, after, r, expected)
}

pub open spec fn plain(ty: SType, kind: SKind) -> Result<SChecked, SError> {
    Ok(SChecked { ty, kind })
}

pub open spec fn form_made(
    env: SEnv,
    table: SBindings,
    scopes: Seq<SScope>,
    e: SExpr,
    expected: Option<SType>,
) -> SMade
    decreases e, 2nat,
{
    match e {
        SExpr::Unit => (table, plain(SType::Unit, SKind::Unit)),
        SExpr::Bool(b) => (table, plain(SType::Bool, SKind::Bool(b))),
        SExpr::Int(n) => (table, plain(SType::Int, SKind::Int(n))),
        SExpr::Float(f) => (table, plain(SType::Float, SKind::Float(f))),
        SExpr::Str(s) => (table, plain(SType::String, SKind::Str(s))),
        SExpr::Keyword(s) => (table, plain(SType::String, SKind::Keyword(s))),
        SExpr::Name(name) => (table, symbol_made(env, table, scopes, name, expected)),
        SExpr::Vector(items) => vector_rule(
            env,
            table,
            items.len(),
            expected,
            arguments(env, scopes, items),
        ),
        SExpr::Fields(fields) => record_rule(
            table,
            fields,
            expected,
            field_values(env, scopes, fields),
            Seq::empty(),
            Seq::empty(),
        ),
        SExpr::If(_, _, _) => if_made(env, table, scopes, e, expected),
        SExpr::Construct(_, _, _) => construct_made(env, table, scopes, e),
        SExpr::Match(_, _) => match_made(env, table, scopes, e, expected),
        SExpr::Ascribe(_, _) => ascribe_made(env, table, scopes, e),
        SExpr::TypeTag(target) => (table, tag_made(env, scopes, target)),
        SExpr::Function(f) => function_made(env, table, scopes, None, f, expected, None),
        SExpr::Call(_, _) => call_made(env, table, scopes, e, expected),
        SExpr::Invalid(error) => (table, Err(authoring_failure(error))),
    }
}

#[verifier::opaque]
pub open spec fn tag_made(env: SEnv, scopes: Seq<SScope>, target: SAuthoredType) -> Result<
    SChecked,
    SError,
> {
    match denoted(env, target, scope_vars(scopes)) {
        Err(e) => Err(e),
        Ok(t) => plain(stag(t), SKind::TypeTag(t)),
    }
}

pub open spec fn if_made(
    env: SEnv,
    table: SBindings,
    scopes: Seq<SScope>,
    e: SExpr,
    expected: Option<SType>,
) -> SMade
    decreases e, 1nat,
{
    match e {
        SExpr::If(condition, then_branch, else_branch) => {
            let (s1, c) = compiled(env, table, scopes, *condition, Some(SType::Bool));
            match c {
                Err(e) => (s1, Err(e)),
                Ok(c) => {
                    let (s2, a) = compiled(env, s1, scopes, *then_branch, expected);
                    match a {
                        Err(e) => (s2, Err(e)),
                        Ok(a) => {
                            let (s3, b) = compiled(env, s2, scopes, *else_branch, expected);
                            match b {
                                Err(e) => (s3, Err(e)),
                                Ok(b) => (s3, joined_branches(env, c, a, b)),
                            }
                        },
                    }
                },
            }
        },
        _ => arbitrary(),
    }
}

/// A conditional of compiled parts: it has the type of its second branch, which the first must
/// fit.
#[verifier::opaque]
pub open spec fn joined_branches(env: SEnv, c: SChecked, a: SChecked, b: SChecked) -> Result<
    SChecked,
    SError,
> {
    match static_fit(env, a.ty, b.ty) {
        Err(_) => type_error(branch_message(a.ty, b.ty)),
        Ok(_) => plain(b.ty, SKind::If(Box::new(c), Box::new(a), Box::new(b))),
    }
}

pub open spec fn construct_made(env: SEnv, table: SBindings, scopes: Seq<SScope>, e: SExpr) -> SMade
    decreases e, 1nat,
{
    match e {
        SExpr::Construct(owner, constructor, payload) => match denoted(
            env,
            owner,
            scope_vars(scopes),
        ) {
            Err(e) => (table, Err(e)),
            Ok(owner) => match constructor_of(env, owner, constructor) {
                Err(e) => (table, Err(e)),
                Ok(c) => {
                    let (after, r) = compiled(env, table, scopes, *payload, Some(c.payload));
                    match r {
                        Err(e) => (after, Err(e)),
                        Ok(p) => (after, plain(owner, SKind::Construct(owner, c.id, Box::new(p)))),
                    }
                },
            },
        },
        _ => arbitrary(),
    }
}

pub open spec fn match_made(
    env: SEnv,
    table: SBindings,
    scopes: Seq<SScope>,
    e: SExpr,
    expected: Option<SType>,
) -> SMade
    decreases e, 1nat,
{
    match e {
        SExpr::Match(value, arms) => {
            let (s1, r) = compiled(env, table, scopes, *value, None);
            match r {
                Err(e) => (s1, Err(e)),
                Ok(value) => match_rule(
                    env,
                    s1,
                    scopes,
                    value,
                    arms,
                    expected,
                    arm_bodies(env, arms),
                ),
            }
        },
        _ => arbitrary(),
    }
}

/// Whether an ascription hands its target to a name: where the name is overloaded.
#[verifier::opaque]
pub open spec fn overloaded_name(
    env: SEnv,
    table: SBindings,
    scopes: Seq<SScope>,
    value: SExpr,
) -> bool {
    match value {
        SExpr::Name(name) => all_visible(env, table, scopes, name).len() > 1,
        _ => false,
    }
}

pub open spec fn ascription(target: SType, made: SMade) -> SMade {
    match made.1 {
        Err(e) => (made.0, Err(e)),
        Ok(value) => (made.0, plain(target, SKind::Ascribe(target, Box::new(value)))),
    }
}

pub open spec fn ascribe_made(env: SEnv, table: SBindings, scopes: Seq<SScope>, e: SExpr) -> SMade
    decreases e, 1nat,
{
    match e {
        SExpr::Ascribe(target, value) => match denoted(env, target, scope_vars(scopes)) {
            Err(e) => (table, Err(e)),
            Ok(target) => ascription(
                target,
                match *value {
                    SExpr::Vector(items) => if target is Product {
                        vector_rule(
                            env,
                            table,
                            items.len(),
                            Some(target),
                            arguments(env, scopes, items),
                        )
                    } else {
                        compiled(env, table, scopes, *value, None)
                    },
                    SExpr::Call(_, _) => call_made(env, table, scopes, *value, Some(target)),
                    _ => if overloaded_name(env, table, scopes, *value) {
                        compiled(env, table, scopes, *value, Some(target))
                    } else {
                        compiled(env, table, scopes, *value, None)
                    },
                },
            ),
        },
        _ => arbitrary(),
    }
}

pub open spec fn call_made(
    env: SEnv,
    table: SBindings,
    scopes: Seq<SScope>,
    e: SExpr,
    expected: Option<SType>,
) -> SMade
    decreases e, 1nat,
{
    match e {
        SExpr::Call(callee, args) => {
            let (s1, r) = match *callee {
                SExpr::Name(name) => named_call_rule(
                    env,
                    table,
                    scopes,
                    name,
                    args,
                    expected,
                    arguments(env, scopes, args),
                    first_positions(env, scopes, args),
                ),
                _ => (table, None),
            };
            match r {
                Some(made) => (s1, made),
                None => {
                    let (s2, r) = compiled(env, s1, scopes, *callee, None);
                    match r {
                        Err(e) => (s2, Err(e)),
                        Ok(callee) => value_call_rule(
                            env,
                            s2,
                            callee,
                            args.len(),
                            expected,
                            arguments(env, scopes, args),
                        ),
                    }
                },
            }
        },
        _ => arbitrary(),
    }
}

/// Some parts one after another, with nothing expected of any.
pub open spec fn all_made(of: Maker, table: SBindings, n: nat, done: Seq<SChecked>) -> (
    SBindings,
    Result<Seq<SChecked>, SError>,
)
    decreases n - done.len(),
{
    if done.len() >= n {
        (table, Ok(done))
    } else {
        let (after, r) = of(table, done.len() as int, None);
        match r {
            Err(e) => (after, Err(e)),
            Ok(x) => all_made(of, after, n, done.push(x)),
        }
    }
}

pub open spec fn list_message(current: SType, item: SType) -> Seq<char> {
    "list elements must have one compatible type, got "@ + type_text(current) + " and "@
        + type_text(item)
}

/// The items of a list one after another, of which an item type may be expected: what stands for
/// its variables after one item is put into the next.
pub open spec fn items_made(
    env: SEnv,
    of: Maker,
    table: SBindings,
    n: nat,
    wanted: Option<SType>,
    current: Option<SType>,
    subst: SSubst,
    done: Seq<SChecked>,
) -> (SBindings, Result<(Seq<SChecked>, Option<SType>), SError>)
    decreases n - done.len(),
{
    if done.len() >= n {
        (table, Ok((done, current)))
    } else {
        match wanted {
            Some(item) => {
                let target = apply(item, subst);
                let (after, r) = of(table, done.len() as int, Some(target));
                match r {
                    Err(e) => (after, Err(e)),
                    Ok(x) => {
                        let (s, fit) = fit_static(env, x.ty, target, subst);
                        match fit {
                            Err(m) => (after, type_error(m)),
                            Ok(_) => items_made(
                                env,
                                of,
                                after,
                                n,
                                wanted,
                                Some(apply(item, s)),
                                s,
                                done.push(x),
                            ),
                        }
                    },
                }
            },
            None => {
                let (after, r) = of(table, done.len() as int, None);
                match r {
                    Err(e) => (after, Err(e)),
                    Ok(x) => match current {
                        None => items_made(
                            env,
                            of,
                            after,
                            n,
                            wanted,
                            Some(x.ty),
                            subst,
                            done.push(x),
                        ),
                        Some(t) => match static_fit(env, x.ty, t) {
                            Err(_) => (after, type_error(list_message(t, x.ty))),
                            Ok(_) => items_made(
                                env,
                                of,
                                after,
                                n,
                                wanted,
                                current,
                                subst,
                                done.push(x),
                            ),
                        },
                    },
                }
            },
        }
    }
}

pub open spec fn list_item(expected: Option<SType>) -> Option<SType> {
    match expected {
        Some(SType::List(item)) => Some(*item),
        _ => None,
    }
}

/// A list, or a product where one is expected.
#[verifier::opaque]
pub open spec fn vector_rule(
    env: SEnv,
    table: SBindings,
    n: nat,
    expected: Option<SType>,
    of: Maker,
) -> SMade {
    if expected is Some && expected->Some_0 is Product {
        let (after, r) = all_made(of, table, n, Seq::empty());
        match r {
            Err(e) => (after, Err(e)),
            Ok(items) => (after, plain(SType::Product(types_made(items)), SKind::Vector(items))),
        }
    } else {
        let wanted = list_item(expected);
        let (after, r) = items_made(
            env,
            of,
            table,
            n,
            wanted,
            wanted,
            Map::empty(),
            Seq::empty(),
        );
        match r {
            Err(e) => (after, Err(e)),
            Ok((items, current)) => (
                after,
                plain(
                    match current {
                        Some(t) => slist(t),
                        None => SType::EmptyList,
                    },
                    SKind::Vector(items),
                ),
            ),
        }
    }
}

pub open spec fn field_wanted(expected: Option<SType>, name: Seq<char>) -> Option<SType> {
    match expected {
        Some(SType::Record(fields)) => keyed(fields, name, 0),
        _ => None,
    }
}

/// The fields of a record one after another.
pub open spec fn record_rule(
    table: SBindings,
    fields: Seq<(Seq<char>, SExpr)>,
    expected: Option<SType>,
    of: Maker,
    done: Seq<(Seq<char>, SChecked)>,
    types: Seq<(Seq<char>, SType)>,
) -> SMade
    decreases fields.len() - done.len(),
{
    if done.len() >= fields.len() {
        (table, plain(SType::Record(types), SKind::Fields(done)))
    } else {
        let name = fields[done.len() as int].0;
        let (after, r) = of(table, done.len() as int, field_wanted(expected, name));
        match r {
            Err(e) => (after, Err(e)),
            Ok(x) => if keyed(types, name, 0) is Some {
                (after, type_error("duplicate record field "@ + name))
            } else {
                record_rule(
                    after,
                    fields,
                    expected,
                    of,
                    done.push((name, x)),
                    with_field(types, name, x.ty),
                )
            },
        }
    }
}

/// The arms of a match one after another.
pub open spec fn arms_rule(
    env: SEnv,
    table: SBindings,
    scopes: Seq<SScope>,
    owner: SType,
    arms: Seq<SMatchArm>,
    of: ScopedMaker,
    seen: Seq<SConstructorId>,
    result: Option<SType>,
    done: Seq<SArm>,
) -> (SBindings, Result<(Seq<SArm>, Seq<SConstructorId>, Option<SType>), SError>)
    decreases arms.len() - done.len(),
{
    if done.len() >= arms.len() {
        (table, Ok((done, seen, result)))
    } else {
        let arm = arms[done.len() as int];
        match constructor_of(env, owner, arm.constructor) {
            Err(e) => (table, Err(e)),
            Ok(c) => if seen.contains(c.id) {
                (table, type_error("duplicate match arm for "@ + arm.constructor))
            } else {
                let id = BindingId(table.next);
                let (s1, r) = declared(
                    env,
                    table.allocate(arm.binding, Some(c.payload)),
                    scopes,
                    Seq::empty(),
                    arm.binding,
                    plain_candidate(id, c.payload),
                );
                match r {
                    Err(e) => (s1, Err(e)),
                    Ok(scope) => {
                        let (s2, r) = of(s1, done.len() as int, scopes.push(scope), result);
                        match r {
                            Err(e) => (s2, Err(e)),
                            Ok(body) => match arm_result(env, result, body.ty) {
                                Err(e) => (s2, Err(e)),
                                Ok(t) => arms_rule(
                                    env,
                                    s2,
                                    scopes,
                                    owner,
                                    arms,
                                    of,
                                    seen.push(c.id),
                                    Some(t),
                                    done.push(
                                        SArm {
                                            constructor: c.id,
                                            binding: SParam {
                                                id,
                                                name: arm.binding,
                                                ty: c.payload,
                                            },
                                            body: Box::new(body),
                                        },
                                    ),
                                ),
                            },
                        }
                    },
                }
            },
        }
    }
}

pub open spec fn plain_candidate(id: BindingId, ty: SType) -> SCandidate {
    SCandidate { id, ty, generic_binders: Seq::empty(), contributes_type_vars: false }
}

/// The type of the arms so far once one more has been compiled: that of the first, or the one
/// expected.
#[verifier::opaque]
pub open spec fn arm_result(env: SEnv, result: Option<SType>, body: SType) -> Result<
    SType,
    SError,
> {
    match result {
        None => Ok(body),
        Some(current) => match static_fit(env, body, current) {
            Err(_) => type_error(arm_message(current, body)),
            Ok(_) => Ok(current),
        },
    }
}

/// The end of a match: its arms must cover every constructor.
pub open spec fn match_end(
    value: SChecked,
    constructors: Seq<SConstructor>,
    arms: (SBindings, Result<(Seq<SArm>, Seq<SConstructorId>, Option<SType>), SError>),
) -> SMade {
    match arms.1 {
        Err(e) => (arms.0, Err(e)),
        Ok((done, seen, result)) => match exhaustive(constructors, seen) {
            Err(e) => (arms.0, Err(e)),
            Ok(_) => (
                arms.0,
                plain(
                    match result {
                        Some(t) => t,
                        None => SType::Unit,
                    },
                    SKind::Match(Box::new(value), done),
                ),
            ),
        },
    }
}

#[verifier::opaque]
pub open spec fn match_rule(
    env: SEnv,
    table: SBindings,
    scopes: Seq<SScope>,
    value: SChecked,
    arms: Seq<SMatchArm>,
    expected: Option<SType>,
    of: ScopedMaker,
) -> SMade {
    match constructors_of(env, value.ty) {
        Err(e) => (table, Err(e)),
        Ok(constructors) => {
            let (after, r) = arms_rule(
                env,
                table,
                scopes,
                value.ty,
                arms,
                of,
                Seq::empty(),
                expected,
                Seq::empty(),
            );
            match_end(value, constructors, (after, r))
        },
    }
}

/// The arguments of a call of a value one after another.
pub open spec fn value_args(
    env: SEnv,
    of: Maker,
    table: SBindings,
    params: Seq<SType>,
    subst: SSubst,
    done: Seq<SChecked>,
) -> (SBindings, Result<(Seq<SChecked>, SSubst), SError>)
    decreases params.len() - done.len(),
{
    if done.len() >= params.len() {
        (table, Ok((done, subst)))
    } else {
        let target = apply(params[done.len() as int], subst);
        let (after, r) = of(table, done.len() as int, Some(target));
        match r {
            Err(e) => (after, Err(e)),
            Ok(x) => {
                let (s, fit) = fit_static(env, x.ty, target, subst);
                match fit {
                    Err(m) => (after, type_error(m)),
                    Ok(_) => value_args(env, of, after, params, s, done.push(x)),
                }
            },
        }
    }
}

/// A call of a value that has been compiled.
#[verifier::opaque]
pub open spec fn value_call_rule(
    env: SEnv,
    table: SBindings,
    callee: SChecked,
    n: nat,
    expected: Option<SType>,
    of: Maker,
) -> SMade {
    match callee.ty {
        SType::Function(params, result) => if params.len() != n {
            (table, Err(SError::Arity(params.len(), n)))
        } else {
            let (after, r) = value_args(env, of, table, params, Map::empty(), Seq::empty());
            match r {
                Err(e) => (after, Err(e)),
                Ok((args, subst)) => {
                    let output = apply(*result, subst);
                    let (s, fit) = constrained_by(
                        env,
                        output,
                        expected,
                        subst,
                        internal_vars(callee.ty),
                    );
                    match fit {
                        Err(e) => (after, Err(e)),
                        Ok(_) => (
                            after,
                            plain(apply(output, s), SKind::Call(Box::new(callee), args)),
                        ),
                    }
                },
            }
        },
        _ => (table, type_error("cannot call "@ + type_text(callee.ty))),
    }
}

/// The arguments of a call of a name one after another.
pub open spec fn call_args(
    env: SEnv,
    of: Maker,
    table: SBindings,
    params: Seq<SType>,
    bindable: Set<Seq<char>>,
    subst: SSubst,
    done: Seq<SChecked>,
) -> (SBindings, Result<(Seq<SChecked>, SSubst), SError>)
    decreases params.len() - done.len(),
{
    if done.len() >= params.len() {
        (table, Ok((done, subst)))
    } else {
        let target = apply(params[done.len() as int], subst);
        let (after, r) = of(table, done.len() as int, Some(target));
        match r {
            Err(e) => (after, Err(e)),
            Ok(x) => {
                let (s, fit) = fit_binding(env, x.ty, target, subst, bindable);
                match fit {
                    Err(m) => (after, type_error(m)),
                    Ok(_) => call_args(env, of, after, params, bindable, s, done.push(x)),
                }
            },
        }
    }
}

/// The obligations of the arguments at the types that the parameters have got.
pub open spec fn args_specialized(
    env: SEnv,
    table: SBindings,
    args: Seq<SChecked>,
    params: Seq<SType>,
    subst: SSubst,
    i: nat,
) -> SOutcome
    decreases args.len() - i,
{
    if i >= args.len() {
        (table, Ok(()))
    } else {
        let (after, r) = specialized(
            env,
            table,
            args[i as int],
            apply(params[i as int], subst),
            subst,
        );
        match r {
            Err(e) => (after, Err(e)),
            Ok(_) => args_specialized(env, after, args, params, subst, i + 1),
        }
    }
}

/// A call of one candidate.
#[verifier::opaque]
pub open spec fn candidate_call(
    env: SEnv,
    table: SBindings,
    c: SCandidate,
    name: Seq<char>,
    n: nat,
    expected: Option<SType>,
    of: Maker,
) -> SMade {
    match instance(c) {
        SType::Function(params, result) => if params.len() != n {
            (table, Err(SError::Arity(params.len(), n)))
        } else {
            let bindable = instance_vars(c);
            let (s1, r) = call_args(env, of, table, params, bindable, Map::empty(), Seq::empty());
            match r {
                Err(e) => (s1, Err(e)),
                Ok((args, subst)) => {
                    let (s2, met) = args_specialized(env, s1, args, params, subst, 0);
                    match met {
                        Err(e) => (s2, Err(e)),
                        Ok(_) => constrained_call(
                            env,
                            s2,
                            c,
                            params,
                            *result,
                            args,
                            subst,
                            expected,
                        ),
                    }
                },
            }
        },
        _ => (table, type_error(no_overload(name))),
    }
}

pub open spec fn no_overload(name: Seq<char>) -> Seq<char> {
    "no overload "@ + name + " matches call"@
}

/// The end of a call of one candidate: its result is held against the type expected, and its
/// equality requirements against what stands for the variables.
#[verifier::opaque]
pub open spec fn constrained_call(
    env: SEnv,
    table: SBindings,
    c: SCandidate,
    params: Seq<SType>,
    result: SType,
    args: Seq<SChecked>,
    subst: SSubst,
    expected: Option<SType>,
) -> SMade {
    let (s, fit) = constrained_by(env, apply(result, subst), expected, subst, instance_vars(c));
    match fit {
        Err(e) => (table, Err(e)),
        Ok(_) => {
            let (after, met) = required_all(env, table, instance_requirements(env, table, c), s);
            match met {
                Err(e) => (after, Err(e)),
                Ok(_) => (
                    after,
                    Ok(call_of(c.id, apply_all(params, s), apply(result, s), args)),
                ),
            }
        },
    }
}

/// The candidates that can be called, one after another, each with whether it is generic.
pub open spec fn candidate_calls(
    env: SEnv,
    table: SBindings,
    items: Seq<SCandidate>,
    name: Seq<char>,
    n: nat,
    expected: Option<SType>,
    of: Maker,
    i: nat,
    done: Seq<(bool, SChecked)>,
) -> (SBindings, Seq<(bool, SChecked)>)
    decreases items.len() - i,
{
    if i >= items.len() {
        (table, done)
    } else {
        let (after, r) = candidate_call(env, table, items[i as int], name, n, expected, of);
        candidate_calls(
            env,
            after,
            items,
            name,
            n,
            expected,
            of,
            i + 1,
            match r {
                Ok(x) => done.push((items[i as int].generic_binders.len() > 0, x)),
                Err(_) => done,
            },
        )
    }
}

/// The one call that is not generic, where there is exactly one such among several.
pub open spec fn prefer_plain_call(items: Seq<(bool, SChecked)>) -> Seq<(bool, SChecked)> {
    let chosen = items.filter(|m: (bool, SChecked)| !m.0);
    if items.len() > 1 && chosen.len() == 1 {
        chosen
    } else {
        items
    }
}

/// A call of an overloaded name: exactly one candidate must take it.
#[verifier::opaque]
pub open spec fn overloaded_call(
    env: SEnv,
    table: SBindings,
    name: Seq<char>,
    items: Seq<SCandidate>,
    n: nat,
    expected: Option<SType>,
    of: Maker,
) -> SMade {
    if items.len() == 1 {
        candidate_call(env, table, items[0], name, n, expected, of)
    } else {
        let (after, calls) = candidate_calls(
            env,
            table,
            items,
            name,
            n,
            expected,
            of,
            0,
            Seq::empty(),
        );
        let found = prefer_plain_call(calls);
        (
            after,
            if found.len() == 1 {
                Ok(found[0].1)
            } else if found.len() == 0 {
                type_error(no_overload(name))
            } else {
                type_error("ambiguous overload "@ + name + " for call"@)
            },
        )
    }
}

/// A call of a name: by the functions of that name, else by its builtin. There is none where the
/// name has neither.
#[verifier::opaque]
pub open spec fn named_call_rule(
    env: SEnv,
    table: SBindings,
    scopes: Seq<SScope>,
    name: Seq<char>,
    args: Seq<SExpr>,
    expected: Option<SType>,
    of: Maker,
    parts: Maker,
) -> (SBindings, Option<Result<SChecked, SError>>) {
    let functions = all_visible(env, table, scopes, name).filter(
        |c: SCandidate| c.ty is Function,
    );
    let (s1, made) = if functions.len() > 0 {
        let (s, r) = overloaded_call(env, table, name, functions, args.len(), expected, of);
        (
            s,
            if r is Ok || builtin_of(env, name) is None {
                Some(r)
            } else {
                None
            },
        )
    } else {
        (table, None)
    };
    match made {
        Some(r) => (s1, Some(r)),
        None => match builtin_of(env, name) {
            Some(id) => {
                let (s2, r) = builtin_call(env, s1, scopes, name, id, args, expected, of, parts);
                (s2, Some(r))
            },
            None => (s1, None),
        },
    }
}

pub open spec fn maps_over(name: Seq<char>) -> bool {
    name == "map"@ || name == "filter"@ || name == "flat-map"@ || name == "sort-by"@ || name
        == "group-by"@ || name == "indexed-map"@
}

/// A call of a builtin.
#[verifier::opaque]
pub open spec fn builtin_call(
    env: SEnv,
    table: SBindings,
    scopes: Seq<SScope>,
    name: Seq<char>,
    id: BindingId,
    args: Seq<SExpr>,
    expected: Option<SType>,
    of: Maker,
    parts: Maker,
) -> SMade {
    if name == "__map-empty"@ && args.len() == 1 {
        map_empty_call(env, table, id, expected, of)
    } else if name == "get"@ {
        get_call(env, table, id, args, of)
    } else if name == "canonical"@ && args.len() != 1 {
        (table, Err(SError::Arity(1, args.len())))
    } else if name == "artifact"@ {
        artifact_call(env, table, id, args, of, parts)
    } else if name == "str"@ {
        str_call(table, id, args.len(), of)
    } else if maps_over(name) {
        collection_call(env, table, name, id, args.len(), expected, of)
    } else if name == "fold"@ {
        fold_call(table, id, args.len(), of)
    } else {
        general_call(env, table, scopes, name, id, args, of)
    }
}

/// An empty map whose value type is the one expected.
#[verifier::opaque]
pub open spec fn map_empty_call(
    env: SEnv,
    table: SBindings,
    id: BindingId,
    expected: Option<SType>,
    of: Maker,
) -> SMade {
    match expected {
        Some(SType::MapOf(key, value)) => {
            let (s1, met) = required_equality(env, table, *key);
            match met {
                Err(e) => (s1, Err(e)),
                Ok(_) => {
                    let (s2, r) = of(s1, 0, Some(stag(*key)));
                    match r {
                        Err(e) => (s2, Err(e)),
                        Ok(k) => (s2, Ok(call_of(id, seq![k.ty], smap(*key, *value), seq![k]))),
                    }
                },
            }
        },
        _ => (table, type_error("one-argument __map-empty requires an expected Map type"@)),
    }
}

/// A field of a record.
#[verifier::opaque]
pub open spec fn get_call(
    env: SEnv,
    table: SBindings,
    id: BindingId,
    args: Seq<SExpr>,
    of: Maker,
) -> SMade {
    if args.len() != 2 {
        (table, Err(SError::Arity(2, args.len())))
    } else {
        let (s1, r) = of(table, 0, None);
        match r {
            Err(e) => (s1, Err(e)),
            Ok(target) => if target.ty is HostInputs || target.ty is MapOf {
                (s1, type_error("get expects a record, got "@ + type_text(target.ty)))
            } else {
                let (s2, r) = of(s1, 1, Some(SType::String));
                match r {
                    Err(e) => (s2, Err(e)),
                    Ok(key) => {
                        let written = literal_key(args[1]);
                        match field_of(env, target.ty, written, expansion_limit(env)) {
                            None => (
                                s2,
                                type_error(
                                    "cannot get "@ + key_text(written) + " from "@ + type_text(
                                        target.ty,
                                    ),
                                ),
                            ),
                            Some(output) => (
                                s2,
                                Ok(
                                    call_of(
                                        id,
                                        seq![target.ty, SType::String],
                                        output,
                                        seq![target, key],
                                    ),
                                ),
                            ),
                        }
                    },
                }
            },
        }
    }
}

/// An artifact. The positions of a vector that is made an artifact may have types of their own.
#[verifier::opaque]
pub open spec fn artifact_call(
    env: SEnv,
    table: SBindings,
    id: BindingId,
    args: Seq<SExpr>,
    of: Maker,
    parts: Maker,
) -> SMade {
    if args.len() != 1 {
        (table, Err(SError::Arity(1, args.len())))
    } else {
        let (s1, r) = match args[0] {
            SExpr::Vector(items) => {
                let product = Some(SType::Product(Seq::empty()));
                let (s, made) = vector_rule(env, table, items.len(), product, parts);
                finished(env, s, made, None)
            },
            _ => of(table, 0, None),
        };
        match r {
            Err(e) => (s1, Err(e)),
            Ok(data) => (s1, Ok(call_of(id, seq![data.ty], SType::Artifact, seq![data]))),
        }
    }
}

#[verifier::opaque]
pub open spec fn str_call(table: SBindings, id: BindingId, n: nat, of: Maker) -> SMade {
    let (s1, r) = all_made(of, table, n, Seq::empty());
    match r {
        Err(e) => (s1, Err(e)),
        Ok(args) => (s1, Ok(call_of(id, types_made(args), SType::String, args))),
    }
}

/// A call that has the type that inference gives it.
#[verifier::opaque]
pub open spec fn general_call(
    env: SEnv,
    table: SBindings,
    scopes: Seq<SScope>,
    name: Seq<char>,
    id: BindingId,
    args: Seq<SExpr>,
    of: Maker,
) -> SMade {
    let locals = scope_locals(scopes, Seq::empty());
    let (s1, r) = builtin_rule(env, table, name, args, argument_types(env, locals, args));
    match r {
        Err(e) => (s1, Err(e)),
        Ok(result) => {
            let (s2, r) = all_made(of, s1, args.len(), Seq::empty());
            match r {
                Err(e) => (s2, Err(e)),
                Ok(args) => (s2, Ok(call_of(id, types_made(args), result, args))),
            }
        },
    }
}

pub open spec fn result_variable() -> SType {
    SType::Var("\0builtin.result"@)
}

/// The result that a callback over a list must have.
pub open spec fn callback_result(name: Seq<char>, expected: Option<SType>) -> SType {
    if name == "filter"@ {
        SType::Bool
    } else if name == "sort-by"@ || name == "group-by"@ {
        SType::String
    } else if name == "flat-map"@ {
        match expected {
            Some(t) => t,
            None => slist(result_variable()),
        }
    } else {
        match list_item(expected) {
            Some(t) => t,
            None => result_variable(),
        }
    }
}

pub open spec fn callback_params(name: Seq<char>, item: SType) -> Seq<SType> {
    if name == "indexed-map"@ {
        seq![SType::Int, item]
    } else {
        seq![item]
    }
}

pub open spec fn callback_failure(name: Seq<char>, e: SError) -> SError {
    if name == "sort-by"@ || name == "group-by"@ {
        SError::Type(name + " callback must return String: "@ + error_text(e))
    } else if name == "filter"@ {
        SError::Type("filter callback must return Bool: "@ + error_text(e))
    } else {
        e
    }
}

/// The result of going over a list of type `collection` with a callback whose result is `result`.
pub open spec fn collected_type(name: Seq<char>, collection: SType, result: SType) -> SType {
    if name == "filter"@ || name == "sort-by"@ {
        collection
    } else if name == "group-by"@ {
        smap(SType::String, collection)
    } else if name == "flat-map"@ {
        result
    } else {
        slist(result)
    }
}

/// A call that goes over a list with a callback: the list is compiled first.
#[verifier::opaque]
pub open spec fn collection_call(
    env: SEnv,
    table: SBindings,
    name: Seq<char>,
    id: BindingId,
    n: nat,
    expected: Option<SType>,
    of: Maker,
) -> SMade {
    if n != 2 {
        (table, Err(SError::Arity(2, n)))
    } else {
        let (s1, r) = of(table, 1, None);
        match r {
            Err(e) => (s1, Err(e)),
            Ok(collection) => match collection.ty {
                SType::List(item) => {
                    let target = sfun(callback_params(name, *item), callback_result(name, expected));
                    let (s2, r) = of(s1, 0, Some(target));
                    match r {
                        Err(e) => (s2, Err(callback_failure(name, e))),
                        Ok(callback) => match callback.ty {
                            SType::Function(_, result) => (
                                s2,
                                Ok(
                                    call_of(
                                        id,
                                        seq![callback.ty, collection.ty],
                                        collected_type(name, collection.ty, *result),
                                        seq![callback, collection],
                                    ),
                                ),
                            ),
                            _ => (s2, type_error(name + " expects a function"@)),
                        },
                    }
                },
                _ => (s1, type_error(name + " expects List"@)),
            },
        }
    }
}

#[verifier::opaque]
pub open spec fn fold_call(table: SBindings, id: BindingId, n: nat, of: Maker) -> SMade {
    if n != 3 {
        (table, Err(SError::Arity(3, n)))
    } else {
        let (s1, r) = of(table, 1, None);
        match r {
            Err(e) => (s1, Err(e)),
            Ok(init) => {
                let (s2, r) = of(s1, 2, None);
                match r {
                    Err(e) => (s2, Err(e)),
                    Ok(collection) => match collection.ty {
                        SType::List(item) => {
                            let (s3, r) = of(s2, 0, Some(sfun(seq![init.ty, *item], init.ty)));
                            match r {
                                Err(e) => (s3, Err(e)),
                                Ok(callback) => (
                                    s3,
                                    Ok(
                                        call_of(
                                            id,
                                            seq![callback.ty, init.ty, collection.ty],
                                            init.ty,
                                            seq![callback, init, collection],
                                        ),
                                    ),
                                ),
                            }
                        },
                        _ => (s2, type_error("fold expects List"@)),
                    },
                }
            },
        }
    }
}

/// The scope of a function's type parameters.
pub open spec fn binder_scope(type_params: Seq<Seq<char>>) -> SScope {
    if type_params.len() == 0 {
        Seq::empty()
    } else {
        seq![
            (
                type_binder_key(),
                seq![
                    SCandidate {
                        id: BindingId(u64::MAX),
                        ty: SType::Product(as_vars(type_params)),
                        generic_binders: Seq::empty(),
                        contributes_type_vars: true,
                    },
                ],
            ),
        ]
    }
}

/// The parameters of a function declared one after another.
pub open spec fn params_declared(
    env: SEnv,
    scopes: Seq<SScope>,
    params: Seq<(Seq<char>, SAuthoredType)>,
    types: Seq<SType>,
    table: SBindings,
    scope: SScope,
    done: Seq<SParam>,
) -> (SBindings, Result<(SScope, Seq<SParam>), SError>)
    decreases params.len() - done.len(),
{
    if done.len() >= params.len() {
        (table, Ok((scope, done)))
    } else {
        let name = params[done.len() as int].0;
        let ty = types[done.len() as int];
        let id = BindingId(table.next);
        let (after, r) = declared(
            env,
            table.allocate(name, Some(ty)),
            scopes,
            scope,
            name,
            plain_candidate(id, ty),
        );
        match r {
            Err(e) => (after, Err(e)),
            Ok(scope) => params_declared(
                env,
                scopes,
                params,
                types,
                after,
                scope,
                done.push(SParam { id, name, ty }),
            ),
        }
    }
}

pub open spec fn block_type(block: SBlock) -> SType {
    if block.expressions.len() == 0 {
        SType::Unit
    } else {
        block.expressions.last().ty
    }
}

pub open spec fn return_message(
    name: Option<Seq<char>>,
    actual: SType,
    result: SType,
    m: Seq<char>,
) -> Seq<char> {
    let label = match name {
        Some(n) => n + " "@,
        None => ""@,
    };
    "function "@ + label + "returns "@ + type_text(actual) + ", declared "@ + (type_text(result)
        + ": "@ + m)
}

/// A function: its body is compiled with the parameters in scope and its own obligations, of which
/// those on its type parameters become its equality parameters and the others stay obligations
/// of the expression around it.
#[verifier::opaque]
pub open spec fn function_rule(
    env: SEnv,
    table: SBindings,
    scopes: Seq<SScope>,
    name: Option<Seq<char>>,
    f: SFunction,
    expected: Option<SType>,
    id: Option<BindingId>,
    body: BodyMaker,
) -> SMade {
    let vars = scope_vars(scopes).union(f.type_params.to_set());
    match parameter_types(env, f.params, vars) {
        Err(e) => (table, Err(e)),
        Ok(params) => match denoted(env, f.result, vars) {
            Err(e) => (table, Err(e)),
            Ok(result) => match expected_fit(env, sfun(params, result), expected) {
                Err(e) => (table, Err(e)),
                Ok(_) => {
                    let (s1, r) = params_declared(
                        env,
                        scopes,
                        f.params,
                        params,
                        table,
                        binder_scope(f.type_params),
                        Seq::empty(),
                    );
                    match r {
                        Err(e) => (s1, Err(e)),
                        Ok((scope, declared_params)) => {
                            let (s2, r) = body(
                                s1.with_obligations(Set::empty()),
                                scopes.push(scope),
                                result,
                            );
                            let own = s2.obligations;
                            let s3 = s2.with_obligations(s1.obligations);
                            match r {
                                Err(e) => (s3, Err(e)),
                                Ok(block) => closed_function(
                                    env,
                                    s3,
                                    name,
                                    f.type_params,
                                    params,
                                    declared_params,
                                    result,
                                    id,
                                    block,
                                    own,
                                ),
                            }
                        },
                    }
                },
            },
        },
    }
}

#[verifier::opaque]
pub open spec fn closed_function(
    env: SEnv,
    table: SBindings,
    name: Option<Seq<char>>,
    type_params: Seq<Seq<char>>,
    types: Seq<SType>,
    params: Seq<SParam>,
    result: SType,
    id: Option<BindingId>,
    block: SBlock,
    own: Set<Seq<char>>,
) -> SMade {
    let s1 = table.oblige(own.difference(type_params.to_set()));
    let equality = type_params.filter(|p: Seq<char>| own.contains(p));
    let s2 = match id {
        Some(id) => s1.set_equality(id, equality),
        None => s1,
    };
    let actual = block_type(block);
    match static_fit(env, actual, result) {
        Err(m) => (s2, type_error(return_message(name, actual, result, m))),
        Ok(_) => (
            s2,
            plain(
                sfun(types, result),
                SKind::Function(
                    SCheckedFn {
                        name,
                        type_params,
                        equality_params: equality,
                        params,
                        result,
                        body: Box::new(block),
                    },
                ),
            ),
        ),
    }
}

/// Bound items of a block: where each stands, and its identity.
pub type SLets = Seq<(int, BindingId)>;

pub open spec fn let_name(item: SItem) -> Seq<char> {
    match item {
        SItem::Let(name, _) => name,
        _ => Seq::empty(),
    }
}

pub open spec fn let_value(item: SItem) -> SExpr {
    match item {
        SItem::Let(_, value) => value,
        _ => SExpr::Unit,
    }
}

/// The first item that is no item at all, from position `i` on.
pub open spec fn invalid_item(items: Seq<SItem>, i: nat) -> Option<SError>
    decreases items.len() - i,
{
    if i >= items.len() {
        None
    } else {
        match items[i as int] {
            SItem::Invalid(e) => Some(authoring_failure(e)),
            _ => invalid_item(items, i + 1),
        }
    }
}

/// The bound items, from position `i` on, each with the next identity.
pub open spec fn allocated(items: Seq<SItem>, i: nat, table: SBindings, done: SLets) -> (
    SBindings,
    SLets,
)
    decreases items.len() - i,
{
    if i >= items.len() {
        (table, done)
    } else {
        match items[i as int] {
            SItem::Let(name, _) => allocated(
                items,
                i + 1,
                table.allocate(name, None),
                done.push((i as int, BindingId(table.next))),
            ),
            _ => allocated(items, i + 1, table, done),
        }
    }
}

pub open spec fn let_names(items: Seq<SItem>, lets: SLets) -> Seq<Seq<char>> {
    Seq::new(lets.len(), |i: int| let_name(items[lets[i].0]))
}

/// The functions of a block declared by their signatures; the other bound items are left.
pub open spec fn functions_declared(
    env: SEnv,
    outer: Seq<SScope>,
    items: Seq<SItem>,
    lets: SLets,
    k: nat,
    table: SBindings,
    current: SScope,
    pending: SLets,
) -> (SBindings, Result<(SScope, SLets), SError>)
    decreases lets.len() - k,
{
    if k >= lets.len() {
        (table, Ok((current, pending)))
    } else {
        let (at, id) = lets[k as int];
        match let_value(items[at]) {
            SExpr::Function(f) => match signature(env, scope_vars(outer), f) {
                Err(e) => (table, Err(e)),
                Ok(ty) => {
                    let (after, r) = declared(
                        env,
                        table,
                        outer,
                        current,
                        let_name(items[at]),
                        SCandidate {
                            id,
                            ty,
                            generic_binders: f.type_params,
                            contributes_type_vars: false,
                        },
                    );
                    match r {
                        Err(e) => (after, Err(e)),
                        Ok(scope) => functions_declared(
                            env,
                            outer,
                            items,
                            lets,
                            k + 1,
                            after,
                            scope,
                            pending,
                        ),
                    }
                },
            },
            _ => functions_declared(
                env,
                outer,
                items,
                lets,
                k + 1,
                table,
                current,
                pending.push((at, id)),
            ),
        }
    }
}

/// The type of an initializer among the bindings declared so far.
#[verifier::opaque]
pub open spec fn strict_type(
    env: SEnv,
    table: SBindings,
    outer: Seq<SScope>,
    current: SScope,
    e: SExpr,
) -> STyped {
    let general = inferred(env, table, scope_locals(outer, current), e);
    match e {
        SExpr::Name(source) => {
            let candidates = visible(env, table, outer, current, source);
            if candidates.len() == 1 && candidates[0].generic_binders.len() > 0 {
                (table, Ok(instance(candidates[0])))
            } else {
                general
            }
        },
        _ => general,
    }
}

/// One pass over the items that are left: those whose type can be inferred are declared, and those
/// that wait for another of the block's names are left.
pub open spec fn strict_pass(
    env: SEnv,
    outer: Seq<SScope>,
    items: Seq<SItem>,
    names: Seq<Seq<char>>,
    pending: SLets,
    k: nat,
    table: SBindings,
    current: SScope,
    next: SLets,
) -> (SBindings, Result<(SScope, SLets), SError>)
    decreases pending.len() - k,
{
    if k >= pending.len() {
        (table, Ok((current, next)))
    } else {
        let (at, id) = pending[k as int];
        let (s1, r) = strict_type(env, table, outer, current, let_value(items[at]));
        match r {
            Ok(ty) => {
                let (s2, r) = declared(
                    env,
                    s1,
                    outer,
                    current,
                    let_name(items[at]),
                    plain_candidate(id, ty),
                );
                match r {
                    Err(e) => (s2, Err(e)),
                    Ok(scope) => strict_pass(
                        env,
                        outer,
                        items,
                        names,
                        pending,
                        k + 1,
                        s2,
                        scope,
                        next,
                    ),
                }
            },
            Err(e) => if e is Unresolved && names.contains(e->Unresolved_0) {
                strict_pass(
                    env,
                    outer,
                    items,
                    names,
                    pending,
                    k + 1,
                    s1,
                    current,
                    next.push((at, id)),
                )
            } else {
                (s1, Err(e))
            },
        }
    }
}

/// Passes over the items that are left until none is, or none can be declared.
pub open spec fn strict_rounds(
    env: SEnv,
    outer: Seq<SScope>,
    items: Seq<SItem>,
    names: Seq<Seq<char>>,
    pending: SLets,
    table: SBindings,
    current: SScope,
) -> (SBindings, Result<SScope, SError>)
    decreases pending.len(),
{
    if pending.len() == 0 {
        (table, Ok(current))
    } else {
        let (after, r) = strict_pass(
            env,
            outer,
            items,
            names,
            pending,
            0,
            table,
            current,
            Seq::empty(),
        );
        match r {
            Err(e) => (after, Err(e)),
            Ok((scope, next)) => if next.len() < pending.len() {
                strict_rounds(env, outer, items, names, next, after, scope)
            } else {
                (
                    after,
                    type_error(
                        "cannot infer recursive strict bindings: "@ + joined(
                            let_names(items, next),
                            ", "@,
                        ),
                    ),
                )
            },
        }
    }
}

/// The type that a binding was declared at, from position `i` of the candidates of its name on.
pub open spec fn declared_type(items: Seq<SCandidate>, id: BindingId, i: nat) -> Option<SType>
    decreases items.len() - i,
{
    if i >= items.len() {
        None
    } else if items[i as int].id == id {
        Some(items[i as int].ty)
    } else {
        declared_type(items, id, i + 1)
    }
}

/// The bindings of a block one after another.
pub open spec fn bindings_made(
    items: Seq<SItem>,
    lets: SLets,
    scopes: Seq<SScope>,
    current: SScope,
    of: ItemMaker,
    table: SBindings,
    done: Seq<SBinding>,
) -> (SBindings, Result<Seq<SBinding>, SError>)
    decreases lets.len() - done.len(),
{
    if done.len() >= lets.len() {
        (table, Ok(done))
    } else {
        let (at, id) = lets[done.len() as int];
        let name = let_name(items[at]);
        match declared_type(scope_candidates(current, name), id, 0) {
            None => (table, Err(SError::Unresolved(name))),
            Some(ty) => {
                let (after, r) = of(table, at, scopes, Some(ty), Some(id));
                match r {
                    Err(e) => (after, Err(e)),
                    Ok(x) => bindings_made(
                        items,
                        lets,
                        scopes,
                        current,
                        of,
                        after,
                        done.push(SBinding { id, name, ty, initializer: x }),
                    ),
                }
            },
        }
    }
}

/// Where the last expression among the first `n` items stands.
pub open spec fn last_expression(items: Seq<SItem>, n: nat) -> Option<int>
    decreases n,
{
    if n == 0 {
        None
    } else if items[n - 1] is Expr {
        Some(n - 1)
    } else {
        last_expression(items, (n - 1) as nat)
    }
}

/// The expressions of a block one after another. Where the last does not compile at the type
/// expected, it is compiled with nothing expected.
pub open spec fn expressions_made(
    items: Seq<SItem>,
    scopes: Seq<SScope>,
    last: Option<int>,
    expected: Option<SType>,
    of: ItemMaker,
    i: nat,
    table: SBindings,
    done: Seq<SChecked>,
) -> (SBindings, Result<Seq<SChecked>, SError>)
    decreases items.len() - i,
{
    if i >= items.len() {
        (table, Ok(done))
    } else {
        match items[i as int] {
            SItem::Invalid(e) => (table, Err(authoring_failure(e))),
            SItem::Let(_, _) => expressions_made(
                items,
                scopes,
                last,
                expected,
                of,
                i + 1,
                table,
                done,
            ),
            SItem::Expr(_) => {
                let target = if last == Some(i as int) {
                    expected
                } else {
                    None
                };
                let (s1, r) = of(table, i as int, scopes, target, None);
                let (s2, r) = if r is Err && target is Some {
                    of(s1, i as int, scopes, None, None)
                } else {
                    (s1, r)
                };
                match r {
                    Err(e) => (s2, Err(e)),
                    Ok(x) => expressions_made(
                        items,
                        scopes,
                        last,
                        expected,
                        of,
                        i + 1,
                        s2,
                        done.push(x),
                    ),
                }
            },
        }
    }
}

pub open spec fn layout_of(items: Seq<SBinding>) -> Seq<BindingId> {
    Seq::new(items.len(), |i: int| items[i].id)
}

/// A block: its names are declared first, the functions by their signatures and the others by what
/// inference gives them, so that each may use any other; then its bindings are compiled, then its
/// expressions.
#[verifier::opaque]
pub open spec fn block_rule(
    env: SEnv,
    table: SBindings,
    outer: Seq<SScope>,
    items: Seq<SItem>,
    expected: Option<SType>,
    of: ItemMaker,
) -> (SBindings, Result<SBlock, SError>) {
    match invalid_item(items, 0) {
        Some(e) => (table, Err(e)),
        None => {
            let (s0, lets) = allocated(items, 0, table, Seq::empty());
            let (s1, r) = block_scope(env, s0, outer, items, lets);
            match r {
                Err(e) => (s1, Err(e)),
                Ok(current) => block_parts(
                    env,
                    s1,
                    outer.push(current),
                    current,
                    items,
                    lets,
                    expected,
                    of,
                ),
            }
        },
    }
}

#[verifier::opaque]
pub open spec fn block_scope(
    env: SEnv,
    table: SBindings,
    outer: Seq<SScope>,
    items: Seq<SItem>,
    lets: SLets,
) -> (SBindings, Result<SScope, SError>) {
    let (s1, r) = functions_declared(
        env,
        outer,
        items,
        lets,
        0,
        table,
        Seq::empty(),
        Seq::empty(),
    );
    match r {
        Err(e) => (s1, Err(e)),
        Ok((scope, pending)) => strict_rounds(
            env,
            outer,
            items,
            let_names(items, lets),
            pending,
            s1,
            scope,
        ),
    }
}

#[verifier::opaque]
pub open spec fn block_parts(
    env: SEnv,
    table: SBindings,
    scopes: Seq<SScope>,
    current: SScope,
    items: Seq<SItem>,
    lets: SLets,
    expected: Option<SType>,
    of: ItemMaker,
) -> (SBindings, Result<SBlock, SError>) {
    let (s1, r) = bindings_made(items, lets, scopes, current, of, table, Seq::empty());
    match r {
        Err(e) => (s1, Err(e)),
        Ok(bindings) => {
            let (s2, r) = finalized(env, s1, bindings);
            match r {
                Err(e) => (s2, Err(e)),
                Ok(bindings) => {
                    let (s3, r) = expressions_made(
                        items,
                        scopes,
                        last_expression(items, items.len()),
                        expected,
                        of,
                        0,
                        s2,
                        Seq::empty(),
                    );
                    match r {
                        Err(e) => (s3, Err(e)),
                        Ok(expressions) => (
                            s3,
                            Ok(
                                SBlock {
                                    frame_layout: layout_of(bindings),
                                    bindings,
                                    expressions,
                                },
                            ),
                        ),
                    }
                },
            }
        },
    }
}

pub fn compile_expr(
    env: &Env,
    table: &mut Bindings,
    scopes: &Vec<CheckedScope>,
    expr: &Expr,
    expected: Option<&MagType>,
) -> (r: Result<CheckedExpr, MagError>)
    ensures
        (final(table)@, made_result(r)) == compiled(
            env@,
            old(table)@,
            scopes_view(scopes@),
            expr@,
            opt_ref(expected),
        ),
    decreases expr, 3nat,
{
    let made = compile_form(env, table, scopes, expr, expected);
    finish(env, table, made, expected)
}

fn compile_form(
    env: &Env,
    table: &mut Bindings,
    scopes: &Vec<CheckedScope>,
    expr: &Expr,
    expected: Option<&MagType>,
) -> (r: Result<CheckedExpr, MagError>)
    ensures
        (final(table)@, made_result(r)) == form_made(
            env@,
            old(table)@,
            scopes_view(scopes@),
            expr@,
            opt_ref(expected),
        ),
    decreases expr, 2nat,
{
    match expr {
        Expr::Unit => Ok(make(MagType::Unit, CheckedExprKind::Unit)),
        Expr::Bool(b) => Ok(make(MagType::Bool, CheckedExprKind::Bool(*b))),
        Expr::Int(n) => Ok(make(MagType::Int, CheckedExprKind::Int(*n))),
        Expr::Float(f) => Ok(make(MagType::Float, CheckedExprKind::Float(f.clone()))),
        Expr::Str(s) => Ok(make(MagType::String, CheckedExprKind::Str(s.clone()))),
        Expr::Keyword(s) => Ok(make(MagType::String, CheckedExprKind::Keyword(s.clone()))),
        Expr::Name(name) => compile_symbol(env, table, scopes, name, expected),
        Expr::Vector(items) => {
            assert(exprs_view(items@).len() == items@.len());
            compile_vector(env, table, scopes, items, expected)
        },
        Expr::Fields(fields) => compile_map(env, table, scopes, fields, expected),
        Expr::If { .. } => compile_if(env, table, scopes, expr, expected),
        Expr::Construct { .. } => compile_construct(env, table, scopes, expr),
        Expr::Match { .. } => compile_match(env, table, scopes, expr, expected),
        Expr::Ascribe { .. } => compile_ascribe(env, table, scopes, expr),
        Expr::TypeTag(target) => compile_type_tag(env, scopes, target),
        Expr::Function(f) => compile_function(env, table, scopes, None, f, expected, None),
        Expr::Call { .. } => compile_call(env, table, scopes, expr, expected),
        Expr::Invalid(error) => Err(error.clone().into_mag_error()),
    }
}

fn compile_type_tag(env: &Env, scopes: &Vec<CheckedScope>, target: &Type) -> (r: Result<
    CheckedExpr,
    MagError,
>)
    ensures
        made_result(r) == tag_made(env@, scopes_view(scopes@), target@),
{
    proof {
        reveal(tag_made);
    }
    let t = parse_checked_type(env, scopes, target)?;
    Ok(make(tag(t.clone()), CheckedExprKind::TypeTag(t)))
}

fn parse_checked_type(env: &Env, scopes: &Vec<CheckedScope>, authored: &Type) -> (r: Result<
    MagType,
    MagError,
>)
    ensures
        type_result(r) == denoted(env@, authored@, scope_vars(scopes_view(scopes@))),
{
    let vars = visible_type_variables(scopes);
    resolve_type(env, authored, &vars)
}

fn compile_if(
    env: &Env,
    table: &mut Bindings,
    scopes: &Vec<CheckedScope>,
    expr: &Expr,
    expected: Option<&MagType>,
) -> (r: Result<CheckedExpr, MagError>)
    requires
        expr is If,
    ensures
        (final(table)@, made_result(r)) == if_made(
            env@,
            old(table)@,
            scopes_view(scopes@),
            expr@,
            opt_ref(expected),
        ),
    decreases expr, 1nat,
{
    match expr {
        Expr::If { condition, then_branch, else_branch } => {
            let wanted = MagType::Bool;
            let c = compile_expr(env, table, scopes, condition, Some(&wanted))?;
            let a = compile_expr(env, table, scopes, then_branch, expected)?;
            let b = compile_expr(env, table, scopes, else_branch, expected)?;
            join_branches(env, c, a, b)
        },
        _ => Err(MagError::Type("if expected".to_owned())),
    }
}

fn join_branches(env: &Env, c: CheckedExpr, a: CheckedExpr, b: CheckedExpr) -> (r: Result<
    CheckedExpr,
    MagError,
>)
    ensures
        made_result(r) == joined_branches(env@, c@, a@, b@),
{
    proof {
        reveal(joined_branches);
    }
    match fits_static(env, &a.ty, &b.ty) {
        Err(_) => Err(
            MagError::Type(
                cat4(
                    "if branches must return one compatible type, got ",
                    &a.ty.show(),
                    " and ",
                    &b.ty.show(),
                ),
            ),
        ),
        Ok(_) => {
            let ty = b.ty.clone();
            let kind = CheckedExprKind::If {
                condition: Box::new(c),
                then_branch: Box::new(a),
                else_branch: Box::new(b),
            };
            assert(kind.model() == SKind::If(Box::new(c@), Box::new(a@), Box::new(b@)));
            Ok(make(ty, kind))
        },
    }
}

fn compile_construct(env: &Env, table: &mut Bindings, scopes: &Vec<CheckedScope>, expr: &Expr) -> (r:
    Result<CheckedExpr, MagError>)
    requires
        expr is Construct,
    ensures
        (final(table)@, made_result(r)) == construct_made(
            env@,
            old(table)@,
            scopes_view(scopes@),
            expr@,
        ),
    decreases expr, 1nat,
{
    match expr {
        Expr::Construct { owner, constructor, payload } => {
            let owner = parse_checked_type(env, scopes, owner)?;
            let c = instantiated_constructor(env, &owner, constructor)?;
            let p = compile_expr(env, table, scopes, payload, Some(&c.payload))?;
            let ty = owner.clone();
            let kind = CheckedExprKind::Construct {
                owner,
                constructor: c.id,
                payload: Box::new(p),
            };
            assert(kind.model() == SKind::Construct(owner@, c.id@, Box::new(p@)));
            Ok(make(ty, kind))
        },
        _ => Err(MagError::Type("construct expected".to_owned())),
    }
}

fn compile_match(
    env: &Env,
    table: &mut Bindings,
    scopes: &Vec<CheckedScope>,
    expr: &Expr,
    expected: Option<&MagType>,
) -> (r: Result<CheckedExpr, MagError>)
    requires
        expr is Match,
    ensures
        (final(table)@, made_result(r)) == match_made(
            env@,
            old(table)@,
            scopes_view(scopes@),
            expr@,
            opt_ref(expected),
        ),
    decreases expr, 1nat,
{
    match expr {
        Expr::Match { value, arms } => {
            let value = compile_expr(env, table, scopes, value, None)?;
            compile_arms(env, table, scopes, value, arms, expected)
        },
        _ => Err(MagError::Type("match expected".to_owned())),
    }
}

fn join_arm(env: &Env, result: Option<MagType>, body: &MagType) -> (r: Result<MagType, MagError>)
    ensures
        type_result(r) == arm_result(env@, opt_type(result), body@),
{
    proof {
        reveal(arm_result);
    }
    match result {
        None => Ok(body.clone()),
        Some(current) => match fits_static(env, body, &current) {
            Err(_) => Err(
                MagError::Type(
                    cat4(
                        "match arms must return one compatible type, got ",
                        &current.show(),
                        " and ",
                        &body.show(),
                    ),
                ),
            ),
            Ok(_) => Ok(current),
        },
    }
}

fn declare_plain(
    env: &Env,
    table: &mut Bindings,
    outer: &Vec<CheckedScope>,
    current: &mut CheckedScope,
    name: &str,
    id: BindingId,
    ty: MagType,
) -> (r: Result<(), MagError>)
    ensures
        ({
            let (t, x) = declared(
                env@,
                old(table)@,
                scopes_view(outer@),
                scope_view(old(current)@),
                name@,
                plain_candidate(id, ty@),
            );
            final(table)@ == t && match r {
                Ok(_) => x == Ok::<SScope, SError>(scope_view(final(current)@)),
                Err(e) => x == Err::<SScope, SError>(e@),
            }
        }),
{
    let candidate = CheckedCandidate {
        id,
        ty,
        generic_binders: Vec::new(),
        contributes_type_vars: false,
    };
    assert(strings(candidate.generic_binders@) =~= Seq::empty());
    assert(candidate@ == plain_candidate(id, ty@));
    insert_checked_candidate(env, table, outer, current, name, candidate)
}

fn compile_arms(
    env: &Env,
    table: &mut Bindings,
    scopes: &Vec<CheckedScope>,
    value: CheckedExpr,
    arms: &Vec<MatchArm>,
    expected: Option<&MagType>,
) -> (r: Result<CheckedExpr, MagError>)
    ensures
        (final(table)@, made_result(r)) == match_rule(
            env@,
            old(table)@,
            scopes_view(scopes@),
            value@,
            match_arms_view(arms@),
            opt_ref(expected),
            arm_bodies(env@, match_arms_view(arms@)),
        ),
    decreases arms, 1nat,
{
    proof {
        reveal(match_rule);
    }
    let constructors = adt_constructors(env, &value.ty)?;
    let ghost outer = scopes_view(scopes@);
    let ghost all = match_arms_view(arms@);
    let ghost of = arm_bodies(env@, all);
    let ghost whole = arms_rule(
        env@,
        table@,
        outer,
        value.ty@,
        all,
        of,
        Seq::empty(),
        opt_ref(expected),
        Seq::empty(),
    );
    let mut seen: Vec<ConstructorDeclarationId> = Vec::new();
    let mut result: Option<MagType> = match expected {
        Some(t) => Some(t.clone()),
        None => None,
    };
    let mut done: Vec<CheckedMatchArm> = Vec::new();
    let mut i: usize = 0;
    proof {
        assert(all.len() == arms@.len());
        assert(constructor_ids(seen@) =~= Seq::empty());
        assert(arms_view(done@) =~= Seq::empty());
        assert(opt_type(result) == opt_ref(expected));
    }
    while i < arms.len()
        invariant
            i <= arms.len(),
            done@.len() == i,
            all == match_arms_view(arms@),
            all.len() == arms@.len(),
            arms_view(done@).len() == i,
            outer == scopes_view(scopes@),
            of == arm_bodies(env@, all),
            whole == arms_rule(
                env@,
                table@,
                outer,
                value.ty@,
                all,
                of,
                constructor_ids(seen@),
                opt_type(result),
                arms_view(done@),
            ),
            match_rule(
                env@,
                old(table)@,
                outer,
                value@,
                all,
                opt_ref(expected),
                of,
            ) == match_end(
                value@,
                crate::ast::decl_constructors(constructors@),
                whole,
            ),
        decreases arms.len() - i,
    {
        let ghost so_far = arms_view(done@);
        let ghost seen_so_far = constructor_ids(seen@);
        let arm = &arms[i];
        assert(all[i as int] == (SMatchArm {
            constructor: arm.constructor@,
            binding: arm.binding@,
            body: Box::new(arm.body@),
        }));
        let c = instantiated_constructor(env, &value.ty, &arm.constructor)?;
        if has_constructor(&seen, &c.id) {
            return Err(MagError::Type(cat2("duplicate match arm for ", &arm.constructor)));
        }
        let id = table.allocate_binding_id(&arm.binding, Some(c.payload.clone()));
        let mut scope: CheckedScope = Vec::new();
        assert(scope_view(scope@) =~= Seq::empty());
        declare_plain(env, table, scopes, &mut scope, &arm.binding, id, c.payload.clone())?;
        let inner = extend_scopes(scopes, scope);
        let body = compile_expr(env, table, &inner, &arm.body, result.as_ref())?;
        let ty = join_arm(env, result, &body.ty)?;
        result = Some(ty);
        let name = arm.binding.clone();
        let made = CheckedMatchArm {
            constructor: c.id.clone(),
            binding: CheckedParam { id, name, ty: c.payload },
            body: Box::new(body),
        };
        seen.push(c.id);
        done.push(made);
        proof {
            assert(constructor_ids(seen@) =~= seen_so_far.push(c.id@));
            assert(arms_view(done@) =~= so_far.push(
                SArm {
                    constructor: c.id@,
                    binding: SParam { id, name: name@, ty: c.payload@ },
                    body: Box::new(body@),
                },
            ));
        }
        i = i + 1;
    }
    ensure_adt_exhaustive(&constructors, &seen)?;
    let ty = match result {
        Some(t) => t,
        None => MagType::Unit,
    };
    let kind = CheckedExprKind::Match { value: Box::new(value), arms: done };
    assert(kind.model() == SKind::Match(Box::new(value@), arms_view(done@)));
    Ok(make(ty, kind))
}

fn compile_ascribe(env: &Env, table: &mut Bindings, scopes: &Vec<CheckedScope>, expr: &Expr) -> (r:
    Result<CheckedExpr, MagError>)
    requires
        expr is Ascribe,
    ensures
        (final(table)@, made_result(r)) == ascribe_made(
            env@,
            old(table)@,
            scopes_view(scopes@),
            expr@,
        ),
    decreases expr, 1nat,
{
    match expr {
        Expr::Ascribe { target, value } => {
            let target = parse_checked_type(env, scopes, target)?;
            let value = match &**value {
                Expr::Vector(items) => {
                    assert(exprs_view(items@).len() == items@.len());
                    assert((**value)@ == SExpr::Vector(exprs_view(items@)));
                    if is_product(&target) {
                        compile_vector(env, table, scopes, items, Some(&target))?
                    } else {
                        compile_expr(env, table, scopes, value, None)?
                    }
                },
                Expr::Call { .. } => compile_call(env, table, scopes, value, Some(&target))?,
                _ => if is_overloaded_name(env, table, scopes, value) {
                    compile_expr(env, table, scopes, value, Some(&target))?
                } else {
                    compile_expr(env, table, scopes, value, None)?
                },
            };
            let ty = target.clone();
            let kind = CheckedExprKind::Ascribe { target, value: Box::new(value) };
            assert(kind.model() == SKind::Ascribe(target@, Box::new(value@)));
            Ok(make(ty, kind))
        },
        _ => Err(MagError::Type("ascription expected".to_owned())),
    }
}

fn is_product(ty: &MagType) -> (r: bool)
    ensures
        r == (ty@ is Product),
{
    match ty {
        MagType::Product(_) => true,
        _ => false,
    }
}

fn is_overloaded_name(env: &Env, table: &Bindings, scopes: &Vec<CheckedScope>, value: &Expr) -> (r:
    bool)
    ensures
        r == overloaded_name(env@, table@, scopes_view(scopes@), value@),
{
    proof {
        reveal(overloaded_name);
    }
    match value {
        Expr::Name(name) => {
            let found = all_candidates(env, table, scopes, name);
            assert(candidates_view(found@).len() == found@.len());
            found.len() > 1
        },
        _ => false,
    }
}

fn compile_call(
    env: &Env,
    table: &mut Bindings,
    scopes: &Vec<CheckedScope>,
    expr: &Expr,
    expected: Option<&MagType>,
) -> (r: Result<CheckedExpr, MagError>)
    requires
        expr is Call,
    ensures
        (final(table)@, made_result(r)) == call_made(
            env@,
            old(table)@,
            scopes_view(scopes@),
            expr@,
            opt_ref(expected),
        ),
    decreases expr, 1nat,
{
    match expr {
        Expr::Call { callee, args } => {
            assert(exprs_view(args@).len() == args@.len());
            let named = match &**callee {
                Expr::Name(name) => compile_named_call(env, table, scopes, name, args, expected),
                _ => None,
            };
            match named {
                Some(made) => made,
                None => {
                    let callee = compile_expr(env, table, scopes, callee, None)?;
                    compile_value_call(env, table, scopes, callee, args, expected)
                },
            }
        },
        _ => Err(MagError::Type("call expected".to_owned())),
    }
}

fn compile_all(env: &Env, table: &mut Bindings, scopes: &Vec<CheckedScope>, args: &Vec<Expr>) -> (r:
    Result<Vec<CheckedExpr>, MagError>)
    ensures
        (final(table)@, made_all_result(r)) == all_made(
            arguments(env@, scopes_view(scopes@), exprs_view(args@)),
            old(table)@,
            args@.len(),
            Seq::empty(),
        ),
    decreases args, 0nat,
{
    let ghost all = exprs_view(args@);
    let ghost of = arguments(env@, scopes_view(scopes@), all);
    let ghost whole = all_made(of, table@, args@.len(), Seq::empty());
    let mut done: Vec<CheckedExpr> = Vec::new();
    assert(all.len() == args@.len());
    assert(checked_view(done@) =~= Seq::empty());
    while done.len() < args.len()
        invariant
            done@.len() <= args@.len(),
            checked_view(done@).len() == done@.len(),
            all == exprs_view(args@),
            all.len() == args@.len(),
            of == arguments(env@, scopes_view(scopes@), all),
            whole == all_made(of, old(table)@, args@.len(), Seq::empty()),
            whole == all_made(of, table@, args@.len(), checked_view(done@)),
        decreases args.len() - done.len(),
    {
        let i = done.len();
        assert(all[i as int] == args@[i as int]@);
        let x = compile_expr(env, table, scopes, &args[i], None)?;
        push_made(&mut done, x);
    }
    Ok(done)
}

fn compile_vector(
    env: &Env,
    table: &mut Bindings,
    scopes: &Vec<CheckedScope>,
    items: &Vec<Expr>,
    expected: Option<&MagType>,
) -> (r: Result<CheckedExpr, MagError>)
    ensures
        (final(table)@, made_result(r)) == vector_rule(
            env@,
            old(table)@,
            items@.len(),
            opt_ref(expected),
            arguments(env@, scopes_view(scopes@), exprs_view(items@)),
        ),
    decreases items, 1nat,
{
    proof {
        reveal(vector_rule);
    }
    let product = match expected {
        Some(t) => is_product(t),
        None => false,
    };
    if product {
        let made = compile_all(env, table, scopes, items)?;
        let types = made_types(&made);
        let ty = MagType::Product(types);
        assert(ty@ == SType::Product(types_view(types@)));
        let kind = CheckedExprKind::Vector(made);
        assert(kind.model() == SKind::Vector(checked_view(made@)));
        return Ok(make(ty, kind));
    }
    let wanted: Option<&MagType> = match expected {
        Some(MagType::List(item)) => Some(&**item),
        _ => None,
    };
    assert(opt_ref(wanted) == list_item(opt_ref(expected)));
    let (made, current) = compile_items(env, table, scopes, items, wanted)?;
    let ty = match current {
        Some(t) => list(t),
        None => MagType::EmptyList,
    };
    let kind = CheckedExprKind::Vector(made);
    assert(kind.model() == SKind::Vector(checked_view(made@)));
    Ok(make(ty, kind))
}

pub open spec fn items_result(r: Result<(Vec<CheckedExpr>, Option<MagType>), MagError>) -> Result<
    (Seq<SChecked>, Option<SType>),
    SError,
> {
    match r {
        Ok((v, t)) => Ok((checked_view(v@), opt_type(t))),
        Err(e) => Err(e@),
    }
}

fn compile_items(
    env: &Env,
    table: &mut Bindings,
    scopes: &Vec<CheckedScope>,
    items: &Vec<Expr>,
    wanted: Option<&MagType>,
) -> (r: Result<(Vec<CheckedExpr>, Option<MagType>), MagError>)
    ensures
        (final(table)@, items_result(r)) == items_made(
            env@,
            arguments(env@, scopes_view(scopes@), exprs_view(items@)),
            old(table)@,
            items@.len(),
            opt_ref(wanted),
            opt_ref(wanted),
            Map::empty(),
            Seq::empty(),
        ),
    decreases items, 0nat,
{
    let ghost all = exprs_view(items@);
    let ghost of = arguments(env@, scopes_view(scopes@), all);
    let ghost whole = items_made(
        env@,
        of,
        table@,
        items@.len(),
        opt_ref(wanted),
        opt_ref(wanted),
        Map::empty(),
        Seq::empty(),
    );
    let mut done: Vec<CheckedExpr> = Vec::new();
    let mut subst = Substitution::new();
    let mut current: Option<MagType> = match wanted {
        Some(t) => Some(t.clone()),
        None => None,
    };
    assert(opt_type(current) == opt_ref(wanted));
    assert(all.len() == items@.len());
    assert(checked_view(done@) =~= Seq::empty());
    while done.len() < items.len()
        invariant
            done@.len() <= items@.len(),
            checked_view(done@).len() == done@.len(),
            all == exprs_view(items@),
            all.len() == items@.len(),
            of == arguments(env@, scopes_view(scopes@), all),
            whole == items_made(
                env@,
                of,
                old(table)@,
                items@.len(),
                opt_ref(wanted),
                opt_ref(wanted),
                Map::empty(),
                Seq::empty(),
            ),
            whole == items_made(
                env@,
                of,
                table@,
                items@.len(),
                opt_ref(wanted),
                opt_type(current),
                subst@,
                checked_view(done@),
            ),
        decreases items.len() - done.len(),
    {
        let i = done.len();
        assert(all[i as int] == items@[i as int]@);
        match wanted {
            Some(item) => {
                let target = substitute(item, &subst);
                let x = compile_expr(env, table, scopes, &items[i], Some(&target))?;
                match compatible_static(env, &x.ty, &target, &mut subst) {
                    Err(m) => {
                        return Err(MagError::Type(m));
                    },
                    Ok(_) => {},
                }
                current = Some(substitute(item, &subst));
                push_made(&mut done, x);
            },
            None => {
                let x = compile_expr(env, table, scopes, &items[i], None)?;
                match &current {
                    None => {
                        current = Some(x.ty.clone());
                    },
                    Some(t) => {
                        match fits_static(env, &x.ty, t) {
                            Err(_) => {
                                return Err(
                                    MagError::Type(
                                        cat4(
                                            "list elements must have one compatible type, got ",
                                            &t.show(),
                                            " and ",
                                            &x.ty.show(),
                                        ),
                                    ),
                                );
                            },
                            Ok(_) => {},
                        }
                    },
                }
                push_made(&mut done, x);
            },
        }
    }
    Ok((done, current))
}

fn compile_map(
    env: &Env,
    table: &mut Bindings,
    scopes: &Vec<CheckedScope>,
    fields: &Vec<(String, Expr)>,
    expected: Option<&MagType>,
) -> (r: Result<CheckedExpr, MagError>)
    ensures
        (final(table)@, made_result(r)) == record_rule(
            old(table)@,
            expr_fields_view(fields@),
            opt_ref(expected),
            field_values(env@, scopes_view(scopes@), expr_fields_view(fields@)),
            Seq::empty(),
            Seq::empty(),
        ),
    decreases fields, 0nat,
{
    let ghost all = expr_fields_view(fields@);
    let ghost of = field_values(env@, scopes_view(scopes@), all);
    let ghost whole = record_rule(
        table@,
        all,
        opt_ref(expected),
        of,
        Seq::empty(),
        Seq::empty(),
    );
    let mut done: Vec<(String, CheckedExpr)> = Vec::new();
    let mut types: Vec<(String, MagType)> = Vec::new();
    let mut i: usize = 0;
    proof {
        assert(all.len() == fields@.len());
        assert(checked_fields_view(done@) =~= Seq::empty());
        assert(fields_view(types@) =~= Seq::empty());
    }
    while i < fields.len()
        invariant
            i <= fields.len(),
            done@.len() == i,
            checked_fields_view(done@).len() == i,
            all == expr_fields_view(fields@),
            all.len() == fields@.len(),
            of == field_values(env@, scopes_view(scopes@), all),
            whole == record_rule(
                old(table)@,
                all,
                opt_ref(expected),
                of,
                Seq::empty(),
                Seq::empty(),
            ),
            whole == record_rule(
                table@,
                all,
                opt_ref(expected),
                of,
                checked_fields_view(done@),
                fields_view(types@),
            ),
        decreases fields.len() - i,
    {
        let ghost so_far = checked_fields_view(done@);
        assert(all[i as int] == (fields@[i as int].0@, fields@[i as int].1@));
        let name = &fields[i].0;
        let wanted: Option<&MagType> = match expected {
            Some(MagType::Record(known)) => field_named(known, name),
            _ => None,
        };
        assert(opt_ref(wanted) == field_wanted(opt_ref(expected), name@));
        let x = compile_expr(env, table, scopes, &fields[i].1, wanted)?;
        if field_named(&types, name).is_some() {
            return Err(MagError::Type(cat2("duplicate record field ", name)));
        }
        put_field(&mut types, name.clone(), x.ty.clone());
        let ghost entry = (name@, x@);
        done.push((name.clone(), x));
        assert(checked_fields_view(done@) =~= so_far.push(entry));
        i = i + 1;
    }
    let ty = MagType::Record(types);
    assert(ty@ == SType::Record(fields_view(types@)));
    let kind = CheckedExprKind::Fields(done);
    assert(kind.model() == SKind::Fields(checked_fields_view(done@)));
    Ok(make(ty, kind))
}

pub open spec fn args_result(r: Result<(Vec<CheckedExpr>, Substitution), MagError>) -> Result<
    (Seq<SChecked>, SSubst),
    SError,
> {
    match r {
        Ok((v, s)) => Ok((checked_view(v@), s@)),
        Err(e) => Err(e@),
    }
}

fn compile_value_args(
    env: &Env,
    table: &mut Bindings,
    scopes: &Vec<CheckedScope>,
    args: &Vec<Expr>,
    params: &Vec<MagType>,
) -> (r: Result<(Vec<CheckedExpr>, Substitution), MagError>)
    requires
        args@.len() == params@.len(),
    ensures
        (final(table)@, args_result(r)) == value_args(
            env@,
            arguments(env@, scopes_view(scopes@), exprs_view(args@)),
            old(table)@,
            types_view(params@),
            Map::empty(),
            Seq::empty(),
        ),
    decreases args, 0nat,
{
    let ghost all = exprs_view(args@);
    let ghost ps = types_view(params@);
    let ghost of = arguments(env@, scopes_view(scopes@), all);
    let ghost whole = value_args(env@, of, table@, ps, Map::empty(), Seq::empty());
    let mut done: Vec<CheckedExpr> = Vec::new();
    let mut subst = Substitution::new();
    proof {
        assert(all.len() == args@.len());
        assert(ps.len() == params@.len());
        assert(checked_view(done@) =~= Seq::empty());
    }
    while done.len() < args.len()
        invariant
            args@.len() == params@.len(),
            done@.len() <= args@.len(),
            checked_view(done@).len() == done@.len(),
            all == exprs_view(args@),
            ps == types_view(params@),
            all.len() == args@.len(),
            ps.len() == params@.len(),
            of == arguments(env@, scopes_view(scopes@), all),
            whole == value_args(env@, of, old(table)@, ps, Map::empty(), Seq::empty()),
            whole == value_args(env@, of, table@, ps, subst@, checked_view(done@)),
        decreases args.len() - done.len(),
    {
        let i = done.len();
        assert(all[i as int] == args@[i as int]@);
        assert(ps[i as int] == params@[i as int]@);
        let target = substitute(&params[i], &subst);
        let x = compile_expr(env, table, scopes, &args[i], Some(&target))?;
        match compatible_static(env, &x.ty, &target, &mut subst) {
            Err(m) => {
                return Err(MagError::Type(m));
            },
            Ok(_) => {},
        }
        push_made(&mut done, x);
    }
    Ok((done, subst))
}

fn compile_value_call(
    env: &Env,
    table: &mut Bindings,
    scopes: &Vec<CheckedScope>,
    callee: CheckedExpr,
    args: &Vec<Expr>,
    expected: Option<&MagType>,
) -> (r: Result<CheckedExpr, MagError>)
    ensures
        (final(table)@, made_result(r)) == value_call_rule(
            env@,
            old(table)@,
            callee@,
            args@.len(),
            opt_ref(expected),
            arguments(env@, scopes_view(scopes@), exprs_view(args@)),
        ),
    decreases args, 1nat,
{
    proof {
        reveal(value_call_rule);
    }
    match &callee.ty {
        MagType::Function(params, result) => {
            assert(callee.ty@ == SType::Function(types_view(params@), Box::new((**result)@)));
            assert(types_view(params@).len() == params@.len());
            if params.len() != args.len() {
                return Err(MagError::Arity { expected: params.len(), got: args.len() });
            }
            let (made, mut subst) = compile_value_args(env, table, scopes, args, params)?;
            let output = substitute(result, &subst);
            let bindable = internal_type_variables(&callee.ty);
            constrain_by(env, &output, expected, &mut subst, &bindable)?;
            let ty = substitute(&output, &subst);
            let kind = CheckedExprKind::Call { callee: Box::new(callee), args: made };
            assert(kind.model() == SKind::Call(Box::new(callee@), checked_view(made@)));
            Ok(make(ty, kind))
        },
        _ => Err(MagError::Type(cat2("cannot call ", &callee.ty.show()))),
    }
}

fn compile_call_args(
    env: &Env,
    table: &mut Bindings,
    scopes: &Vec<CheckedScope>,
    args: &Vec<Expr>,
    params: &Vec<MagType>,
    bindable: &NameSet,
) -> (r: Result<(Vec<CheckedExpr>, Substitution), MagError>)
    requires
        args@.len() == params@.len(),
    ensures
        (final(table)@, args_result(r)) == call_args(
            env@,
            arguments(env@, scopes_view(scopes@), exprs_view(args@)),
            old(table)@,
            types_view(params@),
            bindable@,
            Map::empty(),
            Seq::empty(),
        ),
        r is Ok ==> r->Ok_0.0@.len() == params@.len(),
    decreases args, 0nat,
{
    let ghost all = exprs_view(args@);
    let ghost ps = types_view(params@);
    let ghost of = arguments(env@, scopes_view(scopes@), all);
    let ghost whole = call_args(env@, of, table@, ps, bindable@, Map::empty(), Seq::empty());
    let mut done: Vec<CheckedExpr> = Vec::new();
    let mut subst = Substitution::new();
    proof {
        assert(all.len() == args@.len());
        assert(ps.len() == params@.len());
        assert(checked_view(done@) =~= Seq::empty());
    }
    while done.len() < args.len()
        invariant
            args@.len() == params@.len(),
            done@.len() <= args@.len(),
            checked_view(done@).len() == done@.len(),
            all == exprs_view(args@),
            ps == types_view(params@),
            all.len() == args@.len(),
            ps.len() == params@.len(),
            of == arguments(env@, scopes_view(scopes@), all),
            whole == call_args(
                env@,
                of,
                old(table)@,
                ps,
                bindable@,
                Map::empty(),
                Seq::empty(),
            ),
            whole == call_args(env@, of, table@, ps, bindable@, subst@, checked_view(done@)),
        decreases args.len() - done.len(),
    {
        let i = done.len();
        assert(all[i as int] == args@[i as int]@);
        assert(ps[i as int] == params@[i as int]@);
        let target = substitute(&params[i], &subst);
        let x = compile_expr(env, table, scopes, &args[i], Some(&target))?;
        match compatible_with_bindable(env, &x.ty, &target, &mut subst, bindable) {
            Err(m) => {
                return Err(MagError::Type(m));
            },
            Ok(_) => {},
        }
        push_made(&mut done, x);
    }
    Ok((done, subst))
}

fn check_args_specialized(
    env: &Env,
    table: &mut Bindings,
    args: &Vec<CheckedExpr>,
    params: &Vec<MagType>,
    subst: &Substitution,
) -> (r: Result<(), MagError>)
    requires
        args@.len() == params@.len(),
    ensures
        (final(table)@, unit_result(r)) == args_specialized(
            env@,
            old(table)@,
            checked_view(args@),
            types_view(params@),
            subst@,
            0,
        ),
{
    let ghost all = checked_view(args@);
    let ghost ps = types_view(params@);
    let ghost whole = args_specialized(env@, table@, all, ps, subst@, 0);
    let mut i: usize = 0;
    assert(all.len() == args@.len());
    while i < args.len()
        invariant
            i <= args.len(),
            args@.len() == params@.len(),
            all == checked_view(args@),
            ps == types_view(params@),
            all.len() == args@.len(),
            ps.len() == params@.len(),
            whole == args_specialized(env@, old(table)@, all, ps, subst@, 0),
            whole == args_specialized(env@, table@, all, ps, subst@, i as nat),
        decreases args.len() - i,
    {
        assert(all[i as int] == args@[i as int]@);
        assert(ps[i as int] == params@[i as int]@);
        let target = substitute(&params[i], subst);
        check_equality_specialization(env, table, &args[i], &target, subst)?;
        i = i + 1;
    }
    Ok(())
}

fn finish_candidate_call(
    env: &Env,
    table: &mut Bindings,
    c: &CheckedCandidate,
    bindable: &NameSet,
    params: &Vec<MagType>,
    result: &MagType,
    args: Vec<CheckedExpr>,
    subst: Substitution,
    expected: Option<&MagType>,
) -> (r: Result<CheckedExpr, MagError>)
    requires
        bindable@ == instance_vars(c@),
    ensures
        (final(table)@, made_result(r)) == constrained_call(
            env@,
            old(table)@,
            c@,
            types_view(params@),
            result@,
            checked_view(args@),
            subst@,
            opt_ref(expected),
        ),
{
    proof {
        reveal(constrained_call);
    }
    let mut subst = subst;
    let output = substitute(result, &subst);
    constrain_by(env, &output, expected, &mut subst, bindable)?;
    let requirements = instantiated_equality_requirements(env, table, c);
    validate_equality_requirements(env, table, &requirements, &subst)?;
    let types = substitute_all(params, &subst);
    Ok(make_call(c.id, types, substitute(result, &subst), args))
}

fn compile_candidate_call(
    env: &Env,
    table: &mut Bindings,
    scopes: &Vec<CheckedScope>,
    c: &CheckedCandidate,
    name: &str,
    args: &Vec<Expr>,
    expected: Option<&MagType>,
) -> (r: Result<CheckedExpr, MagError>)
    ensures
        (final(table)@, made_result(r)) == candidate_call(
            env@,
            old(table)@,
            c@,
            name@,
            args@.len(),
            opt_ref(expected),
            arguments(env@, scopes_view(scopes@), exprs_view(args@)),
        ),
    decreases args, 1nat,
{
    proof {
        reveal(candidate_call);
    }
    let (ty, bindable) = instantiate_candidate(c);
    match &ty {
        MagType::Function(params, result) => {
            assert(ty@ == SType::Function(types_view(params@), Box::new((**result)@)));
            assert(types_view(params@).len() == params@.len());
            if params.len() != args.len() {
                return Err(MagError::Arity { expected: params.len(), got: args.len() });
            }
            let (made, subst) = compile_call_args(env, table, scopes, args, params, &bindable)?;
            check_args_specialized(env, table, &made, params, &subst)?;
            finish_candidate_call(env, table, c, &bindable, params, result, made, subst, expected)
        },
        _ => Err(MagError::Type(cat3("no overload ", name, " matches call"))),
    }
}

pub open spec fn calls_made(items: Seq<(bool, CheckedExpr)>) -> Seq<(bool, SChecked)> {
    Seq::new(items.len(), |i: int| (items[i].0, items[i].1@))
}

fn count_plain(items: &Vec<(bool, CheckedExpr)>) -> (r: (usize, usize))
    ensures
        r.0 == calls_made(items@).filter(|m: (bool, SChecked)| !m.0).len(),
        r.0 == 1 ==> r.1 < items@.len() && calls_made(items@).filter(
            |m: (bool, SChecked)| !m.0,
        )[0] == calls_made(items@)[r.1 as int],
{
    let ghost all = calls_made(items@);
    let ghost keep = |m: (bool, SChecked)| !m.0;
    let mut n: usize = 0;
    let mut at: usize = 0;
    let mut i: usize = 0;
    assert(all.take(0).filter(keep) =~= Seq::empty());
    while i < items.len()
        invariant
            i <= items.len(),
            n <= i,
            all == calls_made(items@),
            keep == (|m: (bool, SChecked)| !m.0),
            n == all.take(i as int).filter(keep).len(),
            n == 1 ==> at < i && all.take(i as int).filter(keep)[0] == all[at as int],
        decreases items.len() - i,
    {
        proof {
            filter_step(all, keep, i as int);
        }
        if !items[i].0 {
            if n == 0 {
                at = i;
            }
            n = n + 1;
        }
        i = i + 1;
    }
    assert(all.take(items.len() as int) =~= all);
    (n, at)
}

fn compile_candidate_calls(
    env: &Env,
    table: &mut Bindings,
    scopes: &Vec<CheckedScope>,
    name: &str,
    items: &Vec<CheckedCandidate>,
    args: &Vec<Expr>,
    expected: Option<&MagType>,
) -> (r: Vec<(bool, CheckedExpr)>)
    ensures
        (final(table)@, calls_made(r@)) == candidate_calls(
            env@,
            old(table)@,
            candidates_view(items@),
            name@,
            args@.len(),
            opt_ref(expected),
            arguments(env@, scopes_view(scopes@), exprs_view(args@)),
            0,
            Seq::empty(),
        ),
    decreases args, 2nat,
{
    let ghost all = candidates_view(items@);
    let ghost of = arguments(env@, scopes_view(scopes@), exprs_view(args@));
    let ghost n = args@.len();
    let ghost whole = candidate_calls(
        env@,
        table@,
        all,
        name@,
        n,
        opt_ref(expected),
        of,
        0,
        Seq::empty(),
    );
    let mut done: Vec<(bool, CheckedExpr)> = Vec::new();
    let mut i: usize = 0;
    assert(calls_made(done@) =~= Seq::empty());
    while i < items.len()
        invariant
            i <= items.len(),
            all == candidates_view(items@),
            of == arguments(env@, scopes_view(scopes@), exprs_view(args@)),
            n == args@.len(),
            whole == candidate_calls(
                env@,
                old(table)@,
                all,
                name@,
                n,
                opt_ref(expected),
                of,
                0,
                Seq::empty(),
            ),
            whole == candidate_calls(
                env@,
                table@,
                all,
                name@,
                n,
                opt_ref(expected),
                of,
                i as nat,
                calls_made(done@),
            ),
        decreases items.len() - i,
    {
        let ghost so_far = calls_made(done@);
        assert(all[i as int] == items@[i as int]@);
        match compile_candidate_call(env, table, scopes, &items[i], name, args, expected) {
            Ok(x) => {
                let generic = items[i].generic_binders.len() > 0;
                let ghost entry = (generic, x@);
                done.push((generic, x));
                assert(calls_made(done@) =~= so_far.push(entry));
            },
            Err(_) => {},
        }
        i = i + 1;
    }
    done
}

fn compile_overloaded_call(
    env: &Env,
    table: &mut Bindings,
    scopes: &Vec<CheckedScope>,
    name: &str,
    items: &Vec<CheckedCandidate>,
    args: &Vec<Expr>,
    expected: Option<&MagType>,
) -> (r: Result<CheckedExpr, MagError>)
    ensures
        (final(table)@, made_result(r)) == overloaded_call(
            env@,
            old(table)@,
            name@,
            candidates_view(items@),
            args@.len(),
            opt_ref(expected),
            arguments(env@, scopes_view(scopes@), exprs_view(args@)),
        ),
    decreases args, 3nat,
{
    proof {
        reveal(overloaded_call);
        assert(candidates_view(items@).len() == items@.len());
    }
    if items.len() == 1 {
        assert(candidates_view(items@)[0] == items@[0]@);
        return compile_candidate_call(env, table, scopes, &items[0], name, args, expected);
    }
    let mut calls = compile_candidate_calls(env, table, scopes, name, items, args, expected);
    assert(calls_made(calls@).len() == calls@.len());
    let (plain_count, at) = count_plain(&calls);
    if calls.len() > 1 && plain_count == 1 {
        assert(calls_made(calls@)[at as int] == (calls@[at as int].0, calls@[at as int].1@));
        let (_, x) = calls.remove(at);
        return Ok(x);
    }
    if calls.len() == 1 {
        assert(calls_made(calls@)[0] == (calls@[0].0, calls@[0].1@));
        let (_, x) = calls.remove(0);
        Ok(x)
    } else if calls.len() == 0 {
        Err(MagError::Type(cat3("no overload ", name, " matches call")))
    } else {
        Err(MagError::Type(cat3("ambiguous overload ", name, " for call")))
    }
}

fn keep_functions(items: Vec<CheckedCandidate>) -> (r: Vec<CheckedCandidate>)
    ensures
        candidates_view(r@) == candidates_view(items@).filter(|c: SCandidate| c.ty is Function),
{
    let ghost all = candidates_view(items@);
    let ghost keep = |c: SCandidate| c.ty is Function;
    let mut r: Vec<CheckedCandidate> = Vec::new();
    let mut i: usize = 0;
    assert(all.take(0).filter(keep) =~= Seq::empty());
    assert(candidates_view(r@) =~= Seq::empty());
    while i < items.len()
        invariant
            i <= items.len(),
            all == candidates_view(items@),
            keep == (|c: SCandidate| c.ty is Function),
            candidates_view(r@) == all.take(i as int).filter(keep),
        decreases items.len() - i,
    {
        let ghost so_far = candidates_view(r@);
        proof {
            filter_step(all, keep, i as int);
        }
        if is_function(&items[i].ty) {
            let c = items[i].clone();
            r.push(c);
            assert(candidates_view(r@) =~= so_far.push(c@));
        }
        i = i + 1;
    }
    assert(all.take(items.len() as int) =~= all);
    r
}

pub open spec fn optional_made(r: Option<Result<CheckedExpr, MagError>>) -> Option<
    Result<SChecked, SError>,
> {
    match r {
        Some(x) => Some(made_result(x)),
        None => None,
    }
}

fn compile_named_call(
    env: &Env,
    table: &mut Bindings,
    scopes: &Vec<CheckedScope>,
    name: &str,
    args: &Vec<Expr>,
    expected: Option<&MagType>,
) -> (r: Option<Result<CheckedExpr, MagError>>)
    ensures
        (final(table)@, optional_made(r)) == named_call_rule(
            env@,
            old(table)@,
            scopes_view(scopes@),
            name@,
            exprs_view(args@),
            opt_ref(expected),
            arguments(env@, scopes_view(scopes@), exprs_view(args@)),
            first_positions(env@, scopes_view(scopes@), exprs_view(args@)),
        ),
    decreases args, 4nat,
{
    proof {
        reveal(named_call_rule);
        assert(exprs_view(args@).len() == args@.len());
    }
    let functions = keep_functions(all_candidates(env, table, scopes, name));
    assert(candidates_view(functions@).len() == functions@.len());
    let builtin = builtin_id(env, name);
    if functions.len() > 0 {
        let made = compile_overloaded_call(env, table, scopes, name, &functions, args, expected);
        if made.is_ok() || builtin.is_none() {
            return Some(made);
        }
    }
    match builtin {
        Some(id) => Some(compile_builtin_call(env, table, scopes, name, id, args, expected)),
        None => None,
    }
}

fn compile_builtin_call(
    env: &Env,
    table: &mut Bindings,
    scopes: &Vec<CheckedScope>,
    name: &str,
    id: BindingId,
    args: &Vec<Expr>,
    expected: Option<&MagType>,
) -> (r: Result<CheckedExpr, MagError>)
    ensures
        (final(table)@, made_result(r)) == builtin_call(
            env@,
            old(table)@,
            scopes_view(scopes@),
            name@,
            id,
            exprs_view(args@),
            opt_ref(expected),
            arguments(env@, scopes_view(scopes@), exprs_view(args@)),
            first_positions(env@, scopes_view(scopes@), exprs_view(args@)),
        ),
    decreases args, 2nat,
{
    proof {
        reveal(builtin_call);
        assert(exprs_view(args@).len() == args@.len());
    }
    if same(name, "__map-empty") && args.len() == 1 {
        compile_map_empty(env, table, scopes, id, args, expected)
    } else if same(name, "get") {
        compile_get(env, table, scopes, id, args)
    } else if same(name, "canonical") && args.len() != 1 {
        Err(MagError::Arity { expected: 1, got: args.len() })
    } else if same(name, "artifact") {
        compile_artifact(env, table, scopes, id, args)
    } else if same(name, "str") {
        compile_str(env, table, scopes, id, args)
    } else if same(name, "map") || same(name, "filter") || same(name, "flat-map") || same(
        name,
        "sort-by",
    ) || same(name, "group-by") || same(name, "indexed-map") {
        compile_collection_builtin(env, table, scopes, name, id, args, expected)
    } else if same(name, "fold") {
        compile_fold_builtin(env, table, scopes, id, args)
    } else {
        compile_general_call(env, table, scopes, name, id, args)
    }
}

fn compile_map_empty(
    env: &Env,
    table: &mut Bindings,
    scopes: &Vec<CheckedScope>,
    id: BindingId,
    args: &Vec<Expr>,
    expected: Option<&MagType>,
) -> (r: Result<CheckedExpr, MagError>)
    requires
        args@.len() == 1,
    ensures
        (final(table)@, made_result(r)) == map_empty_call(
            env@,
            old(table)@,
            id,
            opt_ref(expected),
            arguments(env@, scopes_view(scopes@), exprs_view(args@)),
        ),
    decreases args, 1nat,
{
    proof {
        reveal(map_empty_call);
        assert(exprs_view(args@).len() == args@.len());
    }
    match expected {
        Some(MagType::MapOf(key, value)) => {
            require_equality_admissible(env, table, key)?;
            let wanted = tag((**key).clone());
            let k = compile_expr(env, table, scopes, &args[0], Some(&wanted))?;
            let output = map_of((**key).clone(), (**value).clone());
            Ok(make_call(id, types1(k.ty.clone()), output, exprs1(k)))
        },
        _ => Err(
            MagError::Type("one-argument __map-empty requires an expected Map type".to_owned()),
        ),
    }
}

fn compile_get(
    env: &Env,
    table: &mut Bindings,
    scopes: &Vec<CheckedScope>,
    id: BindingId,
    args: &Vec<Expr>,
) -> (r: Result<CheckedExpr, MagError>)
    ensures
        (final(table)@, made_result(r)) == get_call(
            env@,
            old(table)@,
            id,
            exprs_view(args@),
            arguments(env@, scopes_view(scopes@), exprs_view(args@)),
        ),
    decreases args, 1nat,
{
    proof {
        reveal(get_call);
        assert(exprs_view(args@).len() == args@.len());
    }
    if args.len() != 2 {
        return Err(MagError::Arity { expected: 2, got: args.len() });
    }
    assert(exprs_view(args@)[1] == args@[1]@);
    let target = compile_expr(env, table, scopes, &args[0], None)?;
    match &target.ty {
        MagType::HostInputs | MagType::MapOf(_, _) => {
            return Err(MagError::Type(cat2("get expects a record, got ", &target.ty.show())));
        },
        _ => {},
    }
    let wanted = MagType::String;
    let key = compile_expr(env, table, scopes, &args[1], Some(&wanted))?;
    let written = written_key(&args[1]);
    match field_type(env, &target.ty, written) {
        None => Err(
            MagError::Type(
                cat4("cannot get ", &show_key(written), " from ", &target.ty.show()),
            ),
        ),
        Some(output) => {
            let types = types2(target.ty.clone(), MagType::String);
            Ok(make_call(id, types, output, exprs2(target, key)))
        },
    }
}

fn compile_artifact(
    env: &Env,
    table: &mut Bindings,
    scopes: &Vec<CheckedScope>,
    id: BindingId,
    args: &Vec<Expr>,
) -> (r: Result<CheckedExpr, MagError>)
    ensures
        (final(table)@, made_result(r)) == artifact_call(
            env@,
            old(table)@,
            id,
            exprs_view(args@),
            arguments(env@, scopes_view(scopes@), exprs_view(args@)),
            first_positions(env@, scopes_view(scopes@), exprs_view(args@)),
        ),
    decreases args, 1nat,
{
    proof {
        reveal(artifact_call);
        assert(exprs_view(args@).len() == args@.len());
    }
    if args.len() != 1 {
        return Err(MagError::Arity { expected: 1, got: args.len() });
    }
    assert(exprs_view(args@)[0] == args@[0]@);
    let data = match &args[0] {
        Expr::Vector(items) => {
            assert(args@[0]@ == SExpr::Vector(exprs_view(items@)));
            assert(exprs_view(items@).len() == items@.len());
            let product = MagType::Product(Vec::new());
            assert(product@ == SType::Product(types_view(Seq::<MagType>::empty())));
            assert(types_view(Seq::<MagType>::empty()) =~= Seq::empty());
            let made = compile_vector(env, table, scopes, items, Some(&product));
            finish(env, table, made, None)?
        },
        _ => compile_expr(env, table, scopes, &args[0], None)?,
    };
    Ok(make_call(id, types1(data.ty.clone()), MagType::Artifact, exprs1(data)))
}

fn compile_str(
    env: &Env,
    table: &mut Bindings,
    scopes: &Vec<CheckedScope>,
    id: BindingId,
    args: &Vec<Expr>,
) -> (r: Result<CheckedExpr, MagError>)
    ensures
        (final(table)@, made_result(r)) == str_call(
            old(table)@,
            id,
            args@.len(),
            arguments(env@, scopes_view(scopes@), exprs_view(args@)),
        ),
    decreases args, 1nat,
{
    proof {
        reveal(str_call);
    }
    let made = compile_all(env, table, scopes, args)?;
    let types = made_types(&made);
    Ok(make_call(id, types, MagType::String, made))
}

fn compile_general_call(
    env: &Env,
    table: &mut Bindings,
    scopes: &Vec<CheckedScope>,
    name: &str,
    id: BindingId,
    args: &Vec<Expr>,
) -> (r: Result<CheckedExpr, MagError>)
    ensures
        (final(table)@, made_result(r)) == general_call(
            env@,
            old(table)@,
            scopes_view(scopes@),
            name@,
            id,
            exprs_view(args@),
            arguments(env@, scopes_view(scopes@), exprs_view(args@)),
        ),
    decreases args, 1nat,
{
    proof {
        reveal(general_call);
        assert(exprs_view(args@).len() == args@.len());
    }
    let none: CheckedScope = Vec::new();
    assert(scope_view(none@) =~= Seq::empty());
    let locals = visible_types(scopes, &none);
    let result = infer_builtin(env, table, &locals, name, args)?;
    let made = compile_all(env, table, scopes, args)?;
    let types = made_types(&made);
    Ok(make_call(id, types, result, made))
}

fn make_callback_result(name: &str, expected: Option<&MagType>) -> (r: MagType)
    ensures
        r@ == callback_result(name@, opt_ref(expected)),
{
    if same(name, "filter") {
        MagType::Bool
    } else if same(name, "sort-by") || same(name, "group-by") {
        MagType::String
    } else if same(name, "flat-map") {
        match expected {
            Some(t) => t.clone(),
            None => list(MagType::Var("\0builtin.result".to_owned())),
        }
    } else {
        match expected {
            Some(MagType::List(item)) => (**item).clone(),
            _ => MagType::Var("\0builtin.result".to_owned()),
        }
    }
}

fn make_callback_params(name: &str, item: &MagType) -> (r: Vec<MagType>)
    ensures
        types_view(r@) == callback_params(name@, item@),
{
    if same(name, "indexed-map") {
        types2(MagType::Int, item.clone())
    } else {
        types1(item.clone())
    }
}

fn explain_callback(name: &str, e: MagError) -> (r: MagError)
    ensures
        r@ == callback_failure(name@, e@),
{
    if same(name, "sort-by") || same(name, "group-by") {
        MagError::Type(cat3(name, " callback must return String: ", &e.text()))
    } else if same(name, "filter") {
        MagError::Type(cat2("filter callback must return Bool: ", &e.text()))
    } else {
        e
    }
}

fn make_collected_type(name: &str, collection: &MagType, result: &MagType) -> (r: MagType)
    ensures
        r@ == collected_type(name@, collection@, result@),
{
    if same(name, "filter") || same(name, "sort-by") {
        collection.clone()
    } else if same(name, "group-by") {
        map_of(MagType::String, collection.clone())
    } else if same(name, "flat-map") {
        result.clone()
    } else {
        list(result.clone())
    }
}

fn compile_collection_builtin(
    env: &Env,
    table: &mut Bindings,
    scopes: &Vec<CheckedScope>,
    name: &str,
    id: BindingId,
    args: &Vec<Expr>,
    expected: Option<&MagType>,
) -> (r: Result<CheckedExpr, MagError>)
    ensures
        (final(table)@, made_result(r)) == collection_call(
            env@,
            old(table)@,
            name@,
            id,
            args@.len(),
            opt_ref(expected),
            arguments(env@, scopes_view(scopes@), exprs_view(args@)),
        ),
    decreases args, 1nat,
{
    proof {
        reveal(collection_call);
        assert(exprs_view(args@).len() == args@.len());
    }
    if args.len() != 2 {
        return Err(MagError::Arity { expected: 2, got: args.len() });
    }
    let collection = compile_expr(env, table, scopes, &args[1], None)?;
    match &collection.ty {
        MagType::List(item) => {
            let params = make_callback_params(name, item);
            let wanted = crate::builtins::function(params, make_callback_result(name, expected));
            let callback = match compile_expr(env, table, scopes, &args[0], Some(&wanted)) {
                Ok(c) => c,
                Err(e) => {
                    return Err(explain_callback(name, e));
                },
            };
            match &callback.ty {
                MagType::Function(_, result) => {
                    let output = make_collected_type(name, &collection.ty, result);
                    let types = types2(callback.ty.clone(), collection.ty.clone());
                    Ok(make_call(id, types, output, exprs2(callback, collection)))
                },
                _ => Err(MagError::Type(cat2(name, " expects a function"))),
            }
        },
        _ => Err(MagError::Type(cat2(name, " expects List"))),
    }
}

fn compile_fold_builtin(
    env: &Env,
    table: &mut Bindings,
    scopes: &Vec<CheckedScope>,
    id: BindingId,
    args: &Vec<Expr>,
) -> (r: Result<CheckedExpr, MagError>)
    ensures
        (final(table)@, made_result(r)) == fold_call(
            old(table)@,
            id,
            args@.len(),
            arguments(env@, scopes_view(scopes@), exprs_view(args@)),
        ),
    decreases args, 1nat,
{
    proof {
        reveal(fold_call);
        assert(exprs_view(args@).len() == args@.len());
    }
    if args.len() != 3 {
        return Err(MagError::Arity { expected: 3, got: args.len() });
    }
    let init = compile_expr(env, table, scopes, &args[1], None)?;
    let collection = compile_expr(env, table, scopes, &args[2], None)?;
    match &collection.ty {
        MagType::List(item) => {
            let wanted = crate::builtins::function(
                types2(init.ty.clone(), (**item).clone()),
                init.ty.clone(),
            );
            let callback = compile_expr(env, table, scopes, &args[0], Some(&wanted))?;
            let types = types3(callback.ty.clone(), init.ty.clone(), collection.ty.clone());
            let output = init.ty.clone();
            Ok(make_call(id, types, output, exprs3(callback, init, collection)))
        },
        _ => Err(MagError::Type("fold expects List".to_owned())),
    }
}

fn make_binder_scope(type_params: &Vec<String>) -> (r: CheckedScope)
    ensures
        scope_view(r@) == binder_scope(strings(type_params@)),
{
    assert(strings(type_params@).len() == type_params@.len());
    if type_params.len() == 0 {
        let r: CheckedScope = Vec::new();
        assert(scope_view(r@) =~= Seq::empty());
        return r;
    }
    let vars = name_vars(type_params);
    let ty = MagType::Product(vars);
    assert(ty@ == SType::Product(types_view(vars@)));
    let none: Vec<String> = Vec::new();
    assert(strings(none@) =~= Seq::empty());
    let candidate = CheckedCandidate {
        id: BindingId(u64::MAX),
        ty,
        generic_binders: none,
        contributes_type_vars: true,
    };
    let items = vec![candidate];
    assert(candidates_view(items@) =~= seq![candidate@]);
    let label = "\0type-binders".to_owned();
    let r = vec![(label, items)];
    assert(scope_view(r@) =~= seq![(type_binder_key(), seq![candidate@])]);
    r
}

pub open spec fn declared_params_result(
    r: Result<(CheckedScope, Vec<CheckedParam>), MagError>,
) -> Result<(SScope, Seq<SParam>), SError> {
    match r {
        Ok((s, p)) => Ok((scope_view(s@), params_view(p@))),
        Err(e) => Err(e@),
    }
}

fn declare_params(
    env: &Env,
    table: &mut Bindings,
    scopes: &Vec<CheckedScope>,
    params: &Vec<Parameter>,
    types: &Vec<MagType>,
    type_params: &Vec<String>,
) -> (r: Result<(CheckedScope, Vec<CheckedParam>), MagError>)
    requires
        params@.len() == types@.len(),
    ensures
        (final(table)@, declared_params_result(r)) == params_declared(
            env@,
            scopes_view(scopes@),
            parameters_view(params@),
            types_view(types@),
            old(table)@,
            binder_scope(strings(type_params@)),
            Seq::empty(),
        ),
{
    let ghost outer = scopes_view(scopes@);
    let ghost all = parameters_view(params@);
    let ghost ts = types_view(types@);
    let ghost first = binder_scope(strings(type_params@));
    let ghost whole = params_declared(env@, outer, all, ts, table@, first, Seq::empty());
    let mut scope = make_binder_scope(type_params);
    let mut done: Vec<CheckedParam> = Vec::new();
    let mut i: usize = 0;
    assert(params_view(done@) =~= Seq::empty());
    while i < params.len()
        invariant
            i <= params.len(),
            done@.len() == i,
            params@.len() == types@.len(),
            outer == scopes_view(scopes@),
            all == parameters_view(params@),
            ts == types_view(types@),
            ts.len() == types@.len(),
            first == binder_scope(strings(type_params@)),
            whole == params_declared(env@, outer, all, ts, old(table)@, first, Seq::empty()),
            whole == params_declared(
                env@,
                outer,
                all,
                ts,
                table@,
                scope_view(scope@),
                params_view(done@),
            ),
        decreases params.len() - i,
    {
        let ghost so_far = params_view(done@);
        assert(all[i as int] == (params@[i as int].name@, params@[i as int].ty@));
        assert(ts[i as int] == types@[i as int]@);
        let ty = types[i].clone();
        let id = table.allocate_binding_id(&params[i].name, Some(types[i].clone()));
        declare_plain(env, table, scopes, &mut scope, &params[i].name, id, types[i].clone())?;
        let p = CheckedParam { id, name: params[i].name.clone(), ty };
        done.push(p);
        assert(params_view(done@) =~= so_far.push(p@));
        i = i + 1;
    }
    Ok((scope, done))
}

fn names_without(own: &NameSet, names: &Vec<String>) -> (r: NameSet)
    ensures
        r@ == own@.difference(strings(names@).to_set()),
{
    let ghost others = strings(names@);
    let mut r = NameSet::new();
    let mut i: usize = 0;
    while i < own.names.len()
        invariant
            i <= own.names@.len(),
            others == strings(names@),
            forall|n: Seq<char>| #[trigger]
                r@.contains(n) ==> own@.contains(n) && !others.contains(n),
            forall|j: int|
                0 <= j < i && !others.contains((#[trigger] own.names@[j])@) ==> r@.contains(
                    own.names@[j]@,
                ),
        decreases own.names.len() - i,
    {
        assert(own@.contains(own.names@[i as int]@));
        if !contains_name(names, &own.names[i]) {
            r.insert(&own.names[i]);
        }
        i = i + 1;
    }
    assert forall|n: Seq<char>| r@.contains(n) <==> own@.difference(others.to_set()).contains(
        n,
    ) by {
        if own@.contains(n) && !others.contains(n) {
            let j = choose|j: int| 0 <= j < own.names@.len() && (#[trigger] own.names@[j])@ == n;
            assert(r@.contains(own.names@[j]@));
        }
    }
    assert(r@ =~= own@.difference(others.to_set()));
    r
}

fn names_within(names: &Vec<String>, own: &NameSet) -> (r: Vec<String>)
    ensures
        strings(r@) == strings(names@).filter(|p: Seq<char>| own@.contains(p)),
{
    let ghost all = strings(names@);
    let ghost keep = |p: Seq<char>| own@.contains(p);
    let mut r: Vec<String> = Vec::new();
    let mut i: usize = 0;
    assert(all.take(0).filter(keep) =~= Seq::empty());
    assert(strings(r@) =~= Seq::empty());
    while i < names.len()
        invariant
            i <= names.len(),
            all == strings(names@),
            keep == (|p: Seq<char>| own@.contains(p)),
            strings(r@) == all.take(i as int).filter(keep),
        decreases names.len() - i,
    {
        let ghost so_far = strings(r@);
        proof {
            filter_step(all, keep, i as int);
            assert(all[i as int] == names@[i as int]@);
        }
        if own.contains(&names[i]) {
            let name = names[i].clone();
            r.push(name);
            assert(strings(r@) =~= so_far.push(name@));
        }
        i = i + 1;
    }
    assert(all.take(names.len() as int) =~= all);
    r
}

fn type_of_block(block: &CheckedBlock) -> (r: MagType)
    ensures
        r@ == block_type(block@),
{
    let n = block.expressions.len();
    assert(block@.expressions == checked_view(block.expressions@));
    assert(checked_view(block.expressions@).len() == n);
    if n == 0 {
        MagType::Unit
    } else {
        assert(checked_view(block.expressions@)[n - 1] == block.expressions@[n - 1]@);
        block.expressions[n - 1].ty.clone()
    }
}

fn close_function(
    env: &Env,
    table: &mut Bindings,
    name: Option<&str>,
    type_params: &Vec<String>,
    types: Vec<MagType>,
    params: Vec<CheckedParam>,
    result: MagType,
    id: Option<BindingId>,
    block: CheckedBlock,
    own: NameSet,
) -> (r: Result<CheckedExpr, MagError>)
    ensures
        (final(table)@, made_result(r)) == closed_function(
            env@,
            old(table)@,
            opt_str(name),
            strings(type_params@),
            types_view(types@),
            params_view(params@),
            result@,
            id,
            block@,
            own@,
        ),
{
    proof {
        reveal(closed_function);
    }
    let others = names_without(&own, type_params);
    table.record_equality_variables(&others);
    let equality = names_within(type_params, &own);
    match id {
        Some(id) => {
            let requirements = clone_names(&equality);
            table.set_equality_requirements(id, requirements);
        },
        None => {},
    }
    let actual = type_of_block(&block);
    match fits_static(env, &actual, &result) {
        Err(m) => {
            let label = match name {
                Some(n) => cat2(n, " "),
                None => "".to_owned(),
            };
            Err(
                MagError::Type(
                    cat6(
                        "function ",
                        &label,
                        "returns ",
                        &actual.show(),
                        ", declared ",
                        &cat3(&result.show(), ": ", &m),
                    ),
                ),
            )
        },
        Ok(_) => {
            let ty = MagType::Function(types, Box::new(result.clone()));
            assert(ty@ == sfun(types_view(types@), result@));
            let label = match name {
                Some(n) => Some(n.to_owned()),
                None => None,
            };
            let f = CheckedFn {
                name: label,
                type_params: clone_names(type_params),
                equality_params: equality,
                params,
                result,
                body: Arc::new(block),
            };
            let ghost model = SCheckedFn {
                name: opt_str(name),
                type_params: strings(type_params@),
                equality_params: strings(equality@),
                params: params_view(params@),
                result: result@,
                body: Box::new(block@),
            };
            assert(f@ == model);
            let kind = CheckedExprKind::Function(Arc::new(f));
            assert(kind.model() == SKind::Function(model));
            Ok(make(ty, kind))
        },
    }
}

fn compile_function(
    env: &Env,
    table: &mut Bindings,
    scopes: &Vec<CheckedScope>,
    name: Option<&str>,
    function: &Function,
    expected: Option<&MagType>,
    id: Option<BindingId>,
) -> (r: Result<CheckedExpr, MagError>)
    ensures
        (final(table)@, made_result(r)) == function_made(
            env@,
            old(table)@,
            scopes_view(scopes@),
            opt_str(name),
            function@,
            opt_ref(expected),
            id,
        ),
    decreases function, 1nat,
{
    proof {
        reveal(function_rule);
        assert(function@.body == items_view(function.body@));
    }
    let mut vars = visible_type_variables(scopes);
    vars.extend_names(&function.type_params);
    let types = resolve_parameters(env, &function.params, &vars)?;
    let result = resolve_type(env, &function.result, &vars)?;
    proof {
        parameter_count(env@, parameters_view(function.params@), vars@);
        assert(types_view(types@).len() == types@.len());
    }
    let signature = crate::builtins::function(clone_types(&types), result.clone());
    fit_expected(env, &signature, expected)?;
    let (scope, params) = declare_params(
        env,
        table,
        scopes,
        &function.params,
        &types,
        &function.type_params,
    )?;
    let inner = extend_scopes(scopes, scope);
    let outer = table.begin_obligations();
    let body = compile_block_in(env, table, &inner, &function.body, Some(&result));
    let own = table.end_obligations(outer);
    match body {
        Err(e) => Err(e),
        Ok(block) => close_function(
            env,
            table,
            name,
            &function.type_params,
            types,
            params,
            result,
            id,
            block,
            own,
        ),
    }
}

/// There is a type for each parameter.
/// Parameters have one type each.
pub proof fn parameter_count(
    env: SEnv,
    params: Seq<(Seq<char>, SAuthoredType)>,
    vars: Set<Seq<char>>,
)
    ensures
        match parameter_types(env, params, vars) {
            Ok(t) => t.len() == params.len(),
            Err(_) => true,
        },
    decreases params.len(),
{
    if params.len() > 0 {
        parameter_count(env, params.drop_first(), vars);
    }
}

pub open spec fn lets_view(items: Seq<(usize, BindingId)>) -> SLets {
    Seq::new(items.len(), |i: int| (items[i].0 as int, items[i].1))
}

/// Whether each position is that of a bound item.
pub open spec fn lets_in(items: Seq<SItem>, lets: SLets) -> bool {
    forall|j: int|
        0 <= j < lets.len() ==> 0 <= (#[trigger] lets[j]).0 < items.len()
            && items[lets[j].0] is Let
}

fn find_invalid(items: &Vec<BlockItem>) -> (r: Option<MagError>)
    ensures
        match r {
            Some(e) => invalid_item(items_view(items@), 0) == Some(e@),
            None => invalid_item(items_view(items@), 0) is None,
        },
{
    let ghost all = items_view(items@);
    let mut i: usize = 0;
    assert(all.len() == items@.len());
    while i < items.len()
        invariant
            i <= items.len(),
            all == items_view(items@),
            all.len() == items@.len(),
            invalid_item(all, 0) == invalid_item(all, i as nat),
        decreases items.len() - i,
    {
        assert(all[i as int] == items@[i as int]@);
        match &items[i] {
            BlockItem::Invalid(e) => {
                return Some(e.clone().into_mag_error());
            },
            _ => {},
        }
        i = i + 1;
    }
    None
}

fn allocate_lets(items: &Vec<BlockItem>, table: &mut Bindings) -> (r: Vec<(usize, BindingId)>)
    ensures
        (final(table)@, lets_view(r@)) == allocated(
            items_view(items@),
            0,
            old(table)@,
            Seq::empty(),
        ),
        lets_in(items_view(items@), lets_view(r@)),
{
    let ghost all = items_view(items@);
    let ghost whole = allocated(all, 0, table@, Seq::empty());
    let mut r: Vec<(usize, BindingId)> = Vec::new();
    let mut i: usize = 0;
    assert(all.len() == items@.len());
    assert(lets_view(r@) =~= Seq::empty());
    while i < items.len()
        invariant
            i <= items.len(),
            all == items_view(items@),
            all.len() == items@.len(),
            lets_in(all, lets_view(r@)),
            whole == allocated(all, 0, old(table)@, Seq::empty()),
            whole == allocated(all, i as nat, table@, lets_view(r@)),
        decreases items.len() - i,
    {
        let ghost so_far = lets_view(r@);
        assert(all[i as int] == items@[i as int]@);
        match &items[i] {
            BlockItem::Let { name, .. } => {
                let id = table.allocate_binding_id(name, None);
                r.push((i, id));
                assert(lets_view(r@) =~= so_far.push((i as int, id)));
            },
            _ => {},
        }
        i = i + 1;
    }
    r
}

fn bound_name(item: &BlockItem) -> (r: &str)
    ensures
        r@ == let_name(item@),
{
    match item {
        BlockItem::Let { name, .. } => name.as_str(),
        _ => {
            proof {
                reveal_strlit("");
                assert(""@ =~= Seq::<char>::empty());
            }
            ""
        },
    }
}

fn bound_names(items: &Vec<BlockItem>, lets: &Vec<(usize, BindingId)>) -> (r: Vec<String>)
    requires
        lets_in(items_view(items@), lets_view(lets@)),
    ensures
        strings(r@) == let_names(items_view(items@), lets_view(lets@)),
{
    let ghost all = items_view(items@);
    let ghost model = let_names(all, lets_view(lets@));
    let mut r: Vec<String> = Vec::new();
    let mut i: usize = 0;
    assert(all.len() == items@.len());
    while i < lets.len()
        invariant
            i <= lets.len(),
            r.len() == i,
            all == items_view(items@),
            all.len() == items@.len(),
            model == let_names(all, lets_view(lets@)),
            lets_in(all, lets_view(lets@)),
            strings(r@) =~= model.take(i as int),
        decreases lets.len() - i,
    {
        let ghost so_far = strings(r@);
        assert(lets_view(lets@)[i as int] == (lets@[i as int].0 as int, lets@[i as int].1));
        assert(all[lets@[i as int].0 as int] == items@[lets@[i as int].0 as int]@);
        let name = bound_name(&items[lets[i].0]).to_owned();
        r.push(name);
        assert(strings(r@) =~= so_far.push(name@));
        i = i + 1;
    }
    assert(strings(r@) =~= model);
    r
}

pub open spec fn scope_and_lets_result(
    r: Result<(CheckedScope, Vec<(usize, BindingId)>), MagError>,
) -> Result<(SScope, SLets), SError> {
    match r {
        Ok((s, l)) => Ok((scope_view(s@), lets_view(l@))),
        Err(e) => Err(e@),
    }
}

fn declare_functions(
    env: &Env,
    table: &mut Bindings,
    outer: &Vec<CheckedScope>,
    items: &Vec<BlockItem>,
    lets: &Vec<(usize, BindingId)>,
) -> (r: Result<(CheckedScope, Vec<(usize, BindingId)>), MagError>)
    requires
        lets_in(items_view(items@), lets_view(lets@)),
    ensures
        (final(table)@, scope_and_lets_result(r)) == functions_declared(
            env@,
            scopes_view(outer@),
            items_view(items@),
            lets_view(lets@),
            0,
            old(table)@,
            Seq::empty(),
            Seq::empty(),
        ),
        r is Ok ==> lets_in(items_view(items@), lets_view(r->Ok_0.1@)),
{
    let ghost all = items_view(items@);
    let ghost o = scopes_view(outer@);
    let ghost ls = lets_view(lets@);
    let ghost whole = functions_declared(
        env@,
        o,
        all,
        ls,
        0,
        table@,
        Seq::empty(),
        Seq::empty(),
    );
    let vars = visible_type_variables(outer);
    let mut current: CheckedScope = Vec::new();
    let mut pending: Vec<(usize, BindingId)> = Vec::new();
    let mut k: usize = 0;
    proof {
        assert(all.len() == items@.len());
        assert(scope_view(current@) =~= Seq::empty());
        assert(lets_view(pending@) =~= Seq::empty());
    }
    while k < lets.len()
        invariant
            k <= lets.len(),
            all == items_view(items@),
            all.len() == items@.len(),
            o == scopes_view(outer@),
            ls == lets_view(lets@),
            lets_in(all, ls),
            lets_in(all, lets_view(pending@)),
            vars@ == scope_vars(o),
            whole == functions_declared(
                env@,
                o,
                all,
                ls,
                0,
                old(table)@,
                Seq::empty(),
                Seq::empty(),
            ),
            whole == functions_declared(
                env@,
                o,
                all,
                ls,
                k as nat,
                table@,
                scope_view(current@),
                lets_view(pending@),
            ),
        decreases lets.len() - k,
    {
        let ghost so_far = lets_view(pending@);
        let (at, id) = lets[k];
        assert(ls[k as int] == (at as int, id));
        assert(all[at as int] == items@[at as int]@);
        match &items[at] {
            BlockItem::Let { name, value: Expr::Function(f) } => {
                let ty = infer_fn_signature(env, &vars, f)?;
                let candidate = CheckedCandidate {
                    id,
                    ty,
                    generic_binders: clone_names(&f.type_params),
                    contributes_type_vars: false,
                };
                insert_checked_candidate(env, table, outer, &mut current, name, candidate)?;
            },
            _ => {
                pending.push((at, id));
                assert(lets_view(pending@) =~= so_far.push((at as int, id)));
            },
        }
        k = k + 1;
    }
    Ok((current, pending))
}

fn infer_strict(
    env: &Env,
    table: &mut Bindings,
    outer: &Vec<CheckedScope>,
    current: &CheckedScope,
    expr: &Expr,
) -> (r: Result<MagType, MagError>)
    ensures
        (final(table)@, type_result(r)) == strict_type(
            env@,
            old(table)@,
            scopes_view(outer@),
            scope_view(current@),
            expr@,
        ),
{
    proof {
        reveal(strict_type);
    }
    match expr {
        Expr::Name(source) => {
            let candidates = visible_candidates(env, table, outer, current, source);
            assert(candidates_view(candidates@).len() == candidates@.len());
            if candidates.len() == 1 {
                assert(candidates_view(candidates@)[0] == candidates@[0]@);
                assert(strings(candidates@[0].generic_binders@).len()
                    == candidates@[0].generic_binders@.len());
                if candidates[0].generic_binders.len() > 0 {
                    return Ok(instantiate_candidate(&candidates[0]).0);
                }
            }
        },
        _ => {},
    }
    let locals = visible_types(outer, current);
    infer(env, table, &locals, expr)
}

fn strict_round(
    env: &Env,
    table: &mut Bindings,
    outer: &Vec<CheckedScope>,
    items: &Vec<BlockItem>,
    names: &Vec<String>,
    pending: &Vec<(usize, BindingId)>,
    start: CheckedScope,
) -> (r: Result<(CheckedScope, Vec<(usize, BindingId)>), MagError>)
    requires
        lets_in(items_view(items@), lets_view(pending@)),
    ensures
        (final(table)@, scope_and_lets_result(r)) == strict_pass(
            env@,
            scopes_view(outer@),
            items_view(items@),
            strings(names@),
            lets_view(pending@),
            0,
            old(table)@,
            scope_view(start@),
            Seq::empty(),
        ),
        r is Ok ==> lets_in(items_view(items@), lets_view(r->Ok_0.1@)),
{
    let ghost all = items_view(items@);
    let ghost o = scopes_view(outer@);
    let ghost ls = lets_view(pending@);
    let ghost first = scope_view(start@);
    let ghost whole = strict_pass(
        env@,
        o,
        all,
        strings(names@),
        ls,
        0,
        table@,
        first,
        Seq::empty(),
    );
    let mut current = start;
    let mut next: Vec<(usize, BindingId)> = Vec::new();
    let mut k: usize = 0;
    proof {
        assert(all.len() == items@.len());
        assert(lets_view(next@) =~= Seq::empty());
    }
    while k < pending.len()
        invariant
            k <= pending.len(),
            all == items_view(items@),
            all.len() == items@.len(),
            o == scopes_view(outer@),
            ls == lets_view(pending@),
            lets_in(all, ls),
            lets_in(all, lets_view(next@)),
            first == scope_view(start@),
            whole == strict_pass(
                env@,
                o,
                all,
                strings(names@),
                ls,
                0,
                old(table)@,
                first,
                Seq::empty(),
            ),
            whole == strict_pass(
                env@,
                o,
                all,
                strings(names@),
                ls,
                k as nat,
                table@,
                scope_view(current@),
                lets_view(next@),
            ),
        decreases pending.len() - k,
    {
        let ghost so_far = lets_view(next@);
        let (at, id) = pending[k];
        assert(ls[k as int] == (at as int, id));
        assert(all[at as int] == items@[at as int]@);
        match &items[at] {
            BlockItem::Let { name, value } => {
                match infer_strict(env, table, outer, &current, value) {
                    Ok(ty) => {
                        declare_plain(env, table, outer, &mut current, name, id, ty)?;
                    },
                    Err(MagError::Unresolved(symbol)) => {
                        if contains_name(names, &symbol) {
                            next.push((at, id));
                            assert(lets_view(next@) =~= so_far.push((at as int, id)));
                        } else {
                            return Err(MagError::Unresolved(symbol));
                        }
                    },
                    Err(e) => {
                        return Err(e);
                    },
                }
            },
            _ => {},
        }
        k = k + 1;
    }
    Ok((current, next))
}

pub open spec fn scope_result(r: Result<CheckedScope, MagError>) -> Result<SScope, SError> {
    match r {
        Ok(s) => Ok(scope_view(s@)),
        Err(e) => Err(e@),
    }
}

fn declare_strict(
    env: &Env,
    table: &mut Bindings,
    outer: &Vec<CheckedScope>,
    items: &Vec<BlockItem>,
    names: &Vec<String>,
    pending: Vec<(usize, BindingId)>,
    current: CheckedScope,
) -> (r: Result<CheckedScope, MagError>)
    requires
        lets_in(items_view(items@), lets_view(pending@)),
    ensures
        (final(table)@, scope_result(r)) == strict_rounds(
            env@,
            scopes_view(outer@),
            items_view(items@),
            strings(names@),
            lets_view(pending@),
            old(table)@,
            scope_view(current@),
        ),
    decreases pending@.len(),
{
    assert(lets_view(pending@).len() == pending@.len());
    if pending.len() == 0 {
        return Ok(current);
    }
    let (current, next) = strict_round(env, table, outer, items, names, &pending, current)?;
    assert(lets_view(next@).len() == next@.len());
    if next.len() < pending.len() {
        declare_strict(env, table, outer, items, names, next, current)
    } else {
        let left = bound_names(items, &next);
        Err(
            MagError::Type(
                cat2("cannot infer recursive strict bindings: ", &join(&left, ", ")),
            ),
        )
    }
}

fn declare_block(
    env: &Env,
    table: &mut Bindings,
    outer: &Vec<CheckedScope>,
    items: &Vec<BlockItem>,
    lets: &Vec<(usize, BindingId)>,
) -> (r: Result<CheckedScope, MagError>)
    requires
        lets_in(items_view(items@), lets_view(lets@)),
    ensures
        (final(table)@, scope_result(r)) == block_scope(
            env@,
            old(table)@,
            scopes_view(outer@),
            items_view(items@),
            lets_view(lets@),
        ),
{
    proof {
        reveal(block_scope);
    }
    let (scope, pending) = declare_functions(env, table, outer, items, lets)?;
    let names = bound_names(items, lets);
    declare_strict(env, table, outer, items, &names, pending, scope)
}

fn find_declared_type(scope: &CheckedScope, name: &str, id: BindingId) -> (r: Option<MagType>)
    ensures
        opt_type(r) == declared_type(scope_candidates(scope_view(scope@), name@), id, 0),
{
    let found = crate::candidates::candidates_in_scope(scope, name);
    let ghost all = candidates_view(found@);
    let mut i: usize = 0;
    while i < found.len()
        invariant
            i <= found.len(),
            all == candidates_view(found@),
            all == scope_candidates(scope_view(scope@), name@),
            declared_type(all, id, 0) == declared_type(all, id, i as nat),
        decreases found.len() - i,
    {
        assert(all[i as int] == found@[i as int]@);
        if found[i].id == id {
            return Some(found[i].ty.clone());
        }
        i = i + 1;
    }
    None
}

pub open spec fn bindings_result(r: Result<Vec<CheckedBinding>, MagError>) -> Result<
    Seq<SBinding>,
    SError,
> {
    match r {
        Ok(b) => Ok(bindings_view(b@)),
        Err(e) => Err(e@),
    }
}

fn compile_bindings(
    env: &Env,
    table: &mut Bindings,
    scopes: &Vec<CheckedScope>,
    current: &CheckedScope,
    items: &Vec<BlockItem>,
    lets: &Vec<(usize, BindingId)>,
) -> (r: Result<Vec<CheckedBinding>, MagError>)
    requires
        lets_in(items_view(items@), lets_view(lets@)),
    ensures
        (final(table)@, bindings_result(r)) == bindings_made(
            items_view(items@),
            lets_view(lets@),
            scopes_view(scopes@),
            scope_view(current@),
            item_values(env@, items_view(items@)),
            old(table)@,
            Seq::empty(),
        ),
    decreases items, 0nat,
{
    let ghost all = items_view(items@);
    let ghost sc = scopes_view(scopes@);
    let ghost cur = scope_view(current@);
    let ghost ls = lets_view(lets@);
    let ghost of = item_values(env@, all);
    let ghost whole = bindings_made(all, ls, sc, cur, of, table@, Seq::empty());
    let mut done: Vec<CheckedBinding> = Vec::new();
    let mut k: usize = 0;
    proof {
        assert(all.len() == items@.len());
        assert(bindings_view(done@) =~= Seq::empty());
    }
    while k < lets.len()
        invariant
            k <= lets.len(),
            done@.len() == k,
            bindings_view(done@).len() == k,
            all == items_view(items@),
            all.len() == items@.len(),
            sc == scopes_view(scopes@),
            cur == scope_view(current@),
            ls == lets_view(lets@),
            lets_in(all, ls),
            of == item_values(env@, all),
            whole == bindings_made(all, ls, sc, cur, of, old(table)@, Seq::empty()),
            whole == bindings_made(all, ls, sc, cur, of, table@, bindings_view(done@)),
        decreases lets.len() - k,
    {
        let ghost so_far = bindings_view(done@);
        let (at, id) = lets[k];
        assert(ls[k as int] == (at as int, id));
        assert(all[at as int] == items@[at as int]@);
        match &items[at] {
            BlockItem::Let { name, value } => {
                let ty = match find_declared_type(current, name, id) {
                    Some(ty) => ty,
                    None => {
                        return Err(MagError::Unresolved(name.clone()));
                    },
                };
                let made = match value {
                    Expr::Function(f) => compile_function(
                        env,
                        table,
                        scopes,
                        Some(name.as_str()),
                        f,
                        Some(&ty),
                        Some(id),
                    )?,
                    _ => compile_expr(env, table, scopes, value, Some(&ty))?,
                };
                let label = name.clone();
                let ghost model = SBinding {
                    id,
                    name: name@,
                    ty: ty@,
                    initializer: made@,
                };
                done.push(CheckedBinding { id, name: label, ty, initializer: Arc::new(made) });
                assert(bindings_view(done@) =~= so_far.push(model));
            },
            _ => {},
        }
        k = k + 1;
    }
    Ok(done)
}

fn find_last_expression(items: &Vec<BlockItem>) -> (r: Option<usize>)
    ensures
        match r {
            Some(i) => last_expression(items_view(items@), items@.len()) == Some(i as int),
            None => last_expression(items_view(items@), items@.len()) is None,
        },
{
    let ghost all = items_view(items@);
    let mut n: usize = items.len();
    assert(all.len() == items@.len());
    while n > 0
        invariant
            n <= items.len(),
            all == items_view(items@),
            all.len() == items@.len(),
            last_expression(all, items@.len()) == last_expression(all, n as nat),
        decreases n,
    {
        assert(all[n - 1] == items@[n - 1]@);
        match &items[n - 1] {
            BlockItem::Expr(_) => {
                return Some(n - 1);
            },
            _ => {},
        }
        n = n - 1;
    }
    None
}

fn compile_expressions(
    env: &Env,
    table: &mut Bindings,
    scopes: &Vec<CheckedScope>,
    items: &Vec<BlockItem>,
    expected: Option<&MagType>,
) -> (r: Result<Vec<CheckedExpr>, MagError>)
    ensures
        (final(table)@, made_all_result(r)) == expressions_made(
            items_view(items@),
            scopes_view(scopes@),
            last_expression(items_view(items@), items_view(items@).len()),
            opt_ref(expected),
            item_values(env@, items_view(items@)),
            0,
            old(table)@,
            Seq::empty(),
        ),
    decreases items, 0nat,
{
    let ghost all = items_view(items@);
    let ghost sc = scopes_view(scopes@);
    let ghost of = item_values(env@, all);
    let ghost final_one = last_expression(all, all.len());
    let ghost whole = expressions_made(
        all,
        sc,
        final_one,
        opt_ref(expected),
        of,
        0,
        table@,
        Seq::empty(),
    );
    assert(all.len() == items@.len());
    let last = find_last_expression(items);
    let mut done: Vec<CheckedExpr> = Vec::new();
    let mut i: usize = 0;
    assert(checked_view(done@) =~= Seq::empty());
    while i < items.len()
        invariant
            i <= items.len(),
            all == items_view(items@),
            all.len() == items@.len(),
            sc == scopes_view(scopes@),
            of == item_values(env@, all),
            final_one == last_expression(all, all.len()),
            match last {
                Some(k) => final_one == Some(k as int),
                None => final_one is None,
            },
            whole == expressions_made(
                all,
                sc,
                final_one,
                opt_ref(expected),
                of,
                0,
                old(table)@,
                Seq::empty(),
            ),
            whole == expressions_made(
                all,
                sc,
                final_one,
                opt_ref(expected),
                of,
                i as nat,
                table@,
                checked_view(done@),
            ),
        decreases items.len() - i,
    {
        assert(all[i as int] == items@[i as int]@);
        match &items[i] {
            BlockItem::Invalid(e) => {
                return Err(e.clone().into_mag_error());
            },
            BlockItem::Let { .. } => {},
            BlockItem::Expr(e) => {
                let here = match last {
                    Some(k) => k == i,
                    None => false,
                };
                let target: Option<&MagType> = if here {
                    expected
                } else {
                    None
                };
                let first = compile_expr(env, table, scopes, e, target);
                let x = match first {
                    Ok(x) => x,
                    Err(error) => {
                        if target.is_some() {
                            compile_expr(env, table, scopes, e, None)?
                        } else {
                            return Err(error);
                        }
                    },
                };
                push_made(&mut done, x);
            },
        }
        i = i + 1;
    }
    Ok(done)
}

fn binding_layout(items: &Vec<CheckedBinding>) -> (r: Vec<BindingId>)
    ensures
        r@ == layout_of(bindings_view(items@)),
{
    let mut r: Vec<BindingId> = Vec::new();
    let mut i: usize = 0;
    assert(bindings_view(items@).len() == items@.len());
    while i < items.len()
        invariant
            i <= items.len(),
            r.len() == i,
            forall|j: int| 0 <= j < i ==> #[trigger] r@[j] == items@[j].id,
        decreases items.len() - i,
    {
        r.push(items[i].id);
        i = i + 1;
    }
    assert forall|j: int| 0 <= j < items@.len() implies r@[j] == layout_of(
        bindings_view(items@),
    )[j] by {
        assert(bindings_view(items@)[j].id == items@[j].id);
    }
    assert(r@ =~= layout_of(bindings_view(items@)));
    r
}

fn compile_block_parts(
    env: &Env,
    table: &mut Bindings,
    scopes: &Vec<CheckedScope>,
    current: &CheckedScope,
    items: &Vec<BlockItem>,
    lets: &Vec<(usize, BindingId)>,
    expected: Option<&MagType>,
) -> (r: Result<CheckedBlock, MagError>)
    requires
        lets_in(items_view(items@), lets_view(lets@)),
    ensures
        (final(table)@, block_result(r)) == block_parts(
            env@,
            old(table)@,
            scopes_view(scopes@),
            scope_view(current@),
            items_view(items@),
            lets_view(lets@),
            opt_ref(expected),
            item_values(env@, items_view(items@)),
        ),
    decreases items, 1nat,
{
    proof {
        reveal(block_parts);
    }
    let made = compile_bindings(env, table, scopes, current, items, lets)?;
    let bindings = finalize_block_equality_requirements(env, table, made)?;
    let expressions = compile_expressions(env, table, scopes, items, expected)?;
    let frame_layout = binding_layout(&bindings);
    let block = CheckedBlock { frame_layout, bindings, expressions };
    assert(block@ == (SBlock {
        frame_layout: frame_layout@,
        bindings: bindings_view(bindings@),
        expressions: checked_view(expressions@),
    }));
    Ok(block)
}

pub fn compile_block_in(
    env: &Env,
    table: &mut Bindings,
    outer: &Vec<CheckedScope>,
    items: &Vec<BlockItem>,
    expected: Option<&MagType>,
) -> (r: Result<CheckedBlock, MagError>)
    ensures
        (final(table)@, block_result(r)) == block_made(
            env@,
            old(table)@,
            scopes_view(outer@),
            items_view(items@),
            opt_ref(expected),
        ),
    decreases items, 2nat,
{
    proof {
        reveal(block_rule);
    }
    match find_invalid(items) {
        Some(e) => {
            return Err(e);
        },
        None => {},
    }
    let lets = allocate_lets(items, table);
    let current = declare_block(env, table, outer, items, &lets)?;
    let scopes = extend_scopes(outer, clone_scope(&current));
    compile_block_parts(env, table, &scopes, &current, items, &lets, expected)
}

/// Compiles a block that stands in no scope but those of the environment.
pub fn compile_block(env: &Env, table: &mut Bindings, items: &Vec<BlockItem>) -> (r: Result<
    CheckedBlock,
    MagError,
>)
    ensures
        (final(table)@, block_result(r)) == block_made(
            env@,
            old(table)@,
            Seq::empty(),
            items_view(items@),
            None,
        ),
{
    let none: Vec<CheckedScope> = Vec::new();
    assert(scopes_view(none@) =~= Seq::empty());
    compile_block_in(env, table, &none, items, None)
}

} // verus!
