//! What the checker lets through is sound: in every expression it makes, the parts have types that
//! suit where they stand.

use vstd::prelude::*;

use crate::ast::{
    BindingId, SArm, SBinding, SBlock, SChecked, SCheckedFn, SConstructor, SConstructorId, SKind,
    SParam,
};
use crate::authored::{SAuthoredType, SExpr, SFunction, SItem, SMatchArm};
use crate::bindings::SBindings;
use crate::builtins::{sfun, stag};
use crate::candidates::{
    all_visible, builtin_of, declared, fresh_binders, fresh_name, instance, instance_vars,
    scope_candidates, scope_vars, stands_for_binder, SCandidate, SScope,
};
use crate::compatible::{fit_binding, fit_static, SSubst};
use crate::compile::{
    self, all_made, allocated, arguments, arm_bodies, arm_result, arms_rule, artifact_call,
    binder_scope, bindings_made, block_made, block_parts, block_scope, block_type, body_value,
    builtin_call, call_args, call_made, call_of, candidate_call, candidate_calls, closed_function,
    collection_call, compiled, constrained, constrained_by, constrained_call, declared_type,
    expected_fit, expressions_made, field_values, field_wanted, finished, first_positions,
    fold_call, form_made, function_made, function_rule, general_call, get_call, item_values,
    items_made, joined_branches, last_expression, let_name, list_item, map_empty_call, maps_over,
    match_rule, named_call_rule, overloaded_call, params_declared, plain_candidate,
    prefer_plain_call, record_rule, static_fit, str_call, symbol_made, tag_made, value_args,
    value_call_rule, vector_rule, BodyMaker, ItemMaker, Maker, SLets, ScopedMaker,
};
use crate::env::{keyed, SEnv};
use crate::error::SError;
use crate::holding::keyed_of_push;
use crate::infer::parameter_types;
use crate::requirements::finalized;
use crate::substitution::{apply, apply_all, internal_name, internal_vars};
use crate::suitability::{
    binding_fits_find, binding_fits_suit_when_found, finding_goes_on, finds, for_the_checker,
    found_later, of_the_checker, settled, settled_types_stay, static_fits_find, static_fits_suit,
    static_fits_suit_when_found, suits,
};
use crate::type_rules::{
    constructor_named, constructor_of, constructors_of, denoted, exhaustive, missing_names,
    with_field,
};
use crate::types::SType;

verus! {

broadcast use vstd::seq_lib::group_seq_properties;

/// The types of parameters.
pub open spec fn parameter_types_of(params: Seq<SParam>) -> Seq<SType> {
    Seq::new(params.len(), |i: int| params[i].ty)
}

/// The type of a function by its parameters and its result.
pub open spec fn function_type(f: SCheckedFn) -> SType {
    sfun(parameter_types_of(f.params), f.result)
}

/// Whether a list has a type by its items: each suits the item type of a list, or each has its own
/// type in a product.
pub open spec fn vector_typed(env: SEnv, items: Seq<SChecked>, ty: SType) -> bool {
    match ty {
        SType::Product(types) => types.len() == items.len() && (forall|i: int|
            0 <= i < items.len() ==> types[i] == (#[trigger] items[i]).ty),
        SType::List(t) => forall|i: int|
            0 <= i < items.len() ==> suits(env, (#[trigger] items[i]).ty, *t),
        SType::EmptyList => items.len() == 0,
        _ => false,
    }
}

/// Whether a record has a type by its fields: as many fields, of the same names, each with the type
/// of its value.
pub open spec fn record_typed(fields: Seq<(Seq<char>, SChecked)>, ty: SType) -> bool {
    &&& ty is Record
    &&& ty->Record_0.len() == fields.len()
    &&& forall|i: int|
        0 <= i < fields.len() ==> keyed(ty->Record_0, (#[trigger] fields[i]).0, 0) == Some(
            fields[i].1.ty,
        )
}

/// Whether a type has a constructor for payloads of another type.
pub open spec fn constructs(
    env: SEnv,
    owner: SType,
    id: SConstructorId,
    payload: SType,
) -> bool {
    &&& constructors_of(env, owner) is Ok
    &&& exists|k: int|
        0 <= k < constructors_of(env, owner)->Ok_0.len() && (#[trigger] constructors_of(
            env,
            owner,
        )->Ok_0[k]).id == id && suits(env, payload, constructors_of(env, owner)->Ok_0[k].payload)
}

/// Whether an arm is one for some constructor of a type, binds what that constructor holds, and
/// gives what suits the type of the match.
pub open spec fn arm_typed(env: SEnv, items: Seq<SConstructor>, arm: SArm, ty: SType) -> bool {
    &&& suits(env, arm.body.ty, ty)
    &&& exists|k: int|
        0 <= k < items.len() && (#[trigger] items[k]).id == arm.constructor && items[k].payload
            == arm.binding.ty
}

/// Whether some arm is for a constructor.
pub open spec fn covered(arms: Seq<SArm>, id: SConstructorId) -> bool {
    exists|i: int| 0 <= i < arms.len() && (#[trigger] arms[i]).constructor == id
}

/// Whether the arms of a match are right for a type: each for a constructor of the value's type, no
/// two for the same, none missing.
pub open spec fn match_typed(env: SEnv, owner: SType, arms: Seq<SArm>, ty: SType) -> bool {
    &&& constructors_of(env, owner) is Ok
    &&& forall|i: int|
        0 <= i < arms.len() ==> arm_typed(
            env,
            constructors_of(env, owner)->Ok_0,
            #[trigger] arms[i],
            ty,
        )
    &&& forall|i: int, j: int|
        0 <= i < j < arms.len() ==> (#[trigger] arms[i]).constructor != (
        #[trigger] arms[j]).constructor
    &&& forall|k: int|
        0 <= k < constructors_of(env, owner)->Ok_0.len() ==> covered(
            arms,
            (#[trigger] constructors_of(env, owner)->Ok_0[k]).id,
        )
}

/// Whether arguments suit parameters once types for the checker's variables are put in.
pub open spec fn taken(env: SEnv, args: Seq<SChecked>, params: Seq<SType>, s: SSubst) -> bool {
    &&& for_the_checker(s)
    &&& forall|i: int|
        0 <= i < args.len() ==> suits(env, (#[trigger] args[i]).ty, apply(params[i], s))
}

/// Whether a call has a type: what is called is a function of as many parameters, which take the
/// arguments, and its result is the type of the call.
pub open spec fn call_typed(env: SEnv, callee: SType, args: Seq<SChecked>, ty: SType) -> bool {
    &&& callee is Function
    &&& callee->Function_0.len() == args.len()
    &&& exists|s: SSubst| #[trigger] taken(env, args, callee->Function_0, s)
    &&& settled(*callee->Function_1) ==> ty == *callee->Function_1
}

/// Whether a made expression, and every one inside it, has a type that its parts bear out.
pub open spec fn typed(env: SEnv, kind: SKind, ty: SType) -> bool
    decreases kind,
{
    match kind {
        SKind::Unit => ty == SType::Unit,
        SKind::Str(_) => ty == SType::String,
        SKind::Int(_) => ty == SType::Int,
        SKind::Float(_) => ty == SType::Float,
        SKind::Bool(_) => ty == SType::Bool,
        SKind::Keyword(_) => ty == SType::String,
        SKind::BindingRef(_) => true,
        SKind::Vector(items) => vector_typed(env, items, ty) && (forall|i: int|
            0 <= i < items.len() ==> typed(
                env,
                (#[trigger] items[i]).kind,
                items[i].ty,
            )),
        SKind::Fields(fields) => record_typed(fields, ty) && (forall|i: int|
            0 <= i < fields.len() ==> typed(
                env,
                (#[trigger] fields[i]).1.kind,
                fields[i].1.ty,
            )),
        SKind::If(c, a, b) => suits(env, c.ty, SType::Bool) && suits(env, a.ty, ty) && suits(
            env,
            b.ty,
            ty,
        ) && typed(env, c.kind, c.ty) && typed(env, a.kind, a.ty) && typed(env, b.kind, b.ty),
        SKind::Construct(owner, id, payload) => ty == owner && constructs(
            env,
            owner,
            id,
            payload.ty,
        ) && typed(env, payload.kind, payload.ty),
        SKind::Match(value, arms) => match_typed(env, value.ty, arms, ty) && typed(
            env,
            value.kind,
            value.ty,
        ) && (forall|i: int|
            0 <= i < arms.len() ==> typed(
                env,
                (#[trigger] arms[i]).body.kind,
                arms[i].body.ty,
            )),
        SKind::Call(callee, args) => call_typed(env, callee.ty, args, ty) && typed(
            env,
            callee.kind,
            callee.ty,
        ) && (forall|i: int|
            0 <= i < args.len() ==> typed(
                env,
                (#[trigger] args[i]).kind,
                args[i].ty,
            )),
        SKind::Function(f) => suits(env, function_type(f), ty) && suits(
            env,
            block_type(*f.body),
            f.result,
        ) && typed_block(env, *f.body),
        SKind::Ascribe(target, value) => ty == target && typed(env, value.kind, value.ty),
        SKind::TypeTag(t) => ty == stag(t),
    }
}

/// The same of a block: what a name is bound to suits the type of the binding.
pub open spec fn typed_block(env: SEnv, block: SBlock) -> bool
    decreases block,
{
    &&& forall|i: int|
        0 <= i < block.bindings.len() ==> typed(
            env,
            (#[trigger] block.bindings[i]).initializer.kind,
            block.bindings[i].initializer.ty,
        ) && suits(env, block.bindings[i].initializer.ty, block.bindings[i].ty)
    &&& forall|i: int|
        0 <= i < block.expressions.len() ==> typed(
            env,
            (#[trigger] block.expressions[i]).kind,
            block.expressions[i].ty,
        )
}

/// Whether an expression is sound, and suits the type expected of it.
pub open spec fn sound(env: SEnv, x: SChecked, expected: Option<SType>) -> bool {
    &&& typed(env, x.kind, x.ty)
    &&& expected is Some ==> suits(env, x.ty, expected->Some_0)
    &&& x.kind is Function ==> x.ty == function_type(x.kind->Function_0)
}

pub open spec fn parts_sound(env: SEnv, of: Maker, n: nat) -> bool {
    forall|s: SBindings, i: int, t: Option<SType>|
        0 <= i < n && (#[trigger] of(s, i, t)).1 is Ok ==> sound(env, of(s, i, t).1->Ok_0, t)
}

pub open spec fn scoped_parts_sound(env: SEnv, of: ScopedMaker, n: nat) -> bool {
    forall|s: SBindings, i: int, scopes: Seq<SScope>, t: Option<SType>|
        0 <= i < n && (#[trigger] of(s, i, scopes, t)).1 is Ok ==> sound(
            env,
            of(s, i, scopes, t).1->Ok_0,
            t,
        )
}

pub open spec fn items_sound(env: SEnv, of: ItemMaker, items: Seq<SItem>) -> bool {
    forall|s: SBindings, i: int, scopes: Seq<SScope>, t: Option<SType>, id: Option<BindingId>|
        0 <= i < items.len() && !(items[i] is Invalid) && (#[trigger] of(s, i, scopes, t, id)).1
            is Ok ==> sound(env, of(s, i, scopes, t, id).1->Ok_0, t)
}

pub open spec fn body_sound(env: SEnv, body: BodyMaker) -> bool {
    forall|s: SBindings, scopes: Seq<SScope>, t: SType|
        (#[trigger] body(s, scopes, t)).1 is Ok ==> typed_block(env, body(s, scopes, t).1->Ok_0)
}

/// Whether all of some expressions are sound.
pub open spec fn all_typed(env: SEnv, items: Seq<SChecked>) -> bool {
    forall|i: int|
        0 <= i < items.len() ==> typed(env, (#[trigger] items[i]).kind, items[i].ty)
}

proof fn expected_suits(env: SEnv, ty: SType, expected: SType)
    requires
        expected_fit(env, ty, Some(expected)) is Ok,
    ensures
        suits(env, ty, expected),
{
    reveal(expected_fit);
    static_fits_suit(env, ty, expected, Map::empty());
}

proof fn finishing_keeps(
    env: SEnv,
    table: SBindings,
    r: Result<SChecked, SError>,
    expected: Option<SType>,
)
    ensures
        finished(env, table, r, expected).1 matches Ok(x) ==> r == Ok::<SChecked, SError>(x) && (
        expected is Some ==> suits(env, x.ty, expected->Some_0)),
{
    reveal(finished);
    if finished(env, table, r, expected).1 is Ok && expected is Some {
        expected_suits(env, r->Ok_0.ty, expected->Some_0);
    }
}

proof fn all_are_sound(env: SEnv, of: Maker, table: SBindings, n: nat, done: Seq<SChecked>)
    requires
        parts_sound(env, of, n),
        all_typed(env, done),
        done.len() <= n,
    ensures
        all_made(of, table, n, done).1 matches Ok(items) ==> items.len() == n && all_typed(
            env,
            items,
        ),
    decreases n - done.len(),
{
    if done.len() < n {
        let (after, r) = of(table, done.len() as int, None);
        if r is Ok {
            assert(sound(env, r->Ok_0, None));
            all_are_sound(env, of, after, n, done.push(r->Ok_0));
        }
    }
}

/// The items of a list that are compiled, from the one at `done.len()` on: each suits the item type
/// once all variables are found.
proof fn items_are_sound(
    env: SEnv,
    of: Maker,
    table: SBindings,
    n: nat,
    wanted: Option<SType>,
    current: Option<SType>,
    subst: SSubst,
    done: Seq<SChecked>,
) -> (last: SSubst)
    requires
        parts_sound(env, of, n),
        all_typed(env, done),
        done.len() <= n,
        for_the_checker(subst),
        wanted is Some ==> current == Some(apply(wanted->Some_0, subst)),
        wanted is None ==> (current is None <==> done.len() == 0),
        wanted is None && current is Some ==> (forall|i: int|
            0 <= i < done.len() ==> suits(env, (#[trigger] done[i]).ty, current->Some_0)),
    ensures
        finds(subst, last) && for_the_checker(last),
        items_made(env, of, table, n, wanted, current, subst, done).1 matches Ok((items, t)) ==> {
            &&& items.len() == n && all_typed(env, items)
            &&& forall|i: int| 0 <= i < done.len() ==> #[trigger] items[i] == done[i]
            &&& wanted is Some ==> t == Some(apply(wanted->Some_0, last)) && (forall|i: int|
                done.len() <= i < items.len() ==> suits(
                    env,
                    (#[trigger] items[i]).ty,
                    apply(wanted->Some_0, last),
                ))
            &&& wanted is None && t is Some ==> (forall|i: int|
                0 <= i < items.len() ==> suits(env, (#[trigger] items[i]).ty, t->Some_0))
            &&& wanted is None && t is None ==> items.len() == 0
        },
    decreases n - done.len(),
{
    let at = done.len() as int;
    if done.len() >= n {
        subst
    } else if wanted is Some {
        let item = wanted->Some_0;
        let target = apply(item, subst);
        let (after, r) = of(table, at, Some(target));
        if r is Err {
            subst
        } else {
            let x = r->Ok_0;
            assert(sound(env, x, Some(target)));
            let (s, fit) = fit_static(env, x.ty, target, subst);
            static_fits_find(env, x.ty, target, subst);
            if fit is Err {
                subst
            } else {
                let next = Some(apply(item, s));
                let last = items_are_sound(env, of, after, n, wanted, next, s, done.push(x));
                finding_goes_on(subst, s, last);
                static_fits_suit_when_found(env, x.ty, item, subst, last);
                let made = items_made(env, of, table, n, wanted, current, subst, done).1;
                if made is Ok {
                    let items = made->Ok_0.0;
                    assert(items[at] == done.push(x)[at]);
                    assert forall|i: int| 0 <= i < done.len() implies #[trigger] items[i]
                        == done[i] by {
                        assert(items[i] == done.push(x)[i]);
                    }
                }
                last
            }
        }
    } else {
        let (after, r) = of(table, at, None);
        if r is Err {
            subst
        } else {
            let x = r->Ok_0;
            assert(sound(env, x, None));
            match current {
                None => {
                    let next = Some(x.ty);
                    let last = items_are_sound(env, of, after, n, wanted, next, subst, done.push(x));
                    last
                },
                Some(t) => {
                    if static_fit(env, x.ty, t) is Err {
                        subst
                    } else {
                        static_fits_suit(env, x.ty, t, Map::empty());
                        let more = done.push(x);
                        assert forall|i: int| 0 <= i < more.len() implies suits(
                            env,
                            (#[trigger] more[i]).ty,
                            t,
                        ) by {
                            if i < at {
                                assert(more[i] == done[i]);
                            }
                        }
                        let last = items_are_sound(
                            env,
                            of,
                            after,
                            n,
                            wanted,
                            current,
                            subst,
                            more,
                        );
                        let made = items_made(env, of, table, n, wanted, current, subst, done).1;
                        if made is Ok {
                            let items = made->Ok_0.0;
                            assert forall|i: int| 0 <= i < done.len() implies #[trigger] items[i]
                                == done[i] by {
                                assert(items[i] == more[i]);
                            }
                        }
                        last
                    }
                },
            }
        }
    }
}

proof fn vectors_are_sound(
    env: SEnv,
    table: SBindings,
    n: nat,
    expected: Option<SType>,
    of: Maker,
)
    requires
        parts_sound(env, of, n),
    ensures
        vector_rule(env, table, n, expected, of).1 matches Ok(x) ==> sound(env, x, None)
            && x.kind is Vector && x.kind->Vector_0.len() == n,
{
    reveal(vector_rule);
    all_are_sound(env, of, table, n, Seq::empty());
    let wanted = list_item(expected);
    if wanted is Some {
        settled_types_stay(wanted->Some_0, Map::empty());
    }
    let last = items_are_sound(env, of, table, n, wanted, wanted, Map::empty(), Seq::empty());
}

pub proof fn adding_a_field_binds_it<V>(fields: Seq<(Seq<char>, V)>, name: Seq<char>, v: V, k: Seq<char>)
    requires
        keyed(fields, name, 0) is None,
    ensures
        with_field(fields, name, v).len() == fields.len() + 1,
        keyed(with_field(fields, name, v), k, 0) == if k == name {
            Some(v)
        } else {
            keyed(fields, k, 0)
        },
    decreases fields.len(),
{
    if fields.len() == 0 {
        reveal_with_fuel(keyed, 2);
    } else {
        let front = fields.drop_last();
        assert(fields =~= front.push(fields.last()));
        keyed_of_push(front, fields.last(), name, 0);
        keyed_of_push(front, fields.last(), k, 0);
        keyed_of_push(fields, (name, v), k, 0);
        adding_a_field_binds_it(front, name, v, k);
        keyed_of_push(with_field(front, name, v), fields.last(), k, 0);
    }
}

proof fn records_are_sound(
    env: SEnv,
    table: SBindings,
    fields: Seq<(Seq<char>, SExpr)>,
    expected: Option<SType>,
    of: Maker,
    done: Seq<(Seq<char>, SChecked)>,
    types: Seq<(Seq<char>, SType)>,
)
    requires
        parts_sound(env, of, fields.len()),
        record_typed(done, SType::Record(types)),
        forall|i: int|
            0 <= i < done.len() ==> typed(env, (#[trigger] done[i]).1.kind, done[i].1.ty),
    ensures
        record_rule(table, fields, expected, of, done, types).1 matches Ok(x) ==> sound(
            env,
            x,
            None,
        ) && x.kind is Fields,
    decreases fields.len() - done.len(),
{
    if done.len() < fields.len() {
        let name = fields[done.len() as int].0;
        let wanted = field_wanted(expected, name);
        let (after, r) = of(table, done.len() as int, wanted);
        if r is Ok && keyed(types, name, 0) is None {
            let x = r->Ok_0;
            assert(sound(env, x, wanted));
            let more = done.push((name, x));
            let next = with_field(types, name, x.ty);
            adding_a_field_binds_it(types, name, x.ty, name);
            assert forall|i: int| 0 <= i < more.len() implies keyed(
                next,
                (#[trigger] more[i]).0,
                0,
            ) == Some(more[i].1.ty) by {
                if i < done.len() {
                    assert(more[i] == done[i]);
                    adding_a_field_binds_it(types, name, x.ty, done[i].0);
                }
            }
            records_are_sound(env, after, fields, expected, of, more, next);
        }
    }
}

pub proof fn constructor_is_among(items: Seq<SConstructor>, name: Seq<char>, i: nat) -> (k: int)
    requires
        constructor_named(items, name, i) is Some,
    ensures
        i <= k < items.len(),
        constructor_named(items, name, i) == Some(items[k]),
        items[k].id.name == name,
    decreases items.len() - i,
{
    if items[i as int].id.name == name {
        i as int
    } else {
        constructor_is_among(items, name, i + 1)
    }
}

/// A constructor that a type has by a name is among its constructors.
pub proof fn constructors_belong_to_their_types(env: SEnv, owner: SType, name: Seq<char>) -> (k:
    int)
    requires
        constructor_of(env, owner, name) is Ok,
    ensures
        constructors_of(env, owner) is Ok,
        0 <= k < constructors_of(env, owner)->Ok_0.len(),
        constructors_of(env, owner)->Ok_0[k] == constructor_of(env, owner, name)->Ok_0,
        constructor_of(env, owner, name)->Ok_0.id.name == name,
{
    reveal(constructor_of);
    constructor_is_among(constructors_of(env, owner)->Ok_0, name, 0)
}

proof fn none_is_missing(items: Seq<SConstructor>, seen: Seq<SConstructorId>)
    requires
        missing_names(items, seen).len() == 0,
    ensures
        forall|k: int| 0 <= k < items.len() ==> seen.contains((#[trigger] items[k]).id),
    decreases items.len(),
{
    if items.len() > 0 {
        let front = items.drop_last();
        none_is_missing(front, seen);
        assert forall|k: int| 0 <= k < items.len() implies seen.contains(
            (#[trigger] items[k]).id,
        ) by {
            if k < front.len() {
                assert(front[k] == items[k]);
            }
        }
    }
}

/// What holds of the arms of a match that have been compiled.
pub open spec fn arms_typed(
    env: SEnv,
    items: Seq<SConstructor>,
    arms: Seq<SArm>,
    seen: Seq<SConstructorId>,
    result: Option<SType>,
) -> bool {
    &&& result is None ==> arms.len() == 0
    &&& seen.len() == arms.len()
    &&& forall|i: int| 0 <= i < arms.len() ==> seen[i] == (#[trigger] arms[i]).constructor
    &&& forall|i: int|
        0 <= i < arms.len() ==> arm_typed(env, items, #[trigger] arms[i], result->Some_0)
    &&& forall|i: int|
        0 <= i < arms.len() ==> typed(
            env,
            (#[trigger] arms[i]).body.kind,
            arms[i].body.ty,
        )
    &&& forall|i: int, j: int|
        0 <= i < j < arms.len() ==> (#[trigger] arms[i]).constructor != (
        #[trigger] arms[j]).constructor
}

proof fn arms_are_sound(
    env: SEnv,
    table: SBindings,
    scopes: Seq<SScope>,
    owner: SType,
    arms: Seq<SMatchArm>,
    of: ScopedMaker,
    seen: Seq<SConstructorId>,
    result: Option<SType>,
    done: Seq<SArm>,
)
    requires
        scoped_parts_sound(env, of, arms.len()),
        constructors_of(env, owner) is Ok,
        arms_typed(env, constructors_of(env, owner)->Ok_0, done, seen, result),
    ensures
        arms_rule(env, table, scopes, owner, arms, of, seen, result, done).1 matches Ok((a, s, t))
            ==> arms_typed(env, constructors_of(env, owner)->Ok_0, a, s, t),
    decreases arms.len() - done.len(),
{
    if done.len() < arms.len() {
        let items = constructors_of(env, owner)->Ok_0;
        let arm = arms[done.len() as int];
        match constructor_of(env, owner, arm.constructor) {
            Ok(c) => {
                let k = constructors_belong_to_their_types(env, owner, arm.constructor);
                let id = BindingId(table.next);
                let (s1, r) = declared(
                    env,
                    table.allocate(arm.binding, Some(c.payload)),
                    scopes,
                    Seq::empty(),
                    arm.binding,
                    plain_candidate(id, c.payload),
                );
                if !seen.contains(c.id) && r is Ok {
                    let (s2, made) = of(s1, done.len() as int, scopes.push(r->Ok_0), result);
                    if made is Ok {
                        let body = made->Ok_0;
                        assert(sound(env, body, result));
                        match arm_result(env, result, body.ty) {
                            Ok(t) => {
                                let next = SArm {
                                    constructor: c.id,
                                    binding: SParam { id, name: arm.binding, ty: c.payload },
                                    body: Box::new(body),
                                };
                                let more = done.push(next);
                                reveal(arm_result);
                                if result is Some {
                                    static_fits_suit(env, body.ty, t, Map::empty());
                                }
                                assert(items[k].id == next.constructor);
                                assert(arm_typed(env, items, next, t));
                                assert forall|i: int| 0 <= i < more.len() implies arm_typed(
                                    env,
                                    items,
                                    #[trigger] more[i],
                                    t,
                                ) && typed(env, more[i].body.kind, more[i].body.ty) && seen.push(
                                    c.id,
                                )[i] == more[i].constructor by {
                                    if i < done.len() {
                                        assert(more[i] == done[i]);
                                    }
                                }
                                assert forall|i: int, j: int| 0 <= i < j < more.len() implies (
                                #[trigger] more[i]).constructor != (
                                #[trigger] more[j]).constructor by {
                                    assert(more[i] == done[i]);
                                    if j < done.len() {
                                        assert(more[j] == done[j]);
                                    } else {
                                        assert(seen[i] == done[i].constructor);
                                    }
                                }
                                arms_are_sound(
                                    env,
                                    s2,
                                    scopes,
                                    owner,
                                    arms,
                                    of,
                                    seen.push(c.id),
                                    Some(t),
                                    more,
                                );
                            },
                            Err(_) => {},
                        }
                    }
                }
            },
            Err(_) => {},
        }
    }
}

proof fn matches_are_sound(
    env: SEnv,
    table: SBindings,
    scopes: Seq<SScope>,
    value: SChecked,
    arms: Seq<SMatchArm>,
    expected: Option<SType>,
    of: ScopedMaker,
)
    requires
        typed(env, value.kind, value.ty),
        scoped_parts_sound(env, of, arms.len()),
    ensures
        match_rule(env, table, scopes, value, arms, expected, of).1 matches Ok(x) ==> sound(
            env,
            x,
            None,
        ) && x.kind is Match,
{
    reveal(match_rule);
    if constructors_of(env, value.ty) is Ok {
        let items = constructors_of(env, value.ty)->Ok_0;
        let none: Seq<SConstructorId> = Seq::empty();
        arms_are_sound(env, table, scopes, value.ty, arms, of, none, expected, Seq::empty());
        let made = arms_rule(
            env,
            table,
            scopes,
            value.ty,
            arms,
            of,
            none,
            expected,
            Seq::empty(),
        ).1;
        if made is Ok {
            let (done, seen, _) = made->Ok_0;
            reveal(exhaustive);
            if exhaustive(items, seen) is Ok {
                none_is_missing(items, seen);
                assert forall|k: int| 0 <= k < items.len() implies covered(
                    done,
                    (#[trigger] items[k]).id,
                ) by {
                    let i = choose|i: int| 0 <= i < seen.len() && seen[i] == items[k].id;
                    assert(done[i].constructor == items[k].id);
                }
            }
        }
    }
}

proof fn instance_variables_are_of_the_checker(c: SCandidate)
    ensures
        of_the_checker(instance_vars(c)),
{
    reveal(instance_vars);
    let n = c.generic_binders.len();
    let bound = fresh_binders(c.id, c.generic_binders, n);
    assert forall|v: Seq<char>| #[trigger] instance_vars(c).contains(v) implies internal_name(v) by {
        assert(stands_for_binder(c.id, c.generic_binders, v));
        let b = choose|b: Seq<char>|
            #![trigger bound.dom().contains(b)]
            bound.dom().contains(b) && bound[b] == SType::Var(v);
        fresh_binders_are_of_the_checker(c.id, c.generic_binders, n, b);
    }
}

proof fn fresh_binders_are_of_the_checker(
    id: BindingId,
    binders: Seq<Seq<char>>,
    n: nat,
    b: Seq<char>,
)
    requires
        fresh_binders(id, binders, n).dom().contains(b),
    ensures
        found_later(fresh_binders(id, binders, n)[b]),
    decreases n,
{
    reveal_strlit("\0binding");
    if n > 0 {
        if b != binders[n - 1] {
            fresh_binders_are_of_the_checker(id, binders, (n - 1) as nat, b);
        } else {
            let name = fresh_name(id, (n - 1) as nat);
            assert(name[0] == "\0binding"@[0]);
        }
    }
}

proof fn constraining_finds(
    env: SEnv,
    output: SType,
    expected: Option<SType>,
    subst: SSubst,
    bindable: Set<Seq<char>>,
)
    requires
        of_the_checker(bindable),
    ensures
        finds(subst, constrained_by(env, output, expected, subst, bindable).0),
{
    reveal(constrained);
    if expected is Some {
        let t = expected->Some_0;
        binding_fits_find(env, t, output, subst, bindable);
        binding_fits_find(env, output, t, subst, bindable);
    }
}

proof fn value_arguments_are_sound(
    env: SEnv,
    of: Maker,
    table: SBindings,
    params: Seq<SType>,
    subst: SSubst,
    done: Seq<SChecked>,
)
    requires
        parts_sound(env, of, params.len()),
        all_typed(env, done),
        done.len() <= params.len(),
        for_the_checker(subst),
    ensures
        value_args(env, of, table, params, subst, done).1 matches Ok((args, s)) ==> {
            &&& args.len() == params.len() && all_typed(env, args)
            &&& finds(subst, s) && for_the_checker(s)
            &&& forall|i: int| 0 <= i < done.len() ==> #[trigger] args[i] == done[i]
            &&& forall|i: int|
                done.len() <= i < args.len() ==> suits(
                    env,
                    (#[trigger] args[i]).ty,
                    apply(params[i], s),
                )
        },
    decreases params.len() - done.len(),
{
    let at = done.len() as int;
    if done.len() < params.len() {
        let target = apply(params[at], subst);
        let (after, r) = of(table, at, Some(target));
        if r is Ok {
            let x = r->Ok_0;
            assert(sound(env, x, Some(target)));
            let (s, fit) = fit_static(env, x.ty, target, subst);
            static_fits_find(env, x.ty, target, subst);
            if fit is Ok {
                let more = done.push(x);
                value_arguments_are_sound(env, of, after, params, s, more);
                let made = value_args(env, of, after, params, s, more).1;
                if made is Ok {
                    let (args, last) = made->Ok_0;
                    finding_goes_on(subst, s, last);
                    static_fits_suit_when_found(env, x.ty, params[at], subst, last);
                    assert(args[at] == more[at]);
                    assert forall|i: int| 0 <= i < done.len() implies #[trigger] args[i]
                        == done[i] by {
                        assert(args[i] == more[i]);
                    }
                }
            }
        }
    }
}

proof fn value_calls_are_sound(
    env: SEnv,
    table: SBindings,
    callee: SChecked,
    n: nat,
    expected: Option<SType>,
    of: Maker,
)
    requires
        parts_sound(env, of, n),
        typed(env, callee.kind, callee.ty),
    ensures
        value_call_rule(env, table, callee, n, expected, of).1 matches Ok(x) ==> sound(
            env,
            x,
            None,
        ) && x.kind is Call,
{
    reveal(value_call_rule);
    match callee.ty {
        SType::Function(params, result) => {
            if params.len() == n {
                value_arguments_are_sound(env, of, table, params, Map::empty(), Seq::empty());
                let made = value_args(env, of, table, params, Map::empty(), Seq::empty()).1;
                if made is Ok {
                    let (args, subst) = made->Ok_0;
                    let output = apply(*result, subst);
                    let vars = internal_vars(callee.ty);
                    constraining_finds(env, output, expected, subst, vars);
                    let s = constrained_by(env, output, expected, subst, vars).0;
                    assert(taken(env, args, params, subst));
                    if settled(*result) {
                        settled_types_stay(*result, subst);
                        settled_types_stay(*result, s);
                    }
                }
            }
        },
        _ => {},
    }
}

proof fn call_arguments_are_sound(
    env: SEnv,
    of: Maker,
    table: SBindings,
    params: Seq<SType>,
    bindable: Set<Seq<char>>,
    subst: SSubst,
    done: Seq<SChecked>,
)
    requires
        parts_sound(env, of, params.len()),
        all_typed(env, done),
        done.len() <= params.len(),
        for_the_checker(subst),
        of_the_checker(bindable),
    ensures
        call_args(env, of, table, params, bindable, subst, done).1 matches Ok((args, s)) ==> {
            &&& args.len() == params.len() && all_typed(env, args)
            &&& finds(subst, s) && for_the_checker(s)
        },
    decreases params.len() - done.len(),
{
    let at = done.len() as int;
    if done.len() < params.len() {
        let target = apply(params[at], subst);
        let (after, r) = of(table, at, Some(target));
        if r is Ok {
            let x = r->Ok_0;
            assert(sound(env, x, Some(target)));
            let (s, fit) = fit_binding(env, x.ty, target, subst, bindable);
            binding_fits_find(env, x.ty, target, subst, bindable);
            if fit is Ok {
                let more = done.push(x);
                call_arguments_are_sound(env, of, after, params, bindable, s, more);
                let made = call_args(env, of, after, params, bindable, s, more).1;
                if made is Ok {
                    finding_goes_on(subst, s, made->Ok_0.1);
                }
            }
        }
    }
}

/// The arguments of a call suit the parameters once all variables are found.
proof fn call_arguments_suit(
    env: SEnv,
    of: Maker,
    table: SBindings,
    params: Seq<SType>,
    bindable: Set<Seq<char>>,
    subst: SSubst,
    done: Seq<SChecked>,
    found: SSubst,
)
    requires
        parts_sound(env, of, params.len()),
        all_typed(env, done),
        done.len() <= params.len(),
        for_the_checker(subst),
        of_the_checker(bindable),
        for_the_checker(found),
        call_args(env, of, table, params, bindable, subst, done).1 is Ok,
        call_args(env, of, table, params, bindable, subst, done).1->Ok_0.1.submap_of(found),
    ensures
        call_args(env, of, table, params, bindable, subst, done).1->Ok_0.0.len() == params.len(),
        forall|i: int|
            0 <= i < done.len() ==> #[trigger] call_args(
                env,
                of,
                table,
                params,
                bindable,
                subst,
                done,
            ).1->Ok_0.0[i] == done[i],
        forall|i: int|
            done.len() <= i < params.len() ==> suits(
                env,
                (#[trigger] call_args(
                    env,
                    of,
                    table,
                    params,
                    bindable,
                    subst,
                    done,
                ).1->Ok_0.0[i]).ty,
                apply(params[i], found),
            ),
    decreases params.len() - done.len(),
{
    let at = done.len() as int;
    if done.len() < params.len() {
        let target = apply(params[at], subst);
        let (after, r) = of(table, at, Some(target));
        let x = r->Ok_0;
        assert(sound(env, x, Some(target)));
        let s = fit_binding(env, x.ty, target, subst, bindable).0;
        binding_fits_find(env, x.ty, target, subst, bindable);
        let more = done.push(x);
        call_arguments_are_sound(env, of, after, params, bindable, s, more);
        call_arguments_suit(env, of, after, params, bindable, s, more, found);
        let (args, last) = call_args(env, of, after, params, bindable, s, more).1->Ok_0;
        crate::suitability::found_in_turn(s, last, found);
        binding_fits_suit_when_found(env, x.ty, params[at], subst, bindable, found);
        assert(args[at] == more[at]);
        assert forall|i: int| 0 <= i < done.len() implies #[trigger] args[i] == done[i] by {
            assert(args[i] == more[i]);
        }
    }
}

/// A call whose arguments suit its parameters is sound.
proof fn calls_of_suiting_arguments_are_sound(
    env: SEnv,
    id: BindingId,
    params: Seq<SType>,
    output: SType,
    args: Seq<SChecked>,
)
    requires
        all_typed(env, args),
        params.len() == args.len(),
        forall|i: int| 0 <= i < args.len() ==> suits(env, (#[trigger] args[i]).ty, params[i]),
    ensures
        sound(env, call_of(id, params, output, args), None),
        call_of(id, params, output, args).kind is Call,
{
    let none: SSubst = Map::empty();
    assert forall|i: int| 0 <= i < args.len() implies suits(
        env,
        (#[trigger] args[i]).ty,
        apply(params[i], none),
    ) by {
        settled_types_stay(params[i], none);
    }
    assert(taken(env, args, params, none));
    reveal_with_fuel(typed, 2);
}

proof fn candidate_calls_are_sound(
    env: SEnv,
    table: SBindings,
    c: SCandidate,
    name: Seq<char>,
    n: nat,
    expected: Option<SType>,
    of: Maker,
)
    requires
        parts_sound(env, of, n),
    ensures
        candidate_call(env, table, c, name, n, expected, of).1 matches Ok(x) ==> sound(
            env,
            x,
            None,
        ) && x.kind is Call,
{
    reveal(candidate_call);
    reveal(constrained_call);
    instance_variables_are_of_the_checker(c);
    match instance(c) {
        SType::Function(params, result) => {
            if params.len() == n {
                let vars = instance_vars(c);
                let none: SSubst = Map::empty();
                call_arguments_are_sound(env, of, table, params, vars, none, Seq::empty());
                let (s1, r) = call_args(env, of, table, params, vars, none, Seq::empty());
                if r is Ok {
                    let (args, subst) = r->Ok_0;
                    let output = apply(*result, subst);
                    constraining_finds(env, output, expected, subst, vars);
                    let s = constrained_by(env, output, expected, subst, vars).0;
                    call_arguments_suit(env, of, table, params, vars, none, Seq::empty(), s);
                    let types = apply_all(params, s);
                    assert forall|i: int| 0 <= i < args.len() implies suits(
                        env,
                        (#[trigger] args[i]).ty,
                        types[i],
                    ) by {
                        assert(types[i] == apply(params[i], s));
                    }
                    calls_of_suiting_arguments_are_sound(env, c.id, types, apply(*result, s), args);
                }
            }
        },
        _ => {},
    }
}

/// Whether all of the calls of candidates are sound.
pub open spec fn calls_typed(env: SEnv, items: Seq<(bool, SChecked)>) -> bool {
    forall|i: int|
        0 <= i < items.len() ==> sound(env, (#[trigger] items[i]).1, None) && items[i].1.kind is Call
}

proof fn candidates_calls_are_sound(
    env: SEnv,
    table: SBindings,
    items: Seq<SCandidate>,
    name: Seq<char>,
    n: nat,
    expected: Option<SType>,
    of: Maker,
    i: nat,
    done: Seq<(bool, SChecked)>,
)
    requires
        parts_sound(env, of, n),
        calls_typed(env, done),
    ensures
        calls_typed(env, candidate_calls(env, table, items, name, n, expected, of, i, done).1),
    decreases items.len() - i,
{
    if i < items.len() {
        let c = items[i as int];
        candidate_calls_are_sound(env, table, c, name, n, expected, of);
        let (after, r) = candidate_call(env, table, c, name, n, expected, of);
        let next = match r {
            Ok(x) => done.push((c.generic_binders.len() > 0, x)),
            Err(_) => done,
        };
        candidates_calls_are_sound(env, after, items, name, n, expected, of, i + 1, next);
    }
}

proof fn preferred_calls_are_sound(env: SEnv, items: Seq<(bool, SChecked)>)
    requires
        calls_typed(env, items),
    ensures
        calls_typed(env, prefer_plain_call(items)),
{
    let keep = |m: (bool, SChecked)| !m.0;
    let found = prefer_plain_call(items);
    assert forall|i: int| 0 <= i < found.len() implies sound(env, (#[trigger] found[i]).1, None)
        && found[i].1.kind is Call by {
        if found == items {
            assert(items.contains(items[i]));
        } else {
            assert(items.filter(keep).contains(found[i]));
            items.lemma_filter_contains_rev(keep, found[i]);
        }
    }
}

proof fn overloaded_calls_are_sound(
    env: SEnv,
    table: SBindings,
    name: Seq<char>,
    items: Seq<SCandidate>,
    n: nat,
    expected: Option<SType>,
    of: Maker,
)
    requires
        parts_sound(env, of, n),
    ensures
        overloaded_call(env, table, name, items, n, expected, of).1 matches Ok(x) ==> sound(
            env,
            x,
            None,
        ) && x.kind is Call,
{
    reveal(overloaded_call);
    candidate_calls_are_sound(env, table, items[0], name, n, expected, of);
    candidates_calls_are_sound(env, table, items, name, n, expected, of, 0, Seq::empty());
    let calls = candidate_calls(env, table, items, name, n, expected, of, 0, Seq::empty()).1;
    preferred_calls_are_sound(env, calls);
}

/// Whether the positions of a vector that stands alone as an argument are sound.
pub open spec fn first_sound(env: SEnv, args: Seq<SExpr>, parts: Maker) -> bool {
    args.len() > 0 ==> (args[0] matches SExpr::Vector(items) ==> parts_sound(
        env,
        parts,
        items.len(),
    ))
}

proof fn artifact_calls_are_sound(
    env: SEnv,
    table: SBindings,
    id: BindingId,
    args: Seq<SExpr>,
    of: Maker,
    parts: Maker,
)
    requires
        parts_sound(env, of, args.len()),
        first_sound(env, args, parts),
    ensures
        artifact_call(env, table, id, args, of, parts).1 matches Ok(x) ==> sound(env, x, None)
            && x.kind is Call,
{
    reveal(artifact_call);
    if args.len() == 1 {
        let r = match args[0] {
            SExpr::Vector(items) => {
                let product = Some(SType::Product(Seq::empty()));
                vectors_are_sound(env, table, items.len(), product, parts);
                let (s, made) = vector_rule(env, table, items.len(), product, parts);
                finishing_keeps(env, s, made, None);
                finished(env, s, made, None).1
            },
            _ => {
                of(table, 0, None).1
            },
        };
        if r is Ok {
            let x = r->Ok_0;
            assert(sound(env, x, None));
            calls_of_suiting_arguments_are_sound(env, id, seq![x.ty], SType::Artifact, seq![x]);
        }
    }
}

proof fn builtin_calls_are_sound(
    env: SEnv,
    table: SBindings,
    scopes: Seq<SScope>,
    name: Seq<char>,
    id: BindingId,
    args: Seq<SExpr>,
    expected: Option<SType>,
    of: Maker,
    parts: Maker,
)
    requires
        parts_sound(env, of, args.len()),
        first_sound(env, args, parts),
    ensures
        builtin_call(env, table, scopes, name, id, args, expected, of, parts).1 matches Ok(x)
            ==> sound(env, x, None) && x.kind is Call,
{
    reveal(builtin_call);
    let made = builtin_call(env, table, scopes, name, id, args, expected, of, parts).1;
    if made is Ok {
        let x = made->Ok_0;
        let empty = name == "__map-empty"@ && args.len() == 1;
        if empty {
            reveal(map_empty_call);
        } else if name == "get"@ {
            reveal(get_call);
        } else if name == "artifact"@ {
            artifact_calls_are_sound(env, table, id, args, of, parts);
        } else if name == "str"@ {
            reveal(str_call);
            all_are_sound(env, of, table, args.len(), Seq::empty());
        } else if maps_over(name) {
            reveal(collection_call);
        } else if name == "fold"@ {
            reveal(fold_call);
        } else {
            reveal(general_call);
            let locals = crate::candidates::scope_locals(scopes, Seq::empty());
            let types = crate::infer::argument_types(env, locals, args);
            let s1 = crate::infer::builtin_rule(env, table, name, args, types).0;
            all_are_sound(env, of, s1, args.len(), Seq::empty());
        }
        if empty || name == "get"@ || name != "artifact"@ {
            let callee = x.kind->Call_0;
            let given = x.kind->Call_1;
            let (params, output) = (callee.ty->Function_0, *callee.ty->Function_1);
            assert(x == call_of(id, params, output, given));
            assert(all_typed(env, given));
            assert forall|i: int| 0 <= i < given.len() implies suits(
                env,
                (#[trigger] given[i]).ty,
                params[i],
            ) by {}
            calls_of_suiting_arguments_are_sound(env, id, params, output, given);
        }
    }
}

proof fn named_calls_are_sound(
    env: SEnv,
    table: SBindings,
    scopes: Seq<SScope>,
    name: Seq<char>,
    args: Seq<SExpr>,
    expected: Option<SType>,
    of: Maker,
    parts: Maker,
)
    requires
        parts_sound(env, of, args.len()),
        first_sound(env, args, parts),
    ensures
        named_call_rule(env, table, scopes, name, args, expected, of, parts).1 matches Some(Ok(x))
            ==> sound(env, x, None) && x.kind is Call,
{
    reveal(named_call_rule);
    let functions = all_visible(env, table, scopes, name).filter(
        |c: SCandidate| c.ty is Function,
    );
    overloaded_calls_are_sound(env, table, name, functions, args.len(), expected, of);
    let s1 = overloaded_call(env, table, name, functions, args.len(), expected, of).0;
    match builtin_of(env, name) {
        Some(id) => {
            builtin_calls_are_sound(env, table, scopes, name, id, args, expected, of, parts);
            builtin_calls_are_sound(env, s1, scopes, name, id, args, expected, of, parts);
        },
        None => {},
    }
}

proof fn declared_parameters_have_their_types(
    env: SEnv,
    scopes: Seq<SScope>,
    params: Seq<(Seq<char>, SAuthoredType)>,
    types: Seq<SType>,
    table: SBindings,
    scope: SScope,
    done: Seq<SParam>,
)
    requires
        types.len() == params.len(),
        done.len() <= params.len(),
        forall|i: int| 0 <= i < done.len() ==> (#[trigger] done[i]).ty == types[i],
    ensures
        params_declared(env, scopes, params, types, table, scope, done).1 matches Ok((_, made))
            ==> parameter_types_of(made) == types,
    decreases params.len() - done.len(),
{
    if done.len() < params.len() {
        let name = params[done.len() as int].0;
        let ty = types[done.len() as int];
        let id = BindingId(table.next);
        let (after, r) = declared(
            env,
            table.allocate(name, Some(ty)),
            scopes,
            scope,
            name,
            plain_candidate(id, ty),
        );
        if r is Ok {
            let next = done.push(SParam { id, name, ty });
            declared_parameters_have_their_types(
                env,
                scopes,
                params,
                types,
                after,
                r->Ok_0,
                next,
            );
        }
    } else {
        assert(parameter_types_of(done) =~= types);
    }
}

proof fn functions_are_sound(
    env: SEnv,
    table: SBindings,
    scopes: Seq<SScope>,
    name: Option<Seq<char>>,
    f: SFunction,
    expected: Option<SType>,
    id: Option<BindingId>,
    body: BodyMaker,
)
    requires
        body_sound(env, body),
    ensures
        function_rule(env, table, scopes, name, f, expected, id, body).1 matches Ok(x) ==> sound(
            env,
            x,
            expected,
        ) && x.kind is Function,
{
    reveal(function_rule);
    reveal(closed_function);
    if function_rule(env, table, scopes, name, f, expected, id, body).1 is Ok {
        let vars = scope_vars(scopes).union(f.type_params.to_set());
        let types = parameter_types(env, f.params, vars)->Ok_0;
        let result = denoted(env, f.result, vars)->Ok_0;
        compile::parameter_count(env, f.params, vars);
        let scope = binder_scope(f.type_params);
        declared_parameters_have_their_types(
            env,
            scopes,
            f.params,
            types,
            table,
            scope,
            Seq::empty(),
        );
        if expected is Some {
            expected_suits(env, sfun(types, result), expected->Some_0);
        }
        let (s1, r) = params_declared(env, scopes, f.params, types, table, scope, Seq::empty());
        let inner = scopes.push(r->Ok_0.0);
        let made = body(s1.with_obligations(Set::empty()), inner, result);
        let block = made.1->Ok_0;
        assert(typed_block(env, block));
        static_fits_suit(env, block_type(block), result, Map::empty());
    }
}

/// Whether positions are those of bindings in a block.
pub open spec fn at_lets(items: Seq<SItem>, lets: SLets) -> bool {
    forall|k: int|
        0 <= k < lets.len() ==> 0 <= (#[trigger] lets[k]).0 < items.len() && items[lets[k].0] is Let
}

proof fn allocated_at_lets(items: Seq<SItem>, i: nat, table: SBindings, done: SLets)
    requires
        at_lets(items, done),
    ensures
        at_lets(items, allocated(items, i, table, done).1),
    decreases items.len() - i,
{
    if i < items.len() {
        match items[i as int] {
            SItem::Let(name, _) => {
                let next = done.push((i as int, BindingId(table.next)));
                allocated_at_lets(items, i + 1, table.allocate(name, None), next);
            },
            _ => {
                allocated_at_lets(items, i + 1, table, done);
            },
        }
    }
}

/// Whether all of some bindings are sound.
pub open spec fn bindings_typed(env: SEnv, items: Seq<SBinding>) -> bool {
    forall|i: int|
        0 <= i < items.len() ==> sound(
            env,
            (#[trigger] items[i]).initializer,
            Some(items[i].ty),
        )
}

proof fn bindings_are_sound(
    env: SEnv,
    items: Seq<SItem>,
    lets: SLets,
    scopes: Seq<SScope>,
    current: SScope,
    of: ItemMaker,
    table: SBindings,
    done: Seq<SBinding>,
)
    requires
        items_sound(env, of, items),
        at_lets(items, lets),
        bindings_typed(env, done),
    ensures
        bindings_made(items, lets, scopes, current, of, table, done).1 matches Ok(b)
            ==> bindings_typed(env, b),
    decreases lets.len() - done.len(),
{
    if done.len() < lets.len() {
        let (at, id) = lets[done.len() as int];
        let name = let_name(items[at]);
        match declared_type(scope_candidates(current, name), id, 0) {
            Some(ty) => {
                let (after, r) = of(table, at, scopes, Some(ty), Some(id));
                if r is Ok {
                    assert(sound(env, r->Ok_0, Some(ty)));
                    let next = done.push(SBinding { id, name, ty, initializer: r->Ok_0 });
                    bindings_are_sound(env, items, lets, scopes, current, of, after, next);
                }
            },
            None => {},
        }
    }
}

proof fn expressions_are_sound(
    env: SEnv,
    items: Seq<SItem>,
    scopes: Seq<SScope>,
    last: Option<int>,
    expected: Option<SType>,
    of: ItemMaker,
    i: nat,
    table: SBindings,
    done: Seq<SChecked>,
)
    requires
        items_sound(env, of, items),
        all_typed(env, done),
    ensures
        expressions_made(items, scopes, last, expected, of, i, table, done).1 matches Ok(e)
            ==> all_typed(env, e),
    decreases items.len() - i,
{
    if i < items.len() {
        match items[i as int] {
            SItem::Let(_, _) => {
                expressions_are_sound(env, items, scopes, last, expected, of, i + 1, table, done);
            },
            SItem::Expr(_) => {
                let target = if last == Some(i as int) {
                    expected
                } else {
                    None
                };
                let (s1, r1) = of(table, i as int, scopes, target, None);
                let (s2, r2) = if r1 is Err && target is Some {
                    of(s1, i as int, scopes, None, None)
                } else {
                    (s1, r1)
                };
                if r2 is Ok {
                    assert(typed(env, r2->Ok_0.kind, r2->Ok_0.ty));
                    let next = done.push(r2->Ok_0);
                    expressions_are_sound(env, items, scopes, last, expected, of, i + 1, s2, next);
                }
            },
            SItem::Invalid(_) => {},
        }
    }
}

proof fn block_rule_is_sound(
    env: SEnv,
    table: SBindings,
    outer: Seq<SScope>,
    items: Seq<SItem>,
    expected: Option<SType>,
    of: ItemMaker,
)
    requires
        items_sound(env, of, items),
    ensures
        compile::block_rule(env, table, outer, items, expected, of).1 matches Ok(b) ==> typed_block(
            env,
            b,
        ),
{
    reveal(compile::block_rule);
    reveal(block_parts);
    reveal(finalized);
    if compile::block_rule(env, table, outer, items, expected, of).1 is Ok {
        let none: SLets = Seq::empty();
        allocated_at_lets(items, 0, table, none);
        let (s0, lets) = allocated(items, 0, table, none);
        let (s1, r) = block_scope(env, s0, outer, items, lets);
        let current = r->Ok_0;
        let scopes = outer.push(current);
        bindings_are_sound(env, items, lets, scopes, current, of, s1, Seq::empty());
        let (s2, made) = bindings_made(items, lets, scopes, current, of, s1, Seq::empty());
        let (s3, kept) = finalized(env, s2, made->Ok_0);
        let bindings = kept->Ok_0;
        assert forall|i: int| 0 <= i < bindings.len() implies typed(
            env,
            (#[trigger] bindings[i]).initializer.kind,
            bindings[i].initializer.ty,
        ) && suits(env, bindings[i].initializer.ty, bindings[i].ty) by {
            let b = made->Ok_0[i];
            assert(sound(env, b.initializer, Some(b.ty)));
            if b.initializer.kind is Function {
                let f = b.initializer.kind->Function_0;
                let g = bindings[i].initializer.kind->Function_0;
                assert(function_type(g) == function_type(f));
            }
        }
        let last = last_expression(items, items.len());
        expressions_are_sound(env, items, scopes, last, expected, of, 0, s3, Seq::empty());
    }
}

proof fn arguments_are_sound(env: SEnv, scopes: Seq<SScope>, args: Seq<SExpr>)
    ensures
        parts_sound(env, arguments(env, scopes, args), args.len()),
    decreases args, 0nat,
{
    let of = arguments(env, scopes, args);
    assert forall|s: SBindings, i: int, t: Option<SType>|
        0 <= i < args.len() && (#[trigger] of(s, i, t)).1 is Ok implies sound(
        env,
        of(s, i, t).1->Ok_0,
        t,
    ) by {
        compiled_expressions_are_sound(env, s, scopes, args[i], t);
    }
}

/// An expression that compiles is sound: it suits the type expected of it, and so does every part
/// of it suit the place where it stands. In particular both branches of a conditional suit the type
/// of the whole, and its condition is a boolean.
pub proof fn compiled_expressions_are_sound(
    env: SEnv,
    table: SBindings,
    scopes: Seq<SScope>,
    e: SExpr,
    expected: Option<SType>,
)
    ensures
        compiled(env, table, scopes, e, expected).1 matches Ok(x) ==> sound(env, x, expected)
            && of_its_form(e, x.kind),
    decreases e, 3nat,
{
    forms_are_sound(env, table, scopes, e, expected);
    let (after, r) = form_made(env, table, scopes, e, expected);
    finishing_keeps(env, after, r, expected);
}

/// Whether what was made of an expression is of the form that was written.
pub open spec fn of_its_form(e: SExpr, kind: SKind) -> bool {
    match e {
        SExpr::Unit => kind == SKind::Unit,
        SExpr::Bool(b) => kind == SKind::Bool(b),
        SExpr::Int(n) => kind == SKind::Int(n),
        SExpr::Float(f) => kind == SKind::Float(f),
        SExpr::Str(s) => kind == SKind::Str(s),
        SExpr::Keyword(s) => kind == SKind::Keyword(s),
        SExpr::Name(_) => kind is BindingRef,
        SExpr::Vector(items) => kind is Vector && kind->Vector_0.len() == items.len(),
        SExpr::Fields(_) => kind is Fields,
        SExpr::If(_, _, _) => kind is If,
        SExpr::Construct(_, _, _) => kind is Construct,
        SExpr::Match(_, _) => kind is Match,
        SExpr::Ascribe(_, _) => kind is Ascribe,
        SExpr::TypeTag(_) => kind is TypeTag,
        SExpr::Function(_) => kind is Function,
        SExpr::Call(_, _) => kind is Call,
        SExpr::Invalid(_) => false,
    }
}

proof fn forms_are_sound(
    env: SEnv,
    table: SBindings,
    scopes: Seq<SScope>,
    e: SExpr,
    expected: Option<SType>,
)
    ensures
        form_made(env, table, scopes, e, expected).1 matches Ok(x) ==> sound(env, x, None)
            && of_its_form(e, x.kind),
    decreases e, 2nat,
{
    reveal_with_fuel(form_made, 2);
    match e {
        SExpr::Name(_) => {
            reveal(symbol_made);
        },
        SExpr::Vector(items) => {
            arguments_are_sound(env, scopes, items);
            let of = arguments(env, scopes, items);
            vectors_are_sound(env, table, items.len(), expected, of);
        },
        SExpr::Fields(fields) => {
            let of = field_values(env, scopes, fields);
            assert forall|s: SBindings, i: int, t: Option<SType>|
                0 <= i < fields.len() && (#[trigger] of(s, i, t)).1 is Ok implies sound(
                env,
                of(s, i, t).1->Ok_0,
                t,
            ) by {
                compiled_expressions_are_sound(env, s, scopes, fields[i].1, t);
            }
            records_are_sound(env, table, fields, expected, of, Seq::empty(), Seq::empty());
        },
        SExpr::If(_, _, _) => {
            conditionals_are_sound(env, table, scopes, e, expected);
        },
        SExpr::Construct(owner, constructor, payload) => {
            match denoted(env, owner, scope_vars(scopes)) {
                Ok(owner) => match constructor_of(env, owner, constructor) {
                    Ok(c) => {
                        let wanted = Some(c.payload);
                        compiled_expressions_are_sound(env, table, scopes, *payload, wanted);
                        let k = constructors_belong_to_their_types(env, owner, constructor);
                        let r = compiled(env, table, scopes, *payload, wanted).1;
                        if r is Ok {
                            assert(constructors_of(env, owner)->Ok_0[k].id == c.id);
                            assert(constructs(env, owner, c.id, r->Ok_0.ty));
                        }
                    },
                    Err(_) => {},
                },
                Err(_) => {},
            }
        },
        SExpr::Match(value, arms) => {
            compiled_expressions_are_sound(env, table, scopes, *value, None);
            let (s1, r) = compiled(env, table, scopes, *value, None);
            if r is Ok {
                let of = arm_bodies(env, arms);
                assert forall|s: SBindings, i: int, inner: Seq<SScope>, t: Option<SType>|
                    0 <= i < arms.len() && (#[trigger] of(s, i, inner, t)).1 is Ok implies sound(
                    env,
                    of(s, i, inner, t).1->Ok_0,
                    t,
                ) by {
                    compiled_expressions_are_sound(env, s, inner, *arms[i].body, t);
                }
                matches_are_sound(env, s1, scopes, r->Ok_0, arms, expected, of);
            }
        },
        SExpr::Ascribe(target, value) => match denoted(env, target, scope_vars(scopes)) {
            Ok(target) => {
                compiled_expressions_are_sound(env, table, scopes, *value, None);
                compiled_expressions_are_sound(env, table, scopes, *value, Some(target));
                match *value {
                    SExpr::Vector(items) => {
                        arguments_are_sound(env, scopes, items);
                        let of = arguments(env, scopes, items);
                        vectors_are_sound(env, table, items.len(), Some(target), of);
                    },
                    SExpr::Call(_, _) => {
                        written_calls_are_sound(env, table, scopes, *value, Some(target));
                    },
                    _ => {},
                }
            },
            Err(_) => {},
        },
        SExpr::TypeTag(_) => {
            reveal(tag_made);
        },
        SExpr::Function(f) => {
            written_functions_are_sound(env, table, scopes, None, f, expected, None);
        },
        SExpr::Call(_, _) => {
            written_calls_are_sound(env, table, scopes, e, expected);
        },
        _ => {},
    }
}

proof fn conditionals_are_sound(
    env: SEnv,
    table: SBindings,
    scopes: Seq<SScope>,
    e: SExpr,
    expected: Option<SType>,
)
    requires
        e is If,
    ensures
        compile::if_made(env, table, scopes, e, expected).1 matches Ok(x) ==> sound(env, x, None)
            && x.kind is If,
    decreases e, 1nat,
{
    match e {
        SExpr::If(condition, yes, no) => {
            let wanted = Some(SType::Bool);
            compiled_expressions_are_sound(env, table, scopes, *condition, wanted);
            let (s1, c) = compiled(env, table, scopes, *condition, wanted);
            compiled_expressions_are_sound(env, s1, scopes, *yes, expected);
            let (s2, a) = compiled(env, s1, scopes, *yes, expected);
            compiled_expressions_are_sound(env, s2, scopes, *no, expected);
            let b = compiled(env, s2, scopes, *no, expected).1;
            if c is Ok && a is Ok && b is Ok {
                reveal(joined_branches);
                if static_fit(env, a->Ok_0.ty, b->Ok_0.ty) is Ok {
                    static_fits_suit(env, a->Ok_0.ty, b->Ok_0.ty, Map::empty());
                }
            }
        },
        _ => {},
    }
}

proof fn written_calls_are_sound(
    env: SEnv,
    table: SBindings,
    scopes: Seq<SScope>,
    e: SExpr,
    expected: Option<SType>,
)
    requires
        e is Call,
    ensures
        call_made(env, table, scopes, e, expected).1 matches Ok(x) ==> sound(env, x, None)
            && x.kind is Call,
    decreases e, 1nat,
{
    match e {
        SExpr::Call(callee, args) => {
            let of = arguments(env, scopes, args);
            arguments_are_sound(env, scopes, args);
            let s1 = match *callee {
                SExpr::Name(name) => {
                    let parts = first_positions(env, scopes, args);
                    if args.len() > 0 {
                        match args[0] {
                            SExpr::Vector(items) => {
                                arguments_are_sound(env, scopes, items);
                                reveal_with_fuel(first_positions, 2);
                                assert(parts == arguments(env, scopes, items));
                            },
                            _ => {},
                        }
                    }
                    named_calls_are_sound(env, table, scopes, name, args, expected, of, parts);
                    named_call_rule(env, table, scopes, name, args, expected, of, parts).0
                },
                _ => table,
            };
            compiled_expressions_are_sound(env, s1, scopes, *callee, None);
            let (s2, r) = compiled(env, s1, scopes, *callee, None);
            if r is Ok {
                value_calls_are_sound(env, s2, r->Ok_0, args.len(), expected, of);
            }
        },
        _ => {},
    }
}

proof fn written_functions_are_sound(
    env: SEnv,
    table: SBindings,
    scopes: Seq<SScope>,
    name: Option<Seq<char>>,
    f: SFunction,
    expected: Option<SType>,
    id: Option<BindingId>,
)
    ensures
        function_made(env, table, scopes, name, f, expected, id).1 matches Ok(x) ==> sound(
            env,
            x,
            expected,
        ) && x.kind is Function,
    decreases f, 1nat,
{
    let body = body_value(env, f.body);
    assert forall|s: SBindings, inner: Seq<SScope>, t: SType|
        (#[trigger] body(s, inner, t)).1 is Ok implies typed_block(
        env,
        body(s, inner, t).1->Ok_0,
    ) by {
        compiled_blocks_are_sound(env, s, inner, f.body, Some(t));
    }
    functions_are_sound(env, table, scopes, name, f, expected, id, body);
}

/// A block that compiles is sound: what each name is bound to suits the type of the binding, and
/// every expression is sound.
pub proof fn compiled_blocks_are_sound(
    env: SEnv,
    table: SBindings,
    outer: Seq<SScope>,
    items: Seq<SItem>,
    expected: Option<SType>,
)
    ensures
        block_made(env, table, outer, items, expected).1 matches Ok(b) ==> typed_block(env, b),
    decreases items, 1nat,
{
    let of = item_values(env, items);
    assert forall|
        s: SBindings,
        i: int,
        scopes: Seq<SScope>,
        t: Option<SType>,
        id: Option<BindingId>,
    |
        0 <= i < items.len() && !(items[i] is Invalid) && (#[trigger] of(s, i, scopes, t, id)).1
            is Ok implies sound(env, of(s, i, scopes, t, id).1->Ok_0, t) by {
        match items[i] {
            SItem::Let(name, SExpr::Function(f)) => {
                written_functions_are_sound(env, s, scopes, Some(name), f, t, id);
            },
            SItem::Let(_, x) => {
                compiled_expressions_are_sound(env, s, scopes, x, t);
            },
            SItem::Expr(x) => {
                compiled_expressions_are_sound(env, s, scopes, x, t);
            },
            SItem::Invalid(_) => {},
        }
    }
    block_rule_is_sound(env, table, outer, items, expected, of);
}

/// Both branches of a conditional that compiles suit the type of the whole expression, and its
/// condition is a boolean.
pub proof fn branches_suit_their_conditional(
    env: SEnv,
    table: SBindings,
    scopes: Seq<SScope>,
    condition: SExpr,
    yes: SExpr,
    no: SExpr,
    expected: Option<SType>,
)
    ensures
        compiled(
            env,
            table,
            scopes,
            SExpr::If(Box::new(condition), Box::new(yes), Box::new(no)),
            expected,
        ).1 matches Ok(x) ==> x.kind is If && suits(env, x.kind->If_0.ty, SType::Bool) && suits(
            env,
            x.kind->If_1.ty,
            x.ty,
        ) && suits(env, x.kind->If_2.ty, x.ty) && of_its_form(condition, x.kind->If_0.kind)
            && of_its_form(yes, x.kind->If_1.kind) && of_its_form(no, x.kind->If_2.kind),
{
    let e = SExpr::If(Box::new(condition), Box::new(yes), Box::new(no));
    compiled_expressions_are_sound(env, table, scopes, e, expected);
    let (s, made) = form_made(env, table, scopes, e, expected);
    finishing_keeps(env, s, made, expected);
    let wanted = Some(SType::Bool);
    compiled_expressions_are_sound(env, table, scopes, condition, wanted);
    let s1 = compiled(env, table, scopes, condition, wanted).0;
    compiled_expressions_are_sound(env, s1, scopes, yes, expected);
    let s2 = compiled(env, s1, scopes, yes, expected).0;
    compiled_expressions_are_sound(env, s2, scopes, no, expected);
    reveal_with_fuel(form_made, 2);
    reveal_with_fuel(compile::if_made, 2);
    reveal(joined_branches);
}

} // verus!
