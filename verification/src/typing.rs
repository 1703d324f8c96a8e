//! What written types denote, what names stand for where they are checked, and which types can be
//! compared.

use vstd::prelude::*;

use crate::ast::{BindingId, SConstructor, SDeclBody};
use crate::authored::{SAuthoredType, SExpr};
use crate::bindings::SBindings;
use crate::candidates::{
    already_visible, declared, env_candidates_of, first_of_each, has_candidate, scope_candidates,
    scoped_candidates, visible, SCandidate, SScope,
};
use crate::env::{keyed, keyed_with_key, SEnv};
use crate::error::SError;
use crate::infer::{
    builtin_rule, canonical_rule, concat_rule, count_rule, equal_rule, first_rule,
    function_name_rule, keys_rule, not_rule, or_rule, remove_at_rule, replace_rule,
    strip_margin_rule, Arguments,
};
use crate::resolve::expansion_limit;
use crate::soundness::adding_a_field_binds_it;
use crate::substitution::{apply, bound_params, occurs, some_field_occurs, some_occurs};
use crate::type_rules::{
    denoted, denoted_all, denoted_fields, equality_all_vars, equality_field_vars,
    equality_payload_vars, equality_vars, needs_equality, required_equality, with_field,
};
use crate::types::SType;

verus! {

broadcast use vstd::seq_lib::group_seq_properties;

/// Whether a function is part of a type as it is written.
pub open spec fn holds_function(t: SType) -> bool
    decreases t,
{
    match t {
        SType::Function(_, _) => true,
        SType::Named(_, a) => exists|i: int| 0 <= i < a.len() && holds_function(#[trigger] a[i]),
        SType::List(x) => holds_function(*x),
        SType::SetOf(x) => holds_function(*x),
        SType::MapOf(k, v) => holds_function(*k) || holds_function(*v),
        SType::Record(f) => exists|i: int|
            0 <= i < f.len() && holds_function((#[trigger] f[i]).1),
        SType::Product(a) => exists|i: int| 0 <= i < a.len() && holds_function(#[trigger] a[i]),
        _ => false,
    }
}

proof fn comparable_types(env: SEnv, t: SType, visiting: Seq<SType>, fuel: nat, n: Seq<char>)
    ensures
        equality_vars(env, t, visiting, fuel) matches Ok(s) ==> !holds_function(t) && (occurs(t, n)
            ==> s.contains(n)),
    decreases t,
{
    reveal_with_fuel(equality_vars, 2);
    match t {
        SType::List(x) => {
            comparable_types(env, *x, visiting, fuel, n);
        },
        SType::SetOf(x) => {
            comparable_types(env, *x, visiting, fuel, n);
        },
        SType::MapOf(k, v) => {
            comparable_types(env, *k, visiting, fuel, n);
            comparable_types(env, *v, visiting, fuel, n);
        },
        SType::Record(f) => {
            comparable_fields(env, f, visiting, fuel, n);
        },
        SType::Product(a) => {
            all_comparable(env, a, visiting, fuel, n);
        },
        SType::Named(_, a) => {
            all_comparable(env, a, visiting, fuel, n);
        },
        _ => {},
    }
}

proof fn all_comparable(
    env: SEnv,
    items: Seq<SType>,
    visiting: Seq<SType>,
    fuel: nat,
    n: Seq<char>,
)
    ensures
        equality_all_vars(env, items, visiting, fuel) matches Ok(s) ==> (forall|i: int|
            0 <= i < items.len() ==> !holds_function(#[trigger] items[i])) && (some_occurs(items, n)
            ==> s.contains(n)),
    decreases items,
{
    reveal_with_fuel(equality_all_vars, 2);
    if items.len() > 0 {
        let rest = items.drop_first();
        comparable_types(env, items[0], visiting, fuel, n);
        all_comparable(env, rest, visiting, fuel, n);
        if equality_all_vars(env, items, visiting, fuel) is Ok {
            assert forall|i: int| 0 <= i < items.len() implies !holds_function(
                #[trigger] items[i],
            ) by {
                if i > 0 {
                    assert(rest[i - 1] == items[i]);
                }
            }
            if some_occurs(items, n) {
                let i = choose|i: int| 0 <= i < items.len() && occurs(#[trigger] items[i], n);
                if i > 0 {
                    assert(rest[i - 1] == items[i]);
                    assert(some_occurs(rest, n));
                }
            }
        }
    }
}

proof fn comparable_fields(
    env: SEnv,
    items: Seq<(Seq<char>, SType)>,
    visiting: Seq<SType>,
    fuel: nat,
    n: Seq<char>,
)
    ensures
        equality_field_vars(env, items, visiting, fuel) matches Ok(s) ==> (forall|i: int|
            0 <= i < items.len() ==> !holds_function((#[trigger] items[i]).1)) && (
        some_field_occurs(items, n) ==> s.contains(n)),
    decreases items,
{
    reveal_with_fuel(equality_field_vars, 2);
    if items.len() > 0 {
        let rest = items.drop_first();
        comparable_types(env, items[0].1, visiting, fuel, n);
        comparable_fields(env, rest, visiting, fuel, n);
        if equality_field_vars(env, items, visiting, fuel) is Ok {
            assert forall|i: int| 0 <= i < items.len() implies !holds_function(
                (#[trigger] items[i]).1,
            ) by {
                if i > 0 {
                    assert(rest[i - 1] == items[i]);
                }
            }
            if some_field_occurs(items, n) {
                let i = choose|i: int| 0 <= i < items.len() && occurs((#[trigger] items[i]).1, n);
                if i > 0 {
                    assert(rest[i - 1] == items[i]);
                    assert(some_field_occurs(rest, n));
                }
            }
        }
    }
}

/// Values of a type that holds a function cannot be compared, and where values of a type can be,
/// every variable in it must stand for a type whose values can be compared too.
pub proof fn types_with_functions_are_not_compared(
    env: SEnv,
    table: SBindings,
    t: SType,
    n: Seq<char>,
)
    ensures
        holds_function(t) ==> required_equality(env, table, t).1 is Err,
        required_equality(env, table, t).1 is Ok <==> needs_equality(env, t) is Ok,
        needs_equality(env, t) matches Ok(s) ==> (occurs(t, n) ==> s.contains(n)),
        required_equality(env, table, t).1 is Ok && occurs(t, n) ==> required_equality(
            env,
            table,
            t,
        ).0.obligations.contains(n),
{
    reveal(needs_equality);
    comparable_types(env, t, Seq::empty(), expansion_limit(env), n);
}

/// A declared type can be compared only where what it is declared as can be.
pub proof fn declared_types_are_compared_by_their_bodies(env: SEnv, name: Seq<char>, args: Seq<SType>)
    requires
        needs_equality(env, SType::Named(name, args)) is Ok,
    ensures
        env.decl(name) is Some && !(env.decl(name)->Some_0.body is Native),
        env.decl(name)->Some_0.body matches SDeclBody::Nominal(body) ==> !holds_function(
            apply(body, bound_params(env.decl(name)->Some_0.params, args)),
        ),
        env.decl(name)->Some_0.body matches SDeclBody::Adt(items) ==> (forall|k: int|
            0 <= k < items.len() ==> !holds_function(
                apply(
                    (#[trigger] items[k]).payload,
                    bound_params(env.decl(name)->Some_0.params, args),
                ),
            )),
{
    reveal(needs_equality);
    reveal_with_fuel(equality_vars, 2);
    let t = SType::Named(name, args);
    let none: Seq<SType> = Seq::empty();
    let fuel = expansion_limit(env);
    assert(!none.contains(t));
    let decl = env.decl(name)->Some_0;
    let bound = bound_params(decl.params, args);
    match decl.body {
        SDeclBody::Nominal(body) => {
            comparable_types(env, apply(body, bound), none.push(t), (fuel - 1) as nat, name);
        },
        SDeclBody::Adt(items) => {
            comparable_payloads(env, items, bound, none.push(t), (fuel - 1) as nat);
        },
        SDeclBody::Native => {},
    }
}

proof fn comparable_payloads(
    env: SEnv,
    items: Seq<SConstructor>,
    bound: Map<Seq<char>, SType>,
    visiting: Seq<SType>,
    fuel: nat,
)
    ensures
        equality_payload_vars(env, items, bound, visiting, fuel) is Ok ==> forall|k: int|
            0 <= k < items.len() ==> !holds_function(apply((#[trigger] items[k]).payload, bound)),
    decreases items.len(),
{
    reveal_with_fuel(equality_payload_vars, 2);
    if items.len() > 0 {
        let rest = items.drop_first();
        comparable_types(env, apply(items[0].payload, bound), visiting, fuel, Seq::empty());
        comparable_payloads(env, rest, bound, visiting, fuel);
        if equality_payload_vars(env, items, bound, visiting, fuel) is Ok {
            assert forall|k: int| 0 <= k < items.len() implies !holds_function(
                apply((#[trigger] items[k]).payload, bound),
            ) by {
                if k > 0 {
                    assert(rest[k - 1] == items[k]);
                }
            }
        }
    }
}

proof fn all_denoted(env: SEnv, items: Seq<SAuthoredType>, vars: Set<Seq<char>>)
    ensures
        denoted_all(env, items, vars) is Ok <==> forall|i: int|
            0 <= i < items.len() ==> denoted(env, #[trigger] items[i], vars) is Ok,
        denoted_all(env, items, vars) matches Ok(t) ==> t.len() == items.len() && forall|i: int|
            0 <= i < items.len() ==> denoted(env, #[trigger] items[i], vars) == Ok::<SType, SError>(
                t[i],
            ),
    decreases items.len(),
{
    reveal_with_fuel(denoted_all, 2);
    reveal_with_fuel(denoted, 1);
    if items.len() > 0 {
        let rest = items.drop_first();
        all_denoted(env, rest, vars);
        if denoted_all(env, items, vars) is Ok {
            let t = denoted_all(env, items, vars)->Ok_0;
            assert forall|i: int| 0 <= i < items.len() implies denoted(
                env,
                #[trigger] items[i],
                vars,
            ) == Ok::<SType, SError>(t[i]) by {
                if i > 0 {
                    assert(rest[i - 1] == items[i]);
                }
            }
        }
        if forall|i: int| 0 <= i < items.len() ==> denoted(env, #[trigger] items[i], vars) is Ok {
            assert(denoted(env, items[0], vars) is Ok);
            assert forall|i: int| 0 <= i < rest.len() implies denoted(
                env,
                #[trigger] rest[i],
                vars,
            ) is Ok by {
                assert(rest[i] == items[i + 1]);
            }
        }
    }
}

proof fn fields_denoted(
    env: SEnv,
    items: Seq<(Seq<char>, SAuthoredType)>,
    vars: Set<Seq<char>>,
    done: Seq<(Seq<char>, SType)>,
)
    ensures
        denoted_fields(env, items, vars, done) matches Ok(f) ==> f.len() == done.len() + items.len()
            && (forall|i: int|
            0 <= i < items.len() ==> Ok::<SType, SError>(
                keyed(f, (#[trigger] items[i]).0, 0)->Some_0,
            ) == denoted(env, items[i].1, vars) && keyed(f, items[i].0, 0) is Some && keyed(
                done,
                items[i].0,
                0,
            ) is None) && (forall|name: Seq<char>|
            (#[trigger] keyed(done, name, 0)) is Some ==> keyed(f, name, 0) == keyed(done, name, 0)),
    decreases items.len(),
{
    reveal_with_fuel(denoted_fields, 2);
    reveal_with_fuel(denoted, 1);
    if items.len() > 0 && denoted_fields(env, items, vars, done) is Ok {
        let (name, rest) = (items[0].0, items.drop_first());
        let t = denoted(env, items[0].1, vars)->Ok_0;
        let next = with_field(done, name, t);
        fields_denoted(env, rest, vars, next);
        let f = denoted_fields(env, items, vars, done)->Ok_0;
        adding_a_field_binds_it(done, name, t, name);
        assert(keyed(next, name, 0) is Some);
        assert forall|i: int| 0 <= i < items.len() implies Ok::<SType, SError>(
            keyed(f, (#[trigger] items[i]).0, 0)->Some_0,
        ) == denoted(env, items[i].1, vars) && keyed(f, items[i].0, 0) is Some && keyed(
            done,
            items[i].0,
            0,
        ) is None by {
            if i > 0 {
                assert(rest[i - 1] == items[i]);
                adding_a_field_binds_it(done, name, t, items[i].0);
            }
        }
        assert forall|k: Seq<char>| (#[trigger] keyed(done, k, 0)) is Some implies keyed(f, k, 0)
            == keyed(done, k, 0) by {
            adding_a_field_binds_it(done, name, t, k);
            assert(keyed(next, k, 0) is Some);
        }
    }
}

/// A written type denotes what its parts denote, put together as they are written: a variable in
/// scope itself, products and functions place by place, records name by name with no name twice.
pub proof fn written_types_denote_part_by_part(
    env: SEnv,
    vars: Set<Seq<char>>,
    name: Seq<char>,
    items: Seq<SAuthoredType>,
    fields: Seq<(Seq<char>, SAuthoredType)>,
    t: SAuthoredType,
)
    ensures
        vars.contains(name) ==> denoted(env, SAuthoredType::Name(name), vars) == Ok::<
            SType,
            SError,
        >(SType::Var(name)),
        denoted(env, SAuthoredType::Product(items), vars) matches Ok(p) ==> p is Product
            && p->Product_0.len() == items.len() && (forall|i: int|
            0 <= i < items.len() ==> denoted(env, #[trigger] items[i], vars) == Ok::<SType, SError>(
                p->Product_0[i],
            )),
        denoted(env, SAuthoredType::Function(items, Box::new(t)), vars) matches Ok(p) ==> p
            is Function && p->Function_0.len() == items.len() && (forall|i: int|
            0 <= i < items.len() ==> denoted(env, #[trigger] items[i], vars) == Ok::<SType, SError>(
                p->Function_0[i],
            )) && denoted(env, t, vars) == Ok::<SType, SError>(*p->Function_1),
        denoted(env, SAuthoredType::Record(fields), vars) matches Ok(p) ==> p is Record
            && p->Record_0.len() == fields.len() && (forall|i: int|
            0 <= i < fields.len() ==> Ok::<SType, SError>(
                keyed(p->Record_0, (#[trigger] fields[i]).0, 0)->Some_0,
            ) == denoted(env, fields[i].1, vars) && keyed(p->Record_0, fields[i].0, 0) is Some),
        denoted(env, SAuthoredType::Tag(Box::new(t)), vars) matches Ok(p) ==> p is TypeTag
            && denoted(env, t, vars) == Ok::<SType, SError>(*p->TypeTag_0),
{
    reveal_with_fuel(denoted, 2);
    all_denoted(env, items, vars);
    fields_denoted(env, fields, vars, Seq::empty());
}

proof fn scoped_are_in_scopes(scopes: Seq<SScope>, name: Seq<char>, n: nat, id: BindingId)
    requires
        n <= scopes.len(),
    ensures
        has_candidate(scoped_candidates(scopes, name, n), id) <==> exists|k: int|
            0 <= k < n && has_candidate(#[trigger] scope_candidates(scopes[k], name), id),
    decreases n,
{
    if n > 0 {
        let rest = scoped_candidates(scopes, name, (n - 1) as nat);
        let last = scope_candidates(scopes[n - 1], name);
        scoped_are_in_scopes(scopes, name, (n - 1) as nat, id);
        joined_candidates(rest, last, id);
        if has_candidate(last, id) {
            assert(has_candidate(scope_candidates(scopes[n - 1], name), id));
        }
    }
}

proof fn joined_candidates(a: Seq<SCandidate>, b: Seq<SCandidate>, id: BindingId)
    ensures
        has_candidate(a + b, id) <==> has_candidate(a, id) || has_candidate(b, id),
{
    let all = a + b;
    if has_candidate(all, id) {
        let i = choose|i: int| 0 <= i < all.len() && (#[trigger] all[i]).id == id;
        if i < a.len() {
            assert(a[i].id == id);
        } else {
            assert(b[i - a.len()].id == id);
        }
    }
    if has_candidate(a, id) {
        let i = choose|i: int| 0 <= i < a.len() && (#[trigger] a[i]).id == id;
        assert(all[i].id == id);
    }
    if has_candidate(b, id) {
        let i = choose|i: int| 0 <= i < b.len() && (#[trigger] b[i]).id == id;
        assert(all[a.len() + i].id == id);
    }
}

proof fn each_is_kept_once(items: Seq<SCandidate>, id: BindingId)
    ensures
        has_candidate(first_of_each(items), id) <==> has_candidate(items, id),
        forall|i: int, k: int|
            0 <= i < k < first_of_each(items).len() ==> (#[trigger] first_of_each(items)[i]).id != (
            #[trigger] first_of_each(items)[k]).id,
    decreases items.len(),
{
    if items.len() > 0 {
        let front = items.drop_last();
        each_is_kept_once(front, id);
        assert(items =~= front + seq![items.last()]);
        joined_candidates(front, seq![items.last()], id);
        let rest = first_of_each(front);
        let kept = first_of_each(items);
        if has_candidate(seq![items.last()], id) {
            assert(items.last().id == id);
        }
        if items.last().id == id {
            assert(seq![items.last()][0].id == id);
        }
        if has_candidate(rest, items.last().id) {
            assert(kept == rest);
        } else {
            joined_candidates(rest, seq![items.last()], id);
            assert(kept =~= rest + seq![items.last()]);
            assert forall|i: int, k: int| 0 <= i < k < kept.len() implies (#[trigger] kept[i]).id
                != (#[trigger] kept[k]).id by {
                assert(kept[i] == rest[i]);
                if k < rest.len() {
                    assert(kept[k] == rest[k]);
                } else {
                    assert(rest[i].id != items.last().id);
                }
            }
        }
    }
}

/// A name may stand for every binding of that name in some scope around it, in the scope that is
/// being filled, or in the environment, for each once, and for no other.
pub proof fn names_see_every_binding_around_them(
    env: SEnv,
    table: SBindings,
    scopes: Seq<SScope>,
    current: SScope,
    name: Seq<char>,
    id: BindingId,
)
    ensures
        has_candidate(visible(env, table, scopes, current, name), id) <==> (exists|k: int|
            0 <= k < scopes.len() && has_candidate(
                #[trigger] scope_candidates(scopes[k], name),
                id,
            )) || has_candidate(scope_candidates(current, name), id) || has_candidate(
            env_candidates_of(env, table, env.candidate_ids(name)),
            id,
        ),
        forall|i: int, k: int|
            0 <= i < k < visible(env, table, scopes, current, name).len() ==> (
            #[trigger] visible(env, table, scopes, current, name)[i]).id != (#[trigger] visible(
                env,
                table,
                scopes,
                current,
                name,
            )[k]).id,
{
    reveal(visible);
    let a = scoped_candidates(scopes, name, scopes.len());
    let b = scope_candidates(current, name);
    let c = env_candidates_of(env, table, env.candidate_ids(name));
    scoped_are_in_scopes(scopes, name, scopes.len(), id);
    joined_candidates(a, b, id);
    joined_candidates(a + b, c, id);
    each_is_kept_once(a + b + c, id);
}

/// A declaration adds one binding to its name in the scope that is being filled and leaves every
/// other name alone; it is refused where the name already stands for something of the same type.
pub proof fn declarations_add_one_binding(
    env: SEnv,
    table: SBindings,
    outer: Seq<SScope>,
    current: SScope,
    name: Seq<char>,
    candidate: SCandidate,
    other: Seq<char>,
)
    ensures
        already_visible(visible(env, table, outer, current, name), candidate.ty) ==> declared(
            env,
            table,
            outer,
            current,
            name,
            candidate,
        ).1 is Err,
        declared(env, table, outer, current, name, candidate).1 matches Ok(scope)
            ==> scope_candidates(scope, name) == scope_candidates(current, name).push(candidate)
            && (other != name ==> scope_candidates(scope, other) == scope_candidates(
            current,
            other,
        )),
{
    reveal(declared);
    let more = scope_candidates(current, name).push(candidate);
    keyed_with_key(current, name, more, name, 0);
    keyed_with_key(current, name, more, other, 0);
}

/// The names of builtin functions that have rules of their own differ.
proof fn names_with_rules()
    ensures
        "count"@ != "str"@,
        "count"@ != "value-type-id"@,
        "count"@ != "__map-empty"@,
        "count"@ != "__map-insert"@,
        "count"@ != "__map-put"@,
        "count"@ != "__map-get-or"@,
        "count"@ != "__map-get"@,
        "count"@ != "__map-contains"@,
        "count"@ != "__map-union-left"@,
        "count"@ != "__map-count"@,
        "count"@ != "__set-empty"@,
        "count"@ != "__set-insert"@,
        "count"@ != "__set-contains"@,
        "count"@ != "__set-count"@,
        "count"@ != "get"@,
        "count"@ != "assoc"@,
        "="@ != "str"@,
        "="@ != "value-type-id"@,
        "="@ != "__map-empty"@,
        "="@ != "__map-insert"@,
        "="@ != "__map-put"@,
        "="@ != "__map-get-or"@,
        "="@ != "__map-get"@,
        "="@ != "__map-contains"@,
        "="@ != "__map-union-left"@,
        "="@ != "__map-count"@,
        "="@ != "__set-empty"@,
        "="@ != "__set-insert"@,
        "="@ != "__set-contains"@,
        "="@ != "__set-count"@,
        "="@ != "get"@,
        "="@ != "assoc"@,
        "="@ != "count"@,
        "not"@ != "str"@,
        "not"@ != "value-type-id"@,
        "not"@ != "__map-empty"@,
        "not"@ != "__map-insert"@,
        "not"@ != "__map-put"@,
        "not"@ != "__map-get-or"@,
        "not"@ != "__map-get"@,
        "not"@ != "__map-contains"@,
        "not"@ != "__map-union-left"@,
        "not"@ != "__map-count"@,
        "not"@ != "__set-empty"@,
        "not"@ != "__set-insert"@,
        "not"@ != "__set-contains"@,
        "not"@ != "__set-count"@,
        "not"@ != "get"@,
        "not"@ != "assoc"@,
        "not"@ != "count"@,
        "not"@ != "="@,
        "or"@ != "str"@,
        "or"@ != "value-type-id"@,
        "or"@ != "__map-empty"@,
        "or"@ != "__map-insert"@,
        "or"@ != "__map-put"@,
        "or"@ != "__map-get-or"@,
        "or"@ != "__map-get"@,
        "or"@ != "__map-contains"@,
        "or"@ != "__map-union-left"@,
        "or"@ != "__map-count"@,
        "or"@ != "__set-empty"@,
        "or"@ != "__set-insert"@,
        "or"@ != "__set-contains"@,
        "or"@ != "__set-count"@,
        "or"@ != "get"@,
        "or"@ != "assoc"@,
        "or"@ != "count"@,
        "or"@ != "="@,
        "or"@ != "not"@,
        "or"@ != "host-input"@,
        "or"@ != "type-evidence"@,
        "or"@ != "type-schema"@,
        "or"@ != "type-id"@,
        "or"@ != "value-type-evidence"@,
        "first"@ != "str"@,
        "first"@ != "value-type-id"@,
        "first"@ != "__map-empty"@,
        "first"@ != "__map-insert"@,
        "first"@ != "__map-put"@,
        "first"@ != "__map-get-or"@,
        "first"@ != "__map-get"@,
        "first"@ != "__map-contains"@,
        "first"@ != "__map-union-left"@,
        "first"@ != "__map-count"@,
        "first"@ != "__set-empty"@,
        "first"@ != "__set-insert"@,
        "first"@ != "__set-contains"@,
        "first"@ != "__set-count"@,
        "first"@ != "get"@,
        "first"@ != "assoc"@,
        "first"@ != "count"@,
        "first"@ != "="@,
        "first"@ != "not"@,
        "first"@ != "host-input"@,
        "first"@ != "type-evidence"@,
        "first"@ != "type-schema"@,
        "first"@ != "type-id"@,
        "first"@ != "value-type-evidence"@,
        "first"@ != "or"@,
        "first"@ != "canonical"@,
        "first"@ != "function-name"@,
        "first"@ != "conforms?"@,
        "first"@ != "fail"@,
        "first"@ != "pack"@,
        "first"@ != "packed-empty-record?"@,
        "first"@ != "packed-record-has-only-key?"@,
        "first"@ != "packed-record-has-only-keys?"@,
        "first"@ != "packed-field-conforms?"@,
        "first"@ != "descriptor-accepts?"@,
        "first"@ != "descriptor-accepts-value?"@,
        "first"@ != "descriptor-input-covered-by?"@,
        "first"@ != "descriptor-input-assignments"@,
        "first"@ != "descriptor-output-covered-by?"@,
        "first"@ != "descriptor-table"@,
        "first"@ != "read"@,
        "first"@ != "read-json"@,
        "first"@ != "artifact"@,
        "first"@ != "strip-margin"@,
        "first"@ != "replace"@,
        "first"@ != "concat"@,
        "first"@ != "remove-at"@,
        "first"@ != "keys"@,
        "concat"@ != "str"@,
        "concat"@ != "value-type-id"@,
        "concat"@ != "__map-empty"@,
        "concat"@ != "__map-insert"@,
        "concat"@ != "__map-put"@,
        "concat"@ != "__map-get-or"@,
        "concat"@ != "__map-get"@,
        "concat"@ != "__map-contains"@,
        "concat"@ != "__map-union-left"@,
        "concat"@ != "__map-count"@,
        "concat"@ != "__set-empty"@,
        "concat"@ != "__set-insert"@,
        "concat"@ != "__set-contains"@,
        "concat"@ != "__set-count"@,
        "concat"@ != "get"@,
        "concat"@ != "assoc"@,
        "concat"@ != "count"@,
        "concat"@ != "="@,
        "concat"@ != "not"@,
        "concat"@ != "host-input"@,
        "concat"@ != "type-evidence"@,
        "concat"@ != "type-schema"@,
        "concat"@ != "type-id"@,
        "concat"@ != "value-type-evidence"@,
        "concat"@ != "or"@,
        "concat"@ != "canonical"@,
        "concat"@ != "function-name"@,
        "concat"@ != "conforms?"@,
        "concat"@ != "fail"@,
        "concat"@ != "pack"@,
        "concat"@ != "packed-empty-record?"@,
        "concat"@ != "packed-record-has-only-key?"@,
        "concat"@ != "packed-record-has-only-keys?"@,
        "concat"@ != "packed-field-conforms?"@,
        "concat"@ != "descriptor-accepts?"@,
        "concat"@ != "descriptor-accepts-value?"@,
        "concat"@ != "descriptor-input-covered-by?"@,
        "concat"@ != "descriptor-input-assignments"@,
        "concat"@ != "descriptor-output-covered-by?"@,
        "concat"@ != "descriptor-table"@,
        "concat"@ != "read"@,
        "concat"@ != "read-json"@,
        "concat"@ != "artifact"@,
        "concat"@ != "strip-margin"@,
        "concat"@ != "replace"@,
        "keys"@ != "str"@,
        "keys"@ != "value-type-id"@,
        "keys"@ != "__map-empty"@,
        "keys"@ != "__map-insert"@,
        "keys"@ != "__map-put"@,
        "keys"@ != "__map-get-or"@,
        "keys"@ != "__map-get"@,
        "keys"@ != "__map-contains"@,
        "keys"@ != "__map-union-left"@,
        "keys"@ != "__map-count"@,
        "keys"@ != "__set-empty"@,
        "keys"@ != "__set-insert"@,
        "keys"@ != "__set-contains"@,
        "keys"@ != "__set-count"@,
        "keys"@ != "get"@,
        "keys"@ != "assoc"@,
        "keys"@ != "count"@,
        "keys"@ != "="@,
        "keys"@ != "not"@,
        "keys"@ != "host-input"@,
        "keys"@ != "type-evidence"@,
        "keys"@ != "type-schema"@,
        "keys"@ != "type-id"@,
        "keys"@ != "value-type-evidence"@,
        "keys"@ != "or"@,
        "keys"@ != "canonical"@,
        "keys"@ != "function-name"@,
        "keys"@ != "conforms?"@,
        "keys"@ != "fail"@,
        "keys"@ != "pack"@,
        "keys"@ != "packed-empty-record?"@,
        "keys"@ != "packed-record-has-only-key?"@,
        "keys"@ != "packed-record-has-only-keys?"@,
        "keys"@ != "packed-field-conforms?"@,
        "keys"@ != "descriptor-accepts?"@,
        "keys"@ != "descriptor-accepts-value?"@,
        "keys"@ != "descriptor-input-covered-by?"@,
        "keys"@ != "descriptor-input-assignments"@,
        "keys"@ != "descriptor-output-covered-by?"@,
        "keys"@ != "descriptor-table"@,
        "keys"@ != "read"@,
        "keys"@ != "read-json"@,
        "keys"@ != "artifact"@,
        "keys"@ != "strip-margin"@,
        "keys"@ != "replace"@,
        "keys"@ != "concat"@,
        "keys"@ != "remove-at"@,
        "remove-at"@ != "str"@,
        "remove-at"@ != "value-type-id"@,
        "remove-at"@ != "__map-empty"@,
        "remove-at"@ != "__map-insert"@,
        "remove-at"@ != "__map-put"@,
        "remove-at"@ != "__map-get-or"@,
        "remove-at"@ != "__map-get"@,
        "remove-at"@ != "__map-contains"@,
        "remove-at"@ != "__map-union-left"@,
        "remove-at"@ != "__map-count"@,
        "remove-at"@ != "__set-empty"@,
        "remove-at"@ != "__set-insert"@,
        "remove-at"@ != "__set-contains"@,
        "remove-at"@ != "__set-count"@,
        "remove-at"@ != "get"@,
        "remove-at"@ != "assoc"@,
        "remove-at"@ != "count"@,
        "remove-at"@ != "="@,
        "remove-at"@ != "not"@,
        "remove-at"@ != "host-input"@,
        "remove-at"@ != "type-evidence"@,
        "remove-at"@ != "type-schema"@,
        "remove-at"@ != "type-id"@,
        "remove-at"@ != "value-type-evidence"@,
        "remove-at"@ != "or"@,
        "remove-at"@ != "canonical"@,
        "remove-at"@ != "function-name"@,
        "remove-at"@ != "conforms?"@,
        "remove-at"@ != "fail"@,
        "remove-at"@ != "pack"@,
        "remove-at"@ != "packed-empty-record?"@,
        "remove-at"@ != "packed-record-has-only-key?"@,
        "remove-at"@ != "packed-record-has-only-keys?"@,
        "remove-at"@ != "packed-field-conforms?"@,
        "remove-at"@ != "descriptor-accepts?"@,
        "remove-at"@ != "descriptor-accepts-value?"@,
        "remove-at"@ != "descriptor-input-covered-by?"@,
        "remove-at"@ != "descriptor-input-assignments"@,
        "remove-at"@ != "descriptor-output-covered-by?"@,
        "remove-at"@ != "descriptor-table"@,
        "remove-at"@ != "read"@,
        "remove-at"@ != "read-json"@,
        "remove-at"@ != "artifact"@,
        "remove-at"@ != "strip-margin"@,
        "remove-at"@ != "replace"@,
        "remove-at"@ != "concat"@,
        "canonical"@ != "str"@,
        "canonical"@ != "value-type-id"@,
        "canonical"@ != "__map-empty"@,
        "canonical"@ != "__map-insert"@,
        "canonical"@ != "__map-put"@,
        "canonical"@ != "__map-get-or"@,
        "canonical"@ != "__map-get"@,
        "canonical"@ != "__map-contains"@,
        "canonical"@ != "__map-union-left"@,
        "canonical"@ != "__map-count"@,
        "canonical"@ != "__set-empty"@,
        "canonical"@ != "__set-insert"@,
        "canonical"@ != "__set-contains"@,
        "canonical"@ != "__set-count"@,
        "canonical"@ != "get"@,
        "canonical"@ != "assoc"@,
        "canonical"@ != "count"@,
        "canonical"@ != "="@,
        "canonical"@ != "not"@,
        "canonical"@ != "host-input"@,
        "canonical"@ != "type-evidence"@,
        "canonical"@ != "type-schema"@,
        "canonical"@ != "type-id"@,
        "canonical"@ != "value-type-evidence"@,
        "canonical"@ != "or"@,
        "function-name"@ != "str"@,
        "function-name"@ != "value-type-id"@,
        "function-name"@ != "__map-empty"@,
        "function-name"@ != "__map-insert"@,
        "function-name"@ != "__map-put"@,
        "function-name"@ != "__map-get-or"@,
        "function-name"@ != "__map-get"@,
        "function-name"@ != "__map-contains"@,
        "function-name"@ != "__map-union-left"@,
        "function-name"@ != "__map-count"@,
        "function-name"@ != "__set-empty"@,
        "function-name"@ != "__set-insert"@,
        "function-name"@ != "__set-contains"@,
        "function-name"@ != "__set-count"@,
        "function-name"@ != "get"@,
        "function-name"@ != "assoc"@,
        "function-name"@ != "count"@,
        "function-name"@ != "="@,
        "function-name"@ != "not"@,
        "function-name"@ != "host-input"@,
        "function-name"@ != "type-evidence"@,
        "function-name"@ != "type-schema"@,
        "function-name"@ != "type-id"@,
        "function-name"@ != "value-type-evidence"@,
        "function-name"@ != "or"@,
        "function-name"@ != "canonical"@,
        "strip-margin"@ != "str"@,
        "strip-margin"@ != "value-type-id"@,
        "strip-margin"@ != "__map-empty"@,
        "strip-margin"@ != "__map-insert"@,
        "strip-margin"@ != "__map-put"@,
        "strip-margin"@ != "__map-get-or"@,
        "strip-margin"@ != "__map-get"@,
        "strip-margin"@ != "__map-contains"@,
        "strip-margin"@ != "__map-union-left"@,
        "strip-margin"@ != "__map-count"@,
        "strip-margin"@ != "__set-empty"@,
        "strip-margin"@ != "__set-insert"@,
        "strip-margin"@ != "__set-contains"@,
        "strip-margin"@ != "__set-count"@,
        "strip-margin"@ != "get"@,
        "strip-margin"@ != "assoc"@,
        "strip-margin"@ != "count"@,
        "strip-margin"@ != "="@,
        "strip-margin"@ != "not"@,
        "strip-margin"@ != "host-input"@,
        "strip-margin"@ != "type-evidence"@,
        "strip-margin"@ != "type-schema"@,
        "strip-margin"@ != "type-id"@,
        "strip-margin"@ != "value-type-evidence"@,
        "strip-margin"@ != "or"@,
        "strip-margin"@ != "canonical"@,
        "strip-margin"@ != "function-name"@,
        "strip-margin"@ != "conforms?"@,
        "strip-margin"@ != "fail"@,
        "strip-margin"@ != "pack"@,
        "strip-margin"@ != "packed-empty-record?"@,
        "strip-margin"@ != "packed-record-has-only-key?"@,
        "strip-margin"@ != "packed-record-has-only-keys?"@,
        "strip-margin"@ != "packed-field-conforms?"@,
        "strip-margin"@ != "descriptor-accepts?"@,
        "strip-margin"@ != "descriptor-accepts-value?"@,
        "strip-margin"@ != "descriptor-input-covered-by?"@,
        "strip-margin"@ != "descriptor-input-assignments"@,
        "strip-margin"@ != "descriptor-output-covered-by?"@,
        "strip-margin"@ != "descriptor-table"@,
        "strip-margin"@ != "read"@,
        "strip-margin"@ != "read-json"@,
        "strip-margin"@ != "artifact"@,
        "replace"@ != "str"@,
        "replace"@ != "value-type-id"@,
        "replace"@ != "__map-empty"@,
        "replace"@ != "__map-insert"@,
        "replace"@ != "__map-put"@,
        "replace"@ != "__map-get-or"@,
        "replace"@ != "__map-get"@,
        "replace"@ != "__map-contains"@,
        "replace"@ != "__map-union-left"@,
        "replace"@ != "__map-count"@,
        "replace"@ != "__set-empty"@,
        "replace"@ != "__set-insert"@,
        "replace"@ != "__set-contains"@,
        "replace"@ != "__set-count"@,
        "replace"@ != "get"@,
        "replace"@ != "assoc"@,
        "replace"@ != "count"@,
        "replace"@ != "="@,
        "replace"@ != "not"@,
        "replace"@ != "host-input"@,
        "replace"@ != "type-evidence"@,
        "replace"@ != "type-schema"@,
        "replace"@ != "type-id"@,
        "replace"@ != "value-type-evidence"@,
        "replace"@ != "or"@,
        "replace"@ != "canonical"@,
        "replace"@ != "function-name"@,
        "replace"@ != "conforms?"@,
        "replace"@ != "fail"@,
        "replace"@ != "pack"@,
        "replace"@ != "packed-empty-record?"@,
        "replace"@ != "packed-record-has-only-key?"@,
        "replace"@ != "packed-record-has-only-keys?"@,
        "replace"@ != "packed-field-conforms?"@,
        "replace"@ != "descriptor-accepts?"@,
        "replace"@ != "descriptor-accepts-value?"@,
        "replace"@ != "descriptor-input-covered-by?"@,
        "replace"@ != "descriptor-input-assignments"@,
        "replace"@ != "descriptor-output-covered-by?"@,
        "replace"@ != "descriptor-table"@,
        "replace"@ != "read"@,
        "replace"@ != "read-json"@,
        "replace"@ != "artifact"@,
        "replace"@ != "strip-margin"@,
{
    reveal_strlit("=");
    reveal_strlit("__map-contains");
    reveal_strlit("__map-count");
    reveal_strlit("__map-empty");
    reveal_strlit("__map-get");
    reveal_strlit("__map-get-or");
    reveal_strlit("__map-insert");
    reveal_strlit("__map-put");
    reveal_strlit("__map-union-left");
    reveal_strlit("__set-contains");
    reveal_strlit("__set-count");
    reveal_strlit("__set-empty");
    reveal_strlit("__set-insert");
    reveal_strlit("artifact");
    reveal_strlit("assoc");
    reveal_strlit("canonical");
    reveal_strlit("concat");
    reveal_strlit("conforms?");
    reveal_strlit("count");
    reveal_strlit("descriptor-accepts-value?");
    reveal_strlit("descriptor-accepts?");
    reveal_strlit("descriptor-input-assignments");
    reveal_strlit("descriptor-input-covered-by?");
    reveal_strlit("descriptor-output-covered-by?");
    reveal_strlit("descriptor-table");
    reveal_strlit("fail");
    reveal_strlit("first");
    reveal_strlit("function-name");
    reveal_strlit("get");
    reveal_strlit("host-input");
    reveal_strlit("keys");
    reveal_strlit("not");
    reveal_strlit("or");
    reveal_strlit("pack");
    reveal_strlit("packed-empty-record?");
    reveal_strlit("packed-field-conforms?");
    reveal_strlit("packed-record-has-only-key?");
    reveal_strlit("packed-record-has-only-keys?");
    reveal_strlit("read");
    reveal_strlit("read-json");
    reveal_strlit("remove-at");
    reveal_strlit("replace");
    reveal_strlit("str");
    reveal_strlit("strip-margin");
    reveal_strlit("type-evidence");
    reveal_strlit("type-id");
    reveal_strlit("type-schema");
    reveal_strlit("value-type-evidence");
    reveal_strlit("value-type-id");
    assert("count"@.len() == 5);
    assert("str"@.len() == 3);
    assert("value-type-id"@.len() == 13);
    assert("__map-empty"@.len() == 11);
    assert("__map-insert"@.len() == 12);
    assert("__map-put"@.len() == 9);
    assert("__map-get-or"@.len() == 12);
    assert("__map-get"@.len() == 9);
    assert("__map-contains"@.len() == 14);
    assert("__map-union-left"@.len() == 16);
    assert("__map-count"@.len() == 11);
    assert("__set-empty"@.len() == 11);
    assert("__set-insert"@.len() == 12);
    assert("__set-contains"@.len() == 14);
    assert("__set-count"@.len() == 11);
    assert("get"@.len() == 3);
    assert("count"@[0] != "assoc"@[0]);
    assert("="@.len() == 1);
    assert("assoc"@.len() == 5);
    assert("not"@[0] != "str"@[0]);
    assert("not"@.len() == 3);
    assert("not"@[0] != "get"@[0]);
    assert("or"@.len() == 2);
    assert("host-input"@.len() == 10);
    assert("type-evidence"@.len() == 13);
    assert("type-schema"@.len() == 11);
    assert("type-id"@.len() == 7);
    assert("value-type-evidence"@.len() == 19);
    assert("first"@.len() == 5);
    assert("first"@[0] != "assoc"@[0]);
    assert("first"@[0] != "count"@[0]);
    assert("canonical"@.len() == 9);
    assert("function-name"@.len() == 13);
    assert("conforms?"@.len() == 9);
    assert("fail"@.len() == 4);
    assert("pack"@.len() == 4);
    assert("packed-empty-record?"@.len() == 20);
    assert("packed-record-has-only-key?"@.len() == 27);
    assert("packed-record-has-only-keys?"@.len() == 28);
    assert("packed-field-conforms?"@.len() == 22);
    assert("descriptor-accepts?"@.len() == 19);
    assert("descriptor-accepts-value?"@.len() == 25);
    assert("descriptor-input-covered-by?"@.len() == 28);
    assert("descriptor-input-assignments"@.len() == 28);
    assert("descriptor-output-covered-by?"@.len() == 29);
    assert("descriptor-table"@.len() == 16);
    assert("read"@.len() == 4);
    assert("read-json"@.len() == 9);
    assert("artifact"@.len() == 8);
    assert("strip-margin"@.len() == 12);
    assert("replace"@.len() == 7);
    assert("concat"@.len() == 6);
    assert("remove-at"@.len() == 9);
    assert("keys"@.len() == 4);
    assert("keys"@[0] != "fail"@[0]);
    assert("keys"@[0] != "pack"@[0]);
    assert("keys"@[0] != "read"@[0]);
    assert("remove-at"@[0] != "__map-put"@[0]);
    assert("remove-at"@[0] != "__map-get"@[0]);
    assert("remove-at"@[0] != "canonical"@[0]);
    assert("remove-at"@[0] != "conforms?"@[0]);
    assert("remove-at"@[2] != "read-json"@[2]);
    assert("canonical"@[0] != "__map-put"@[0]);
    assert("canonical"@[0] != "__map-get"@[0]);
    assert("function-name"@[0] != "value-type-id"@[0]);
    assert("function-name"@[0] != "type-evidence"@[0]);
    assert("strip-margin"@[0] != "__map-insert"@[0]);
    assert("strip-margin"@[0] != "__map-get-or"@[0]);
    assert("strip-margin"@[0] != "__set-insert"@[0]);
    assert("replace"@[0] != "type-id"@[0]);
}

/// The types of calls of builtin functions on data: what is counted is a list, a record or a text and
/// gives a number; what is compared can be and gives a truth value; the first item of a list has
/// the type of its items; lists stay lists of the same items, and texts stay texts.
pub proof fn builtin_calls_have_their_types(
    env: SEnv,
    table: SBindings,
    args: Seq<SExpr>,
    of: Arguments,
)
    ensures
        builtin_rule(env, table, "count"@, args, of).1 matches Ok(t) ==> t == SType::Int
            && args.len() == 1 && (of(table, 0).1 matches Ok(a) && (a is List || a is Record || a
            is String)),
        builtin_rule(env, table, "="@, args, of).1 matches Ok(t) ==> t == SType::Bool
            && args.len() == 2 && (of(table, 0).1 matches Ok(a) && needs_equality(env, a) is Ok
            && !holds_function(a)) && (of(of(table, 0).0, 1).1 matches Ok(b) && needs_equality(
            env,
            b,
        ) is Ok && !holds_function(b)),
        builtin_rule(env, table, "not"@, args, of).1 matches Ok(t) ==> t == SType::Bool
            && args.len() == 1,
        builtin_rule(env, table, "or"@, args, of).1 matches Ok(t) ==> args.len() == 2 && of(
            of(table, 0).0,
            1,
        ).1 == Ok::<SType, SError>(t),
        builtin_rule(env, table, "first"@, args, of).1 matches Ok(t) ==> args.len() == 1 && of(
            table,
            0,
        ).1 == Ok::<SType, SError>(SType::List(Box::new(t))),
        builtin_rule(env, table, "concat"@, args, of).1 matches Ok(t) ==> args.len() == 2 && of(
            table,
            0,
        ).1 == Ok::<SType, SError>(t),
        builtin_rule(env, table, "keys"@, args, of).1 matches Ok(t) ==> args.len() == 1 && (of(
            table,
            0,
        ).1 matches Ok(a) && a is Record) && t == SType::List(Box::new(SType::String)),
        builtin_rule(env, table, "remove-at"@, args, of).1 matches Ok(t) ==> args.len() == 2 && t
            is List && of(table, 0).1 == Ok::<SType, SError>(t),
        builtin_rule(env, table, "canonical"@, args, of).1 matches Ok(t) ==> t == SType::String,
        builtin_rule(env, table, "function-name"@, args, of).1 matches Ok(t) ==> t == SType::String
            && (of(table, 0).1 matches Ok(a) && a is Function),
        builtin_rule(env, table, "strip-margin"@, args, of).1 matches Ok(t) ==> t == SType::String,
        builtin_rule(env, table, "replace"@, args, of).1 matches Ok(t) ==> t == SType::String
            && args.len() == 3,
        builtin_rule(env, table, "str"@, args, of).1 == Ok::<SType, SError>(SType::String),
{
    names_with_rules();
    reveal(builtin_rule);
    reveal(count_rule);
    reveal(equal_rule);
    reveal(not_rule);
    reveal(or_rule);
    reveal(first_rule);
    reveal(concat_rule);
    reveal(keys_rule);
    reveal(remove_at_rule);
    reveal(canonical_rule);
    reveal(function_name_rule);
    reveal(strip_margin_rule);
    reveal(replace_rule);
    if of(table, 0).1 is Ok {
        let a = of(table, 0).1->Ok_0;
        let s1 = of(table, 0).0;
        let s2 = of(s1, 1).0;
        types_with_functions_are_not_compared(env, s2, a, Seq::empty());
        if of(s1, 1).1 is Ok {
            let b = of(s1, 1).1->Ok_0;
            let s3 = required_equality(env, s2, a).0;
            types_with_functions_are_not_compared(env, s3, b, Seq::empty());
        }
    }
}

} // verus!
