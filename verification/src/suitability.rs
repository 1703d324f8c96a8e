//! When a value of one type may stand where another type is expected, and that comparing types finds
//! out just that.

use vstd::prelude::*;

use crate::compatible::{
    comparing_all_keeps_bindings, comparing_fields_keeps_bindings, comparing_keeps_bindings, fit,
    fit_all, fit_binding, fit_fields, fit_static, shape_fit, SSubst,
};
use crate::env::{keyed, SEnv};
use crate::holding::keyed_is_among;
use crate::resolve::{closed_type, expansion_limit, resolved, resolved_all, resolved_fields, SKey};
use crate::substitution::{
    apply, apply_all, apply_fields, internal_name, internal_vars, occurs, other_variables_stay,
    some_field_occurs, some_occurs,
};
use crate::types::SType;

verus! {

broadcast use vstd::seq_lib::group_seq_properties;

/// Whether a type is a variable that the checker made and that stands for a type yet to be found.
pub open spec fn found_later(t: SType) -> bool {
    t matches SType::Var(n) && internal_name(n)
}

/// Whether a value of one type may stand where another is expected: the types are the same, or have
/// the same closed form, or are made in the same way of types that suit each other; what never
/// returns suits everything, the empty list suits every list, and a variable of the checker may
/// stand for anything.
pub open spec fn suits(env: SEnv, actual: SType, expected: SType) -> bool
    decreases expected, 0nat,
{
    ||| actual == expected
    ||| found_later(expected)
    ||| found_later(actual)
    ||| actual is Never && !(expected is Var)
    ||| actual is EmptyList && expected is List
    ||| closed_type(env, actual) is Ok && closed_type(env, actual) == closed_type(env, expected)
    ||| match (expected, actual) {
        (SType::Named(en, ea), SType::Named(an, aa)) => en == an && ea.len() == aa.len() && (
        forall|i: int| 0 <= i < ea.len() ==> suits(env, aa[i], #[trigger] ea[i])),
        (SType::TypeTag(e), SType::TypeTag(a)) => suits(env, *a, *e),
        (SType::List(e), SType::List(a)) => suits(env, *a, *e),
        (SType::SetOf(e), SType::SetOf(a)) => suits(env, *a, *e),
        (SType::MapOf(ek, ev), SType::MapOf(ak, av)) => suits(env, *ak, *ek) && suits(
            env,
            *av,
            *ev,
        ),
        (SType::Record(ef), SType::Record(af)) => ef.len() == af.len() && (forall|i: int|
            0 <= i < ef.len() ==> some_field_suits(env, af, ef[i].0, (#[trigger] ef[i]).1)),
        (SType::Product(e), SType::Product(a)) => e.len() == a.len() && (forall|i: int|
            0 <= i < e.len() ==> suits(env, a[i], #[trigger] e[i])),
        (SType::Function(ep, er), SType::Function(ap, ar)) => ep.len() == ap.len() && (forall|
            i: int,
        |
            0 <= i < ep.len() ==> suits(env, ap[i], #[trigger] ep[i])) && suits(env, *ar, *er),
        _ => false,
    }
}

/// Whether some field of a name is of a type that suits.
pub open spec fn some_field_suits(
    env: SEnv,
    fields: Seq<(Seq<char>, SType)>,
    name: Seq<char>,
    expected: SType,
) -> bool
    decreases expected, 1nat,
{
    exists|j: int|
        0 <= j < fields.len() && (#[trigger] fields[j]).0 == name && suits(
            env,
            fields[j].1,
            expected,
        )
}

/// Whether every name in a set is one that the checker made.
pub open spec fn of_the_checker(names: Set<Seq<char>>) -> bool {
    forall|n: Seq<char>| #[trigger] names.contains(n) ==> internal_name(n)
}

/// A comparison that succeeds, and in which only variables of the checker may be bound, is one of
/// types that suit each other.
pub proof fn types_that_fit_suit(
    env: SEnv,
    actual: SType,
    expected: SType,
    subst: SSubst,
    names: Set<Seq<char>>,
    fuel: nat,
)
    requires
        of_the_checker(names),
        fit(env, actual, expected, subst, Some(names), fuel).1 is Ok,
    ensures
        suits(env, actual, expected),
    decreases fuel, expected, 1nat,
{
    if actual == expected || found_later(expected) || found_later(actual) || actual is Never
        || actual is EmptyList && expected is List {
    } else {
        match (closed_type(env, actual), closed_type(env, expected)) {
            (Ok(_), Ok(_)) => {},
            _ => {
                shapes_that_fit_suit(env, actual, expected, subst, names, fuel);
            },
        }
    }
}

proof fn shapes_that_fit_suit(
    env: SEnv,
    actual: SType,
    expected: SType,
    subst: SSubst,
    names: Set<Seq<char>>,
    fuel: nat,
)
    requires
        of_the_checker(names),
        shape_fit(env, actual, expected, subst, Some(names), fuel).1 is Ok,
    ensures
        suits(env, actual, expected),
    decreases fuel, expected, 0nat,
{
    match (expected, actual) {
        (SType::Named(_, ea), SType::Named(_, aa)) => {
            all_that_fit_suit(env, aa, ea, subst, names, fuel);
        },
        (SType::TypeTag(e), SType::TypeTag(a)) => {
            types_that_fit_suit(env, *a, *e, subst, names, fuel);
        },
        (SType::List(e), SType::List(a)) => {
            types_that_fit_suit(env, *a, *e, subst, names, fuel);
        },
        (SType::SetOf(e), SType::SetOf(a)) => {
            types_that_fit_suit(env, *a, *e, subst, names, fuel);
        },
        (SType::MapOf(ek, ev), SType::MapOf(ak, av)) => {
            types_that_fit_suit(env, *ak, *ek, subst, names, fuel);
            let after = fit(env, *ak, *ek, subst, Some(names), fuel).0;
            types_that_fit_suit(env, *av, *ev, after, names, fuel);
        },
        (SType::Record(ef), SType::Record(af)) => {
            fields_that_fit_suit(env, af, ef, subst, names, fuel);
        },
        (SType::Product(e), SType::Product(a)) => {
            all_that_fit_suit(env, a, e, subst, names, fuel);
        },
        (SType::Function(ep, er), SType::Function(ap, ar)) => {
            all_that_fit_suit(env, ap, ep, subst, names, fuel);
            let after = fit_all(env, ap, ep, subst, Some(names), fuel).0;
            types_that_fit_suit(env, *ar, *er, after, names, fuel);
        },
        _ => {},
    }
}

proof fn all_that_fit_suit(
    env: SEnv,
    actual: Seq<SType>,
    expected: Seq<SType>,
    subst: SSubst,
    names: Set<Seq<char>>,
    fuel: nat,
)
    requires
        of_the_checker(names),
        actual.len() == expected.len(),
        fit_all(env, actual, expected, subst, Some(names), fuel).1 is Ok,
    ensures
        forall|i: int| 0 <= i < expected.len() ==> suits(env, actual[i], #[trigger] expected[i]),
    decreases fuel, expected, 0nat,
{
    if expected.len() > 0 {
        types_that_fit_suit(env, actual[0], expected[0], subst, names, fuel);
        let after = fit(env, actual[0], expected[0], subst, Some(names), fuel).0;
        let (a, e) = (actual.drop_first(), expected.drop_first());
        all_that_fit_suit(env, a, e, after, names, fuel);
        assert forall|i: int| 0 <= i < expected.len() implies suits(
            env,
            actual[i],
            #[trigger] expected[i],
        ) by {
            if i > 0 {
                assert(e[i - 1] == expected[i] && a[i - 1] == actual[i]);
            }
        }
    }
}

proof fn fields_that_fit_suit(
    env: SEnv,
    actual: Seq<(Seq<char>, SType)>,
    expected: Seq<(Seq<char>, SType)>,
    subst: SSubst,
    names: Set<Seq<char>>,
    fuel: nat,
)
    requires
        of_the_checker(names),
        fit_fields(env, actual, expected, subst, Some(names), fuel).1 is Ok,
    ensures
        forall|i: int|
            0 <= i < expected.len() ==> some_field_suits(
                env,
                actual,
                expected[i].0,
                (#[trigger] expected[i]).1,
            ),
    decreases fuel, expected, 0nat,
{
    if expected.len() > 0 {
        let found = keyed(actual, expected[0].0, 0)->Some_0;
        types_that_fit_suit(env, found, expected[0].1, subst, names, fuel);
        let after = fit(env, found, expected[0].1, subst, Some(names), fuel).0;
        let e = expected.drop_first();
        fields_that_fit_suit(env, actual, e, after, names, fuel);
        let at = keyed_is_among(actual, expected[0].0, 0);
        assert forall|i: int| 0 <= i < expected.len() implies some_field_suits(
            env,
            actual,
            expected[i].0,
            (#[trigger] expected[i]).1,
        ) by {
            if i > 0 {
                assert(e[i - 1] == expected[i]);
            } else {
                assert(actual[at].0 == expected[0].0);
            }
        }
    }
}

/// Types of a closed form hold no variable.
proof fn closed_types_hold_no_variable(
    env: SEnv,
    t: SType,
    resolving: Seq<SKey>,
    fuel: nat,
    n: Seq<char>,
)
    requires
        resolved(env, t, resolving, fuel) is Ok,
    ensures
        !occurs(t, n),
    decreases t,
{
    reveal_with_fuel(resolved, 2);
    match t {
        SType::List(item) => {
            closed_types_hold_no_variable(env, *item, resolving, fuel, n);
        },
        SType::SetOf(item) => {
            closed_types_hold_no_variable(env, *item, resolving, fuel, n);
        },
        SType::MapOf(key, value) => {
            closed_types_hold_no_variable(env, *key, resolving, fuel, n);
            closed_types_hold_no_variable(env, *value, resolving, fuel, n);
        },
        SType::Record(fields) => {
            closed_fields_hold_no_variable(env, fields, resolving, fuel, n);
        },
        SType::Product(items) => {
            all_closed_hold_no_variable(env, items, resolving, fuel, n);
        },
        SType::Named(_, args) => {
            all_closed_hold_no_variable(env, args, resolving, fuel, n);
        },
        _ => {},
    }
}

proof fn all_closed_hold_no_variable(
    env: SEnv,
    items: Seq<SType>,
    resolving: Seq<SKey>,
    fuel: nat,
    n: Seq<char>,
)
    requires
        resolved_all(env, items, resolving, fuel) is Ok,
    ensures
        !some_occurs(items, n),
    decreases items,
{
    reveal_with_fuel(resolved_all, 2);
    if items.len() > 0 {
        closed_types_hold_no_variable(env, items[0], resolving, fuel, n);
        let rest = items.drop_first();
        all_closed_hold_no_variable(env, rest, resolving, fuel, n);
        assert forall|i: int| 0 <= i < items.len() implies !occurs(#[trigger] items[i], n) by {
            if i > 0 {
                assert(rest[i - 1] == items[i]);
            }
        }
    }
}

proof fn closed_fields_hold_no_variable(
    env: SEnv,
    items: Seq<(Seq<char>, SType)>,
    resolving: Seq<SKey>,
    fuel: nat,
    n: Seq<char>,
)
    requires
        resolved_fields(env, items, resolving, fuel) is Ok,
    ensures
        !some_field_occurs(items, n),
    decreases items,
{
    reveal_with_fuel(resolved_fields, 2);
    if items.len() > 0 {
        closed_types_hold_no_variable(env, items[0].1, resolving, fuel, n);
        let rest = items.drop_first();
        closed_fields_hold_no_variable(env, rest, resolving, fuel, n);
        assert forall|i: int| 0 <= i < items.len() implies !occurs((#[trigger] items[i]).1, n) by {
            if i > 0 {
                assert(rest[i - 1] == items[i]);
            }
        }
    }
}

/// A type of a closed form is one without variables.
pub proof fn types_with_variables_have_no_closed_form(env: SEnv, t: SType, n: Seq<char>)
    requires
        occurs(t, n),
    ensures
        closed_type(env, t) is Err,
{
    reveal(closed_type);
    if closed_type(env, t) is Ok {
        closed_types_hold_no_variable(env, t, Seq::empty(), expansion_limit(env), n);
    }
}

/// Whether a substitution has types for variables of the checker alone.
pub open spec fn for_the_checker(s: SSubst) -> bool {
    of_the_checker(s.dom())
}

proof fn found_before(a: SSubst, b: SSubst, n: Seq<char>)
    requires
        a.submap_of(b),
        a.dom().contains(n),
    ensures
        b.dom().contains(n),
        b[n] == a[n],
{
    assert(b.dom().contains(n) ==> b[n] == a[n]);
}

pub proof fn found_in_turn(a: SSubst, b: SSubst, c: SSubst)
    requires
        a.submap_of(b),
        b.submap_of(c),
    ensures
        a.submap_of(c),
{
    assert forall|n: Seq<char>| #[trigger] a.dom().contains(n) implies #[trigger] c.dom().contains(
        n,
    ) && a[n] == c[n] by {
        found_before(a, b, n);
        found_before(b, c, n);
    }
}

proof fn bound_the_same(t: SType, s1: SSubst, s2: SSubst)
    requires
        s1.submap_of(s2),
        forall|n: Seq<char>| !#[trigger] occurs(apply(t, s1), n),
    ensures
        apply(t, s2) == apply(t, s1),
    decreases t,
{
    let whole = apply(t, s1);
    match t {
        SType::Var(n) => {
            if s1.dom().contains(n) {
                found_before(s1, s2, n);
            } else {
                assert(occurs(whole, n));
            }
        },
        SType::Named(_, a) => {
            assert forall|n: Seq<char>| !#[trigger] some_occurs(apply_all(a, s1), n) by {
                assert(!occurs(whole, n));
            }
            all_bound_the_same(a, s1, s2);
        },
        SType::TypeTag(x) => {
            assert forall|n: Seq<char>| !#[trigger] occurs(apply(*x, s1), n) by {
                assert(!occurs(whole, n));
            }
            bound_the_same(*x, s1, s2);
        },
        SType::List(x) => {
            assert forall|n: Seq<char>| !#[trigger] occurs(apply(*x, s1), n) by {
                assert(!occurs(whole, n));
            }
            bound_the_same(*x, s1, s2);
        },
        SType::SetOf(x) => {
            assert forall|n: Seq<char>| !#[trigger] occurs(apply(*x, s1), n) by {
                assert(!occurs(whole, n));
            }
            bound_the_same(*x, s1, s2);
        },
        SType::MapOf(k, v) => {
            assert forall|n: Seq<char>| !#[trigger] occurs(apply(*k, s1), n) by {
                assert(!occurs(whole, n));
            }
            assert forall|n: Seq<char>| !#[trigger] occurs(apply(*v, s1), n) by {
                assert(!occurs(whole, n));
            }
            bound_the_same(*k, s1, s2);
            bound_the_same(*v, s1, s2);
        },
        SType::Record(f) => {
            let made = apply_fields(f, s1);
            assert forall|i: int| 0 <= i < f.len() implies apply((#[trigger] f[i]).1, s2) == apply(
                f[i].1,
                s1,
            ) by {
                assert forall|n: Seq<char>| !#[trigger] occurs(apply(f[i].1, s1), n) by {
                    assert(!occurs(whole, n));
                    assert(!some_field_occurs(made, n));
                    assert(made[i].1 == apply(f[i].1, s1));
                }
                bound_the_same(f[i].1, s1, s2);
            }
            assert(apply_fields(f, s2) =~= made);
        },
        SType::Product(a) => {
            assert forall|n: Seq<char>| !#[trigger] some_occurs(apply_all(a, s1), n) by {
                assert(!occurs(whole, n));
            }
            all_bound_the_same(a, s1, s2);
        },
        SType::Function(a, r) => {
            assert forall|n: Seq<char>| !#[trigger] some_occurs(apply_all(a, s1), n) by {
                assert(!occurs(whole, n));
            }
            assert forall|n: Seq<char>| !#[trigger] occurs(apply(*r, s1), n) by {
                assert(!occurs(whole, n));
            }
            all_bound_the_same(a, s1, s2);
            bound_the_same(*r, s1, s2);
        },
        _ => {},
    }
}

proof fn all_bound_the_same(items: Seq<SType>, s1: SSubst, s2: SSubst)
    requires
        s1.submap_of(s2),
        forall|n: Seq<char>| !#[trigger] some_occurs(apply_all(items, s1), n),
    ensures
        apply_all(items, s2) == apply_all(items, s1),
    decreases items,
{
    let made = apply_all(items, s1);
    assert forall|i: int| 0 <= i < items.len() implies apply(#[trigger] items[i], s2) == apply(
        items[i],
        s1,
    ) by {
        assert forall|n: Seq<char>| !#[trigger] occurs(apply(items[i], s1), n) by {
            assert(!some_occurs(made, n));
            assert(made[i] == apply(items[i], s1));
        }
        bound_the_same(items[i], s1, s2);
    }
    assert(apply_all(items, s2) =~= made);
}

/// A type suits itself when more of the checker's variables have been found.
pub proof fn types_suit_as_variables_are_found(env: SEnv, t: SType, s1: SSubst, s2: SSubst)
    requires
        s1.submap_of(s2),
        for_the_checker(s2),
    ensures
        suits(env, apply(t, s1), apply(t, s2)),
    decreases t,
{
    match t {
        SType::Var(n) => {
            if s1.dom().contains(n) {
                found_before(s1, s2, n);
                assert(apply(t, s1) == apply(t, s2));
            } else if s2.dom().contains(n) {
                assert(found_later(apply(t, s1)));
            } else {
                assert(apply(t, s1) == apply(t, s2));
            }
        },
        SType::Named(_, a) => {
            all_suit_as_variables_are_found(env, a, s1, s2);
        },
        SType::TypeTag(x) => {
            types_suit_as_variables_are_found(env, *x, s1, s2);
        },
        SType::List(x) => {
            types_suit_as_variables_are_found(env, *x, s1, s2);
        },
        SType::SetOf(x) => {
            types_suit_as_variables_are_found(env, *x, s1, s2);
        },
        SType::MapOf(k, v) => {
            types_suit_as_variables_are_found(env, *k, s1, s2);
            types_suit_as_variables_are_found(env, *v, s1, s2);
        },
        SType::Record(f) => {
            let (a, e) = (apply_fields(f, s1), apply_fields(f, s2));
            assert forall|i: int| 0 <= i < e.len() implies some_field_suits(
                env,
                a,
                e[i].0,
                (#[trigger] e[i]).1,
            ) by {
                types_suit_as_variables_are_found(env, f[i].1, s1, s2);
                assert(a[i].0 == e[i].0);
            }
        },
        SType::Product(a) => {
            all_suit_as_variables_are_found(env, a, s1, s2);
        },
        SType::Function(a, r) => {
            all_suit_as_variables_are_found(env, a, s1, s2);
            types_suit_as_variables_are_found(env, *r, s1, s2);
        },
        _ => {
            assert(apply(t, s1) == t && apply(t, s2) == t);
        },
    }
}

proof fn all_suit_as_variables_are_found(env: SEnv, items: Seq<SType>, s1: SSubst, s2: SSubst)
    requires
        s1.submap_of(s2),
        for_the_checker(s2),
    ensures
        apply_all(items, s1).len() == items.len() && apply_all(items, s2).len() == items.len(),
        forall|i: int|
            0 <= i < items.len() ==> suits(
                env,
                apply_all(items, s1)[i],
                #[trigger] apply_all(items, s2)[i],
            ),
    decreases items,
{
    assert forall|i: int| 0 <= i < items.len() implies suits(
        env,
        apply_all(items, s1)[i],
        #[trigger] apply_all(items, s2)[i],
    ) by {
        types_suit_as_variables_are_found(env, items[i], s1, s2);
    }
}

/// A comparison that succeeds is one of types that suit each other also once all variables of the
/// checker that were found are put in: whatever is found later.
pub proof fn types_that_fit_suit_when_found(
    env: SEnv,
    actual: SType,
    item: SType,
    s0: SSubst,
    subst: SSubst,
    names: Set<Seq<char>>,
    fuel: nat,
    s2: SSubst,
)
    requires
        of_the_checker(names),
        for_the_checker(s2),
        s0.submap_of(subst),
        fit(env, actual, apply(item, s0), subst, Some(names), fuel).1 is Ok,
        fit(env, actual, apply(item, s0), subst, Some(names), fuel).0.submap_of(s2),
    ensures
        suits(env, actual, apply(item, s2)),
    decreases item, 1nat,
{
    let target = apply(item, s0);
    let s = fit(env, actual, target, subst, Some(names), fuel).0;
    comparing_keeps_bindings(env, actual, target, subst, Some(names), fuel);
    found_in_turn(s0, subst, s);
    found_in_turn(s0, s, s2);
    types_that_fit_suit(env, actual, target, subst, names, fuel);
    if item is Var {
        let n = item->Var_0;
        if s0.dom().contains(n) {
            found_before(s0, s2, n);
        } else if actual == target {
            types_suit_as_variables_are_found(env, item, s0, s2);
        } else if names.contains(n) {
            if subst.dom().contains(n) {
                let bound = subst[n];
                found_before(subst, s, n);
                found_before(s, s2, n);
                if fuel > 0 {
                    types_that_fit_suit(env, actual, bound, subst, names, (fuel - 1) as nat);
                }
            } else {
                assert(s.dom().contains(n) && s[n] == actual);
                found_before(s, s2, n);
            }
        } else {
            assert(found_later(actual));
        }
    } else if actual == target {
        types_suit_as_variables_are_found(env, item, s0, s2);
    } else if found_later(actual) || actual is Never || actual is EmptyList && target is List {
    } else {
        match (closed_type(env, actual), closed_type(env, target)) {
            (Ok(_), Ok(_)) => {
                assert forall|n: Seq<char>| !#[trigger] occurs(target, n) by {
                    if occurs(target, n) {
                        types_with_variables_have_no_closed_form(env, target, n);
                    }
                }
                bound_the_same(item, s0, s2);
            },
            _ => {
                shapes_that_fit_suit_when_found(env, actual, item, s0, subst, names, fuel, s2);
            },
        }
    }
}

proof fn shapes_that_fit_suit_when_found(
    env: SEnv,
    actual: SType,
    item: SType,
    s0: SSubst,
    subst: SSubst,
    names: Set<Seq<char>>,
    fuel: nat,
    s2: SSubst,
)
    requires
        !(item is Var),
        of_the_checker(names),
        for_the_checker(s2),
        s0.submap_of(subst),
        shape_fit(env, actual, apply(item, s0), subst, Some(names), fuel).1 is Ok,
        shape_fit(env, actual, apply(item, s0), subst, Some(names), fuel).0.submap_of(s2),
    ensures
        suits(env, actual, apply(item, s2)),
    decreases item, 0nat,
{
    let some = Some(names);
    match (item, actual) {
        (SType::Named(_, ea), SType::Named(_, aa)) => {
            all_that_fit_suit_when_found(env, aa, ea, s0, subst, names, fuel, s2);
        },
        (SType::TypeTag(e), SType::TypeTag(a)) => {
            types_that_fit_suit_when_found(env, *a, *e, s0, subst, names, fuel, s2);
        },
        (SType::List(e), SType::List(a)) => {
            types_that_fit_suit_when_found(env, *a, *e, s0, subst, names, fuel, s2);
        },
        (SType::SetOf(e), SType::SetOf(a)) => {
            types_that_fit_suit_when_found(env, *a, *e, s0, subst, names, fuel, s2);
        },
        (SType::MapOf(ek, ev), SType::MapOf(ak, av)) => {
            let (k, v) = (apply(*ek, s0), apply(*ev, s0));
            let after = fit(env, *ak, k, subst, some, fuel).0;
            comparing_keeps_bindings(env, *ak, k, subst, some, fuel);
            comparing_keeps_bindings(env, *av, v, after, some, fuel);
            let last = fit(env, *av, v, after, some, fuel).0;
            found_in_turn(after, last, s2);
            found_in_turn(s0, subst, after);
            types_that_fit_suit_when_found(env, *ak, *ek, s0, subst, names, fuel, s2);
            types_that_fit_suit_when_found(env, *av, *ev, s0, after, names, fuel, s2);
        },
        (SType::Record(ef), SType::Record(af)) => {
            fields_that_fit_suit_when_found(env, af, ef, s0, subst, names, fuel, s2);
        },
        (SType::Product(e), SType::Product(a)) => {
            all_that_fit_suit_when_found(env, a, e, s0, subst, names, fuel, s2);
        },
        (SType::Function(ep, er), SType::Function(ap, ar)) => {
            let (p, r) = (apply_all(ep, s0), apply(*er, s0));
            let after = fit_all(env, ap, p, subst, some, fuel).0;
            comparing_all_keeps_bindings(env, ap, p, subst, some, fuel);
            comparing_keeps_bindings(env, *ar, r, after, some, fuel);
            let last = fit(env, *ar, r, after, some, fuel).0;
            found_in_turn(after, last, s2);
            found_in_turn(s0, subst, after);
            all_that_fit_suit_when_found(env, ap, ep, s0, subst, names, fuel, s2);
            types_that_fit_suit_when_found(env, *ar, *er, s0, after, names, fuel, s2);
        },
        _ => {},
    }
}

proof fn all_that_fit_suit_when_found(
    env: SEnv,
    actual: Seq<SType>,
    items: Seq<SType>,
    s0: SSubst,
    subst: SSubst,
    names: Set<Seq<char>>,
    fuel: nat,
    s2: SSubst,
)
    requires
        actual.len() == items.len(),
        of_the_checker(names),
        for_the_checker(s2),
        s0.submap_of(subst),
        fit_all(env, actual, apply_all(items, s0), subst, Some(names), fuel).1 is Ok,
        fit_all(env, actual, apply_all(items, s0), subst, Some(names), fuel).0.submap_of(s2),
    ensures
        apply_all(items, s2).len() == items.len(),
        forall|i: int|
            0 <= i < items.len() ==> suits(env, actual[i], #[trigger] apply_all(items, s2)[i]),
    decreases items, 0nat,
{
    if items.len() > 0 {
        let some = Some(names);
        let targets = apply_all(items, s0);
        let after = fit(env, actual[0], targets[0], subst, some, fuel).0;
        let (a, e) = (actual.drop_first(), items.drop_first());
        assert(targets.drop_first() =~= apply_all(e, s0));
        comparing_keeps_bindings(env, actual[0], targets[0], subst, some, fuel);
        comparing_all_keeps_bindings(env, a, apply_all(e, s0), after, some, fuel);
        let last = fit_all(env, a, apply_all(e, s0), after, some, fuel).0;
        found_in_turn(after, last, s2);
        found_in_turn(s0, subst, after);
        types_that_fit_suit_when_found(env, actual[0], items[0], s0, subst, names, fuel, s2);
        all_that_fit_suit_when_found(env, a, e, s0, after, names, fuel, s2);
        assert forall|i: int| 0 <= i < items.len() implies suits(
            env,
            actual[i],
            #[trigger] apply_all(items, s2)[i],
        ) by {
            if i > 0 {
                assert(apply_all(e, s2)[i - 1] == apply_all(items, s2)[i]);
                assert(a[i - 1] == actual[i]);
            }
        }
    }
}

proof fn fields_that_fit_suit_when_found(
    env: SEnv,
    actual: Seq<(Seq<char>, SType)>,
    items: Seq<(Seq<char>, SType)>,
    s0: SSubst,
    subst: SSubst,
    names: Set<Seq<char>>,
    fuel: nat,
    s2: SSubst,
)
    requires
        of_the_checker(names),
        for_the_checker(s2),
        s0.submap_of(subst),
        fit_fields(env, actual, apply_fields(items, s0), subst, Some(names), fuel).1 is Ok,
        fit_fields(env, actual, apply_fields(items, s0), subst, Some(names), fuel).0.submap_of(s2),
    ensures
        apply_fields(items, s2).len() == items.len(),
        forall|i: int|
            0 <= i < items.len() ==> some_field_suits(
                env,
                actual,
                apply_fields(items, s2)[i].0,
                (#[trigger] apply_fields(items, s2)[i]).1,
            ),
    decreases items, 0nat,
{
    if items.len() > 0 {
        let some = Some(names);
        let targets = apply_fields(items, s0);
        let found = keyed(actual, targets[0].0, 0)->Some_0;
        let after = fit(env, found, targets[0].1, subst, some, fuel).0;
        let e = items.drop_first();
        assert(targets.drop_first() =~= apply_fields(e, s0));
        comparing_keeps_bindings(env, found, targets[0].1, subst, some, fuel);
        comparing_fields_keeps_bindings(env, actual, apply_fields(e, s0), after, some, fuel);
        let last = fit_fields(env, actual, apply_fields(e, s0), after, some, fuel).0;
        found_in_turn(after, last, s2);
        found_in_turn(s0, subst, after);
        types_that_fit_suit_when_found(env, found, items[0].1, s0, subst, names, fuel, s2);
        fields_that_fit_suit_when_found(env, actual, e, s0, after, names, fuel, s2);
        let at = keyed_is_among(actual, targets[0].0, 0);
        let all = apply_fields(items, s2);
        assert forall|i: int| 0 <= i < items.len() implies some_field_suits(
            env,
            actual,
            all[i].0,
            (#[trigger] all[i]).1,
        ) by {
            if i > 0 {
                assert(apply_fields(e, s2)[i - 1] == all[i]);
            } else {
                assert(actual[at].0 == all[0].0);
            }
        }
    }
}

/// Whether a type is made of nothing else.
pub open spec fn scalar_type(t: SType) -> bool {
    t is JsonValue || t is Unit || t is Bool || t is Int || t is Float || t is String
}

/// A type made of nothing else suits itself alone, and a list, set, map, record or product suits no
/// such type.
pub proof fn scalar_types_suit_themselves_alone(env: SEnv, a: SType, b: SType)
    requires
        scalar_type(a) || scalar_type(b),
        !found_later(a) && !found_later(b),
        !(a is Never),
        !(a is Named) && !(b is Named),
    ensures
        suits(env, a, b) <==> a == b,
{
    reveal(closed_type);
    reveal_with_fuel(resolved, 2);
}

/// Types that both have a closed form fit exactly where the closed forms are the same.
pub proof fn closed_types_fit_where_they_are_the_same(
    env: SEnv,
    a: SType,
    b: SType,
    subst: SSubst,
    bindable: Option<Set<Seq<char>>>,
    fuel: nat,
)
    requires
        closed_type(env, a) is Ok,
        closed_type(env, b) is Ok,
    ensures
        fit(env, a, b, subst, bindable, fuel).1 is Ok <==> closed_type(env, a) == closed_type(
            env,
            b,
        ),
        fit(env, a, b, subst, bindable, fuel).0 == subst,
{
    reveal(closed_type);
    reveal_with_fuel(resolved, 2);
}

/// A comparison without variables to bind is one of types that suit each other.
pub proof fn static_fits_suit(env: SEnv, actual: SType, expected: SType, subst: SSubst)
    requires
        fit_static(env, actual, expected, subst).1 is Ok,
    ensures
        suits(env, actual, expected),
{
    reveal(fit_static);
    let names = internal_vars(actual).union(internal_vars(expected));
    types_that_fit_suit(env, actual, expected, subst, names, expansion_limit(env));
}

/// Each substitution comes of the one before by finding more of the checker's variables.
pub open spec fn finds(before: SSubst, after: SSubst) -> bool {
    before.submap_of(after) && (for_the_checker(before) ==> for_the_checker(after))
}

pub proof fn static_fits_find(env: SEnv, actual: SType, expected: SType, subst: SSubst)
    ensures
        finds(subst, fit_static(env, actual, expected, subst).0),
{
    reveal(fit_static);
    let names = internal_vars(actual).union(internal_vars(expected));
    comparing_keeps_bindings(env, actual, expected, subst, Some(names), expansion_limit(env));
}

pub proof fn binding_fits_find(
    env: SEnv,
    actual: SType,
    expected: SType,
    subst: SSubst,
    bindable: Set<Seq<char>>,
)
    requires
        of_the_checker(bindable),
    ensures
        finds(subst, fit_binding(env, actual, expected, subst, bindable).0),
{
    reveal(fit_binding);
    let names = bindable.union(internal_vars(actual)).union(internal_vars(expected));
    comparing_keeps_bindings(env, actual, expected, subst, Some(names), expansion_limit(env));
}

pub proof fn finding_goes_on(a: SSubst, b: SSubst, c: SSubst)
    requires
        finds(a, b),
        finds(b, c),
    ensures
        finds(a, c),
{
    found_in_turn(a, b, c);
}

/// What fits where variables found before were put in suits once all were found.
pub proof fn static_fits_suit_when_found(
    env: SEnv,
    actual: SType,
    item: SType,
    subst: SSubst,
    s2: SSubst,
)
    requires
        for_the_checker(s2),
        fit_static(env, actual, apply(item, subst), subst).1 is Ok,
        fit_static(env, actual, apply(item, subst), subst).0.submap_of(s2),
    ensures
        suits(env, actual, apply(item, s2)),
{
    reveal(fit_static);
    let target = apply(item, subst);
    let names = internal_vars(actual).union(internal_vars(target));
    let fuel = expansion_limit(env);
    types_that_fit_suit_when_found(env, actual, item, subst, subst, names, fuel, s2);
}

pub proof fn binding_fits_suit_when_found(
    env: SEnv,
    actual: SType,
    item: SType,
    subst: SSubst,
    bindable: Set<Seq<char>>,
    s2: SSubst,
)
    requires
        of_the_checker(bindable),
        for_the_checker(s2),
        fit_binding(env, actual, apply(item, subst), subst, bindable).1 is Ok,
        fit_binding(env, actual, apply(item, subst), subst, bindable).0.submap_of(s2),
    ensures
        suits(env, actual, apply(item, s2)),
{
    reveal(fit_binding);
    let target = apply(item, subst);
    let names = bindable.union(internal_vars(actual)).union(internal_vars(target));
    let fuel = expansion_limit(env);
    types_that_fit_suit_when_found(env, actual, item, subst, subst, names, fuel, s2);
}

/// Whether every variable in a type was written by the author.
pub open spec fn settled(t: SType) -> bool {
    forall|n: Seq<char>| #[trigger] occurs(t, n) ==> !internal_name(n)
}

/// What the checker finds leaves a type alone that holds none of the checker's variables.
pub proof fn settled_types_stay(t: SType, s: SSubst)
    requires
        settled(t) || s.dom() =~= Set::empty(),
        for_the_checker(s),
    ensures
        apply(t, s) == t,
{
    assert forall|n: Seq<char>| #[trigger] occurs(t, n) implies !s.dom().contains(n) by {}
    other_variables_stay(t, s);
}

} // verus!
