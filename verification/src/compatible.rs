//! Compatibility of types: whether a value of one type may stand where another is expected, and
//! what the type variables on either side then stand for.

use vstd::prelude::*;

use crate::concrete::{ConcreteType, SConcrete};
use crate::env::{keyed, Env, SEnv};
use crate::resolve::{closed_type, expansion_limit, unfolding_limit};
use crate::structure::structure_text;
use crate::substitution::{
    internal_type_variables, internal_vars, NameSet, Substitution,
};
use crate::text::{cat2, cat4, cat5, cat6, same};
use crate::types::{fields_view, type_text, types_view, MagType, SType};

verus! {

broadcast use vstd::seq_lib::group_seq_properties;

/// What stands for the variables bound so far.
pub type SSubst = Map<Seq<char>, SType>;

/// The outcome of a comparison: the variables bound by it, also where it fails, and the reason
/// for a failure.
pub type SFit = (SSubst, Result<(), Seq<char>>);

pub open spec fn mismatch(expected: SType, actual: SType) -> Result<(), Seq<char>> {
    Err("expected "@ + type_text(expected) + ", got "@ + type_text(actual))
}

pub open spec fn nominal_mismatch(expected: Seq<char>, actual: Seq<char>) -> Result<
    (),
    Seq<char>,
> {
    Err(
        "expected nominal "@ + expected + ", got "@ + actual
            + "; use as for explicit refinement"@,
    )
}

/// The outcome for two types that are both closed: they fit exactly when they are the same.
pub open spec fn closed_fit(expected: SConcrete, actual: SConcrete) -> Result<(), Seq<char>> {
    if expected == actual {
        Ok(())
    } else if expected is Named {
        nominal_mismatch(structure_text(expected), structure_text(actual))
    } else {
        Err("expected "@ + structure_text(expected) + ", got "@ + structure_text(actual))
    }
}

/// Whether a variable on the expected side may be bound: any may where no set is given.
pub open spec fn binds_expected(bindable: Option<Set<Seq<char>>>, name: Seq<char>) -> bool {
    match bindable {
        None => true,
        Some(names) => names.contains(name),
    }
}

/// Whether a variable on the actual side may be bound: none may where no set is given.
pub open spec fn binds_actual(bindable: Option<Set<Seq<char>>>, name: Seq<char>) -> bool {
    match bindable {
        None => false,
        Some(names) => names.contains(name),
    }
}

pub open spec fn expansion_failure() -> Result<(), Seq<char>> {
    Err("type expansion limit exceeded"@)
}

/// Whether a value of type `actual` may stand where `expected` is expected.
pub open spec fn fit(
    env: SEnv,
    actual: SType,
    expected: SType,
    subst: SSubst,
    bindable: Option<Set<Seq<char>>>,
    fuel: nat,
) -> SFit
    decreases fuel, expected, 1nat,
{
    if actual == expected {
        (subst, Ok(()))
    } else if expected is Var && binds_expected(bindable, expected->Var_0) {
        let name = expected->Var_0;
        if !subst.dom().contains(name) {
            (subst.insert(name, actual), Ok(()))
        } else if fuel == 0 {
            (subst, expansion_failure())
        } else {
            let bound = subst[name];
            let (after, r) = fit(env, actual, bound, subst, bindable, (fuel - 1) as nat);
            (
                after,
                match r {
                    Ok(_) => Ok(()),
                    Err(_) => Err(
                        name + " was "@ + type_text(bound) + ", got "@ + type_text(actual),
                    ),
                },
            )
        }
    } else if actual is Var && binds_actual(bindable, actual->Var_0) {
        let name = actual->Var_0;
        if !subst.dom().contains(name) {
            (subst.insert(name, expected), Ok(()))
        } else if fuel == 0 {
            (subst, expansion_failure())
        } else {
            let bound = subst[name];
            let (after, r) = fit(env, bound, expected, subst, bindable, (fuel - 1) as nat);
            (
                after,
                match r {
                    Ok(_) => Ok(()),
                    Err(_) => Err(
                        name + " was "@ + type_text(bound) + ", expected "@ + type_text(expected),
                    ),
                },
            )
        }
    } else if expected is Var {
        (subst, mismatch(expected, actual))
    } else if actual is Never {
        (subst, Ok(()))
    } else if actual is EmptyList && expected is List {
        (subst, Ok(()))
    } else {
        match (closed_type(env, actual), closed_type(env, expected)) {
            (Ok(a), Ok(e)) => (subst, closed_fit(e, a)),
            _ => shape_fit(env, actual, expected, subst, bindable, fuel),
        }
    }
}

/// The comparison of two types part by part.
pub open spec fn shape_fit(
    env: SEnv,
    actual: SType,
    expected: SType,
    subst: SSubst,
    bindable: Option<Set<Seq<char>>>,
    fuel: nat,
) -> SFit
    decreases fuel, expected, 0nat,
{
    match (expected, actual) {
        (SType::Named(en, ea), SType::Named(an, aa)) => if an == en && aa.len() == ea.len() {
            fit_all(env, aa, ea, subst, bindable, fuel)
        } else {
            (subst, nominal_mismatch(type_text(expected), type_text(actual)))
        },
        (SType::Named(_, _), _) => (
            subst,
            nominal_mismatch(type_text(expected), type_text(actual)),
        ),
        (SType::TypeTag(e), SType::TypeTag(a)) => fit(env, *a, *e, subst, bindable, fuel),
        (SType::List(e), SType::List(a)) => fit(env, *a, *e, subst, bindable, fuel),
        (SType::SetOf(e), SType::SetOf(a)) => fit(env, *a, *e, subst, bindable, fuel),
        (SType::MapOf(ek, ev), SType::MapOf(ak, av)) => {
            let (after, r) = fit(env, *ak, *ek, subst, bindable, fuel);
            match r {
                Ok(_) => fit(env, *av, *ev, after, bindable, fuel),
                Err(m) => (after, Err(m)),
            }
        },
        (SType::Record(ef), SType::Record(af)) => if ef.len() == af.len() {
            fit_fields(env, af, ef, subst, bindable, fuel)
        } else {
            (subst, mismatch(expected, actual))
        },
        (SType::Product(e), SType::Product(a)) => if a.len() == e.len() {
            fit_all(env, a, e, subst, bindable, fuel)
        } else {
            (subst, mismatch(expected, actual))
        },
        (SType::Function(ep, er), SType::Function(ap, ar)) => if ap.len() == ep.len() {
            let (after, r) = fit_all(env, ap, ep, subst, bindable, fuel);
            match r {
                Ok(_) => fit(env, *ar, *er, after, bindable, fuel),
                Err(m) => (after, Err(m)),
            }
        } else {
            (subst, mismatch(expected, actual))
        },
        _ => (subst, mismatch(expected, actual)),
    }
}

/// The comparison of two lists of one length, position by position, up to the first failure.
pub open spec fn fit_all(
    env: SEnv,
    actual: Seq<SType>,
    expected: Seq<SType>,
    subst: SSubst,
    bindable: Option<Set<Seq<char>>>,
    fuel: nat,
) -> SFit
    decreases fuel, expected, 0nat,
{
    if expected.len() == 0 {
        (subst, Ok(()))
    } else {
        let (after, r) = fit(env, actual[0], expected[0], subst, bindable, fuel);
        match r {
            Ok(_) => fit_all(
                env,
                actual.drop_first(),
                expected.drop_first(),
                after,
                bindable,
                fuel,
            ),
            Err(m) => (after, Err(m)),
        }
    }
}

/// The comparison of each expected field with the actual one of its name.
pub open spec fn fit_fields(
    env: SEnv,
    actual: Seq<(Seq<char>, SType)>,
    expected: Seq<(Seq<char>, SType)>,
    subst: SSubst,
    bindable: Option<Set<Seq<char>>>,
    fuel: nat,
) -> SFit
    decreases fuel, expected, 0nat,
{
    if expected.len() == 0 {
        (subst, Ok(()))
    } else {
        match keyed(actual, expected[0].0, 0) {
            None => (subst, Err("missing field "@ + expected[0].0)),
            Some(field) => {
                let (after, r) = fit(env, field, expected[0].1, subst, bindable, fuel);
                match r {
                    Ok(_) => fit_fields(env, actual, expected.drop_first(), after, bindable, fuel),
                    Err(m) => (after, Err(m)),
                }
            },
        }
    }
}

pub open spec fn fit_result(r: Result<(), String>) -> Result<(), Seq<char>> {
    match r {
        Ok(_) => Ok(()),
        Err(m) => Err(m@),
    }
}

pub open spec fn opt_names(names: Option<&NameSet>) -> Option<Set<Seq<char>>> {
    match names {
        Some(n) => Some(n@),
        None => None,
    }
}

fn mismatched(expected: &MagType, actual: &MagType) -> (r: Result<(), String>)
    ensures
        fit_result(r) == mismatch(expected@, actual@),
{
    Err(cat4("expected ", &expected.show(), ", got ", &actual.show()))
}

fn nominal_mismatched(expected: &str, actual: &str) -> (r: Result<(), String>)
    ensures
        fit_result(r) == nominal_mismatch(expected@, actual@),
{
    Err(cat5("expected nominal ", expected, ", got ", actual, "; use as for explicit refinement"))
}

fn closed_fits(expected: &ConcreteType, actual: &ConcreteType) -> (r: Result<(), String>)
    ensures
        fit_result(r) == closed_fit(expected@, actual@),
{
    if expected.accepts(actual) {
        return Ok(());
    }
    let e = expected.structure();
    let a = actual.structure();
    match expected {
        ConcreteType::Named { .. } => nominal_mismatched(&e, &a),
        _ => Err(cat4("expected ", &e, ", got ", &a)),
    }
}

/// The field of a name.
pub fn field_named<'a>(fields: &'a Vec<(String, MagType)>, name: &str) -> (r: Option<&'a MagType>)
    ensures
        match r {
            Some(t) => keyed(fields_view(fields@), name@, 0) == Some(t@),
            None => keyed(fields_view(fields@), name@, 0) is None,
        },
{
    let ghost all = fields_view(fields@);
    let mut i: usize = 0;
    while i < fields.len()
        invariant
            i <= fields.len(),
            all == fields_view(fields@),
            all.len() == fields.len(),
            keyed(all, name@, 0) == keyed(all, name@, i as nat),
        decreases fields.len() - i,
    {
        if same(&fields[i].0, name) {
            return Some(&fields[i].1);
        }
        i = i + 1;
    }
    None
}

pub fn compatible_in(
    env: &Env,
    actual: &MagType,
    expected: &MagType,
    subst: &mut Substitution,
    bindable: Option<&NameSet>,
    fuel: u64,
) -> (r: Result<(), String>)
    ensures
        (final(subst)@, fit_result(r)) == fit(
            env@,
            actual@,
            expected@,
            old(subst)@,
            opt_names(bindable),
            fuel as nat,
        ),
    decreases fuel, expected, 1nat,
{
    if actual.equals(expected) {
        return Ok(());
    }
    if let MagType::Var(name) = expected {
        let bindable_here = match bindable {
            None => true,
            Some(names) => names.contains(name),
        };
        if bindable_here {
            let bound = match subst.get(name) {
                Some(bound) => bound.clone(),
                None => {
                    subst.insert(name, actual.clone());
                    return Ok(());
                },
            };
            if fuel == 0 {
                return Err("type expansion limit exceeded".to_owned());
            }
            return match compatible_in(env, actual, &bound, subst, bindable, fuel - 1) {
                Ok(_) => Ok(()),
                Err(_) => Err(cat5(name, " was ", &bound.show(), ", got ", &actual.show())),
            };
        }
    }
    if let MagType::Var(name) = actual {
        let bindable_here = match bindable {
            None => false,
            Some(names) => names.contains(name),
        };
        if bindable_here {
            let bound = match subst.get(name) {
                Some(bound) => bound.clone(),
                None => {
                    subst.insert(name, expected.clone());
                    return Ok(());
                },
            };
            if fuel == 0 {
                return Err("type expansion limit exceeded".to_owned());
            }
            return match compatible_in(env, &bound, expected, subst, bindable, fuel - 1) {
                Ok(_) => Ok(()),
                Err(_) => Err(cat5(name, " was ", &bound.show(), ", expected ", &expected.show())),
            };
        }
    }
    if let MagType::Var(_) = expected {
        return mismatched(expected, actual);
    }
    if let MagType::Never = actual {
        return Ok(());
    }
    if let (MagType::EmptyList, MagType::List(_)) = (actual, expected) {
        return Ok(());
    }
    let closed_actual = ConcreteType::resolve(env, actual);
    let closed_expected = ConcreteType::resolve(env, expected);
    if let (Ok(a), Ok(e)) = (&closed_actual, &closed_expected) {
        return closed_fits(e, a);
    }
    shapes_compatible(env, actual, expected, subst, bindable, fuel)
}

fn shapes_compatible(
    env: &Env,
    actual: &MagType,
    expected: &MagType,
    subst: &mut Substitution,
    bindable: Option<&NameSet>,
    fuel: u64,
) -> (r: Result<(), String>)
    ensures
        (final(subst)@, fit_result(r)) == shape_fit(
            env@,
            actual@,
            expected@,
            old(subst)@,
            opt_names(bindable),
            fuel as nat,
        ),
    decreases fuel, expected, 0nat,
{
    match (expected, actual) {
        (MagType::Named(en, ea), MagType::Named(an, aa)) => {
            assert(types_view(ea@).len() == ea@.len());
            assert(types_view(aa@).len() == aa@.len());
            if same(an, en) && aa.len() == ea.len() {
                all_compatible(env, aa, ea, subst, bindable, fuel)
            } else {
                nominal_mismatched(&expected.show(), &actual.show())
            }
        },
        (MagType::Named(_, _), _) => nominal_mismatched(&expected.show(), &actual.show()),
        (MagType::TypeTag(e), MagType::TypeTag(a)) => {
            compatible_in(env, a, e, subst, bindable, fuel)
        },
        (MagType::List(e), MagType::List(a)) => compatible_in(env, a, e, subst, bindable, fuel),
        (MagType::SetOf(e), MagType::SetOf(a)) => compatible_in(env, a, e, subst, bindable, fuel),
        (MagType::MapOf(ek, ev), MagType::MapOf(ak, av)) => {
            match compatible_in(env, ak, ek, subst, bindable, fuel) {
                Ok(_) => compatible_in(env, av, ev, subst, bindable, fuel),
                Err(m) => Err(m),
            }
        },
        (MagType::Record(ef), MagType::Record(af)) => {
            assert(fields_view(ef@).len() == ef@.len());
            assert(fields_view(af@).len() == af@.len());
            if ef.len() == af.len() {
                fields_compatible(env, af, ef, subst, bindable, fuel)
            } else {
                mismatched(expected, actual)
            }
        },
        (MagType::Product(e), MagType::Product(a)) => {
            assert(types_view(e@).len() == e@.len());
            assert(types_view(a@).len() == a@.len());
            if a.len() == e.len() {
                all_compatible(env, a, e, subst, bindable, fuel)
            } else {
                mismatched(expected, actual)
            }
        },
        (MagType::Function(ep, er), MagType::Function(ap, ar)) => {
            assert(types_view(ep@).len() == ep@.len());
            assert(types_view(ap@).len() == ap@.len());
            if ap.len() == ep.len() {
                match all_compatible(env, ap, ep, subst, bindable, fuel) {
                    Ok(_) => compatible_in(env, ar, er, subst, bindable, fuel),
                    Err(m) => Err(m),
                }
            } else {
                mismatched(expected, actual)
            }
        },
        _ => mismatched(expected, actual),
    }
}

fn all_compatible(
    env: &Env,
    actual: &Vec<MagType>,
    expected: &Vec<MagType>,
    subst: &mut Substitution,
    bindable: Option<&NameSet>,
    fuel: u64,
) -> (r: Result<(), String>)
    requires
        actual@.len() == expected@.len(),
    ensures
        (final(subst)@, fit_result(r)) == fit_all(
            env@,
            types_view(actual@),
            types_view(expected@),
            old(subst)@,
            opt_names(bindable),
            fuel as nat,
        ),
    decreases fuel, expected, 0nat,
{
    let ghost all_a = types_view(actual@);
    let ghost all_e = types_view(expected@);
    let ghost names = opt_names(bindable);
    let ghost whole = fit_all(env@, all_a, all_e, subst@, names, fuel as nat);
    let mut i: usize = 0;
    assert(all_a.skip(0) =~= all_a);
    assert(all_e.skip(0) =~= all_e);
    while i < expected.len()
        invariant
            i <= expected.len(),
            actual@.len() == expected@.len(),
            all_a == types_view(actual@),
            all_e == types_view(expected@),
            all_a.len() == actual@.len(),
            all_e.len() == expected@.len(),
            names == opt_names(bindable),
            whole == fit_all(env@, all_a, all_e, old(subst)@, names, fuel as nat),
            whole == fit_all(
                env@,
                all_a.skip(i as int),
                all_e.skip(i as int),
                subst@,
                names,
                fuel as nat,
            ),
        decreases expected.len() - i,
    {
        proof {
            assert(all_a.skip(i as int)[0] == actual@[i as int]@);
            assert(all_e.skip(i as int)[0] == expected@[i as int]@);
            assert(all_a.skip(i as int).drop_first() =~= all_a.skip(i + 1));
            assert(all_e.skip(i as int).drop_first() =~= all_e.skip(i + 1));
        }
        match compatible_in(env, &actual[i], &expected[i], subst, bindable, fuel) {
            Ok(_) => {},
            Err(m) => {
                return Err(m);
            },
        }
        i = i + 1;
    }
    Ok(())
}

fn fields_compatible(
    env: &Env,
    actual: &Vec<(String, MagType)>,
    expected: &Vec<(String, MagType)>,
    subst: &mut Substitution,
    bindable: Option<&NameSet>,
    fuel: u64,
) -> (r: Result<(), String>)
    ensures
        (final(subst)@, fit_result(r)) == fit_fields(
            env@,
            fields_view(actual@),
            fields_view(expected@),
            old(subst)@,
            opt_names(bindable),
            fuel as nat,
        ),
    decreases fuel, expected, 0nat,
{
    let ghost all_a = fields_view(actual@);
    let ghost all_e = fields_view(expected@);
    let ghost names = opt_names(bindable);
    let ghost whole = fit_fields(env@, all_a, all_e, subst@, names, fuel as nat);
    let mut i: usize = 0;
    assert(all_e.skip(0) =~= all_e);
    while i < expected.len()
        invariant
            i <= expected.len(),
            all_a == fields_view(actual@),
            all_e == fields_view(expected@),
            all_e.len() == expected@.len(),
            names == opt_names(bindable),
            whole == fit_fields(env@, all_a, all_e, old(subst)@, names, fuel as nat),
            whole == fit_fields(env@, all_a, all_e.skip(i as int), subst@, names, fuel as nat),
        decreases expected.len() - i,
    {
        proof {
            assert(all_e.skip(i as int)[0] == (expected@[i as int].0@, expected@[i as int].1@));
            assert(all_e.skip(i as int).drop_first() =~= all_e.skip(i + 1));
        }
        match field_named(actual, &expected[i].0) {
            None => {
                return Err(cat2("missing field ", &expected[i].0));
            },
            Some(field) => {
                match compatible_in(env, field, &expected[i].1, subst, bindable, fuel) {
                    Ok(_) => {},
                    Err(m) => {
                        return Err(m);
                    },
                }
            },
        }
        i = i + 1;
    }
    Ok(())
}

/// The comparison in which every variable on the expected side may be bound.
#[verifier::opaque]
pub open spec fn fit_any(env: SEnv, actual: SType, expected: SType, subst: SSubst) -> SFit {
    fit(env, actual, expected, subst, None, expansion_limit(env))
}

/// The comparison in which only variables that the checker made may be bound, on either side.
#[verifier::opaque]
pub open spec fn fit_static(env: SEnv, actual: SType, expected: SType, subst: SSubst) -> SFit {
    fit(
        env,
        actual,
        expected,
        subst,
        Some(internal_vars(actual).union(internal_vars(expected))),
        expansion_limit(env),
    )
}

/// The comparison in which besides those the given variables may be bound.
#[verifier::opaque]
pub open spec fn fit_binding(
    env: SEnv,
    actual: SType,
    expected: SType,
    subst: SSubst,
    bindable: Set<Seq<char>>,
) -> SFit {
    fit(
        env,
        actual,
        expected,
        subst,
        Some(bindable.union(internal_vars(actual)).union(internal_vars(expected))),
        expansion_limit(env),
    )
}

/// Whether `actual` fits `expected` with no variable bound before.
#[verifier::opaque]
pub open spec fn fits(env: SEnv, actual: SType, expected: SType) -> Result<(), Seq<char>> {
    fit_any(env, actual, expected, Map::empty()).1
}

pub fn compatible(
    env: &Env,
    actual: &MagType,
    expected: &MagType,
    subst: &mut Substitution,
) -> (r: Result<(), String>)
    ensures
        (final(subst)@, fit_result(r)) == fit_any(env@, actual@, expected@, old(subst)@),
{
    proof {
        reveal(fit_any);
    }
    compatible_in(env, actual, expected, subst, None, unfolding_limit(env))
}

/// [`compatible`] with no variable bound before.
pub fn compatible_alone(env: &Env, actual: &MagType, expected: &MagType) -> (r: Result<(), String>)
    ensures
        fit_result(r) == fits(env@, actual@, expected@),
{
    proof {
        reveal(fits);
    }
    let mut subst = Substitution::new();
    compatible(env, actual, expected, &mut subst)
}

pub fn compatible_static(
    env: &Env,
    actual: &MagType,
    expected: &MagType,
    subst: &mut Substitution,
) -> (r: Result<(), String>)
    ensures
        (final(subst)@, fit_result(r)) == fit_static(env@, actual@, expected@, old(subst)@),
{
    proof {
        reveal(fit_static);
    }
    let mut bindable = internal_type_variables(actual);
    let more = internal_type_variables(expected);
    bindable.extend(&more);
    compatible_in(env, actual, expected, subst, Some(&bindable), unfolding_limit(env))
}

pub fn compatible_with_bindable(
    env: &Env,
    actual: &MagType,
    expected: &MagType,
    subst: &mut Substitution,
    bindable: &NameSet,
) -> (r: Result<(), String>)
    ensures
        (final(subst)@, fit_result(r)) == fit_binding(
            env@,
            actual@,
            expected@,
            old(subst)@,
            bindable@,
        ),
{
    proof {
        reveal(fit_binding);
    }
    let mut active = bindable.clone();
    let more = internal_type_variables(actual);
    active.extend(&more);
    let more = internal_type_variables(expected);
    active.extend(&more);
    compatible_in(env, actual, expected, subst, Some(&active), unfolding_limit(env))
}

/// Whether a substitution says all that another says, and of other variables only of those that may
/// be bound.
pub open spec fn extends(subst: SSubst, after: SSubst, bindable: Option<Set<Seq<char>>>) -> bool {
    &&& subst.submap_of(after)
    &&& forall|n: Seq<char>| #[trigger]
        after.dom().contains(n) ==> subst.dom().contains(n) || binds_expected(bindable, n)
}

proof fn extensions_add_up(
    a: SSubst,
    b: SSubst,
    c: SSubst,
    bindable: Option<Set<Seq<char>>>,
)
    requires
        extends(a, b, bindable),
        extends(b, c, bindable),
    ensures
        extends(a, c, bindable),
{
    assert forall|n: Seq<char>| #[trigger] a.dom().contains(n) implies c.dom().contains(n) && c[n]
        == a[n] by {
        assert(b.dom().contains(n) && b[n] == a[n]);
    }
    assert forall|n: Seq<char>| #[trigger] c.dom().contains(n) implies a.dom().contains(n)
        || binds_expected(bindable, n) by {
        if b.dom().contains(n) {
        }
    }
}

/// A type fits where it is expected itself, and nothing is bound by that.
pub proof fn a_type_fits_itself(
    env: SEnv,
    t: SType,
    subst: SSubst,
    bindable: Option<Set<Seq<char>>>,
    fuel: nat,
)
    ensures
        fit(env, t, t, subst, bindable, fuel) == (subst, Ok::<(), Seq<char>>(())),
{
}

/// A comparison never binds a variable anew that is bound, and binds no other than those that may be
/// bound, whether it succeeds or fails.
pub proof fn comparing_keeps_bindings(
    env: SEnv,
    actual: SType,
    expected: SType,
    subst: SSubst,
    bindable: Option<Set<Seq<char>>>,
    fuel: nat,
)
    ensures
        extends(subst, fit(env, actual, expected, subst, bindable, fuel).0, bindable),
    decreases fuel, expected, 1nat,
{
    if actual == expected {
    } else if expected is Var && binds_expected(bindable, expected->Var_0) {
        let name = expected->Var_0;
        if subst.dom().contains(name) && fuel > 0 {
            let bound = subst[name];
            comparing_keeps_bindings(env, actual, bound, subst, bindable, (fuel - 1) as nat);
        }
    } else if actual is Var && binds_actual(bindable, actual->Var_0) {
        let name = actual->Var_0;
        if subst.dom().contains(name) && fuel > 0 {
            let bound = subst[name];
            comparing_keeps_bindings(env, bound, expected, subst, bindable, (fuel - 1) as nat);
        }
    } else {
        comparing_shapes_keeps_bindings(env, actual, expected, subst, bindable, fuel);
    }
}

proof fn comparing_shapes_keeps_bindings(
    env: SEnv,
    actual: SType,
    expected: SType,
    subst: SSubst,
    bindable: Option<Set<Seq<char>>>,
    fuel: nat,
)
    ensures
        extends(subst, shape_fit(env, actual, expected, subst, bindable, fuel).0, bindable),
    decreases fuel, expected, 0nat,
{
    match (expected, actual) {
        (SType::Named(_, ea), SType::Named(_, aa)) => {
            comparing_all_keeps_bindings(env, aa, ea, subst, bindable, fuel);
        },
        (SType::TypeTag(e), SType::TypeTag(a)) => {
            comparing_keeps_bindings(env, *a, *e, subst, bindable, fuel);
        },
        (SType::List(e), SType::List(a)) => {
            comparing_keeps_bindings(env, *a, *e, subst, bindable, fuel);
        },
        (SType::SetOf(e), SType::SetOf(a)) => {
            comparing_keeps_bindings(env, *a, *e, subst, bindable, fuel);
        },
        (SType::MapOf(ek, ev), SType::MapOf(ak, av)) => {
            comparing_keeps_bindings(env, *ak, *ek, subst, bindable, fuel);
            let after = fit(env, *ak, *ek, subst, bindable, fuel).0;
            comparing_keeps_bindings(env, *av, *ev, after, bindable, fuel);
            extensions_add_up(
                subst,
                after,
                fit(env, *av, *ev, after, bindable, fuel).0,
                bindable,
            );
        },
        (SType::Record(ef), SType::Record(af)) => {
            comparing_fields_keeps_bindings(env, af, ef, subst, bindable, fuel);
        },
        (SType::Product(e), SType::Product(a)) => {
            comparing_all_keeps_bindings(env, a, e, subst, bindable, fuel);
        },
        (SType::Function(ep, er), SType::Function(ap, ar)) => {
            comparing_all_keeps_bindings(env, ap, ep, subst, bindable, fuel);
            let after = fit_all(env, ap, ep, subst, bindable, fuel).0;
            comparing_keeps_bindings(env, *ar, *er, after, bindable, fuel);
            extensions_add_up(
                subst,
                after,
                fit(env, *ar, *er, after, bindable, fuel).0,
                bindable,
            );
        },
        _ => {},
    }
}

/// The same of types one by one.
pub proof fn comparing_all_keeps_bindings(
    env: SEnv,
    actual: Seq<SType>,
    expected: Seq<SType>,
    subst: SSubst,
    bindable: Option<Set<Seq<char>>>,
    fuel: nat,
)
    ensures
        extends(subst, fit_all(env, actual, expected, subst, bindable, fuel).0, bindable),
    decreases fuel, expected, 0nat,
{
    if expected.len() > 0 {
        comparing_keeps_bindings(env, actual[0], expected[0], subst, bindable, fuel);
        let after = fit(env, actual[0], expected[0], subst, bindable, fuel).0;
        comparing_all_keeps_bindings(
            env,
            actual.drop_first(),
            expected.drop_first(),
            after,
            bindable,
            fuel,
        );
        extensions_add_up(
            subst,
            after,
            fit_all(
                env,
                actual.drop_first(),
                expected.drop_first(),
                after,
                bindable,
                fuel,
            ).0,
            bindable,
        );
    }
}

/// The same of fields one by one.
pub proof fn comparing_fields_keeps_bindings(
    env: SEnv,
    actual: Seq<(Seq<char>, SType)>,
    expected: Seq<(Seq<char>, SType)>,
    subst: SSubst,
    bindable: Option<Set<Seq<char>>>,
    fuel: nat,
)
    ensures
        extends(subst, fit_fields(env, actual, expected, subst, bindable, fuel).0, bindable),
    decreases fuel, expected, 0nat,
{
    if expected.len() > 0 {
        match keyed(actual, expected[0].0, 0) {
            Some(field) => {
                comparing_keeps_bindings(env, field, expected[0].1, subst, bindable, fuel);
                let after = fit(env, field, expected[0].1, subst, bindable, fuel).0;
                comparing_fields_keeps_bindings(
                    env,
                    actual,
                    expected.drop_first(),
                    after,
                    bindable,
                    fuel,
                );
                extensions_add_up(
                    subst,
                    after,
                    fit_fields(env, actual, expected.drop_first(), after, bindable, fuel).0,
                    bindable,
                );
            },
            None => {},
        }
    }
}

} // verus!
