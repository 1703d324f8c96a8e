//! A call does not depend on what its caller binds. Of the caller's scopes it sees the types that
//! are declared there, and nothing else.

use vstd::prelude::*;

use crate::ast::{FrameId, SConstructor, SDecl, SDeclBody, SFn, SParam, SValue};
use crate::bindings::SBindings;
use crate::calls::{argument_value_types, called, called_at};
use crate::candidates::as_vars;
use crate::compatible::{fit, fit_all, fit_any, fit_fields, shape_fit, SSubst};
use crate::concrete::SConcrete;
use crate::conformance::{
    all_conform, bare_conforms, conforms, constructor_at, entries_conform, field_difference,
    fields_conform, invalid_fields, kept_evidence, nominal_evidence, positions_conform,
    record_fields_of, typed_positions, typed_product, typed_value, validated, vouches,
};
use crate::env::{keyed, SEnv};
use crate::error::SError;
use crate::eval::{
    block_rule, call_checked, call_entered, call_returned, evaluator, function_rule, params_bound,
    Evaluator,
};
use crate::files::SFiles;
use crate::frames::defined;
use crate::holding::{block_holds, call_entering_holds, evaluator_always_holds, settled_in};
use crate::infer::fit_params;
use crate::modules::{all_defined, all_offered, bound_types, declarations};
use crate::resolve::{
    by_name, closed_type, resolved, resolved_all, resolved_body, resolved_constructors,
    resolved_fields, expansion_limit, SKey,
};
use crate::substitution::{apply, apply_fields, bound_params};
use crate::type_rules::{
    equality_all_vars, equality_field_vars, equality_payload_vars, equality_vars, needs_equality,
    required_all, required_equality,
};
use crate::types::SType;
use crate::values::bare;
use crate::world::SWorld;

verus! {

broadcast use vstd::seq_lib::group_seq_properties;

/// Whether two environments declare the same types.
pub open spec fn agree(a: SEnv, b: SEnv) -> bool {
    a.type_bindings == b.type_bindings && forall|name: Seq<char>|
        #![trigger a.decl(name)]
        #![trigger b.decl(name)]
        a.decl(name) == b.decl(name)
}

proof fn resolved_agrees(a: SEnv, b: SEnv, t: SType, resolving: Seq<SKey>, fuel: nat)
    requires
        agree(a, b),
    ensures
        resolved(a, t, resolving, fuel) == resolved(b, t, resolving, fuel),
    decreases fuel, 0nat, t,
{
    match t {
        SType::List(item) => {
            resolved_agrees(a, b, *item, resolving, fuel);
        },
        SType::SetOf(item) => {
            resolved_agrees(a, b, *item, resolving, fuel);
        },
        SType::MapOf(key, value) => {
            resolved_agrees(a, b, *key, resolving, fuel);
            resolved_agrees(a, b, *value, resolving, fuel);
        },
        SType::Record(fields) => {
            resolved_fields_agree(a, b, fields, resolving, fuel);
        },
        SType::Product(items) => {
            resolved_all_agree(a, b, items, resolving, fuel);
        },
        SType::Named(name, args) => {
            resolved_all_agree(a, b, args, resolving, fuel);
            assert(a.decl(name) == b.decl(name));
            match (a.decl(name), resolved_all(a, args, resolving, fuel)) {
                (Some(decl), Ok(arguments)) => if fuel > 0 {
                    let inner = resolving.push((name, arguments));
                    let bound = bound_params(decl.params, args);
                    let less = (fuel - 1) as nat;
                    resolved_body_agrees(a, b, name, arguments, decl, bound, inner, less);
                },
                _ => {},
            }
        },
        _ => {},
    }
}

proof fn resolved_body_agrees(
    a: SEnv,
    b: SEnv,
    name: Seq<char>,
    arguments: Seq<SConcrete>,
    decl: SDecl,
    bound: Map<Seq<char>, SType>,
    resolving: Seq<SKey>,
    fuel: nat,
)
    requires
        agree(a, b),
    ensures
        resolved_body(a, name, arguments, decl, bound, resolving, fuel) == resolved_body(
            b,
            name,
            arguments,
            decl,
            bound,
            resolving,
            fuel,
        ),
    decreases fuel, 2nat, arguments,
{
    match decl.body {
        SDeclBody::Nominal(SType::Record(fields)) => {
            resolved_fields_agree(a, b, apply_fields(fields, bound), resolving, fuel);
        },
        SDeclBody::Nominal(body) => {
            resolved_agrees(a, b, apply(body, bound), resolving, fuel);
        },
        SDeclBody::Adt(constructors) => {
            resolved_constructors_agree(a, b, by_name(constructors), bound, resolving, fuel);
        },
        _ => {},
    }
}

proof fn resolved_all_agree(
    a: SEnv,
    b: SEnv,
    items: Seq<SType>,
    resolving: Seq<SKey>,
    fuel: nat,
)
    requires
        agree(a, b),
    ensures
        resolved_all(a, items, resolving, fuel) == resolved_all(b, items, resolving, fuel),
    decreases fuel, 0nat, items,
{
    if items.len() > 0 {
        resolved_agrees(a, b, items[0], resolving, fuel);
        resolved_all_agree(a, b, items.drop_first(), resolving, fuel);
    }
}

proof fn resolved_fields_agree(
    a: SEnv,
    b: SEnv,
    items: Seq<(Seq<char>, SType)>,
    resolving: Seq<SKey>,
    fuel: nat,
)
    requires
        agree(a, b),
    ensures
        resolved_fields(a, items, resolving, fuel) == resolved_fields(b, items, resolving, fuel),
    decreases fuel, 0nat, items,
{
    if items.len() > 0 {
        resolved_agrees(a, b, items[0].1, resolving, fuel);
        resolved_fields_agree(a, b, items.drop_first(), resolving, fuel);
    }
}

proof fn resolved_constructors_agree(
    a: SEnv,
    b: SEnv,
    items: Seq<SConstructor>,
    bound: Map<Seq<char>, SType>,
    resolving: Seq<SKey>,
    fuel: nat,
)
    requires
        agree(a, b),
    ensures
        resolved_constructors(a, items, bound, resolving, fuel) == resolved_constructors(
            b,
            items,
            bound,
            resolving,
            fuel,
        ),
    decreases fuel, 1nat, items,
{
    if items.len() > 0 {
        resolved_agrees(a, b, apply(items[0].payload, bound), resolving, fuel);
        resolved_constructors_agree(a, b, items.drop_first(), bound, resolving, fuel);
    }
}

proof fn closed_type_agrees(a: SEnv, b: SEnv, t: SType)
    requires
        agree(a, b),
    ensures
        closed_type(a, t) == closed_type(b, t),
{
    reveal(closed_type);
    resolved_agrees(a, b, t, Seq::empty(), expansion_limit(a));
}

proof fn fit_agrees(
    a: SEnv,
    b: SEnv,
    actual: SType,
    expected: SType,
    subst: SSubst,
    bindable: Option<Set<Seq<char>>>,
    fuel: nat,
)
    requires
        agree(a, b),
    ensures
        fit(a, actual, expected, subst, bindable, fuel) == fit(
            b,
            actual,
            expected,
            subst,
            bindable,
            fuel,
        ),
    decreases fuel, expected, 1nat,
{
    if expected is Var && fuel > 0 {
        fit_agrees(a, b, actual, subst[expected->Var_0], subst, bindable, (fuel - 1) as nat);
    }
    if actual is Var && fuel > 0 {
        fit_agrees(a, b, subst[actual->Var_0], expected, subst, bindable, (fuel - 1) as nat);
    }
    closed_type_agrees(a, b, actual);
    closed_type_agrees(a, b, expected);
    shape_fit_agrees(a, b, actual, expected, subst, bindable, fuel);
}

proof fn shape_fit_agrees(
    a: SEnv,
    b: SEnv,
    actual: SType,
    expected: SType,
    subst: SSubst,
    bindable: Option<Set<Seq<char>>>,
    fuel: nat,
)
    requires
        agree(a, b),
    ensures
        shape_fit(a, actual, expected, subst, bindable, fuel) == shape_fit(
            b,
            actual,
            expected,
            subst,
            bindable,
            fuel,
        ),
    decreases fuel, expected, 0nat,
{
    match (expected, actual) {
        (SType::Named(en, ea), SType::Named(an, aa)) => {
            fit_all_agrees(a, b, aa, ea, subst, bindable, fuel);
        },
        (SType::TypeTag(e), SType::TypeTag(x)) => {
            fit_agrees(a, b, *x, *e, subst, bindable, fuel);
        },
        (SType::List(e), SType::List(x)) => {
            fit_agrees(a, b, *x, *e, subst, bindable, fuel);
        },
        (SType::SetOf(e), SType::SetOf(x)) => {
            fit_agrees(a, b, *x, *e, subst, bindable, fuel);
        },
        (SType::MapOf(ek, ev), SType::MapOf(ak, av)) => {
            fit_agrees(a, b, *ak, *ek, subst, bindable, fuel);
            let after = fit(a, *ak, *ek, subst, bindable, fuel).0;
            fit_agrees(a, b, *av, *ev, after, bindable, fuel);
        },
        (SType::Record(ef), SType::Record(af)) => {
            fit_fields_agree(a, b, af, ef, subst, bindable, fuel);
        },
        (SType::Product(e), SType::Product(x)) => {
            fit_all_agrees(a, b, x, e, subst, bindable, fuel);
        },
        (SType::Function(ep, er), SType::Function(ap, ar)) => {
            fit_all_agrees(a, b, ap, ep, subst, bindable, fuel);
            let after = fit_all(a, ap, ep, subst, bindable, fuel).0;
            fit_agrees(a, b, *ar, *er, after, bindable, fuel);
        },
        _ => {},
    }
}

proof fn fit_all_agrees(
    a: SEnv,
    b: SEnv,
    actual: Seq<SType>,
    expected: Seq<SType>,
    subst: SSubst,
    bindable: Option<Set<Seq<char>>>,
    fuel: nat,
)
    requires
        agree(a, b),
    ensures
        fit_all(a, actual, expected, subst, bindable, fuel) == fit_all(
            b,
            actual,
            expected,
            subst,
            bindable,
            fuel,
        ),
    decreases fuel, expected, 0nat,
{
    if expected.len() > 0 {
        fit_agrees(a, b, actual[0], expected[0], subst, bindable, fuel);
        let after = fit(a, actual[0], expected[0], subst, bindable, fuel).0;
        fit_all_agrees(
            a,
            b,
            actual.drop_first(),
            expected.drop_first(),
            after,
            bindable,
            fuel,
        );
    }
}

proof fn fit_fields_agree(
    a: SEnv,
    b: SEnv,
    actual: Seq<(Seq<char>, SType)>,
    expected: Seq<(Seq<char>, SType)>,
    subst: SSubst,
    bindable: Option<Set<Seq<char>>>,
    fuel: nat,
)
    requires
        agree(a, b),
    ensures
        fit_fields(a, actual, expected, subst, bindable, fuel) == fit_fields(
            b,
            actual,
            expected,
            subst,
            bindable,
            fuel,
        ),
    decreases fuel, expected, 0nat,
{
    if expected.len() > 0 {
        match keyed(actual, expected[0].0, 0) {
            Some(field) => {
                fit_agrees(a, b, field, expected[0].1, subst, bindable, fuel);
                let after = fit(a, field, expected[0].1, subst, bindable, fuel).0;
                fit_fields_agree(a, b, actual, expected.drop_first(), after, bindable, fuel);
            },
            None => {},
        }
    }
}

proof fn fit_any_agrees(a: SEnv, b: SEnv, actual: SType, expected: SType, subst: SSubst)
    requires
        agree(a, b),
    ensures
        fit_any(a, actual, expected, subst) == fit_any(b, actual, expected, subst),
{
    reveal(fit_any);
    fit_agrees(a, b, actual, expected, subst, None, expansion_limit(a));
}

proof fn fit_params_agree(
    a: SEnv,
    b: SEnv,
    args: Seq<SType>,
    params: Seq<SType>,
    subst: SSubst,
)
    requires
        agree(a, b),
    ensures
        fit_params(a, args, params, subst) == fit_params(b, args, params, subst),
    decreases params.len(),
{
    reveal(fit_params);
    if params.len() > 0 {
        fit_any_agrees(a, b, args[0], apply(params[0], subst), subst);
        let after = fit_any(a, args[0], apply(params[0], subst), subst).0;
        fit_params_agree(a, b, args.drop_first(), params.drop_first(), after);
    }
}

proof fn equality_agrees(a: SEnv, b: SEnv, t: SType, visiting: Seq<SType>, fuel: nat)
    requires
        agree(a, b),
    ensures
        equality_vars(a, t, visiting, fuel) == equality_vars(b, t, visiting, fuel),
    decreases fuel, 0nat, t,
{
    match t {
        SType::List(item) => {
            equality_agrees(a, b, *item, visiting, fuel);
        },
        SType::SetOf(item) => {
            equality_agrees(a, b, *item, visiting, fuel);
        },
        SType::MapOf(key, value) => {
            equality_agrees(a, b, *key, visiting, fuel);
            equality_agrees(a, b, *value, visiting, fuel);
        },
        SType::Record(fields) => {
            equality_fields_agree(a, b, fields, visiting, fuel);
        },
        SType::Product(items) => {
            equality_all_agree(a, b, items, visiting, fuel);
        },
        SType::Named(name, args) => {
            equality_all_agree(a, b, args, visiting, fuel);
            assert(a.decl(name) == b.decl(name));
            match a.decl(name) {
                Some(decl) => if fuel > 0 {
                    let bound = bound_params(decl.params, args);
                    let inner = visiting.push(t);
                    let less = (fuel - 1) as nat;
                    match decl.body {
                        SDeclBody::Nominal(body) => {
                            equality_agrees(a, b, apply(body, bound), inner, less);
                        },
                        SDeclBody::Adt(c) => {
                            equality_payloads_agree(a, b, c, bound, inner, less);
                        },
                        _ => {},
                    }
                },
                None => {},
            }
        },
        _ => {},
    }
}

proof fn equality_all_agree(
    a: SEnv,
    b: SEnv,
    items: Seq<SType>,
    visiting: Seq<SType>,
    fuel: nat,
)
    requires
        agree(a, b),
    ensures
        equality_all_vars(a, items, visiting, fuel) == equality_all_vars(b, items, visiting, fuel),
    decreases fuel, 0nat, items,
{
    if items.len() > 0 {
        equality_agrees(a, b, items[0], visiting, fuel);
        equality_all_agree(a, b, items.drop_first(), visiting, fuel);
    }
}

proof fn equality_fields_agree(
    a: SEnv,
    b: SEnv,
    items: Seq<(Seq<char>, SType)>,
    visiting: Seq<SType>,
    fuel: nat,
)
    requires
        agree(a, b),
    ensures
        equality_field_vars(a, items, visiting, fuel) == equality_field_vars(
            b,
            items,
            visiting,
            fuel,
        ),
    decreases fuel, 0nat, items,
{
    if items.len() > 0 {
        equality_agrees(a, b, items[0].1, visiting, fuel);
        equality_fields_agree(a, b, items.drop_first(), visiting, fuel);
    }
}

proof fn equality_payloads_agree(
    a: SEnv,
    b: SEnv,
    items: Seq<SConstructor>,
    bound: Map<Seq<char>, SType>,
    visiting: Seq<SType>,
    fuel: nat,
)
    requires
        agree(a, b),
    ensures
        equality_payload_vars(a, items, bound, visiting, fuel) == equality_payload_vars(
            b,
            items,
            bound,
            visiting,
            fuel,
        ),
    decreases fuel, 1nat, items,
{
    if items.len() > 0 {
        equality_agrees(a, b, apply(items[0].payload, bound), visiting, fuel);
        equality_payloads_agree(a, b, items.drop_first(), bound, visiting, fuel);
    }
}

proof fn required_all_agree(
    a: SEnv,
    b: SEnv,
    table: SBindings,
    types: Seq<SType>,
    subst: SSubst,
)
    requires
        agree(a, b),
    ensures
        required_all(a, table, types, subst) == required_all(b, table, types, subst),
    decreases types.len(),
{
    if types.len() > 0 {
        let t = apply(types[0], subst);
        assert(needs_equality(a, t) == needs_equality(b, t)) by {
            reveal(needs_equality);
            equality_agrees(a, b, t, Seq::empty(), expansion_limit(a));
        }
        let after = required_equality(a, table, t).0;
        required_all_agree(a, b, after, types.drop_first(), subst);
    }
}

proof fn calls_agree(a: SEnv, b: SEnv, table: SBindings, f: SFn, args: Seq<SValue>)
    requires
        agree(a, b),
    ensures
        called(a, table, f, args) == called(b, table, f, args),
{
    reveal(called);
    match argument_value_types(args, Seq::empty()) {
        Ok(types) => {
            fit_params_agree(a, b, types, f.param_types, Map::empty());
            let subst = fit_params(a, types, f.param_types, Map::empty()).0;
            required_all_agree(a, b, table, as_vars(f.equality_params), subst);
        },
        Err(_) => {},
    }
}

proof fn resolved_calls_agree(a: SEnv, b: SEnv, table: SBindings, f: SFn, signature: SType)
    requires
        agree(a, b),
    ensures
        called_at(a, table, f, signature) == called_at(b, table, f, signature),
{
    reveal(called_at);
    match signature {
        SType::Function(params, result) => {
            fit_params_agree(a, b, params, f.param_types, Map::empty());
            let subst = fit_params(a, params, f.param_types, Map::empty()).0;
            fit_any_agrees(a, b, *result, apply(f.return_type, subst), subst);
            let subst = fit_any(a, *result, apply(f.return_type, subst), subst).0;
            required_all_agree(a, b, table, as_vars(f.equality_params), subst);
        },
        _ => {},
    }
}

proof fn vouching_agrees(a: SEnv, b: SEnv, evidence: SType, ty: SType)
    requires
        agree(a, b),
    ensures
        vouches(a, evidence, ty) == vouches(b, evidence, ty),
{
    reveal(vouches);
    closed_type_agrees(a, b, ty);
    closed_type_agrees(a, b, evidence);
}

proof fn conforming_agrees(a: SEnv, b: SEnv, v: SValue, ty: SType, fuel: nat)
    requires
        agree(a, b),
    ensures
        conforms(a, v, ty, fuel) == conforms(b, v, ty, fuel),
    decreases v, fuel, 2nat,
{
    match v {
        SValue::Typed(inner, evidence) => {
            vouching_agrees(a, b, evidence, ty);
            bare_conforming_agrees(a, b, *inner, ty, fuel);
        },
        _ => {
            bare_conforming_agrees(a, b, v, ty, fuel);
        },
    }
}

proof fn bare_conforming_agrees(a: SEnv, b: SEnv, v: SValue, ty: SType, fuel: nat)
    requires
        agree(a, b),
    ensures
        bare_conforms(a, v, ty, fuel) == bare_conforms(b, v, ty, fuel),
    decreases v, fuel, 1nat,
{
    match v {
        SValue::Typed(inner, _) => {
            bare_conforming_agrees(a, b, *inner, ty, fuel);
        },
        _ => match (ty, v) {
            (SType::List(item), SValue::List(items)) => {
                all_conforming_agree(a, b, items, *item);
            },
            (SType::SetOf(item), SValue::SetOf(items)) => {
                all_conforming_agree(a, b, items, *item);
            },
            (SType::MapOf(_, item), SValue::MapOf(entries)) => {
                entries_conforming_agree(a, b, entries, *item);
            },
            (SType::Record(types), SValue::Record(fields)) => {
                fields_conforming_agree(a, b, fields, types);
            },
            (SType::Named(name, args), _) => {
                assert(a.decl(name) == b.decl(name));
                match a.decl(name) {
                    Some(decl) => {
                        let bound = bound_params(decl.params, args);
                        match decl.body {
                            SDeclBody::Nominal(body) => if fuel > 0 {
                                bare_conforming_agrees(
                                    a,
                                    b,
                                    v,
                                    apply(body, bound),
                                    (fuel - 1) as nat,
                                );
                            },
                            SDeclBody::Adt(constructors) => match v {
                                SValue::Adt(_, id, payload) => match constructor_at(
                                    constructors,
                                    id,
                                    0,
                                ) {
                                    Some(c) => {
                                        conforming_agrees(
                                            a,
                                            b,
                                            *payload,
                                            apply(c.payload, bound),
                                            expansion_limit(a),
                                        );
                                    },
                                    None => {},
                                },
                                _ => {},
                            },
                            _ => {},
                        }
                    },
                    None => {},
                }
            },
            (SType::TypeTag(expected), _) => {
                closed_type_agrees(a, b, *expected);
            },
            (SType::Product(types), SValue::List(items)) => {
                positions_conforming_agree(a, b, items, types);
            },
            (SType::Product(types), SValue::Product(items)) => {
                positions_conforming_agree(a, b, items, types);
            },
            _ => {},
        },
    }
}

proof fn all_conforming_agree(a: SEnv, b: SEnv, items: Seq<SValue>, ty: SType)
    requires
        agree(a, b),
    ensures
        all_conform(a, items, ty) == all_conform(b, items, ty),
    decreases items, 0nat, 0nat,
{
    if items.len() > 0 {
        conforming_agrees(a, b, items[0], ty, expansion_limit(a));
        all_conforming_agree(a, b, items.drop_first(), ty);
    }
}

proof fn entries_conforming_agree(a: SEnv, b: SEnv, items: Seq<(SValue, SValue)>, ty: SType)
    requires
        agree(a, b),
    ensures
        entries_conform(a, items, ty) == entries_conform(b, items, ty),
    decreases items, 0nat, 0nat,
{
    if items.len() > 0 {
        conforming_agrees(a, b, items[0].1, ty, expansion_limit(a));
        entries_conforming_agree(a, b, items.drop_first(), ty);
    }
}

proof fn positions_conforming_agree(a: SEnv, b: SEnv, items: Seq<SValue>, types: Seq<SType>)
    requires
        agree(a, b),
    ensures
        positions_conform(a, items, types) == positions_conform(b, items, types),
    decreases items, 0nat, 0nat,
{
    if items.len() > 0 && types.len() > 0 {
        conforming_agrees(a, b, items[0], types[0], expansion_limit(a));
        positions_conforming_agree(a, b, items.drop_first(), types.drop_first());
    }
}

proof fn fields_conforming_agree(
    a: SEnv,
    b: SEnv,
    fields: Seq<(Seq<char>, SValue)>,
    types: Seq<(Seq<char>, SType)>,
)
    requires
        agree(a, b),
    ensures
        fields_conform(a, fields, types) == fields_conform(b, fields, types),
    decreases fields, 0nat, 0nat,
{
    if fields.len() > 0 {
        match keyed(types, fields[0].0, 0) {
            Some(ty) => {
                conforming_agrees(a, b, fields[0].1, ty, expansion_limit(a));
            },
            None => {},
        }
        fields_conforming_agree(a, b, fields.drop_first(), types);
    }
}

proof fn record_fields_agree(a: SEnv, b: SEnv, ty: SType, fuel: nat)
    requires
        agree(a, b),
    ensures
        record_fields_of(a, ty, fuel) == record_fields_of(b, ty, fuel),
    decreases fuel,
{
    match ty {
        SType::Named(name, args) => {
            assert(a.decl(name) == b.decl(name));
            match a.decl(name) {
                Some(decl) => match decl.body {
                    SDeclBody::Nominal(body) => if fuel > 0 {
                        let inner = apply(body, bound_params(decl.params, args));
                        record_fields_agree(a, b, inner, (fuel - 1) as nat);
                    },
                    _ => {},
                },
                None => {},
            }
        },
        _ => {},
    }
}

proof fn invalid_fields_agree(
    a: SEnv,
    b: SEnv,
    types: Seq<(Seq<char>, SType)>,
    fields: Seq<(Seq<char>, SValue)>,
)
    requires
        agree(a, b),
    ensures
        invalid_fields(a, types, fields) == invalid_fields(b, types, fields),
    decreases types.len(),
{
    if types.len() > 0 {
        invalid_fields_agree(a, b, types.drop_last(), fields);
        let (name, ty) = types.last();
        match keyed(fields, name, 0) {
            Some(v) => {
                conforming_agrees(a, b, v, ty, expansion_limit(a));
            },
            None => {},
        }
    }
}

proof fn validation_agrees(a: SEnv, b: SEnv, v: SValue, ty: SType)
    requires
        agree(a, b),
    ensures
        validated(a, v, ty) == validated(b, v, ty),
{
    reveal(validated);
    reveal(field_difference);
    conforming_agrees(a, b, v, ty, expansion_limit(a));
    record_fields_agree(a, b, ty, expansion_limit(a));
    match (bare(v), record_fields_of(a, ty, expansion_limit(a))) {
        (SValue::Record(fields), Some(types)) => {
            invalid_fields_agree(a, b, types, fields);
        },
        _ => {},
    }
}

proof fn typed_values_agree(a: SEnv, b: SEnv, v: SValue, ty: SType)
    requires
        agree(a, b),
    ensures
        typed_value(a, v, ty) == typed_value(b, v, ty),
    decreases ty, 2nat,
{
    match (ty, bare(v)) {
        (SType::Product(types), SValue::List(items)) => {
            typed_products_agree(a, b, items, types, ty);
        },
        (SType::Product(types), SValue::Product(items)) => {
            typed_products_agree(a, b, items, types, ty);
        },
        _ => {
            validation_agrees(a, b, v, ty);
            assert(kept_evidence(a, v, ty) == kept_evidence(b, v, ty)) by {
                reveal(kept_evidence);
                reveal(nominal_evidence);
                closed_type_agrees(a, b, ty);
                match v {
                    SValue::Typed(_, evidence) => {
                        closed_type_agrees(a, b, evidence);
                    },
                    _ => {},
                }
            }
        },
    }
}

proof fn typed_products_agree(
    a: SEnv,
    b: SEnv,
    items: Seq<SValue>,
    types: Seq<SType>,
    ty: SType,
)
    requires
        agree(a, b),
    ensures
        typed_product(a, items, types, ty) == typed_product(b, items, types, ty),
    decreases types, 1nat,
{
    typed_positions_agree(a, b, items, types, Seq::empty());
}

proof fn typed_positions_agree(
    a: SEnv,
    b: SEnv,
    items: Seq<SValue>,
    types: Seq<SType>,
    done: Seq<SValue>,
)
    requires
        agree(a, b),
    ensures
        typed_positions(a, items, types, done) == typed_positions(b, items, types, done),
    decreases types, 0nat,
{
    if types.len() > 0 {
        typed_values_agree(a, b, items[0], types[0]);
        match typed_value(a, items[0], types[0]) {
            Ok(v) => {
                typed_positions_agree(
                    a,
                    b,
                    items.drop_first(),
                    types.drop_first(),
                    done.push(v),
                );
            },
            Err(_) => {},
        }
    }
}

/// The world as a caller with other scopes sees it.
pub open spec fn seen_from(w: SWorld, scopes: Seq<FrameId>) -> SWorld {
    w.with_env(SEnv { scopes, ..w.env })
}

/// Whether two environments declare the same types, in the same order.
pub open spec fn same_types(a: SEnv, b: SEnv) -> bool {
    agree(a, b) && declarations(a) == declarations(b)
}

/// The world in which the body of a function is evaluated is the same for all callers that see the
/// same types, whatever values they bind.
pub proof fn bodies_start_alike(
    w: SWorld,
    scopes: Seq<FrameId>,
    f: SFn,
    args: Seq<SValue>,
    subst: SSubst,
)
    requires
        same_types(w.env, seen_from(w, scopes).env),
    ensures
        call_entered(seen_from(w, scopes), f, args, subst) == call_entered(w, f, args, subst),
{
    reveal(call_entered);
    reveal(SEnv::call_scoped);
    assert(seen_from(w, scopes).env.call_scoped(f.closure) == w.env.call_scoped(f.closure));
}

proof fn defining_keeps_scopes(
    env: SEnv,
    table: SBindings,
    items: Seq<(Seq<char>, SValue)>,
)
    ensures
        all_defined(env, table, items).0.scopes == env.scopes,
        all_offered(env, table, items).0.scopes == env.scopes,
    decreases items.len(),
{
    reveal(all_defined);
    reveal(all_offered);
    reveal(defined);
    reveal(SEnv::readied);
    if items.len() > 0 {
        let (name, v) = items[0];
        let (e, t) = defined(env, table, name, v);
        defining_keeps_scopes(e, t, items.drop_first());
        defining_keeps_scopes(env, table, items.drop_first());
    }
}

proof fn binding_keeps_scopes(env: SEnv, params: Seq<SParam>, args: Seq<SValue>, i: nat)
    ensures
        params_bound(env, params, args, i).scopes == env.scopes,
    decreases params.len() - i,
{
    reveal(SEnv::readied);
    if i < params.len() && i < args.len() {
        let next = env.readied(params[i as int].id, params[i as int].name, args[i as int]);
        binding_keeps_scopes(next, params, args, i + 1);
    }
}

/// The body of a function looks names up in the scopes of its closure and in one scope of its own,
/// which holds its arguments and the types in force. A name that only the caller binds is not
/// among them.
pub proof fn bodies_see_their_closure(w: SWorld, f: SFn, args: Seq<SValue>, subst: SSubst)
    ensures
        call_entered(w, f, args, subst).env.scopes.drop_last() == f.closure,
        call_entered(w, f, args, subst).env.scopes.len() == f.closure.len() + 1,
{
    reveal(call_entered);
    reveal(SEnv::call_scoped);
    let start = w.env.call_scoped(f.closure);
    let (e1, t1) = all_offered(start, w.table, declarations(w.env));
    let (e2, t2) = all_defined(e1, t1, bound_types(subst));
    defining_keeps_scopes(start, w.table, declarations(w.env));
    defining_keeps_scopes(e1, t1, bound_types(subst));
    binding_keeps_scopes(e2, f.checked.params, args, 0);
    assert(start.scopes.drop_last() =~= f.closure);
}

/// What the body of a function comes to in a call, where the call is allowed.
pub open spec fn body_evaluated(
    w: SWorld,
    f: SFn,
    args: Seq<SValue>,
    signature: Option<SType>,
    ev: Evaluator,
) -> (SWorld, Result<SValue, SError>) {
    let (w1, checked) = call_checked(w, f, args, signature);
    block_rule(call_entered(w1, f, args, checked->Ok_0.1), *f.checked.body, ev)
}

/// Callers that see the same types, when the call starts and when its body is done, get the same
/// value or the same error.
proof fn callers_with_the_same_types_agree(
    w: SWorld,
    scopes: Seq<FrameId>,
    f: SFn,
    args: Seq<SValue>,
    signature: Option<SType>,
    ev: Evaluator,
)
    requires
        same_types(w.env, seen_from(w, scopes).env),
        call_checked(w, f, args, signature).1 is Ok && body_evaluated(
            w,
            f,
            args,
            signature,
            ev,
        ).1 is Ok ==> agree(
            body_evaluated(w, f, args, signature, ev).0.env.call_unscoped(w.env.scopes),
            body_evaluated(w, f, args, signature, ev).0.env.call_unscoped(scopes),
        ),
    ensures
        function_rule(seen_from(w, scopes), f, args, signature, ev).1 == function_rule(
            w,
            f,
            args,
            signature,
            ev,
        ).1,
{
    let x = seen_from(w, scopes);
    reveal(function_rule);
    let (w1, checked) = call_checked(w, f, args, signature);
    let (x1, also) = call_checked(x, f, args, signature);
    assert(checked == also && x1 == seen_from(w1, scopes) && w1.env == w.env) by {
        reveal(call_checked);
        match signature {
            Some(t) => {
                resolved_calls_agree(w.env, x.env, w.table, f, t);
            },
            None => {
                calls_agree(w.env, x.env, w.table, f, args);
            },
        }
    }
    if checked is Ok {
        let (expected, subst) = checked->Ok_0;
        bodies_start_alike(w1, scopes, f, args, subst);
        let (w2, out) = block_rule(call_entered(w1, f, args, subst), *f.checked.body, ev);
        let a = w2.env.call_unscoped(w.env.scopes);
        let b = w2.env.call_unscoped(scopes);
        assert(call_returned(a, f, out, expected) == call_returned(b, f, out, expected)) by {
            reveal(call_returned);
            match out {
                Ok(v) => {
                    validation_agrees(a, b, v, expected);
                    typed_values_agree(a, b, v, expected);
                },
                Err(_) => {},
            }
        }
    }
}

/// An environment in which other scopes are in force.
pub open spec fn scoped(env: SEnv, scopes: Seq<FrameId>) -> SEnv {
    SEnv { scopes, ..env }
}

/// The type that some scopes declare under a name, the innermost first.
pub open spec fn declared_in(env: SEnv, scopes: Seq<FrameId>, name: Seq<char>) -> Option<SDecl> {
    scoped(env, scopes).decl_within(name, scopes.len())
}

proof fn inner_scopes_come_first(
    env: SEnv,
    common: Seq<FrameId>,
    own: Seq<FrameId>,
    name: Seq<char>,
    n: nat,
)
    requires
        n <= own.len(),
    ensures
        scoped(env, common + own).decl_within(name, common.len() + n) == match scoped(
            env,
            own,
        ).decl_within(name, n) {
            Some(d) => Some(d),
            None => declared_in(env, common, name),
        },
    decreases n,
{
    let all = scoped(env, common + own);
    if n == 0 {
        outer_scopes_are_seen(env, common, own, name, common.len());
    } else {
        inner_scopes_come_first(env, common, own, name, (n - 1) as nat);
        assert(all.scopes[common.len() + n - 1] == own[n - 1]);
        assert(all.frame(own[n - 1]) == scoped(env, own).frame(own[n - 1]));
    }
}

proof fn outer_scopes_are_seen(
    env: SEnv,
    common: Seq<FrameId>,
    own: Seq<FrameId>,
    name: Seq<char>,
    n: nat,
)
    requires
        n <= common.len(),
    ensures
        scoped(env, common + own).decl_within(name, n) == scoped(
            env,
            common,
        ).decl_within(name, n),
    decreases n,
{
    if n > 0 {
        outer_scopes_are_seen(env, common, own, name, (n - 1) as nat);
        assert((common + own)[n - 1] == common[n - 1]);
    }
}

proof fn same_frames_declare_the_same(
    a: SEnv,
    b: SEnv,
    scopes: Seq<FrameId>,
    name: Seq<char>,
    n: nat,
)
    requires
        n <= scopes.len(),
        forall|i: int| 0 <= i < scopes.len() ==> a.frame(#[trigger] scopes[i]) == b.frame(scopes[i]),
    ensures
        scoped(a, scopes).decl_within(name, n) == scoped(b, scopes).decl_within(name, n),
    decreases n,
{
    if n > 0 {
        same_frames_declare_the_same(a, b, scopes, name, (n - 1) as nat);
        assert(a.frame(scopes[n - 1]) == b.frame(scopes[n - 1]));
    }
}

/// Whether nothing waits in some scopes, all of which are held.
pub open spec fn settled_scopes(env: SEnv, scopes: Seq<FrameId>) -> bool {
    forall|i: int|
        0 <= i < scopes.len() ==> settled_in(
            env,
            #[trigger] scopes[i],
            env.frame(scopes[i])->Some_0,
        )
}

/// A body leaves settled scopes as they were.
proof fn body_leaves_scopes(
    files: SFiles,
    w: SWorld,
    scopes: Seq<FrameId>,
    f: SFn,
    args: Seq<SValue>,
    signature: Option<SType>,
    depth: nat,
    calls: nat,
)
    requires
        settled_scopes(w.env, scopes),
        call_checked(w, f, args, signature).1 is Ok,
        body_evaluated(w, f, args, signature, evaluator(files, depth, calls)).1 is Ok,
    ensures
        forall|i: int|
            0 <= i < scopes.len() ==> body_evaluated(
                w,
                f,
                args,
                signature,
                evaluator(files, depth, calls),
            ).0.env.frame(#[trigger] scopes[i]) == w.env.frame(scopes[i]),
{
    let ev = evaluator(files, depth, calls);
    let (w1, checked) = call_checked(w, f, args, signature);
    assert(w1.env == w.env) by {
        reveal(call_checked);
    }
    let subst = checked->Ok_0.1;
    let inner = call_entered(w1, f, args, subst);
    assert forall|i: int| 0 <= i < scopes.len() implies body_evaluated(
        w,
        f,
        args,
        signature,
        ev,
    ).0.env.frame(#[trigger] scopes[i]) == w.env.frame(scopes[i]) by {
        let held = w.env.frame(scopes[i])->Some_0;
        call_entering_holds(w1, f, args, subst, scopes[i], held);
        evaluator_always_holds(files, depth, calls, scopes[i], held);
        block_holds(inner, *f.checked.body, ev, scopes[i], held);
    }
}

/// A call does not see the values of its caller. Two callers, whose scopes are some common ones and
/// then scopes of their own in which nothing waits to be initialized, get the same result of a
/// call, a value or an error, where their own scopes declare the same types: what else the scopes
/// of either bind is not seen.
pub proof fn calls_do_not_see_the_values_of_callers(
    files: SFiles,
    w: SWorld,
    common: Seq<FrameId>,
    own: Seq<FrameId>,
    other: Seq<FrameId>,
    f: SFn,
    args: Seq<SValue>,
    signature: Option<SType>,
    depth: nat,
    calls: nat,
)
    requires
        w.env.scopes == common + own,
        settled_scopes(w.env, own),
        settled_scopes(w.env, other),
        forall|name: Seq<char>|
            #![trigger declared_in(w.env, own, name)]
            #![trigger declared_in(w.env, other, name)]
            declared_in(w.env, own, name) == declared_in(w.env, other, name),
        declarations(w.env) == declarations(seen_from(w, common + other).env),
    ensures
        function_rule(
            seen_from(w, common + other),
            f,
            args,
            signature,
            evaluator(files, depth, calls),
        ).1 == function_rule(w, f, args, signature, evaluator(files, depth, calls)).1,
{
    reveal(SEnv::decl);
    let scopes = common + other;
    let ev = evaluator(files, depth, calls);
    let x = seen_from(w, scopes);
    assert forall|name: Seq<char>|
        #![trigger w.env.decl(name)]
        #![trigger x.env.decl(name)]
        w.env.decl(name) == x.env.decl(name) by {
        inner_scopes_come_first(w.env, common, own, name, own.len());
        inner_scopes_come_first(w.env, common, other, name, other.len());
        assert(declared_in(w.env, own, name) == declared_in(w.env, other, name));
        assert(scoped(w.env, common + own) == w.env);
    }
    if call_checked(w, f, args, signature).1 is Ok && body_evaluated(
        w,
        f,
        args,
        signature,
        ev,
    ).1 is Ok {
        reveal(SEnv::call_unscoped);
        body_leaves_scopes(files, w, own, f, args, signature, depth, calls);
        body_leaves_scopes(files, w, other, f, args, signature, depth, calls);
        let after = body_evaluated(w, f, args, signature, ev).0.env;
        let a = after.call_unscoped(common + own);
        let b = after.call_unscoped(scopes);
        assert forall|name: Seq<char>|
            #![trigger a.decl(name)]
            #![trigger b.decl(name)]
            a.decl(name) == b.decl(name) by {
            inner_scopes_come_first(a, common, own, name, own.len());
            inner_scopes_come_first(a, common, other, name, other.len());
            same_frames_declare_the_same(w.env, a, own, name, own.len());
            same_frames_declare_the_same(w.env, a, other, name, other.len());
            assert(declared_in(w.env, own, name) == declared_in(w.env, other, name));
            assert(scoped(a, common + own) == a);
            assert(scoped(a, scopes) == b);
        }
        assert(agree(a, b));
    }
    callers_with_the_same_types_agree(w, scopes, f, args, signature, ev);
}

} // verus!
