//! What it means for a value to conform to a type, and that decoding gives values that do.

use vstd::prelude::*;

use crate::ast::{SConstructor, SDeclBody, SValue};
use crate::codec::decoded;
use crate::conformance::{
    all_conform, bare_conforms, conforms, constructor_at, entries_conform, fields_conform,
    positions_conform, typed_value, validated, vouches,
};
use crate::documents::{
    arrays_are_decoded_item_by_item, arrays_are_decoded_position_by_position,
    ascending_member_is_found, field_is_read, has_name, names_differ,
    objects_are_decoded_field_by_field, read,
};
use crate::env::{keyed, SEnv};
use crate::error::SError;
use crate::holding::keyed_is_among;
use crate::json::SJson;
use crate::resolve::{closed_type, expansion_limit};
use crate::restoring::{
    all_declare_once, applying_names_once, ascending_names_differ, bound_names_once, declares_once,
    last_where_names_differ, names_of, names_once,
};
use crate::substitution::{apply, bound_params};
use crate::type_rules::constructor_named;
use crate::types::SType;

verus! {

broadcast use vstd::seq_lib::group_seq_properties;

/// Whether a value inside another conforms to a type.
pub open spec fn fits_in(env: SEnv, v: SValue, t: SType) -> bool {
    conforms(env, v, t, expansion_limit(env))
}

proof fn all_conform_one_by_one(env: SEnv, items: Seq<SValue>, t: SType)
    ensures
        all_conform(env, items, t) <==> forall|i: int|
            0 <= i < items.len() ==> fits_in(env, #[trigger] items[i], t),
    decreases items.len(),
{
    reveal_with_fuel(all_conform, 2);
    if items.len() > 0 {
        let rest = items.drop_first();
        all_conform_one_by_one(env, rest, t);
        if all_conform(env, items, t) {
            assert forall|i: int| 0 <= i < items.len() implies fits_in(
                env,
                #[trigger] items[i],
                t,
            ) by {
                if i > 0 {
                    assert(rest[i - 1] == items[i]);
                }
            }
        }
        if forall|i: int| 0 <= i < items.len() ==> fits_in(env, #[trigger] items[i], t) {
            assert(fits_in(env, items[0], t));
            assert forall|i: int| 0 <= i < rest.len() implies fits_in(
                env,
                #[trigger] rest[i],
                t,
            ) by {
                assert(rest[i] == items[i + 1]);
            }
        }
    }
}

proof fn entries_conform_one_by_one(env: SEnv, items: Seq<(SValue, SValue)>, t: SType)
    ensures
        entries_conform(env, items, t) <==> forall|i: int|
            0 <= i < items.len() ==> fits_in(env, (#[trigger] items[i]).1, t),
    decreases items.len(),
{
    reveal_with_fuel(entries_conform, 2);
    if items.len() > 0 {
        let rest = items.drop_first();
        entries_conform_one_by_one(env, rest, t);
        if entries_conform(env, items, t) {
            assert forall|i: int| 0 <= i < items.len() implies fits_in(
                env,
                (#[trigger] items[i]).1,
                t,
            ) by {
                if i > 0 {
                    assert(rest[i - 1] == items[i]);
                }
            }
        }
        if forall|i: int| 0 <= i < items.len() ==> fits_in(env, (#[trigger] items[i]).1, t) {
            assert(fits_in(env, items[0].1, t));
            assert forall|i: int| 0 <= i < rest.len() implies fits_in(
                env,
                (#[trigger] rest[i]).1,
                t,
            ) by {
                assert(rest[i] == items[i + 1]);
            }
        }
    }
}

proof fn positions_conform_one_by_one(env: SEnv, items: Seq<SValue>, types: Seq<SType>)
    requires
        items.len() == types.len(),
    ensures
        positions_conform(env, items, types) <==> forall|i: int|
            0 <= i < items.len() ==> fits_in(env, #[trigger] items[i], types[i]),
    decreases items.len(),
{
    reveal_with_fuel(positions_conform, 2);
    if items.len() > 0 {
        let (rest, after) = (items.drop_first(), types.drop_first());
        positions_conform_one_by_one(env, rest, after);
        if positions_conform(env, items, types) {
            assert forall|i: int| 0 <= i < items.len() implies fits_in(
                env,
                #[trigger] items[i],
                types[i],
            ) by {
                if i > 0 {
                    assert(rest[i - 1] == items[i] && after[i - 1] == types[i]);
                }
            }
        }
        if forall|i: int| 0 <= i < items.len() ==> fits_in(env, #[trigger] items[i], types[i]) {
            assert(fits_in(env, items[0], types[0]));
            assert forall|i: int| 0 <= i < rest.len() implies fits_in(
                env,
                #[trigger] rest[i],
                after[i],
            ) by {
                assert(rest[i] == items[i + 1] && after[i] == types[i + 1]);
            }
        }
    }
}

/// Whether a field conforms to the type that its name has.
pub open spec fn field_conforms(
    env: SEnv,
    f: (Seq<char>, SValue),
    types: Seq<(Seq<char>, SType)>,
) -> bool {
    keyed(types, f.0, 0) is Some && fits_in(env, f.1, keyed(types, f.0, 0)->Some_0)
}

proof fn fields_conform_one_by_one(
    env: SEnv,
    fields: Seq<(Seq<char>, SValue)>,
    types: Seq<(Seq<char>, SType)>,
)
    ensures
        fields_conform(env, fields, types) <==> forall|i: int|
            0 <= i < fields.len() ==> field_conforms(env, #[trigger] fields[i], types),
    decreases fields.len(),
{
    reveal_with_fuel(fields_conform, 2);
    if fields.len() > 0 {
        let rest = fields.drop_first();
        fields_conform_one_by_one(env, rest, types);
        if fields_conform(env, fields, types) {
            assert forall|i: int| 0 <= i < fields.len() implies field_conforms(
                env,
                #[trigger] fields[i],
                types,
            ) by {
                if i > 0 {
                    assert(rest[i - 1] == fields[i]);
                }
            }
        }
        if forall|i: int| 0 <= i < fields.len() ==> field_conforms(env, #[trigger] fields[i], types) {
            assert(field_conforms(env, fields[0], types));
            assert forall|i: int| 0 <= i < rest.len() implies field_conforms(
                env,
                #[trigger] rest[i],
                types,
            ) by {
                assert(rest[i] == fields[i + 1]);
            }
        }
    }
}

/// A list or a set conforms where each of its items does, a map where each of its values does, a
/// product where each position conforms to its own type, and a record where it has as many fields
/// as its type and each conforms to the type of its name.
pub proof fn collections_conform_part_by_part(
    env: SEnv,
    items: Seq<SValue>,
    entries: Seq<(SValue, SValue)>,
    fields: Seq<(Seq<char>, SValue)>,
    t: SType,
    key: SType,
    types: Seq<SType>,
    named: Seq<(Seq<char>, SType)>,
    fuel: nat,
)
    ensures
        conforms(env, SValue::List(items), SType::List(Box::new(t)), fuel) <==> forall|i: int|
            0 <= i < items.len() ==> fits_in(env, #[trigger] items[i], t),
        conforms(env, SValue::SetOf(items), SType::SetOf(Box::new(t)), fuel) <==> forall|i: int|
            0 <= i < items.len() ==> fits_in(env, #[trigger] items[i], t),
        conforms(
            env,
            SValue::MapOf(entries),
            SType::MapOf(Box::new(key), Box::new(t)),
            fuel,
        ) <==> forall|i: int|
            0 <= i < entries.len() ==> fits_in(env, (#[trigger] entries[i]).1, t),
        conforms(env, SValue::Product(items), SType::Product(types), fuel) <==> items.len()
            == types.len() && forall|i: int|
            0 <= i < items.len() ==> fits_in(env, #[trigger] items[i], types[i]),
        conforms(env, SValue::List(items), SType::Product(types), fuel) <==> conforms(
            env,
            SValue::Product(items),
            SType::Product(types),
            fuel,
        ),
        conforms(env, SValue::Record(fields), SType::Record(named), fuel) <==> fields.len()
            == named.len() && forall|i: int|
            0 <= i < fields.len() ==> field_conforms(env, #[trigger] fields[i], named),
        conforms(env, SValue::List(items), SType::EmptyList, fuel) <==> items.len() == 0,
{
    reveal_with_fuel(conforms, 2);
    reveal_with_fuel(bare_conforms, 2);
    all_conform_one_by_one(env, items, t);
    entries_conform_one_by_one(env, entries, t);
    if items.len() == types.len() {
        positions_conform_one_by_one(env, items, types);
    }
    fields_conform_one_by_one(env, fields, named);
}

/// A value without parts conforms to the type of its kind; nothing conforms to the type of what never
/// returns.
pub proof fn scalars_conform_by_their_kinds(env: SEnv, v: SValue, fuel: nat)
    requires
        !(v is Typed),
    ensures
        conforms(env, v, SType::Unit, fuel) <==> v is Unit,
        conforms(env, v, SType::Bool, fuel) <==> v is Bool,
        conforms(env, v, SType::Int, fuel) <==> v is Int,
        conforms(env, v, SType::Float, fuel) <==> v is Float,
        conforms(env, v, SType::String, fuel) <==> v is Str,
        conforms(env, v, SType::Artifact, fuel) <==> v is Artifact,
        conforms(env, v, SType::JsonValue, fuel) <==> v is JsonValue,
        conforms(env, v, SType::PackedValue, fuel) <==> v is PackedValue,
        !conforms(env, v, SType::Never, fuel),
{
    reveal_with_fuel(conforms, 2);
    reveal_with_fuel(bare_conforms, 2);
}

/// What a value was annotated with vouches for the same type; for another type the value itself must
/// conform.
pub proof fn annotations_vouch_for_their_types(
    env: SEnv,
    inner: SValue,
    evidence: SType,
    t: SType,
    fuel: nat,
)
    ensures
        conforms(env, SValue::Typed(Box::new(inner), evidence), evidence, fuel),
        closed_type(env, evidence) is Ok && closed_type(env, t) is Ok && closed_type(env, evidence)
            != closed_type(env, t) && evidence != t ==> (conforms(
            env,
            SValue::Typed(Box::new(inner), evidence),
            t,
            fuel,
        ) <==> bare_conforms(env, inner, t, fuel)),
{
    reveal_with_fuel(conforms, 2);
    reveal_with_fuel(bare_conforms, 2);
    reveal(vouches);
}

/// Validation succeeds on just the values that conform, and a value that is given a type other than
/// a product conforms to it and is otherwise as it was.
pub proof fn only_values_that_conform_are_given_types(env: SEnv, v: SValue, t: SType)
    ensures
        validated(env, v, t) is Ok <==> fits_in(env, v, t),
        !(t is Product) ==> (typed_value(env, v, t) matches Ok(x) ==> fits_in(env, v, t) && x
            == SValue::Typed(Box::new(v), t)),
{
    reveal(validated);
    reveal_with_fuel(typed_value, 2);
}

proof fn first_of_its_id(items: Seq<SConstructor>, name: Seq<char>, i: nat, k: nat)
    requires
        i <= k,
        constructor_named(items, name, k) is Some,
        forall|m: int| i <= m < k ==> (#[trigger] items[m]).id.name != name,
    ensures
        constructor_at(items, constructor_named(items, name, k)->Some_0.id, i)
            == constructor_named(items, name, k),
        constructor_named(items, name, k)->Some_0.id.name == name,
    decreases items.len() - i,
{
    if i < k {
        let k2 = crate::soundness::constructor_is_among(items, name, k);
        assert(items[i as int].id.name != name);
        first_of_its_id(items, name, i + 1, k);
    } else if items[k as int].id.name != name {
        let k2 = crate::soundness::constructor_is_among(items, name, k + 1);
        first_of_its_id(items, name, i + 1, k + 1);
    }
}

/// Whatever is decoded at a type conforms to it.
pub proof fn decoded_values_conform(env: SEnv, j: SJson, t: SType, exact: bool, fuel: nat)
    requires
        names_once(t),
        all_declare_once(env),
        decoded(env, j, t, exact, fuel) is Ok,
    ensures
        fits_in(env, decoded(env, j, t, exact, fuel)->Ok_0, t),
    decreases j, fuel, 1nat,
{
    let v = decoded(env, j, t, exact, fuel)->Ok_0;
    let limit = expansion_limit(env);
    match t {
        SType::Named(name, args) => {
            reveal_with_fuel(decoded, 2);
            let decl = env.decl(name)->Some_0;
            let bound = bound_params(decl.params, args);
            match decl.body {
                SDeclBody::Nominal(_) => {
                    annotations_vouch_for_their_types(env, *v->Typed_0, t, t, limit);
                },
                SDeclBody::Adt(constructors) => {
                    assert(declares_once(env, name));
                    reveal(crate::codec::constructor_payload);
                    let (c, at) = crate::codec::constructor_payload(j, constructors, t)->Ok_0;
                    let named = crate::json::member_index(j->Object_0, "constructor"@, 0);
                    let written = j->Object_0[named as int].1->Str_0;
                    first_of_its_id(constructors, written, 0, 0);
                    let k = crate::soundness::constructor_is_among(constructors, written, 0);
                    assert(names_once(constructors[k].payload));
                    bound_names_once(decl.params, args);
                    applying_names_once(c.payload, bound);
                    let inner = j->Object_0[at as int].1;
                    decoded_values_conform(env, inner, apply(c.payload, bound), exact, limit);
                    reveal_with_fuel(conforms, 2);
                    reveal_with_fuel(bare_conforms, 2);
                },
                SDeclBody::Native => {},
            }
        },
        SType::List(item) => {
            arrays_are_decoded_item_by_item(env, j, *item, exact, fuel);
            let (items, values) = (j->Array_0, v->List_0);
            assert forall|i: int| 0 <= i < values.len() implies fits_in(
                env,
                #[trigger] values[i],
                *item,
            ) by {
                assert(read(env, items[i], *item, exact) == Ok::<SValue, SError>(values[i]));
                decoded_values_conform(env, items[i], *item, exact, limit);
            }
            all_conform_one_by_one(env, values, *item);
            reveal_with_fuel(conforms, 2);
            reveal_with_fuel(bare_conforms, 2);
        },
        SType::Product(types) => {
            arrays_are_decoded_position_by_position(env, j, types, exact, fuel);
            let (items, values) = (j->Array_0, v->Product_0);
            assert forall|i: int| 0 <= i < values.len() implies fits_in(
                env,
                #[trigger] values[i],
                types[i],
            ) by {
                assert(read(env, items[i], types[i], exact) == Ok::<SValue, SError>(values[i]));
                assert(names_once(types[i]));
                decoded_values_conform(env, items[i], types[i], exact, limit);
            }
            positions_conform_one_by_one(env, values, types);
            reveal_with_fuel(conforms, 2);
            reveal_with_fuel(bare_conforms, 2);
        },
        SType::Record(fields) => {
            decoded_records_conform(env, j, fields, exact, fuel);
        },
        SType::MapOf(_, _) => {
            reveal_with_fuel(decoded, 2);
            annotations_vouch_for_their_types(env, *v->Typed_0, t, t, limit);
        },
        SType::SetOf(_) => {
            reveal_with_fuel(decoded, 2);
            annotations_vouch_for_their_types(env, *v->Typed_0, t, t, limit);
        },
        _ => {
            reveal_with_fuel(decoded, 2);
            reveal_with_fuel(conforms, 2);
            reveal_with_fuel(bare_conforms, 2);
        },
    }
}

proof fn as_many_names<V, W>(a: Seq<(Seq<char>, V)>, b: Seq<(Seq<char>, W)>)
    requires
        names_differ(a),
        names_differ(b),
        forall|name: Seq<char>| has_name(a, name) <==> #[trigger] has_name(b, name),
    ensures
        a.len() == b.len(),
{
    let (x, y) = (names_of(a), names_of(b));
    assert(x.no_duplicates()) by {
        assert forall|i: int, j: int| 0 <= i < x.len() && 0 <= j < x.len() && i != j implies x[i]
            != x[j] by {
            if i < j {
                assert(a[i].0 != a[j].0);
            } else {
                assert(a[j].0 != a[i].0);
            }
        }
    }
    assert(y.no_duplicates()) by {
        assert forall|i: int, j: int| 0 <= i < y.len() && 0 <= j < y.len() && i != j implies y[i]
            != y[j] by {
            if i < j {
                assert(b[i].0 != b[j].0);
            } else {
                assert(b[j].0 != b[i].0);
            }
        }
    }
    x.unique_seq_to_set();
    y.unique_seq_to_set();
    assert(x.to_set() =~= y.to_set()) by {
        assert forall|n: Seq<char>| x.to_set().contains(n) <==> y.to_set().contains(n) by {
            assert(has_name(a, n) <==> has_name(b, n));
            if x.to_set().contains(n) {
                let i = choose|i: int| 0 <= i < x.len() && x[i] == n;
                assert(a[i].0 == n);
                let k = choose|k: int| 0 <= k < b.len() && (#[trigger] b[k]).0 == n;
                assert(y[k] == n);
            }
            if y.to_set().contains(n) {
                let i = choose|i: int| 0 <= i < y.len() && y[i] == n;
                assert(b[i].0 == n);
                let k = choose|k: int| 0 <= k < a.len() && (#[trigger] a[k]).0 == n;
                assert(x[k] == n);
            }
        }
    }
}

proof fn named_once_is_found<V>(items: Seq<(Seq<char>, V)>, i: int)
    requires
        names_differ(items),
        0 <= i < items.len(),
    ensures
        keyed(items, items[i].0, 0) == Some(items[i].1),
{
    crate::documents::member_is_keyed(items, i, 0);
    let k = keyed_is_among(items, items[i].0, 0);
    if k < i {
        assert(items[k].0 != items[i].0);
    } else if i < k {
        assert(items[i].0 != items[k].0);
    }
}

proof fn decoded_records_conform(
    env: SEnv,
    j: SJson,
    fields: Seq<(Seq<char>, SType)>,
    exact: bool,
    fuel: nat,
)
    requires
        names_once(SType::Record(fields)),
        all_declare_once(env),
        decoded(env, j, SType::Record(fields), exact, fuel) is Ok,
    ensures
        fits_in(
            env,
            decoded(env, j, SType::Record(fields), exact, fuel)->Ok_0,
            SType::Record(fields),
        ),
    decreases j, fuel, 0nat,
{
    objects_are_decoded_field_by_field(env, j, fields, exact, fuel);
    let v = decoded(env, j, SType::Record(fields), exact, fuel)->Ok_0;
    let (o, values) = (j->Object_0, v->Record_0);
    let limit = expansion_limit(env);
    ascending_names_differ(values);
    assert forall|k: int| 0 <= k < values.len() implies field_conforms(
        env,
        #[trigger] values[k],
        fields,
    ) by {
        let name = values[k].0;
        ascending_member_is_found(values, k);
        assert(keyed(values, name, 0) is Some);
        let i = choose|i: int| 0 <= i < fields.len() && (#[trigger] fields[i]).0 == name;
        last_where_names_differ(fields, i);
        named_once_is_found(fields, i);
        assert(field_is_read(env, o, fields[i], exact));
        let at = keyed_is_among(o, name, 0);
        assert(names_once(fields[i].1));
        decoded_values_conform(env, o[at].1, fields[i].1, exact, limit);
    }
    assert forall|name: Seq<char>| has_name(values, name) <==> #[trigger] has_name(fields, name) by {
        if has_name(values, name) {
            let k = choose|k: int| 0 <= k < values.len() && (#[trigger] values[k]).0 == name;
            ascending_member_is_found(values, k);
            assert(keyed(values, name, 0) is Some);
        }
        if has_name(fields, name) {
            let i = choose|i: int| 0 <= i < fields.len() && (#[trigger] fields[i]).0 == name;
            last_where_names_differ(fields, i);
            assert(keyed(values, fields[i].0, 0) is Some);
            let k = keyed_is_among(values, name, 0);
            assert(values[k].0 == name);
        }
    }
    as_many_names(values, fields);
    fields_conform_one_by_one(env, values, fields);
    reveal_with_fuel(conforms, 2);
    reveal_with_fuel(bare_conforms, 2);
}

} // verus!
