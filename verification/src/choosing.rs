//! What is chosen where there is a choice: bindings for names, types for variables, evidence for
//! values, directories for modules.

use vstd::prelude::*;

use crate::ast::{string_of, SValue};
use crate::bindings::SBindings;
use crate::candidates::{all_visible, has_candidate, SCandidate, SScope};
use crate::codec::decoded;
use crate::compile::{prefer_data, prefer_plain, symbol_made, usable, SMatch};
use crate::concrete::open_type;
use crate::conformance::{kept_evidence, nominal_evidence, typed_value};
use crate::documents::{index_is_the_first, read};
use crate::env::{keyed, SEnv};
use crate::error::SError;
use crate::json::SJson;
use crate::operations::{
    op_host_input, op_pack, op_packed_empty, op_packed_only_key, op_type_evidence,
};
use crate::project_config::{
    effective_roots, joined_path, prepared, roots_error, state_of, Manifest, SPathState,
};
use crate::resolve::closed_type;
use crate::substitution::{apply, apply_all, apply_fields, occurs, some_field_occurs, some_occurs};
use crate::text::strings;
use crate::types::SType;
use crate::value_types::type_of;
use crate::values::bare;

verus! {

broadcast use vstd::seq_lib::group_seq_properties;

/// Whether what was found for a name is one of its candidates.
pub open spec fn found_among(m: SMatch, items: Seq<SCandidate>) -> bool {
    exists|i: int| 0 <= i < items.len() && (#[trigger] items[i]).id == m.id
}

proof fn usable_are_candidates(env: SEnv, items: Seq<SCandidate>, expected: Option<SType>)
    ensures
        forall|k: int|
            0 <= k < usable(env, items, expected).len() ==> found_among(
                #[trigger] usable(env, items, expected)[k],
                items,
            ),
    decreases items.len(),
{
    if items.len() > 0 {
        let front = items.drop_last();
        usable_are_candidates(env, front, expected);
        let rest = usable(env, front, expected);
        let all = usable(env, items, expected);
        assert forall|k: int| 0 <= k < all.len() implies found_among(
            #[trigger] all[k],
            items,
        ) by {
            if k < rest.len() {
                assert(all[k] == rest[k]);
                assert(found_among(rest[k], front));
                let i = choose|i: int| 0 <= i < front.len() && (#[trigger] front[i]).id
                    == rest[k].id;
                assert(items[i].id == all[k].id);
            } else {
                assert(items[items.len() - 1].id == all[k].id);
            }
        }
    }
}

proof fn preferred_are_found(items: Seq<SMatch>, expected: Option<SType>)
    ensures
        forall|k: int|
            0 <= k < prefer_data(prefer_plain(items), expected).len() ==> items.contains(
                #[trigger] prefer_data(prefer_plain(items), expected)[k],
            ),
{
    let plain = |m: SMatch| !m.generic;
    let data = |m: SMatch| !(m.ty is Function);
    let first = prefer_plain(items);
    let second = prefer_data(first, expected);
    assert forall|k: int| 0 <= k < first.len() implies items.contains(#[trigger] first[k]) by {
        if first != items {
            assert(items.filter(plain).contains(first[k]));
            items.lemma_filter_contains_rev(plain, first[k]);
        }
    }
    assert forall|k: int| 0 <= k < second.len() implies items.contains(#[trigger] second[k]) by {
        if second != first {
            assert(first.filter(data).contains(second[k]));
            first.lemma_filter_contains_rev(data, second[k]);
            let i = choose|i: int| 0 <= i < first.len() && first[i] == second[k];
            assert(items.contains(first[i]));
        } else {
            assert(items.contains(first[k]));
        }
    }
}

/// A name that compiles refers to a binding that can be seen where it stands.
pub proof fn names_refer_to_visible_bindings(
    env: SEnv,
    table: SBindings,
    scopes: Seq<SScope>,
    name: Seq<char>,
    expected: Option<SType>,
)
    ensures
        symbol_made(env, table, scopes, name, expected) matches Ok(x) ==> x.kind is BindingRef
            && has_candidate(all_visible(env, table, scopes, name), x.kind->BindingRef_0),
        all_visible(env, table, scopes, name).len() == 0 ==> symbol_made(
            env,
            table,
            scopes,
            name,
            expected,
        ) is Err,
{
    reveal(symbol_made);
    let candidates = all_visible(env, table, scopes, name);
    let matching = usable(env, candidates, expected);
    usable_are_candidates(env, candidates, expected);
    preferred_are_found(matching, expected);
    let found = prefer_data(prefer_plain(matching), expected);
    if found.len() == 1 {
        assert(matching.contains(found[0]));
        let k = choose|k: int| 0 <= k < matching.len() && matching[k] == found[0];
        assert(found_among(matching[k], candidates));
    }
}

/// Whether a variable occurs in what stands for a variable of a type.
pub open spec fn occurs_through(t: SType, m: Map<Seq<char>, SType>, n: Seq<char>) -> bool {
    exists|v: Seq<char>| #[trigger] occurs(t, v) && m.dom().contains(v) && occurs(m[v], n)
}

/// Whether a variable occurs in what stands for a variable that occurs by some measure.
pub open spec fn reached_through(
    held: spec_fn(Seq<char>) -> bool,
    m: Map<Seq<char>, SType>,
    n: Seq<char>,
) -> bool {
    exists|v: Seq<char>| #[trigger] held(v) && m.dom().contains(v) && occurs(m[v], n)
}

proof fn through_parts(
    t: SType,
    a: spec_fn(Seq<char>) -> bool,
    b: spec_fn(Seq<char>) -> bool,
    m: Map<Seq<char>, SType>,
    n: Seq<char>,
)
    requires
        forall|v: Seq<char>| #[trigger] occurs(t, v) <==> a(v) || b(v),
    ensures
        occurs_through(t, m, n) <==> reached_through(a, m, n) || reached_through(b, m, n),
{
    if occurs_through(t, m, n) {
        let v = choose|v: Seq<char>| #[trigger]
            occurs(t, v) && m.dom().contains(v) && occurs(m[v], n);
        assert(a(v) || b(v));
    }
    if reached_through(a, m, n) {
        let v = choose|v: Seq<char>| #[trigger] a(v) && m.dom().contains(v) && occurs(m[v], n);
        assert(occurs(t, v));
    }
    if reached_through(b, m, n) {
        let v = choose|v: Seq<char>| #[trigger] b(v) && m.dom().contains(v) && occurs(m[v], n);
        assert(occurs(t, v));
    }
}

proof fn through_one(t: SType, m: Map<Seq<char>, SType>, n: Seq<char>)
    ensures
        reached_through(|v: Seq<char>| occurs(t, v), m, n) <==> occurs_through(t, m, n),
{
    let held = |v: Seq<char>| occurs(t, v);
    if occurs_through(t, m, n) {
        let v = choose|v: Seq<char>| #[trigger]
            occurs(t, v) && m.dom().contains(v) && occurs(m[v], n);
        assert(held(v));
    }
}

/// Putting types for variables replaces each of those variables and no other: what occurs afterwards
/// occurred before and was not replaced, or occurs in what was put.
pub proof fn substitution_replaces_just_its_variables(
    t: SType,
    m: Map<Seq<char>, SType>,
    n: Seq<char>,
)
    ensures
        occurs(apply(t, m), n) <==> (occurs(t, n) && !m.dom().contains(n)) || occurs_through(
            t,
            m,
            n,
        ),
    decreases t,
{
    let none = |v: Seq<char>| false;
    assert(!reached_through(none, m, n));
    match t {
        SType::Var(v) => {
            if m.dom().contains(v) {
                assert(occurs(t, v));
            }
        },
        SType::Named(_, a) => {
            all_replaced(a, m, n);
            through_parts(t, |v: Seq<char>| some_occurs(a, v), none, m, n);
        },
        SType::TypeTag(x) => {
            substitution_replaces_just_its_variables(*x, m, n);
            through_parts(t, |v: Seq<char>| occurs(*x, v), none, m, n);
            through_one(*x, m, n);
        },
        SType::List(x) => {
            substitution_replaces_just_its_variables(*x, m, n);
            through_parts(t, |v: Seq<char>| occurs(*x, v), none, m, n);
            through_one(*x, m, n);
        },
        SType::SetOf(x) => {
            substitution_replaces_just_its_variables(*x, m, n);
            through_parts(t, |v: Seq<char>| occurs(*x, v), none, m, n);
            through_one(*x, m, n);
        },
        SType::MapOf(k, x) => {
            substitution_replaces_just_its_variables(*k, m, n);
            substitution_replaces_just_its_variables(*x, m, n);
            through_parts(
                t,
                |v: Seq<char>| occurs(*k, v),
                |v: Seq<char>| occurs(*x, v),
                m,
                n,
            );
            through_one(*k, m, n);
            through_one(*x, m, n);
        },
        SType::Record(f) => {
            fields_replaced(f, m, n);
            through_parts(t, |v: Seq<char>| some_field_occurs(f, v), none, m, n);
        },
        SType::Product(a) => {
            all_replaced(a, m, n);
            through_parts(t, |v: Seq<char>| some_occurs(a, v), none, m, n);
        },
        SType::Function(a, r) => {
            all_replaced(a, m, n);
            substitution_replaces_just_its_variables(*r, m, n);
            through_parts(
                t,
                |v: Seq<char>| some_occurs(a, v),
                |v: Seq<char>| occurs(*r, v),
                m,
                n,
            );
            through_one(*r, m, n);
        },
        _ => {
            assert forall|v: Seq<char>| !#[trigger] occurs(t, v) by {}
        },
    }
}

proof fn all_replaced(items: Seq<SType>, m: Map<Seq<char>, SType>, n: Seq<char>)
    ensures
        some_occurs(apply_all(items, m), n) <==> (some_occurs(items, n) && !m.dom().contains(n))
            || reached_through(|v: Seq<char>| some_occurs(items, v), m, n),
    decreases items,
{
    let made = apply_all(items, m);
    let held = |v: Seq<char>| some_occurs(items, v);
    assert forall|i: int| 0 <= i < items.len() implies (occurs(#[trigger] made[i], n) <==> (occurs(
        items[i],
        n,
    ) && !m.dom().contains(n)) || occurs_through(items[i], m, n)) by {
        substitution_replaces_just_its_variables(items[i], m, n);
    }
    if some_occurs(made, n) {
        let i = choose|i: int| 0 <= i < made.len() && occurs(#[trigger] made[i], n);
        assert(made[i] == apply(items[i], m));
        if occurs_through(items[i], m, n) {
            let v = choose|v: Seq<char>| #[trigger]
                occurs(items[i], v) && m.dom().contains(v) && occurs(m[v], n);
            assert(some_occurs(items, v));
            assert(held(v));
        } else {
            assert(occurs(items[i], n));
        }
    }
    if some_occurs(items, n) && !m.dom().contains(n) {
        let i = choose|i: int| 0 <= i < items.len() && occurs(#[trigger] items[i], n);
        assert(occurs(made[i], n));
    }
    if reached_through(held, m, n) {
        let v = choose|v: Seq<char>| #[trigger] held(v) && m.dom().contains(v) && occurs(m[v], n);
        let i = choose|i: int| 0 <= i < items.len() && occurs(#[trigger] items[i], v);
        assert(occurs_through(items[i], m, n));
        assert(occurs(made[i], n));
    }
}

proof fn fields_replaced(
    items: Seq<(Seq<char>, SType)>,
    m: Map<Seq<char>, SType>,
    n: Seq<char>,
)
    ensures
        some_field_occurs(apply_fields(items, m), n) <==> (some_field_occurs(items, n)
            && !m.dom().contains(n)) || reached_through(
            |v: Seq<char>| some_field_occurs(items, v),
            m,
            n,
        ),
    decreases items,
{
    let made = apply_fields(items, m);
    let held = |v: Seq<char>| some_field_occurs(items, v);
    assert forall|i: int| 0 <= i < items.len() implies (occurs((#[trigger] made[i]).1, n) <==> (
    occurs(items[i].1, n) && !m.dom().contains(n)) || occurs_through(items[i].1, m, n)) by {
        substitution_replaces_just_its_variables(items[i].1, m, n);
    }
    if some_field_occurs(made, n) {
        let i = choose|i: int| 0 <= i < made.len() && occurs((#[trigger] made[i]).1, n);
        assert(made[i].1 == apply(items[i].1, m));
        if occurs_through(items[i].1, m, n) {
            let v = choose|v: Seq<char>| #[trigger]
                occurs(items[i].1, v) && m.dom().contains(v) && occurs(m[v], n);
            assert(some_field_occurs(items, v));
            assert(held(v));
        } else {
            assert(occurs(items[i].1, n));
        }
    }
    if some_field_occurs(items, n) && !m.dom().contains(n) {
        let i = choose|i: int| 0 <= i < items.len() && occurs((#[trigger] items[i]).1, n);
        assert(occurs(made[i].1, n));
    }
    if reached_through(held, m, n) {
        let v = choose|v: Seq<char>| #[trigger] held(v) && m.dom().contains(v) && occurs(m[v], n);
        let i = choose|i: int| 0 <= i < items.len() && occurs((#[trigger] items[i]).1, v);
        assert(occurs_through(items[i].1, m, n));
        assert(occurs(made[i].1, n));
    }
}

/// A value that bears one nominal type is not given another.
pub proof fn nominal_types_are_not_exchanged(
    env: SEnv,
    inner: SValue,
    known: SType,
    t: SType,
)
    requires
        closed_type(env, known) matches Ok(c) && c is Named,
        closed_type(env, t) matches Ok(c) && c is Named,
        closed_type(env, known) != closed_type(env, t),
        !(t is Product),
    ensures
        typed_value(env, SValue::Typed(Box::new(inner), known), t) is Err,
{
    reveal_with_fuel(typed_value, 2);
    reveal(kept_evidence);
    reveal(nominal_evidence);
}

/// A value that is looked up by a name and a type has that type and is bound to that name.
pub proof fn lookups_by_type_find_what_they_look_for(
    env: SEnv,
    name: Seq<char>,
    expected: SType,
)
    ensures
        env.lookup_by_type(name, expected) matches Ok(v) ==> type_of(v) == Some(expected)
            && env.candidates(name).contains(v),
{
    reveal(SEnv::lookup_by_type);
    let all = env.candidates(name);
    let keep = |v: SValue| type_of(v) == Some(expected);
    let matching = all.filter(keep);
    if matching.len() == 1 {
        assert(matching.contains(matching[0]));
        all.lemma_filter_contains_rev(keep, matching[0]);
        all.lemma_filter_pred(keep, 0);
    }
}

proof fn roots_are_directories(
    states: Seq<(Seq<char>, SPathState)>,
    roots: Seq<Seq<char>>,
    i: nat,
)
    ensures
        roots_error(states, roots, i) is None <==> forall|k: int|
            i <= k < roots.len() ==> state_of(states, #[trigger] roots[k]) is Directory,
    decreases roots.len() - i,
{
    if i < roots.len() {
        roots_are_directories(states, roots, i + 1);
        if roots_error(states, roots, i) is None {
            assert forall|k: int| i <= k < roots.len() implies state_of(
                states,
                #[trigger] roots[k],
            ) is Directory by {}
        }
        if forall|k: int|
            i <= k < roots.len() ==> state_of(states, #[trigger] roots[k]) is Directory {
            assert(state_of(states, roots[i as int]) is Directory);
        }
    }
}

/// A project is prepared where its manifest is of the version that is known and it and all its module
/// roots are directories; its own directory is searched first, then the roots of the manifest,
/// then those of the request, each under its directory.
pub proof fn projects_are_prepared_from_directories(
    root: Seq<char>,
    extra: Seq<Seq<char>>,
    manifest: Manifest,
    states: Seq<(Seq<char>, SPathState)>,
)
    ensures
        prepared(root, extra, manifest, states) matches Ok(p) ==> {
            &&& manifest is Parsed && manifest->Parsed_0.version == 1
            &&& p.project_root == root && p.module_roots.len() > 0 && p.module_roots[0] == root
            &&& p.module_roots.len() == 1 + manifest->Parsed_0.module_roots@.len() + extra.len()
            &&& forall|k: int|
                0 <= k < p.module_roots.len() ==> state_of(states, #[trigger] p.module_roots[k])
                    is Directory
            &&& forall|k: int|
                0 <= k < manifest->Parsed_0.module_roots@.len() ==> #[trigger] p.module_roots[1 + k]
                    == joined_path(root, manifest->Parsed_0.module_roots@[k]@)
            &&& forall|k: int|
                0 <= k < extra.len() ==> p.module_roots[1
                    + manifest->Parsed_0.module_roots@.len() + k] == joined_path(
                    root,
                    #[trigger] extra[k],
                )
        },
{
    reveal(prepared);
    if prepared(root, extra, manifest, states) is Ok {
        let configured = strings(manifest->Parsed_0.module_roots@);
        roots_are_directories(states, effective_roots(root, configured, extra), 0);
    }
}

/// A packed value holds what was packed; a packed record says whether it is empty and whether a key
/// is the only one it has; a type tag gives the descriptor of its type.
pub proof fn packed_values_hold_what_was_packed(
    env: SEnv,
    v: SValue,
    fields: Seq<(Seq<char>, SValue)>,
    key: Seq<char>,
)
    ensures
        op_pack(seq![v]) == Ok::<SValue, SError>(SValue::PackedValue(Box::new(v))),
        bare(v) == SValue::Record(fields) ==> op_packed_empty(
            seq![SValue::PackedValue(Box::new(v))],
        ) == Ok::<SValue, SError>(SValue::Bool(fields.len() == 0)),
        bare(v) == SValue::Record(fields) ==> op_packed_only_key(
            seq![SValue::PackedValue(Box::new(v)), SValue::Str(key)],
        ) == Ok::<SValue, SError>(
            SValue::Bool(fields.len() == 1 && fields[0].0 == key),
        ),
        bare(v) matches SValue::TypeTag(t) ==> op_type_evidence(seq![v]) == Ok::<SValue, SError>(
            SValue::TypeDescriptor(t),
        ),
        !(bare(v) is TypeTag) ==> op_type_evidence(seq![v]) is Err,
{
    reveal(op_pack);
    reveal(op_packed_empty);
    reveal(op_packed_only_key);
    reveal(op_type_evidence);
    reveal_with_fuel(keyed, 3);
    let packed = SValue::PackedValue(Box::new(v));
    assert(bare(packed) == packed);
    assert(string_of(SValue::Str(key)) == Some(key));
}

/// A host input is what the inputs hold under its key, decoded at exactly the type that is asked for.
pub proof fn host_inputs_are_decoded_at_their_types(
    env: SEnv,
    key: Seq<char>,
    t: crate::concrete::SConcrete,
    inputs: SJson,
)
    requires
        env.lookup_by_type("inputs"@, SType::HostInputs) matches Ok(found) && bare(found)
            == SValue::HostInputs(inputs),
        inputs is Object,
    ensures
        op_host_input(env, seq![SValue::Str(key), SValue::TypeTag(t)]) is Ok <==> keyed(
            inputs->Object_0,
            key,
            0,
        ) is Some && read(env, keyed(inputs->Object_0, key, 0)->Some_0, open_type(t), true) is Ok,
        op_host_input(env, seq![SValue::Str(key), SValue::TypeTag(t)]) matches Ok(v) ==> read(
            env,
            keyed(inputs->Object_0, key, 0)->Some_0,
            open_type(t),
            true,
        ) == Ok::<SValue, SError>(v),
{
    reveal(op_host_input);
    index_is_the_first(inputs->Object_0, key, 0);
    assert(string_of(SValue::Str(key)) == Some(key));
    assert(bare(SValue::TypeTag(t)) == SValue::TypeTag(t));
}

} // verus!
