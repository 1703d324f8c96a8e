//! What documents, packed values, files and programs hold, and what is made of it.

use vstd::prelude::*;

use crate::ast::{string_of, SValue};
use crate::authored::{SForm, SItem};
use crate::codec::{
    decoded, decoded_all, decoded_entries, distinct_values, entry_keys, envelope_payload,
};
use crate::documents::{
    all_are_decoded, ascending_member_is_found, ascends, has_name, index_is_the_first, last_of_name,
    putting_a_member_binds_its_name, read,
};
use crate::env::{keyed, SEnv};
use crate::error::SError;
use crate::files::{read_rule, SFileAnswer, SFiles};
use crate::holding::keyed_is_among;
use crate::json::{
    canonical, canonical_all, canonical_members, json_equal, same_members, same_shape, same_shapes,
    SJson,
};
use crate::observation::{confirmed, still_fresh, SEvidence, SObservationSet};
use crate::program::{artifact_of, block_forms, declaration_forms, programmed};
use crate::resolver::escapes;
use crate::types::SType;
use crate::values::bare;
use crate::world::SWorld;

verus! {

broadcast use vstd::seq_lib::group_seq_properties;

proof fn canonical_items(items: Seq<SJson>)
    ensures
        canonical_all(items).len() == items.len(),
        forall|i: int|
            0 <= i < items.len() ==> #[trigger] canonical_all(items)[i] == canonical(items[i]),
    decreases items.len(),
{
    reveal_with_fuel(canonical_all, 2);
    if items.len() > 0 {
        let front = items.drop_last();
        canonical_items(front);
        let all = canonical_all(items);
        assert forall|i: int| 0 <= i < items.len() implies #[trigger] all[i] == canonical(
            items[i],
        ) by {
            if i < front.len() {
                assert(all[i] == canonical_all(front)[i]);
                assert(front[i] == items[i]);
            }
        }
    }
}

proof fn canonical_names(members: Seq<(Seq<char>, SJson)>)
    ensures
        ascends(canonical_members(members)),
        forall|i: int|
            0 <= i < members.len() && last_of_name(members, i) ==> keyed(
                canonical_members(members),
                (#[trigger] members[i]).0,
                0,
            ) == Some(canonical(members[i].1)),
        forall|name: Seq<char>|
            (#[trigger] keyed(canonical_members(members), name, 0)) is Some ==> has_name(
                members,
                name,
            ),
    decreases members.len(),
{
    reveal_with_fuel(canonical_members, 2);
    if members.len() > 0 {
        let front = members.drop_last();
        let last = members.last();
        canonical_names(front);
        let before = canonical_members(front);
        let all = canonical_members(members);
        putting_a_member_binds_its_name(before, last.0, canonical(last.1));
        assert forall|i: int| 0 <= i < members.len() && last_of_name(members, i) implies keyed(
            all,
            (#[trigger] members[i]).0,
            0,
        ) == Some(canonical(members[i].1)) by {
            if i < front.len() {
                assert(members[members.len() - 1].0 != members[i].0);
                assert(front[i] == members[i]);
                assert(last_of_name(front, i)) by {
                    assert forall|k: int| i < k < front.len() implies (#[trigger] front[k]).0
                        != front[i].0 by {
                        assert(front[k] == members[k]);
                    }
                }
                assert(keyed(before, members[i].0, 0) == Some(canonical(members[i].1)));
            }
        }
        assert forall|name: Seq<char>| (#[trigger] keyed(all, name, 0)) is Some implies has_name(
            members,
            name,
        ) by {
            if name == last.0 {
                assert(members[members.len() - 1].0 == name);
            } else {
                assert(keyed(before, name, 0) is Some);
                let k = choose|k: int| 0 <= k < front.len() && (#[trigger] front[k]).0 == name;
                assert(members[k].0 == name);
            }
        }
    }
}

/// The canonical form of a document holds what the document holds: an array its items in their order,
/// an object under each name what the last member of that name holds, and nothing else.
pub proof fn canonical_form_keeps_contents(j: SJson)
    ensures
        j matches SJson::Array(items) ==> canonical(j) is Array && canonical(j)->Array_0.len()
            == items.len() && (forall|i: int|
            0 <= i < items.len() ==> #[trigger] canonical(j)->Array_0[i] == canonical(items[i])),
        j matches SJson::Object(members) ==> canonical(j) is Object && ascends(
            canonical(j)->Object_0,
        ) && (forall|i: int|
            0 <= i < members.len() && last_of_name(members, i) ==> keyed(
                canonical(j)->Object_0,
                (#[trigger] members[i]).0,
                0,
            ) == Some(canonical(members[i].1))) && (forall|name: Seq<char>|
            (#[trigger] keyed(canonical(j)->Object_0, name, 0)) is Some ==> has_name(
                members,
                name,
            )),
        !(j is Array || j is Object) ==> canonical(j) == j,
{
    reveal_with_fuel(canonical, 2);
    match j {
        SJson::Array(items) => {
            canonical_items(items);
        },
        SJson::Object(members) => {
            canonical_names(members);
        },
        _ => {},
    }
}

proof fn shapes_one_by_one(xs: Seq<SJson>, ys: Seq<SJson>)
    ensures
        same_shapes(xs, ys) <==> xs.len() == ys.len() && forall|i: int|
            0 <= i < xs.len() ==> same_shape(#[trigger] xs[i], ys[i]),
    decreases xs.len(),
{
    reveal_with_fuel(same_shapes, 2);
    if xs.len() > 0 && ys.len() > 0 {
        let (a, b) = (xs.drop_first(), ys.drop_first());
        shapes_one_by_one(a, b);
        if same_shapes(xs, ys) {
            assert forall|i: int| 0 <= i < xs.len() implies same_shape(#[trigger] xs[i], ys[i]) by {
                if i > 0 {
                    assert(a[i - 1] == xs[i] && b[i - 1] == ys[i]);
                }
            }
        }
        if xs.len() == ys.len() && forall|i: int|
            0 <= i < xs.len() ==> same_shape(#[trigger] xs[i], ys[i]) {
            assert(same_shape(xs[0], ys[0]));
            assert forall|i: int| 0 <= i < a.len() implies same_shape(#[trigger] a[i], b[i]) by {
                assert(a[i] == xs[i + 1] && b[i] == ys[i + 1]);
            }
        }
    }
}

/// Whether two members have one name and hold the same.
pub open spec fn member_matches(x: (Seq<char>, SJson), y: (Seq<char>, SJson)) -> bool {
    x.0 == y.0 && same_shape(x.1, y.1)
}

proof fn members_one_by_one(xs: Seq<(Seq<char>, SJson)>, ys: Seq<(Seq<char>, SJson)>)
    ensures
        same_members(xs, ys) <==> xs.len() == ys.len() && forall|i: int|
            0 <= i < xs.len() ==> member_matches(#[trigger] xs[i], ys[i]),
    decreases xs.len(),
{
    reveal_with_fuel(same_members, 2);
    if xs.len() > 0 && ys.len() > 0 {
        let (a, b) = (xs.drop_first(), ys.drop_first());
        members_one_by_one(a, b);
        if same_members(xs, ys) {
            assert forall|i: int| 0 <= i < xs.len() implies member_matches(
                #[trigger] xs[i],
                ys[i],
            ) by {
                if i > 0 {
                    assert(a[i - 1] == xs[i] && b[i - 1] == ys[i]);
                }
            }
        }
        if xs.len() == ys.len() && forall|i: int|
            0 <= i < xs.len() ==> member_matches(#[trigger] xs[i], ys[i]) {
            assert(member_matches(xs[0], ys[0]));
            assert forall|i: int| 0 <= i < a.len() implies member_matches(
                #[trigger] a[i],
                b[i],
            ) by {
                assert(a[i] == xs[i + 1] && b[i] == ys[i + 1]);
            }
        }
    }
}

/// Equal arrays are as long as each other and equal item by item; equal objects bind the same names,
/// each to equal documents; texts, truth values and nulls are equal where they are the same, and
/// documents of different kinds never are.
pub proof fn documents_are_equal_part_by_part(a: SJson, b: SJson, name: Seq<char>, i: int)
    ensures
        a is Array && b is Array ==> (json_equal(a, b) <==> a->Array_0.len() == b->Array_0.len() && (
        forall|k: int|
            0 <= k < a->Array_0.len() ==> json_equal(#[trigger] a->Array_0[k], b->Array_0[k]))),
        a is Object && b is Object && json_equal(a, b) ==> (has_name(a->Object_0, name)
            <==> has_name(b->Object_0, name)),
        a is Object && b is Object && json_equal(a, b) && 0 <= i < a->Object_0.len()
            && last_of_name(a->Object_0, i) ==> keyed(
            canonical(b)->Object_0,
            a->Object_0[i].0,
            0,
        ) is Some && same_shape(
            canonical(a->Object_0[i].1),
            keyed(canonical(b)->Object_0, a->Object_0[i].0, 0)->Some_0,
        ),
        a is Str && b is Str ==> (json_equal(a, b) <==> a == b),
        a is Bool && b is Bool ==> (json_equal(a, b) <==> a == b),
        a is Null && b is Null ==> json_equal(a, b),
        json_equal(a, b) ==> (a is Array <==> b is Array) && (a is Object <==> b is Object) && (a
            is Str <==> b is Str) && (a is Bool <==> b is Bool) && (a is Null <==> b is Null) && (a
            is Number <==> b is Number),
{
    reveal(json_equal);
    reveal_with_fuel(same_shape, 2);
    canonical_form_keeps_contents(a);
    canonical_form_keeps_contents(b);
    if a is Array && b is Array {
        let (x, y) = (canonical(a)->Array_0, canonical(b)->Array_0);
        shapes_one_by_one(x, y);
        if a->Array_0.len() == b->Array_0.len() {
            assert forall|k: int| 0 <= k < x.len() implies (same_shape(#[trigger] x[k], y[k])
                <==> json_equal(a->Array_0[k], b->Array_0[k])) by {
                assert(x[k] == canonical(a->Array_0[k]) && y[k] == canonical(b->Array_0[k]));
            }
            if forall|k: int|
                0 <= k < a->Array_0.len() ==> json_equal(#[trigger] a->Array_0[k], b->Array_0[k]) {
                assert forall|k: int| 0 <= k < x.len() implies same_shape(
                    #[trigger] x[k],
                    y[k],
                ) by {
                    assert(json_equal(a->Array_0[k], b->Array_0[k]));
                }
            }
            if same_shapes(x, y) {
                assert forall|k: int| 0 <= k < a->Array_0.len() implies json_equal(
                    #[trigger] a->Array_0[k],
                    b->Array_0[k],
                ) by {
                    assert(same_shape(x[k], y[k]));
                }
            }
        }
    }
    if a is Object && b is Object && json_equal(a, b) {
        let (x, y) = (canonical(a)->Object_0, canonical(b)->Object_0);
        members_one_by_one(x, y);
        names_of_equal_members(x, y, name);
        named_in_canonical_form(a->Object_0, name);
        named_in_canonical_form(b->Object_0, name);
        if 0 <= i < a->Object_0.len() && last_of_name(a->Object_0, i) {
            let n = a->Object_0[i].0;
            assert(keyed(x, n, 0) == Some(canonical(a->Object_0[i].1)));
            names_of_equal_members(x, y, n);
        }
    }
}

proof fn names_of_equal_members(
    x: Seq<(Seq<char>, SJson)>,
    y: Seq<(Seq<char>, SJson)>,
    name: Seq<char>,
)
    requires
        ascends(x),
        ascends(y),
        x.len() == y.len(),
        forall|i: int| 0 <= i < x.len() ==> member_matches(#[trigger] x[i], y[i]),
    ensures
        keyed(x, name, 0) is Some <==> keyed(y, name, 0) is Some,
        keyed(x, name, 0) is Some ==> same_shape(keyed(x, name, 0)->Some_0, keyed(y, name, 0)->Some_0),
{
    if keyed(x, name, 0) is Some {
        let k = keyed_is_among(x, name, 0);
        assert(member_matches(x[k], y[k]));
        ascending_member_is_found(y, k);
    }
    if keyed(y, name, 0) is Some {
        let k = keyed_is_among(y, name, 0);
        assert(member_matches(x[k], y[k]));
        ascending_member_is_found(x, k);
    }
}

proof fn named_in_canonical_form(members: Seq<(Seq<char>, SJson)>, name: Seq<char>)
    ensures
        keyed(canonical_members(members), name, 0) is Some <==> has_name(members, name),
{
    canonical_names(members);
    if has_name(members, name) {
        let k = choose|k: int| 0 <= k < members.len() && (#[trigger] members[k]).0 == name;
        let last = last_named(members, name, k, members.len());
        assert(members[last].0 == name);
    }
}

proof fn last_named(members: Seq<(Seq<char>, SJson)>, name: Seq<char>, k: int, n: nat) -> (last:
    int)
    requires
        0 <= k < n <= members.len(),
        members[k].0 == name,
        forall|m: int| n <= m < members.len() ==> (#[trigger] members[m]).0 != name,
    ensures
        0 <= last < members.len(),
        members[last].0 == name,
        last_of_name(members, last),
    decreases n,
{
    if members[n - 1].0 == name {
        n - 1
    } else {
        last_named(members, name, k, (n - 1) as nat)
    }
}

/// Whether a document is an envelope: an object of two members, its mark and what it holds.
pub open spec fn enveloped(j: SJson, mark: Seq<char>, key: Seq<char>) -> bool {
    &&& j is Object && j->Object_0.len() == 2
    &&& keyed(j->Object_0, "$mag"@, 0) == Some(SJson::Str(mark))
    &&& keyed(j->Object_0, key, 0) is Some
}

proof fn envelopes_are_opened(j: SJson, mark: Seq<char>, key: Seq<char>, t: SType)
    ensures
        envelope_payload(j, mark, key, t) is Ok <==> enveloped(j, mark, key),
        envelope_payload(j, mark, key, t) matches Ok(at) ==> at < j->Object_0.len() && keyed(
            j->Object_0,
            key,
            0,
        ) == Some(j->Object_0[at as int].1),
{
    reveal(envelope_payload);
    if j is Object {
        index_is_the_first(j->Object_0, "$mag"@, 0);
        index_is_the_first(j->Object_0, key, 0);
    }
}

/// A set is decoded from an envelope of its items: each is decoded at its place, and no two of them
/// are equal.
pub proof fn sets_are_decoded_item_by_item(
    env: SEnv,
    j: SJson,
    item: SType,
    exact: bool,
    fuel: nat,
)
    ensures
        decoded(env, j, SType::SetOf(Box::new(item)), exact, fuel) matches Ok(v) ==> enveloped(
            j,
            "set"@,
            "items"@,
        ) && keyed(j->Object_0, "items"@, 0)->Some_0 is Array && v is Typed && *v->Typed_0 is SetOf
            && v->Typed_0->SetOf_0.len() == keyed(
            j->Object_0,
            "items"@,
            0,
        )->Some_0->Array_0.len() && (forall|i: int|
            0 <= i < v->Typed_0->SetOf_0.len() ==> read(
                env,
                keyed(j->Object_0, "items"@, 0)->Some_0->Array_0[i],
                item,
                exact,
            ) == Ok::<SValue, SError>(#[trigger] v->Typed_0->SetOf_0[i])) && distinct_values(
            v->Typed_0->SetOf_0,
            "set item"@,
        ) is Ok,
{
    reveal_with_fuel(decoded, 2);
    let t = SType::SetOf(Box::new(item));
    envelopes_are_opened(j, "set"@, "items"@, t);
    if decoded(env, j, t, exact, fuel) is Ok {
        let items = keyed(j->Object_0, "items"@, 0)->Some_0->Array_0;
        all_are_decoded(env, items, item, exact, Seq::empty());
        let out = decoded_all(env, items, item, exact, Seq::empty())->Ok_0;
        let none: Seq<SValue> = Seq::empty();
        assert forall|i: int| 0 <= i < out.len() implies read(env, items[i], item, exact) == Ok::<
            SValue,
            SError,
        >(#[trigger] out[i]) by {
            assert(out[none.len() + i] == out[i]);
            assert(read(env, items[i], item, exact) is Ok);
        }
    }
}

/// Whether an item of a document is an entry that is decoded to a key and a value.
pub open spec fn entry_is_read(
    env: SEnv,
    j: SJson,
    key: SType,
    value: SType,
    exact: bool,
    entry: (SValue, SValue),
) -> bool {
    &&& j is Array && j->Array_0.len() == 2
    &&& read(env, j->Array_0[0], key, exact) == Ok::<SValue, SError>(entry.0)
    &&& read(env, j->Array_0[1], value, exact) == Ok::<SValue, SError>(entry.1)
}

proof fn entries_are_decoded(
    env: SEnv,
    items: Seq<SJson>,
    key: SType,
    value: SType,
    exact: bool,
    t: SType,
    done: Seq<(SValue, SValue)>,
)
    ensures
        decoded_entries(env, items, key, value, exact, t, done) matches Ok(out) ==> out.len()
            == done.len() + items.len() && (forall|i: int|
            0 <= i < done.len() ==> #[trigger] out[i] == done[i]) && (forall|i: int|
            0 <= i < items.len() ==> entry_is_read(
                env,
                #[trigger] items[i],
                key,
                value,
                exact,
                out[done.len() + i],
            )),
    decreases items.len(),
{
    reveal_with_fuel(decoded_entries, 2);
    if items.len() > 0 && decoded_entries(env, items, key, value, exact, t, done) is Ok {
        let rest = items.drop_first();
        let k = read(env, items[0]->Array_0[0], key, exact)->Ok_0;
        let v = read(env, items[0]->Array_0[1], value, exact)->Ok_0;
        let more = done.push((k, v));
        entries_are_decoded(env, rest, key, value, exact, t, more);
        let out = decoded_entries(env, items, key, value, exact, t, done)->Ok_0;
        assert(out[done.len() as int] == more[done.len() as int]);
        assert forall|i: int| 0 <= i < done.len() implies #[trigger] out[i] == done[i] by {
            assert(out[i] == more[i]);
        }
        assert forall|i: int| 0 <= i < items.len() implies entry_is_read(
            env,
            #[trigger] items[i],
            key,
            value,
            exact,
            out[done.len() + i],
        ) by {
            if i > 0 {
                assert(rest[i - 1] == items[i]);
                assert(out[more.len() + (i - 1)] == out[done.len() + i]);
            }
        }
    }
}

/// A map whose keys are no texts is decoded from an envelope of its entries: each is decoded at its
/// place, key and value, and no two keys are equal.
pub proof fn other_maps_are_decoded_entry_by_entry(
    env: SEnv,
    j: SJson,
    key: SType,
    value: SType,
    exact: bool,
    fuel: nat,
)
    requires
        key != SType::String,
    ensures
        decoded(env, j, SType::MapOf(Box::new(key), Box::new(value)), exact, fuel) matches Ok(v)
            ==> enveloped(j, "map"@, "entries"@) && keyed(
            j->Object_0,
            "entries"@,
            0,
        )->Some_0 is Array && v is Typed && *v->Typed_0 is MapOf && v->Typed_0->MapOf_0.len()
            == keyed(j->Object_0, "entries"@, 0)->Some_0->Array_0.len() && (forall|i: int|
            0 <= i < v->Typed_0->MapOf_0.len() ==> entry_is_read(
                env,
                keyed(j->Object_0, "entries"@, 0)->Some_0->Array_0[i],
                key,
                value,
                exact,
                #[trigger] v->Typed_0->MapOf_0[i],
            )) && distinct_values(entry_keys(v->Typed_0->MapOf_0), "map key"@) is Ok,
{
    reveal_with_fuel(decoded, 2);
    let t = SType::MapOf(Box::new(key), Box::new(value));
    envelopes_are_opened(j, "map"@, "entries"@, t);
    if decoded(env, j, t, exact, fuel) is Ok {
        let items = keyed(j->Object_0, "entries"@, 0)->Some_0->Array_0;
        let none: Seq<(SValue, SValue)> = Seq::empty();
        entries_are_decoded(env, items, key, value, exact, t, none);
        let out = decoded_entries(env, items, key, value, exact, t, none)->Ok_0;
        assert forall|i: int| 0 <= i < out.len() implies entry_is_read(
            env,
            items[i],
            key,
            value,
            exact,
            #[trigger] out[i],
        ) by {
            assert(out[none.len() + i] == out[i]);
            assert(entry_is_read(env, items[i], key, value, exact, out[none.len() + i]));
        }
    }
}

/// An artifact is got from a value that is one, under whatever annotations as artifact, and from no
/// other.
pub proof fn only_artifacts_are_artifacts(v: SValue, source: Seq<char>)
    ensures
        artifact_of(v, source) matches Ok(j) ==> bare(v) == SValue::Artifact(j),
        v matches SValue::Artifact(j) ==> artifact_of(v, source) == Ok::<SJson, SError>(j),
        !(bare(v) is Artifact) ==> artifact_of(v, source) is Err,
    decreases v,
{
    match v {
        SValue::Typed(inner, _) => {
            only_artifacts_are_artifacts(*inner, source);
        },
        _ => {},
    }
}

/// A program keeps each form that was written, in order: definitions and expressions as items, the
/// others as declarations.
pub proof fn programs_keep_their_forms_in_order(a: Seq<SForm>, b: Seq<SForm>, item: SItem, form: SForm)
    ensures
        programmed(a + b).items == programmed(a).items + programmed(b).items,
        programmed(a + b).declarations == programmed(a).declarations + programmed(b).declarations,
        programmed(seq![SForm::Block(item)]).items == seq![item],
        programmed(seq![SForm::Block(item)]).declarations.len() == 0,
        !(form is Block) ==> programmed(seq![form]).declarations == seq![form] && programmed(
            seq![form],
        ).items.len() == 0,
        programmed(a).items.len() + programmed(a).declarations.len() == a.len(),
    decreases a.len(),
{
    reveal_with_fuel(block_forms, 2);
    reveal_with_fuel(declaration_forms, 2);
    assert(seq![SForm::Block(item)].drop_first() =~= Seq::<SForm>::empty());
    assert(seq![form].drop_first() =~= Seq::<SForm>::empty());
    assert(block_forms(seq![SForm::Block(item)]) =~= seq![item]);
    if !(form is Block) {
        assert(declaration_forms(seq![form]) =~= seq![form]);
    }
    if a.len() == 0 {
        assert(a + b =~= b);
        assert(block_forms(a) + block_forms(b) =~= block_forms(b));
        assert(declaration_forms(a) + declaration_forms(b) =~= declaration_forms(b));
    } else {
        let rest = a.drop_first();
        programs_keep_their_forms_in_order(rest, b, item, form);
        assert((a + b).drop_first() =~= rest + b);
        assert(block_forms(a + b) =~= block_forms(a) + block_forms(b));
        assert(declaration_forms(a + b) =~= declaration_forms(a) + declaration_forms(b));
    }
}

/// What was observed is still fresh only where each thing that was consumed would be found in the
/// same place with the same contents.
pub proof fn fresh_observations_are_all_confirmed(
    set: SObservationSet,
    cwd: Option<Seq<char>>,
    evidence: Seq<SEvidence>,
    i: int,
)
    requires
        still_fresh(set, cwd, evidence),
        0 <= i < set.records.len(),
    ensures
        set.consistent,
        evidence.len() == set.records.len(),
        evidence[i].selected == Some(set.records[i].selected),
        evidence[i].canonical == set.records[i].canonical,
        evidence[i].bytes is Some,
        crate::identity::sha256_hex(evidence[i].bytes->Some_0) == set.records[i].digest,
{
    reveal(still_fresh);
    assert(confirmed(set.records[i], evidence[i]));
}

/// A path that leads out of the workspace is not read, and a file that was supplied is read as it
/// is where nothing is to be filled in.
pub proof fn files_are_read_as_they_are(
    files: SFiles,
    w: SWorld,
    path: Seq<char>,
    text: Seq<char>,
)
    ensures
        escapes(path) ==> read_rule(files, w, seq![SValue::Str(path)]).1 is Err,
        !escapes(path) && keyed(files.texts, path, 0) == Some(SFileAnswer::Text(text)) ==> read_rule(
            files,
            w,
            seq![SValue::Str(path)],
        ) == (w, Ok::<SValue, SError>(SValue::Str(text))),
        keyed(files.texts, path, 0) is None ==> read_rule(files, w, seq![SValue::Str(path)]).1
            is Err,
        read_rule(files, w, seq![SValue::Str(path)]).1 matches Ok(v) ==> !escapes(path)
            && (keyed(files.texts, path, 0) matches Some(SFileAnswer::Text(t)) && v == SValue::Str(
            t,
        )),
{
    reveal(read_rule);
    assert(string_of(SValue::Str(path)) == Some(path));
}

} // verus!
