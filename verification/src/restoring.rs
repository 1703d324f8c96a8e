//! A document that was decoded comes back when what it was decoded to is serialized.

use vstd::prelude::*;

use crate::ast::{string_of, SDeclBody, SValue};
use crate::codec::{decoded, encoded};
use crate::documents::{
    arrays_are_decoded_item_by_item, arrays_are_decoded_position_by_position,
    ascending_member_is_found, ascending_members_agree, ascends,
    declared_types_are_decoded_by_their_bodies, entry_serializes, field_is_read, has_key, has_name,
    last_of_key, last_of_name, names_differ, objects_are_decoded_field_by_field,
    objects_are_decoded_member_by_member, read, records_are_serialized_field_by_field,
    sequences_are_serialized_item_by_item, text_maps_are_serialized_entry_by_entry,
};
use crate::env::{keyed, SEnv};
use crate::error::SError;
use crate::holding::keyed_is_among;
use crate::json::{SJson, SNumber};
use crate::resolve::expansion_limit;
use crate::substitution::{apply, apply_all, apply_fields, bound_params, zipped};
use crate::text::{before, before_is_total};
use crate::types::SType;

verus! {

broadcast use vstd::seq_lib::group_seq_properties;

/// Whether a document has its members in the order of their names, each once, and whole numbers
/// alone.
pub open spec fn regular(j: SJson) -> bool
    decreases j,
{
    match j {
        SJson::Number(n) => match n {
            SNumber::PosInt(_) => true,
            SNumber::NegInt(i) => i < 0,
            SNumber::Float(_) => false,
        },
        SJson::Array(items) => forall|i: int|
            0 <= i < items.len() ==> regular(#[trigger] items[i]),
        SJson::Object(members) => ascends(members) && (forall|i: int|
            0 <= i < members.len() ==> regular((#[trigger] members[i]).1)),
        _ => true,
    }
}

/// Whether no record in a type names a field twice.
pub open spec fn names_once(t: SType) -> bool
    decreases t,
{
    match t {
        SType::Named(_, a) => forall|i: int| 0 <= i < a.len() ==> names_once(#[trigger] a[i]),
        SType::TypeTag(x) => names_once(*x),
        SType::List(x) => names_once(*x),
        SType::SetOf(x) => names_once(*x),
        SType::MapOf(k, v) => names_once(*k) && names_once(*v),
        SType::Record(f) => names_differ(f) && (forall|i: int|
            0 <= i < f.len() ==> names_once((#[trigger] f[i]).1)),
        SType::Product(a) => forall|i: int| 0 <= i < a.len() ==> names_once(#[trigger] a[i]),
        SType::Function(a, r) => (forall|i: int|
            0 <= i < a.len() ==> names_once(#[trigger] a[i])) && names_once(*r),
        _ => true,
    }
}

/// Whether no record in a declaration names a field twice.
pub open spec fn declares_once(env: SEnv, name: Seq<char>) -> bool {
    match env.decl(name) {
        None => true,
        Some(decl) => match decl.body {
            SDeclBody::Nominal(body) => names_once(body),
            SDeclBody::Adt(constructors) => forall|k: int|
                0 <= k < constructors.len() ==> names_once((#[trigger] constructors[k]).payload),
            SDeclBody::Native => true,
        },
    }
}

pub open spec fn all_declare_once(env: SEnv) -> bool {
    forall|name: Seq<char>| #[trigger] declares_once(env, name)
}

/// Whether a value is made of units, booleans, whole numbers, texts, lists, products, records, values
/// of declared types and maps with text keys alone.
pub open spec fn plainly_made(v: SValue) -> bool
    decreases v,
{
    match v {
        SValue::Float(_) => false,
        SValue::JsonValue(_) => false,
        SValue::SetOf(_) => false,
        SValue::List(items) => forall|i: int|
            0 <= i < items.len() ==> plainly_made(#[trigger] items[i]),
        SValue::Product(items) => forall|i: int|
            0 <= i < items.len() ==> plainly_made(#[trigger] items[i]),
        SValue::Record(fields) => forall|i: int|
            0 <= i < fields.len() ==> plainly_made((#[trigger] fields[i]).1),
        SValue::MapOf(entries) => forall|i: int|
            0 <= i < entries.len() ==> plainly_made((#[trigger] entries[i]).1),
        SValue::Adt(_, _, payload) => plainly_made(*payload),
        SValue::Typed(inner, t) => plainly_made(*inner) && (*inner is MapOf ==> t is MapOf
            && *t->MapOf_0 == SType::String),
        _ => true,
    }
}

pub proof fn applying_names_once(t: SType, m: Map<Seq<char>, SType>)
    requires
        names_once(t),
        forall|n: Seq<char>| #[trigger] m.dom().contains(n) ==> names_once(m[n]),
    ensures
        names_once(apply(t, m)),
    decreases t,
{
    match t {
        SType::Named(_, a) => {
            let b = apply_all(a, m);
            assert forall|i: int| 0 <= i < b.len() implies names_once(#[trigger] b[i]) by {
                applying_names_once(a[i], m);
            }
        },
        SType::TypeTag(x) => {
            applying_names_once(*x, m);
        },
        SType::List(x) => {
            applying_names_once(*x, m);
        },
        SType::SetOf(x) => {
            applying_names_once(*x, m);
        },
        SType::MapOf(k, v) => {
            applying_names_once(*k, m);
            applying_names_once(*v, m);
        },
        SType::Record(f) => {
            let g = apply_fields(f, m);
            assert forall|i: int| 0 <= i < g.len() implies names_once((#[trigger] g[i]).1) by {
                applying_names_once(f[i].1, m);
            }
            assert forall|i: int, k: int| 0 <= i < k < g.len() implies (#[trigger] g[i]).0 != (
            #[trigger] g[k]).0 by {
                assert(f[i].0 != f[k].0);
            }
        },
        SType::Product(a) => {
            let b = apply_all(a, m);
            assert forall|i: int| 0 <= i < b.len() implies names_once(#[trigger] b[i]) by {
                applying_names_once(a[i], m);
            }
        },
        SType::Function(a, r) => {
            let b = apply_all(a, m);
            assert forall|i: int| 0 <= i < b.len() implies names_once(#[trigger] b[i]) by {
                applying_names_once(a[i], m);
            }
            applying_names_once(*r, m);
        },
        _ => {},
    }
}

proof fn zipped_names_once(params: Seq<Seq<char>>, args: Seq<SType>, n: nat)
    requires
        n <= args.len(),
        forall|i: int| 0 <= i < args.len() ==> names_once(#[trigger] args[i]),
    ensures
        forall|k: Seq<char>| #[trigger]
            zipped(params, args, n).dom().contains(k) ==> names_once(zipped(params, args, n)[k]),
    decreases n,
{
    if n > 0 {
        let before = zipped(params, args, (n - 1) as nat);
        let all = zipped(params, args, n);
        zipped_names_once(params, args, (n - 1) as nat);
        assert forall|k: Seq<char>| #[trigger] all.dom().contains(k) implies names_once(all[k]) by {
            if k == params[n - 1] {
                assert(names_once(args[n - 1]));
            } else {
                assert(before.dom().contains(k));
            }
        }
    }
}

pub proof fn bound_names_once(params: Seq<Seq<char>>, args: Seq<SType>)
    requires
        forall|i: int| 0 <= i < args.len() ==> names_once(#[trigger] args[i]),
    ensures
        forall|k: Seq<char>| #[trigger]
            bound_params(params, args).dom().contains(k) ==> names_once(
                bound_params(params, args)[k],
            ),
{
    let n = if params.len() < args.len() {
        params.len()
    } else {
        args.len()
    };
    zipped_names_once(params, args, n);
}

/// The names of fields.
pub open spec fn names_of<V>(items: Seq<(Seq<char>, V)>) -> Seq<Seq<char>> {
    Seq::new(items.len(), |i: int| items[i].0)
}

/// Where there are as many fields as members, the members have no other name than the fields.
proof fn no_member_is_left<V, W>(
    fields: Seq<(Seq<char>, V)>,
    members: Seq<(Seq<char>, W)>,
    k: int,
)
    requires
        names_differ(fields),
        ascends(members),
        fields.len() == members.len(),
        forall|i: int| 0 <= i < fields.len() ==> keyed(members, (#[trigger] fields[i]).0, 0) is Some,
        0 <= k < members.len(),
    ensures
        has_name(fields, members[k].0),
{
    let (a, b) = (names_of(fields), names_of(members));
    assert(a.no_duplicates()) by {
        assert forall|i: int, j: int| 0 <= i < a.len() && 0 <= j < a.len() && i != j implies a[i]
            != a[j] by {
            if i < j {
                assert(fields[i].0 != fields[j].0);
            } else {
                assert(fields[j].0 != fields[i].0);
            }
        }
    }
    assert(b.no_duplicates()) by {
        assert forall|i: int, j: int| 0 <= i < b.len() && 0 <= j < b.len() && i != j implies b[i]
            != b[j] by {
            before_is_total(b[i], b[i]);
            if i < j {
                assert(before(members[i].0, members[j].0));
            } else {
                assert(before(members[j].0, members[i].0));
            }
        }
    }
    a.unique_seq_to_set();
    b.unique_seq_to_set();
    let (s, t) = (a.to_set(), b.to_set());
    assert(s.subset_of(t)) by {
        assert forall|n: Seq<char>| s.contains(n) implies t.contains(n) by {
            let i = choose|i: int| 0 <= i < a.len() && a[i] == n;
            assert(keyed(members, fields[i].0, 0) is Some);
            let at = keyed_is_among(members, n, 0);
            assert(b[at] == n);
        }
    }
    vstd::set_lib::lemma_subset_equality(s, t);
    assert(b[k] == members[k].0);
    assert(t.contains(members[k].0));
    assert(s.contains(members[k].0));
    let i = choose|i: int| 0 <= i < a.len() && a[i] == members[k].0;
    assert(fields[i].0 == members[k].0);
}

pub proof fn ascending_names_differ<V>(members: Seq<(Seq<char>, V)>)
    requires
        ascends(members),
    ensures
        names_differ(members),
{
    assert forall|i: int, k: int| 0 <= i < k < members.len() implies (#[trigger] members[i]).0 != (
    #[trigger] members[k]).0 by {
        before_is_total(members[i].0, members[i].0);
        assert(before(members[i].0, members[k].0));
    }
}

pub proof fn last_where_names_differ<V>(items: Seq<(Seq<char>, V)>, i: int)
    requires
        names_differ(items),
        0 <= i < items.len(),
    ensures
        last_of_name(items, i),
{
    assert forall|m: int| i < m < items.len() implies (#[trigger] items[m]).0 != items[i].0 by {
        assert(items[i].0 != items[m].0);
    }
}

proof fn scalars_come_back(env: SEnv, j: SJson, t: SType, fuel: nat)
    requires
        regular(j),
        !(t is Named) && !(t is List) && !(t is Product) && !(t is Record) && !(t is MapOf),
        decoded(env, j, t, true, fuel) is Ok,
        plainly_made(decoded(env, j, t, true, fuel)->Ok_0),
    ensures
        encoded(decoded(env, j, t, true, fuel)->Ok_0, None) == Ok::<SJson, SError>(j),
{
    reveal_with_fuel(decoded, 2);
    reveal_with_fuel(encoded, 2);
    reveal_with_fuel(plainly_made, 2);
}

proof fn sequences_come_back(items: Seq<SJson>, values: Seq<SValue>)
    requires
        items.len() == values.len(),
        forall|i: int|
            0 <= i < values.len() ==> encoded(#[trigger] values[i], None) == Ok::<SJson, SError>(
                items[i],
            ),
    ensures
        encoded(SValue::List(values), None) == Ok::<SJson, SError>(SJson::Array(items)),
        encoded(SValue::Product(values), None) == Ok::<SJson, SError>(SJson::Array(items)),
{
    sequences_are_serialized_item_by_item(values, None);
    let out = encoded(SValue::List(values), None)->Ok_0->Array_0;
    assert forall|i: int| 0 <= i < items.len() implies out[i] == items[i] by {
        assert(encoded(values[i], None) == Ok::<SJson, SError>(out[i]));
    }
    assert(out =~= items);
}

/// What a document was decoded to, at exactly the type it has, is serialized to that document again.
pub proof fn decoded_documents_come_back(env: SEnv, j: SJson, t: SType, fuel: nat)
    requires
        regular(j),
        names_once(t),
        all_declare_once(env),
        decoded(env, j, t, true, fuel) is Ok,
        plainly_made(decoded(env, j, t, true, fuel)->Ok_0),
    ensures
        encoded(decoded(env, j, t, true, fuel)->Ok_0, None) == Ok::<SJson, SError>(j),
    decreases j, fuel, 2nat,
{
    match t {
        SType::Named(name, args) => {
            declared_documents_come_back(env, j, name, args, fuel);
        },
        SType::List(item) => {
            lists_come_back(env, j, *item, fuel);
        },
        SType::Product(types) => {
            products_come_back(env, j, types, fuel);
        },
        SType::Record(fields) => {
            records_come_back(env, j, fields, fuel);
        },
        SType::MapOf(key, item) => {
            if *key == SType::String {
                text_maps_come_back(env, j, *item, fuel);
            } else {
                reveal_with_fuel(decoded, 2);
            }
        },
        _ => {
            scalars_come_back(env, j, t, fuel);
        },
    }
}

proof fn lists_come_back(env: SEnv, j: SJson, item: SType, fuel: nat)
    requires
        regular(j),
        names_once(item),
        all_declare_once(env),
        decoded(env, j, SType::List(Box::new(item)), true, fuel) is Ok,
        plainly_made(decoded(env, j, SType::List(Box::new(item)), true, fuel)->Ok_0),
    ensures
        encoded(decoded(env, j, SType::List(Box::new(item)), true, fuel)->Ok_0, None) == Ok::<
            SJson,
            SError,
        >(j),
    decreases j, fuel, 0nat,
{
    arrays_are_decoded_item_by_item(env, j, item, true, fuel);
    let v = decoded(env, j, SType::List(Box::new(item)), true, fuel)->Ok_0;
    let (items, values) = (j->Array_0, v->List_0);
    assert forall|i: int| 0 <= i < values.len() implies encoded(#[trigger] values[i], None) == Ok::<
        SJson,
        SError,
    >(items[i]) by {
        assert(read(env, items[i], item, true) == Ok::<SValue, SError>(values[i]));
        assert(regular(items[i]));
        decoded_documents_come_back(env, items[i], item, expansion_limit(env));
    }
    sequences_come_back(items, values);
}

proof fn products_come_back(env: SEnv, j: SJson, types: Seq<SType>, fuel: nat)
    requires
        regular(j),
        names_once(SType::Product(types)),
        all_declare_once(env),
        decoded(env, j, SType::Product(types), true, fuel) is Ok,
        plainly_made(decoded(env, j, SType::Product(types), true, fuel)->Ok_0),
    ensures
        encoded(decoded(env, j, SType::Product(types), true, fuel)->Ok_0, None) == Ok::<
            SJson,
            SError,
        >(j),
    decreases j, fuel, 0nat,
{
    arrays_are_decoded_position_by_position(env, j, types, true, fuel);
    let v = decoded(env, j, SType::Product(types), true, fuel)->Ok_0;
    let (items, values) = (j->Array_0, v->Product_0);
    assert forall|i: int| 0 <= i < values.len() implies encoded(#[trigger] values[i], None) == Ok::<
        SJson,
        SError,
    >(items[i]) by {
        assert(read(env, items[i], types[i], true) == Ok::<SValue, SError>(values[i]));
        assert(regular(items[i]));
        assert(names_once(types[i]));
        decoded_documents_come_back(env, items[i], types[i], expansion_limit(env));
    }
    sequences_come_back(items, values);
}

/// One field of a record that was decoded: it comes of the member of its name.
proof fn field_comes_back(
    env: SEnv,
    j: SJson,
    fields: Seq<(Seq<char>, SType)>,
    fuel: nat,
    k: int,
)
    requires
        regular(j),
        names_once(SType::Record(fields)),
        all_declare_once(env),
        decoded(env, j, SType::Record(fields), true, fuel) is Ok,
        plainly_made(decoded(env, j, SType::Record(fields), true, fuel)->Ok_0),
        0 <= k < decoded(env, j, SType::Record(fields), true, fuel)->Ok_0->Record_0.len(),
    ensures
        ({
            let f = decoded(env, j, SType::Record(fields), true, fuel)->Ok_0->Record_0[k];
            keyed(j->Object_0, f.0, 0) is Some && encoded(f.1, None) == Ok::<SJson, SError>(
                keyed(j->Object_0, f.0, 0)->Some_0,
            )
        }),
    decreases j, fuel, 0nat,
{
    objects_are_decoded_field_by_field(env, j, fields, true, fuel);
    let v = decoded(env, j, SType::Record(fields), true, fuel)->Ok_0;
    let (o, values) = (j->Object_0, v->Record_0);
    let name = values[k].0;
    ascending_member_is_found(values, k);
    assert(keyed(values, name, 0) is Some);
    let i = choose|i: int| 0 <= i < fields.len() && (#[trigger] fields[i]).0 == name;
    last_where_names_differ(fields, i);
    assert(field_is_read(env, o, fields[i], true));
    let at = keyed_is_among(o, name, 0);
    assert(regular(o[at].1));
    assert(names_once(fields[i].1));
    assert(read(env, o[at].1, fields[i].1, true) == Ok::<SValue, SError>(values[k].1));
    assert(plainly_made(values[k].1));
    decoded_documents_come_back(env, o[at].1, fields[i].1, expansion_limit(env));
}

/// A record that was decoded has a field for each member.
proof fn members_have_fields(
    env: SEnv,
    j: SJson,
    fields: Seq<(Seq<char>, SType)>,
    fuel: nat,
    name: Seq<char>,
)
    requires
        regular(j),
        names_differ(fields),
        decoded(env, j, SType::Record(fields), true, fuel) is Ok,
        keyed(j->Object_0, name, 0) is Some,
    ensures
        keyed(decoded(env, j, SType::Record(fields), true, fuel)->Ok_0->Record_0, name, 0) is Some,
{
    objects_are_decoded_field_by_field(env, j, fields, true, fuel);
    let o = j->Object_0;
    let at = keyed_is_among(o, name, 0);
    assert forall|i: int| 0 <= i < fields.len() implies keyed(o, (#[trigger] fields[i]).0, 0)
        is Some by {
        assert(field_is_read(env, o, fields[i], true));
    }
    no_member_is_left(fields, o, at);
    let i = choose|i: int| 0 <= i < fields.len() && (#[trigger] fields[i]).0 == name;
    last_where_names_differ(fields, i);
}

proof fn records_come_back(env: SEnv, j: SJson, fields: Seq<(Seq<char>, SType)>, fuel: nat)
    requires
        regular(j),
        names_once(SType::Record(fields)),
        all_declare_once(env),
        decoded(env, j, SType::Record(fields), true, fuel) is Ok,
        plainly_made(decoded(env, j, SType::Record(fields), true, fuel)->Ok_0),
    ensures
        encoded(decoded(env, j, SType::Record(fields), true, fuel)->Ok_0, None) == Ok::<
            SJson,
            SError,
        >(j),
    decreases j, fuel, 1nat,
{
    let v = decoded(env, j, SType::Record(fields), true, fuel)->Ok_0;
    assert(v is Record && ascends(v->Record_0) && j is Object) by {
        objects_are_decoded_field_by_field(env, j, fields, true, fuel);
    }
    let (o, values) = (j->Object_0, v->Record_0);
    ascending_names_differ(values);
    assert forall|k: int| 0 <= k < values.len() implies keyed(o, (#[trigger] values[k]).0, 0)
        is Some && encoded(values[k].1, None) == Ok::<SJson, SError>(
        keyed(o, values[k].0, 0)->Some_0,
    ) by {
        field_comes_back(env, j, fields, fuel, k);
    }
    records_are_serialized_field_by_field(values, None);
    let out = encoded(v, None)->Ok_0->Object_0;
    assert forall|name: Seq<char>| #[trigger] keyed(out, name, 0) == keyed(o, name, 0) by {
        if keyed(out, name, 0) is Some {
            let k = choose|k: int| 0 <= k < values.len() && (#[trigger] values[k]).0 == name;
            last_where_names_differ(values, k);
            assert(values[k].0 == name);
        } else if keyed(o, name, 0) is Some {
            members_have_fields(env, j, fields, fuel, name);
            let k = keyed_is_among(values, name, 0);
            last_where_names_differ(values, k);
            assert(keyed(out, values[k].0, 0) is Some);
        }
    }
    ascending_members_agree(out, o);
}

proof fn text_maps_come_back(env: SEnv, j: SJson, item: SType, fuel: nat)
    requires
        regular(j),
        names_once(item),
        all_declare_once(env),
        decoded(env, j, SType::MapOf(Box::new(SType::String), Box::new(item)), true, fuel) is Ok,
        plainly_made(
            decoded(
                env,
                j,
                SType::MapOf(Box::new(SType::String), Box::new(item)),
                true,
                fuel,
            )->Ok_0,
        ),
    ensures
        encoded(
            decoded(
                env,
                j,
                SType::MapOf(Box::new(SType::String), Box::new(item)),
                true,
                fuel,
            )->Ok_0,
            None,
        ) == Ok::<SJson, SError>(j),
    decreases j, fuel, 0nat,
{
    let t = SType::MapOf(Box::new(SType::String), Box::new(item));
    objects_are_decoded_member_by_member(env, j, item, true, fuel);
    let v = decoded(env, j, t, true, fuel)->Ok_0;
    let (o, entries) = (j->Object_0, v->Typed_0->MapOf_0);
    assert(v == SValue::Typed(Box::new(SValue::MapOf(entries)), t));
    ascending_names_differ(o);
    assert(plainly_made(*v->Typed_0));
    assert forall|i: int| 0 <= i < entries.len() implies entry_serializes(#[trigger] entries[i])
        && string_of(entries[i].0) == Some(o[i].0) && encoded(entries[i].1, None) == Ok::<
        SJson,
        SError,
    >(o[i].1) by {
        assert(read(env, o[i].1, item, true) is Ok);
        assert(entries[i] == (SValue::Str(o[i].0), read(env, o[i].1, item, true)->Ok_0));
        assert(regular(o[i].1));
        decoded_documents_come_back(env, o[i].1, item, expansion_limit(env));
    }
    assert forall|i: int| 0 <= i < entries.len() implies last_of_key(entries, i) by {
        assert forall|k: int| i < k < entries.len() implies string_of((#[trigger] entries[k]).0)
            != string_of(entries[i].0) by {
            assert(o[i].0 != o[k].0);
            assert(string_of(entries[i].0) == Some(o[i].0));
        }
    }
    text_maps_are_serialized_entry_by_entry(entries, item);
    let out = encoded(v, None)->Ok_0->Object_0;
    assert forall|name: Seq<char>| #[trigger] keyed(out, name, 0) == keyed(o, name, 0) by {
        if keyed(out, name, 0) is Some {
            assert(has_key(entries, name));
            let i = choose|i: int|
                0 <= i < entries.len() && string_of((#[trigger] entries[i]).0) == Some(name);
            assert(last_of_key(entries, i));
            assert(o[i].0 == name);
            ascending_member_is_found(o, i);
        } else if keyed(o, name, 0) is Some {
            let i = keyed_is_among(o, name, 0);
            assert(last_of_key(entries, i));
            assert(string_of(entries[i].0) == Some(name));
        }
    }
    ascending_members_agree(out, o);
}

proof fn declared_documents_come_back(
    env: SEnv,
    j: SJson,
    name: Seq<char>,
    args: Seq<SType>,
    fuel: nat,
)
    requires
        regular(j),
        names_once(SType::Named(name, args)),
        all_declare_once(env),
        decoded(env, j, SType::Named(name, args), true, fuel) is Ok,
        plainly_made(decoded(env, j, SType::Named(name, args), true, fuel)->Ok_0),
    ensures
        encoded(decoded(env, j, SType::Named(name, args), true, fuel)->Ok_0, None) == Ok::<
            SJson,
            SError,
        >(j),
    decreases j, fuel, 0nat,
{
    let t = SType::Named(name, args);
    declared_types_are_decoded_by_their_bodies(env, j, name, args, true, fuel);
    let v = decoded(env, j, t, true, fuel)->Ok_0;
    let decl = env.decl(name)->Some_0;
    let bound = bound_params(decl.params, args);
    bound_names_once(decl.params, args);
    assert(declares_once(env, name));
    reveal_with_fuel(encoded, 2);
    match decl.body {
        SDeclBody::Nominal(body) => {
            applying_names_once(body, bound);
            decoded_documents_come_back(env, j, apply(body, bound), (fuel - 1) as nat);
        },
        SDeclBody::Adt(constructors) => {
            let o = j->Object_0;
            let k = choose|k: int|
                0 <= k < constructors.len() && (#[trigger] constructors[k]).id == v->Adt_1 && read(
                    env,
                    keyed(o, "value"@, 0)->Some_0,
                    apply(constructors[k].payload, bound),
                    true,
                ) == Ok::<SValue, SError>(*v->Adt_2);
            let payload = apply(constructors[k].payload, bound);
            applying_names_once(constructors[k].payload, bound);
            let at = keyed_is_among(o, "value"@, 0);
            let named = keyed_is_among(o, "constructor"@, 0);
            assert(regular(o[at].1));
            decoded_documents_come_back(env, o[at].1, payload, expansion_limit(env));
            reveal_strlit("constructor");
            reveal_strlit("value");
            assert("constructor"@[0] == 'c' && "value"@[0] == 'v');
            assert(before("constructor"@, "value"@)) by {
                reveal_with_fuel(crate::text::before_from, 2);
            }
            before_is_total("constructor"@, "value"@);
            if at < named {
                assert(before(o[at].0, o[named].0));
            }
            assert(named == 0 && at == 1);
            assert(o =~= seq![
                ("constructor"@, SJson::Str(v->Adt_1.name)),
                ("value"@, o[at].1),
            ]);
        },
        SDeclBody::Native => {
            reveal_with_fuel(decoded, 2);
        },
    }
}

} // verus!
