//! What values are serialized to, and what documents are decoded to, part by part.

use vstd::prelude::*;

use crate::ast::{string_of, SConstructorId, SDeclBody, SValue};
use crate::codec::{
    constructor_payload, decoded, decoded_all, decoded_fields, decoded_members, decoded_positions,
    documents_ordered, encoded, encoded_all, encoded_entries, encoded_fields, encoded_members,
};
use crate::env::{keyed, SEnv};
use crate::error::SError;
use crate::holding::{keyed_is_among, keyed_of_push};
use crate::json::{member_index, with_member, SJson, SNumber};
use crate::resolve::expansion_limit;
use crate::substitution::{apply, bound_params};
use crate::text::{before, before_is_total, before_is_transitive};
use crate::types::SType;
use crate::values::finite_bits;

verus! {

broadcast use vstd::seq_lib::group_seq_properties;

/// Whether names stand in their order, each once.
pub open spec fn ascends<V>(members: Seq<(Seq<char>, V)>) -> bool {
    forall|i: int, k: int|
        0 <= i < k < members.len() ==> before(#[trigger] members[i].0, #[trigger] members[k].0)
}

pub proof fn member_is_keyed<V>(members: Seq<(Seq<char>, V)>, i: int, k: nat)
    requires
        0 <= k <= i < members.len(),
    ensures
        keyed(members, members[i].0, k) is Some,
    decreases i - k,
{
    if k < i && members[k as int].0 != members[i].0 {
        member_is_keyed(members, i, k + 1);
    }
}

/// Among names that ascend, each is found with its own value.
pub proof fn ascending_member_is_found<V>(members: Seq<(Seq<char>, V)>, i: int)
    requires
        ascends(members),
        0 <= i < members.len(),
    ensures
        keyed(members, members[i].0, 0) == Some(members[i].1),
{
    member_is_keyed(members, i, 0);
    let k = keyed_is_among(members, members[i].0, 0);
    before_is_total(members[i].0, members[i].0);
    if k < i {
        assert(before(members[k].0, members[i].0));
    } else if i < k {
        assert(before(members[i].0, members[k].0));
    }
}

proof fn last_is_not_before<V>(members: Seq<(Seq<char>, V)>, name: Seq<char>)
    requires
        ascends(members),
        members.len() > 0,
        name == members.last().0 || before(members.last().0, name),
    ensures
        keyed(members.drop_last(), name, 0) is None,
        before(members.last().0, name) ==> keyed(members, name, 0) is None,
{
    before_is_total(name, name);
    if keyed(members.drop_last(), name, 0) is Some {
        let k = keyed_is_among(members.drop_last(), name, 0);
        assert(members[k].0 == name);
        assert(before(members[k].0, members[members.len() - 1].0));
        if before(members.last().0, name) {
            before_is_transitive(name, members.last().0, name);
        }
    }
    if before(members.last().0, name) && keyed(members, name, 0) is Some {
        let k = keyed_is_among(members, name, 0);
        if k < members.len() - 1 {
            assert(before(members[k].0, members[members.len() - 1].0));
            before_is_transitive(name, members.last().0, name);
        }
    }
}

/// Putting a member among names that ascend binds its name to its value, leaves every other name
/// as it was, and adds one member exactly where the name is new.
pub proof fn putting_a_member_binds_its_name<V>(
    members: Seq<(Seq<char>, V)>,
    name: Seq<char>,
    v: V,
)
    requires
        ascends(members),
    ensures
        ascends(with_member(members, name, v)),
        forall|other: Seq<char>|
            #![trigger keyed(with_member(members, name, v), other, 0)]
            keyed(with_member(members, name, v), other, 0) == if other == name {
                Some(v)
            } else {
                keyed(members, other, 0)
            },
        with_member(members, name, v).len() == members.len() + if keyed(members, name, 0) is Some {
            0int
        } else {
            1
        },
    decreases members.len(),
{
    let made = with_member(members, name, v);
    if members.len() == 0 {
        assert forall|other: Seq<char>| #[trigger] keyed(made, other, 0) == if other == name {
            Some(v)
        } else {
            keyed(members, other, 0)
        } by {
            keyed_of_push(members, (name, v), other, 0);
            assert(made =~= members.push((name, v)));
        }
    } else {
        let rest = members.drop_last();
        let last = members.last();
        assert(members =~= rest.push(last));
        assert forall|i: int, k: int| 0 <= i < k < rest.len() implies before(
            #[trigger] rest[i].0,
            #[trigger] rest[k].0,
        ) by {
            assert(rest[i] == members[i] && rest[k] == members[k]);
        }
        before_is_total(name, last.0);
        if last.0 == name {
            last_is_not_before(members, name);
            keyed_of_push(rest, last, name, 0);
            assert forall|other: Seq<char>| #[trigger] keyed(made, other, 0) == if other == name {
                Some(v)
            } else {
                keyed(members, other, 0)
            } by {
                keyed_of_push(rest, (name, v), other, 0);
                keyed_of_push(rest, last, other, 0);
            }
            assert forall|i: int, k: int| 0 <= i < k < made.len() implies before(
                #[trigger] made[i].0,
                #[trigger] made[k].0,
            ) by {
                assert(made[i].0 == members[i].0 && made[k].0 == members[k].0);
            }
        } else if before(name, last.0) {
            putting_a_member_binds_its_name(rest, name, v);
            let inner = with_member(rest, name, v);
            keyed_of_push(rest, last, name, 0);
            assert forall|other: Seq<char>| #[trigger] keyed(made, other, 0) == if other == name {
                Some(v)
            } else {
                keyed(members, other, 0)
            } by {
                keyed_of_push(inner, last, other, 0);
                keyed_of_push(rest, last, other, 0);
            }
            assert forall|i: int, k: int| 0 <= i < k < made.len() implies before(
                #[trigger] made[i].0,
                #[trigger] made[k].0,
            ) by {
                assert(made[i] == inner[i]);
                if k < inner.len() {
                    assert(made[k] == inner[k]);
                } else {
                    member_is_keyed(inner, i, 0);
                    if inner[i].0 != name {
                        let m = keyed_is_among(rest, inner[i].0, 0);
                        assert(members[m].0 == inner[i].0);
                        assert(before(members[m].0, members[members.len() - 1].0));
                    }
                }
            }
        } else {
            last_is_not_before(members, name);
            assert forall|other: Seq<char>| #[trigger] keyed(made, other, 0) == if other == name {
                Some(v)
            } else {
                keyed(members, other, 0)
            } by {
                keyed_of_push(members, (name, v), other, 0);
            }
            assert forall|i: int, k: int| 0 <= i < k < made.len() implies before(
                #[trigger] made[i].0,
                #[trigger] made[k].0,
            ) by {
                assert(made[i] == members[i]);
                if k < members.len() {
                    assert(made[k] == members[k]);
                } else if i < members.len() - 1 {
                    assert(before(members[i].0, members[members.len() - 1].0));
                    before_is_transitive(members[i].0, last.0, name);
                }
            }
        }
    }
}

/// Members whose names ascend are told by what their names are bound to.
pub proof fn ascending_members_agree<V>(a: Seq<(Seq<char>, V)>, b: Seq<(Seq<char>, V)>)
    requires
        ascends(a),
        ascends(b),
        forall|name: Seq<char>| #[trigger] keyed(a, name, 0) == keyed(b, name, 0),
    ensures
        a == b,
    decreases a.len(),
{
    if a.len() == 0 {
        if b.len() > 0 {
            member_is_keyed(b, 0, 0);
            assert(keyed(a, b[0].0, 0) is None);
        }
        assert(a =~= b);
    } else {
        if b.len() == 0 {
            member_is_keyed(a, 0, 0);
            assert(keyed(b, a[0].0, 0) == keyed(a, a[0].0, 0));
        }
        let (x, y) = (a.last(), b.last());
        ascending_member_is_found(a, a.len() - 1);
        ascending_member_is_found(b, b.len() - 1);
        assert(keyed(a, x.0, 0) == keyed(b, x.0, 0));
        assert(keyed(a, y.0, 0) == keyed(b, y.0, 0));
        before_is_total(x.0, y.0);
        if before(y.0, x.0) {
            last_is_not_before(b, x.0);
        }
        if before(x.0, y.0) {
            last_is_not_before(a, y.0);
        }
        let (c, d) = (a.drop_last(), b.drop_last());
        assert(a =~= c.push(x));
        assert(b =~= d.push(y));
        last_is_not_before(a, x.0);
        last_is_not_before(b, x.0);
        assert forall|i: int, k: int| 0 <= i < k < c.len() implies before(
            #[trigger] c[i].0,
            #[trigger] c[k].0,
        ) by {
            assert(c[i] == a[i] && c[k] == a[k]);
        }
        assert forall|i: int, k: int| 0 <= i < k < d.len() implies before(
            #[trigger] d[i].0,
            #[trigger] d[k].0,
        ) by {
            assert(d[i] == b[i] && d[k] == b[k]);
        }
        assert forall|name: Seq<char>| #[trigger] keyed(c, name, 0) == keyed(d, name, 0) by {
            keyed_of_push(c, x, name, 0);
            keyed_of_push(d, y, name, 0);
            assert(keyed(a, name, 0) == keyed(b, name, 0));
        }
        ascending_members_agree(c, d);
    }
}

proof fn all_are_encoded(items: Seq<SValue>, done: Seq<SJson>)
    ensures
        encoded_all(items, done) is Ok <==> forall|i: int|
            0 <= i < items.len() ==> encoded(#[trigger] items[i], None) is Ok,
        encoded_all(items, done) matches Ok(out) ==> out.len() == done.len() + items.len()
            && out.take(done.len() as int) == done && forall|i: int|
            0 <= i < items.len() ==> encoded(#[trigger] items[i], None) == Ok::<SJson, SError>(
                out[done.len() + i],
            ),
    decreases items.len(),
{
    if items.len() > 0 {
        let rest = items.drop_first();
        match encoded(items[0], None) {
            Ok(j) => {
                all_are_encoded(rest, done.push(j));
                let r = encoded_all(items, done);
                if r is Ok {
                    let out = r->Ok_0;
                    assert(out.take(done.len() as int + 1).take(done.len() as int) =~= out.take(
                        done.len() as int,
                    ));
                    assert(done.push(j).take(done.len() as int) =~= done);
                    assert(out[done.len() as int] == out.take(done.len() as int + 1)[done.len() as int]);
                    assert forall|i: int| 0 <= i < items.len() implies encoded(
                        #[trigger] items[i],
                        None,
                    ) == Ok::<SJson, SError>(out[done.len() + i]) by {
                        if i > 0 {
                            assert(items[i] == rest[i - 1]);
                        }
                    }
                }
                if forall|i: int|
                    0 <= i < items.len() ==> encoded(#[trigger] items[i], None) is Ok {
                    assert forall|i: int| 0 <= i < rest.len() implies encoded(
                        #[trigger] rest[i],
                        None,
                    ) is Ok by {
                        assert(rest[i] == items[i + 1]);
                    }
                }
            },
            Err(_) => {
                assert(encoded(items[0], None) is Err);
            },
        }
    } else {
        assert(done.take(done.len() as int) =~= done);
    }
}

/// A list, or a product, is serialized to the array of its items in their order, exactly where each
/// of them can be serialized.
pub proof fn sequences_are_serialized_item_by_item(items: Seq<SValue>, hint: Option<bool>)
    ensures
        encoded(SValue::List(items), hint) is Ok <==> forall|i: int|
            0 <= i < items.len() ==> encoded(#[trigger] items[i], None) is Ok,
        encoded(SValue::List(items), hint) matches Ok(j) ==> j is Array && j->Array_0.len()
            == items.len() && forall|i: int|
            0 <= i < items.len() ==> encoded(#[trigger] items[i], None) == Ok::<SJson, SError>(
                j->Array_0[i],
            ),
        encoded(SValue::Product(items), hint) == encoded(SValue::List(items), hint),
{
    all_are_encoded(items, Seq::empty());
}

/// Whether a field is the last of its name.
pub open spec fn last_of_name<V>(items: Seq<(Seq<char>, V)>, i: int) -> bool {
    forall|k: int| i < k < items.len() ==> (#[trigger] items[k]).0 != items[i].0
}

pub open spec fn has_name<V>(items: Seq<(Seq<char>, V)>, name: Seq<char>) -> bool {
    exists|i: int| 0 <= i < items.len() && (#[trigger] items[i]).0 == name
}

/// Whether no two fields have one name.
pub open spec fn names_differ<V>(items: Seq<(Seq<char>, V)>) -> bool {
    forall|i: int, k: int|
        0 <= i < k < items.len() ==> (#[trigger] items[i]).0 != (#[trigger] items[k]).0
}

proof fn fields_are_encoded(items: Seq<(Seq<char>, SValue)>, done: Seq<(Seq<char>, SJson)>)
    requires
        ascends(done),
    ensures
        encoded_fields(items, done) is Ok <==> forall|i: int|
            0 <= i < items.len() ==> encoded((#[trigger] items[i]).1, None) is Ok,
        encoded_fields(items, done) matches Ok(out) ==> ascends(out) && (forall|i: int|
            0 <= i < items.len() && last_of_name(items, i) ==> keyed(out, (#[trigger] items[i]).0, 0)
                == Some(encoded(items[i].1, None)->Ok_0)) && (forall|name: Seq<char>|
            !has_name(items, name) ==> #[trigger] keyed(out, name, 0) == keyed(done, name, 0)),
        encoded_fields(items, done) matches Ok(out) ==> (names_differ(items) && (forall|i: int|
            0 <= i < items.len() ==> keyed(done, (#[trigger] items[i]).0, 0) is None) ==> out.len()
            == done.len() + items.len()),
    decreases items.len(),
{
    if items.len() > 0 {
        let rest = items.drop_first();
        let name = items[0].0;
        match encoded(items[0].1, None) {
            Ok(j) => {
                putting_a_member_binds_its_name(done, name, j);
                let next = with_member(done, name, j);
                fields_are_encoded(rest, next);
                assert forall|i: int| 0 <= i < rest.len() implies #[trigger] rest[i] == items[i
                    + 1] by {}
                let r = encoded_fields(items, done);
                if r is Ok {
                    let out = r->Ok_0;
                    assert forall|i: int| 0 <= i < items.len() && last_of_name(items, i) implies keyed(
                        out,
                        (#[trigger] items[i]).0,
                        0,
                    ) == Some(encoded(items[i].1, None)->Ok_0) by {
                        if i > 0 {
                            assert(items[i] == rest[i - 1]);
                            assert forall|k: int| i - 1 < k < rest.len() implies (
                            #[trigger] rest[k]).0 != rest[i - 1].0 by {
                                assert(rest[k] == items[k + 1]);
                            }
                            assert(last_of_name(rest, i - 1));
                        } else {
                            if has_name(rest, name) {
                                let k = choose|k: int|
                                    0 <= k < rest.len() && (#[trigger] rest[k]).0 == name;
                                assert(items[k + 1].0 == name);
                            }
                            assert(keyed(out, name, 0) == keyed(next, name, 0));
                        }
                    }
                    assert forall|other: Seq<char>| !has_name(items, other) implies #[trigger] keyed(
                        out,
                        other,
                        0,
                    ) == keyed(done, other, 0) by {
                        assert(items[0].0 != other);
                        if has_name(rest, other) {
                            let k = choose|k: int|
                                0 <= k < rest.len() && (#[trigger] rest[k]).0 == other;
                            assert(items[k + 1].0 == other);
                        }
                        assert(keyed(next, other, 0) == keyed(done, other, 0));
                    }
                    if names_differ(items) && (forall|i: int|
                        0 <= i < items.len() ==> keyed(done, (#[trigger] items[i]).0, 0) is None) {
                        assert(keyed(done, items[0].0, 0) is None);
                        assert forall|i: int| 0 <= i < rest.len() implies keyed(
                            next,
                            (#[trigger] rest[i]).0,
                            0,
                        ) is None by {
                            assert(rest[i] == items[i + 1]);
                            assert(items[0].0 != items[i + 1].0);
                        }
                        assert forall|i: int, k: int| 0 <= i < k < rest.len() implies (
                        #[trigger] rest[i]).0 != (#[trigger] rest[k]).0 by {
                            assert(rest[i] == items[i + 1] && rest[k] == items[k + 1]);
                        }
                    }
                    assert forall|i: int| 0 <= i < items.len() implies encoded(
                        (#[trigger] items[i]).1,
                        None,
                    ) is Ok by {
                        if i > 0 {
                            assert(items[i] == rest[i - 1]);
                        }
                    }
                }
                if forall|i: int|
                    0 <= i < items.len() ==> encoded((#[trigger] items[i]).1, None) is Ok {
                    assert forall|i: int| 0 <= i < rest.len() implies encoded(
                        (#[trigger] rest[i]).1,
                        None,
                    ) is Ok by {
                        assert(rest[i] == items[i + 1]);
                    }
                }
            },
            Err(_) => {
                assert(encoded(items[0].1, None) is Err);
            },
        }
    }
}

/// A record is serialized to an object whose keys ascend: under the name of each field it has the
/// serialized value of that field, and it has no other members.
pub proof fn records_are_serialized_field_by_field(
    fields: Seq<(Seq<char>, SValue)>,
    hint: Option<bool>,
)
    ensures
        encoded(SValue::Record(fields), hint) is Ok <==> forall|i: int|
            0 <= i < fields.len() ==> encoded((#[trigger] fields[i]).1, None) is Ok,
        encoded(SValue::Record(fields), hint) matches Ok(j) ==> j is Object && ascends(
            j->Object_0,
        ) && (forall|i: int|
            0 <= i < fields.len() && last_of_name(fields, i) ==> Ok::<SJson, SError>(
                keyed(j->Object_0, (#[trigger] fields[i]).0, 0)->Some_0,
            ) == encoded(fields[i].1, None) && keyed(j->Object_0, fields[i].0, 0) is Some) && (forall|
            name: Seq<char>,
        |
            (#[trigger] keyed(j->Object_0, name, 0)) is Some ==> has_name(fields, name)) && (
        names_differ(fields) ==> j->Object_0.len() == fields.len()),
{
    let none: Seq<(Seq<char>, SJson)> = Seq::empty();
    fields_are_encoded(fields, none);
    if encoded(SValue::Record(fields), hint) is Ok {
        let o = encoded(SValue::Record(fields), hint)->Ok_0->Object_0;
        assert forall|name: Seq<char>| (#[trigger] keyed(o, name, 0)) is Some implies has_name(
            fields,
            name,
        ) by {
            assert(keyed(none, name, 0) is None);
        }
    }
}

/// Whether an entry is the last with its text as key.
pub open spec fn last_of_key(items: Seq<(SValue, SValue)>, i: int) -> bool {
    forall|k: int|
        i < k < items.len() ==> string_of((#[trigger] items[k]).0) != string_of(items[i].0)
}

pub open spec fn has_key(items: Seq<(SValue, SValue)>, key: Seq<char>) -> bool {
    exists|i: int| 0 <= i < items.len() && string_of((#[trigger] items[i]).0) == Some(key)
}

/// Whether no two entries have one text as key.
pub open spec fn keys_differ(items: Seq<(SValue, SValue)>) -> bool {
    forall|i: int, k: int|
        0 <= i < k < items.len() ==> string_of((#[trigger] items[i]).0) != string_of(
            (#[trigger] items[k]).0,
        )
}

/// Whether an entry has a text as key and a value that can be serialized.
pub open spec fn entry_serializes(e: (SValue, SValue)) -> bool {
    string_of(e.0) is Some && encoded(e.1, None) is Ok
}

proof fn members_are_encoded(items: Seq<(SValue, SValue)>, done: Seq<(Seq<char>, SJson)>)
    requires
        ascends(done),
    ensures
        encoded_members(items, done) is Ok <==> forall|i: int|
            0 <= i < items.len() ==> entry_serializes(#[trigger] items[i]),
        encoded_members(items, done) matches Ok(out) ==> ascends(out) && (forall|i: int|
            0 <= i < items.len() && last_of_key(items, i) ==> keyed(
                out,
                string_of((#[trigger] items[i]).0)->Some_0,
                0,
            ) == Some(encoded(items[i].1, None)->Ok_0)) && (forall|key: Seq<char>|
            !has_key(items, key) ==> #[trigger] keyed(out, key, 0) == keyed(done, key, 0)),
        encoded_members(items, done) matches Ok(out) ==> (keys_differ(items) && (forall|i: int|
            0 <= i < items.len() ==> keyed(done, string_of((#[trigger] items[i]).0)->Some_0, 0)
                is None) ==> out.len() == done.len() + items.len()),
    decreases items.len(),
{
    if items.len() > 0 {
        let rest = items.drop_first();
        if entry_serializes(items[0]) {
            let key = string_of(items[0].0)->Some_0;
            let j = encoded(items[0].1, None)->Ok_0;
            putting_a_member_binds_its_name(done, key, j);
            let next = with_member(done, key, j);
            members_are_encoded(rest, next);
            let r = encoded_members(items, done);
            if r is Ok {
                let out = r->Ok_0;
                assert forall|i: int| 0 <= i < items.len() implies entry_serializes(
                    #[trigger] items[i],
                ) by {
                    if i > 0 {
                        assert(items[i] == rest[i - 1]);
                    }
                }
                assert forall|i: int| 0 <= i < items.len() && last_of_key(items, i) implies keyed(
                    out,
                    string_of((#[trigger] items[i]).0)->Some_0,
                    0,
                ) == Some(encoded(items[i].1, None)->Ok_0) by {
                    if i > 0 {
                        assert(items[i] == rest[i - 1]);
                        assert forall|k: int| i - 1 < k < rest.len() implies string_of(
                            (#[trigger] rest[k]).0,
                        ) != string_of(rest[i - 1].0) by {
                            assert(rest[k] == items[k + 1]);
                        }
                        assert(last_of_key(rest, i - 1));
                    } else {
                        if has_key(rest, key) {
                            let k = choose|k: int|
                                0 <= k < rest.len() && string_of((#[trigger] rest[k]).0) == Some(
                                    key,
                                );
                            assert(rest[k] == items[k + 1]);
                        }
                        assert(keyed(out, key, 0) == keyed(next, key, 0));
                    }
                }
                assert forall|other: Seq<char>| !has_key(items, other) implies #[trigger] keyed(
                    out,
                    other,
                    0,
                ) == keyed(done, other, 0) by {
                    assert(string_of(items[0].0) != Some(other));
                    if has_key(rest, other) {
                        let k = choose|k: int|
                            0 <= k < rest.len() && string_of((#[trigger] rest[k]).0) == Some(other);
                        assert(rest[k] == items[k + 1]);
                    }
                    assert(keyed(next, other, 0) == keyed(done, other, 0));
                }
                if keys_differ(items) && (forall|i: int|
                    0 <= i < items.len() ==> keyed(
                        done,
                        string_of((#[trigger] items[i]).0)->Some_0,
                        0,
                    ) is None) {
                    assert(keyed(done, string_of(items[0].0)->Some_0, 0) is None);
                    assert forall|i: int| 0 <= i < rest.len() implies keyed(
                        next,
                        string_of((#[trigger] rest[i]).0)->Some_0,
                        0,
                    ) is None by {
                        assert(rest[i] == items[i + 1]);
                        assert(entry_serializes(items[i + 1]));
                        assert(string_of(items[0].0) != string_of(items[i + 1].0));
                    }
                    assert forall|i: int, k: int| 0 <= i < k < rest.len() implies string_of(
                        (#[trigger] rest[i]).0,
                    ) != string_of((#[trigger] rest[k]).0) by {
                        assert(rest[i] == items[i + 1] && rest[k] == items[k + 1]);
                    }
                }
            }
            if forall|i: int| 0 <= i < items.len() ==> entry_serializes(#[trigger] items[i]) {
                assert forall|i: int| 0 <= i < rest.len() implies entry_serializes(
                    #[trigger] rest[i],
                ) by {
                    assert(rest[i] == items[i + 1]);
                }
            }
        } else {
            assert(!entry_serializes(items[0]));
        }
    }
}

/// A map with text keys is serialized to an object whose keys ascend: under the key of each entry it
/// has the serialized value of that entry, it has no other members, and it has as many as there are
/// entries where their keys differ.
pub proof fn text_maps_are_serialized_entry_by_entry(
    entries: Seq<(SValue, SValue)>,
    value: SType,
)
    ensures
        encoded(SValue::MapOf(entries), Some(true)) is Ok <==> forall|i: int|
            0 <= i < entries.len() ==> entry_serializes(#[trigger] entries[i]),
        encoded(SValue::MapOf(entries), Some(true)) matches Ok(j) ==> j is Object && ascends(
            j->Object_0,
        ) && (forall|i: int|
            0 <= i < entries.len() && last_of_key(entries, i) ==> keyed(
                j->Object_0,
                string_of((#[trigger] entries[i]).0)->Some_0,
                0,
            ) is Some && encoded(entries[i].1, None) == Ok::<SJson, SError>(
                keyed(j->Object_0, string_of(entries[i].0)->Some_0, 0)->Some_0,
            )) && (forall|key: Seq<char>|
            (#[trigger] keyed(j->Object_0, key, 0)) is Some ==> has_key(entries, key)) && (
        keys_differ(entries) ==> j->Object_0.len() == entries.len()),
        entries.len() > 0 && (forall|i: int|
            0 <= i < entries.len() ==> (#[trigger] entries[i]).0 is Str) ==> encoded(
            SValue::MapOf(entries),
            None,
        ) == encoded(SValue::MapOf(entries), Some(true)),
        encoded(
            SValue::Typed(
                Box::new(SValue::MapOf(entries)),
                SType::MapOf(Box::new(SType::String), Box::new(value)),
            ),
            None,
        ) == encoded(SValue::MapOf(entries), Some(true)),
{
    reveal_with_fuel(encoded, 3);
    let none: Seq<(Seq<char>, SJson)> = Seq::empty();
    members_are_encoded(entries, none);
    if encoded(SValue::MapOf(entries), Some(true)) is Ok {
        let o = encoded(SValue::MapOf(entries), Some(true))->Ok_0->Object_0;
        assert forall|i: int| 0 <= i < entries.len() && last_of_key(entries, i) implies keyed(
            o,
            string_of((#[trigger] entries[i]).0)->Some_0,
            0,
        ) is Some && encoded(entries[i].1, None) == Ok::<SJson, SError>(
            keyed(o, string_of(entries[i].0)->Some_0, 0)->Some_0,
        ) by {
            assert(entry_serializes(entries[i]));
        }
        assert forall|key: Seq<char>| (#[trigger] keyed(o, key, 0)) is Some implies has_key(
            entries,
            key,
        ) by {
            assert(keyed(none, key, 0) is None);
        }
    }
}

proof fn entries_are_encoded(items: Seq<(SValue, SValue)>, done: Seq<SJson>)
    ensures
        encoded_entries(items, done) is Ok <==> forall|i: int|
            0 <= i < items.len() ==> encoded((#[trigger] items[i]).0, None) is Ok && encoded(
                items[i].1,
                None,
            ) is Ok,
        encoded_entries(items, done) matches Ok(out) ==> out.len() == done.len() + items.len()
            && out.take(done.len() as int) == done && forall|i: int|
            0 <= i < items.len() ==> out[done.len() + i] == SJson::Array(
                seq![
                    encoded((#[trigger] items[i]).0, None)->Ok_0,
                    encoded(items[i].1, None)->Ok_0,
                ],
            ),
    decreases items.len(),
{
    if items.len() > 0 {
        let rest = items.drop_first();
        if encoded(items[0].0, None) is Ok && encoded(items[0].1, None) is Ok {
            let d = SJson::Array(
                seq![encoded(items[0].0, None)->Ok_0, encoded(items[0].1, None)->Ok_0],
            );
            entries_are_encoded(rest, done.push(d));
            let r = encoded_entries(items, done);
            let n = done.len() as int;
            if r is Ok {
                let out = r->Ok_0;
                assert(out.take(n + 1).take(n) =~= out.take(n));
                assert(done.push(d).take(n) =~= done);
                assert(out[n] == out.take(n + 1)[n]);
                assert forall|i: int| 0 <= i < items.len() implies out[n + i] == SJson::Array(
                    seq![
                        encoded((#[trigger] items[i]).0, None)->Ok_0,
                        encoded(items[i].1, None)->Ok_0,
                    ],
                ) && encoded(items[i].0, None) is Ok && encoded(items[i].1, None) is Ok by {
                    if i > 0 {
                        assert(items[i] == rest[i - 1]);
                    }
                }
            }
            if forall|i: int|
                0 <= i < items.len() ==> encoded((#[trigger] items[i]).0, None) is Ok && encoded(
                    items[i].1,
                    None,
                ) is Ok {
                assert forall|i: int| 0 <= i < rest.len() implies encoded(
                    (#[trigger] rest[i]).0,
                    None,
                ) is Ok && encoded(rest[i].1, None) is Ok by {
                    assert(rest[i] == items[i + 1]);
                }
            }
        } else {
            assert(!(encoded(items[0].0, None) is Ok && encoded(items[0].1, None) is Ok));
        }
    } else {
        assert(done.take(done.len() as int) =~= done);
    }
}

/// Whether a document is marked as what a value of some kind is serialized to, and holds a list
/// under a key.
pub open spec fn marked(j: SJson, mark: Seq<char>, key: Seq<char>) -> bool {
    &&& j is Object
    &&& j->Object_0.len() == 2
    &&& j->Object_0[0] == ("$mag"@, SJson::Str(mark))
    &&& j->Object_0[1].0 == key
    &&& j->Object_0[1].1 is Array
}

/// A set is serialized to a marked list of its serialized items, each as often as it is in the set,
/// in the order of their texts.
pub proof fn sets_are_serialized_item_by_item(items: Seq<SValue>, hint: Option<bool>) -> (docs: Seq<
    SJson,
>)
    ensures
        encoded(SValue::SetOf(items), hint) is Ok <==> forall|i: int|
            0 <= i < items.len() ==> encoded(#[trigger] items[i], None) is Ok,
        encoded(SValue::SetOf(items), hint) matches Ok(j) ==> marked(j, "set"@, "items"@)
            && docs.len() == items.len() && (forall|i: int|
            0 <= i < items.len() ==> encoded(#[trigger] items[i], None) == Ok::<SJson, SError>(
                docs[i],
            )) && documents_ordered(j->Object_0[1].1->Array_0)
            && j->Object_0[1].1->Array_0.to_multiset() == docs.to_multiset(),
{
    all_are_encoded(items, Seq::empty());
    match encoded_all(items, Seq::empty()) {
        Ok(docs) => {
            crate::codec::sorting_documents_orders(docs);
            docs
        },
        Err(_) => Seq::empty(),
    }
}

/// A map whose keys are not texts is serialized to a marked list of pairs of a serialized key and
/// its serialized value, in the order of their texts.
pub proof fn other_maps_are_serialized_entry_by_entry(entries: Seq<(SValue, SValue)>) -> (docs: Seq<
    SJson,
>)
    ensures
        encoded(SValue::MapOf(entries), Some(false)) is Ok <==> forall|i: int|
            0 <= i < entries.len() ==> encoded((#[trigger] entries[i]).0, None) is Ok && encoded(
                entries[i].1,
                None,
            ) is Ok,
        encoded(SValue::MapOf(entries), Some(false)) matches Ok(j) ==> marked(
            j,
            "map"@,
            "entries"@,
        ) && docs.len() == entries.len() && (forall|i: int|
            0 <= i < entries.len() ==> docs[i] == SJson::Array(
                seq![
                    encoded((#[trigger] entries[i]).0, None)->Ok_0,
                    encoded(entries[i].1, None)->Ok_0,
                ],
            )) && documents_ordered(j->Object_0[1].1->Array_0)
            && j->Object_0[1].1->Array_0.to_multiset() == docs.to_multiset(),
        !(entries.len() > 0 && (forall|i: int|
            0 <= i < entries.len() ==> (#[trigger] entries[i]).0 is Str)) ==> encoded(
            SValue::MapOf(entries),
            None,
        ) == encoded(SValue::MapOf(entries), Some(false)),
{
    entries_are_encoded(entries, Seq::empty());
    match encoded_entries(entries, Seq::empty()) {
        Ok(docs) => {
            crate::codec::sorting_documents_orders(docs);
            docs
        },
        Err(_) => Seq::empty(),
    }
}

/// Scalars are serialized to the documents that hold them, whatever is annotated of a value is left
/// out, and functions, types, declarations and host inputs are not serialized at all.
pub proof fn scalars_are_serialized_as_they_are(v: SValue, hint: Option<bool>)
    ensures
        v is Unit ==> encoded(v, hint) == Ok::<SJson, SError>(SJson::Null),
        v matches SValue::Bool(b) ==> encoded(v, hint) == Ok::<SJson, SError>(SJson::Bool(b)),
        v matches SValue::Str(s) ==> encoded(v, hint) == Ok::<SJson, SError>(SJson::Str(s)),
        v matches SValue::Int(n) ==> (encoded(v, hint) matches Ok(j) && j is Number && (
        j->Number_0 matches SNumber::PosInt(u) ==> u == n) && (j->Number_0 matches SNumber::NegInt(
            i,
        ) ==> i == n && n < 0) && !(j->Number_0 is Float)),
        v matches SValue::Float(f) ==> (encoded(v, hint) is Ok <==> finite_bits(f.bits)) && (
        encoded(v, hint) is Ok ==> encoded(v, hint) == Ok::<SJson, SError>(
            SJson::Number(SNumber::Float(f)),
        )),
        v matches SValue::Artifact(j) ==> encoded(v, hint) == Ok::<SJson, SError>(j),
        v matches SValue::SemanticTypeId(s) ==> encoded(v, hint) == Ok::<SJson, SError>(
            SJson::Str(s),
        ),
        v matches SValue::Typed(inner, t) ==> (!(t is MapOf) || hint is Some ==> encoded(v, hint)
            == encoded(*inner, hint)),
        v is Fn || v is BuiltinFn || v is Type || v is TypeDecl || v is HostInputs ==> encoded(
            v,
            hint,
        ) is Err,
{
    reveal_with_fuel(encoded, 2);
}

/// A value of an algebraic type is serialized to the name of its constructor and its serialized
/// payload; a packed value to its mark and what is packed.
pub proof fn constructed_values_are_serialized(
    owner: SType,
    c: SConstructorId,
    payload: SValue,
    hint: Option<bool>,
)
    ensures
        encoded(SValue::Adt(owner, c, Box::new(payload)), hint) is Ok <==> encoded(payload, None)
            is Ok,
        encoded(SValue::Adt(owner, c, Box::new(payload)), hint) matches Ok(j) ==> j
            == SJson::Object(
            seq![
                ("constructor"@, SJson::Str(c.name)),
                ("value"@, encoded(payload, None)->Ok_0),
            ],
        ),
        encoded(SValue::PackedValue(Box::new(payload)), hint) is Ok <==> encoded(payload, None)
            is Ok,
        encoded(SValue::PackedValue(Box::new(payload)), hint) matches Ok(j) ==> j
            == SJson::Object(
            seq![
                ("$mag"@, SJson::Str("packed-value"@)),
                ("value"@, encoded(payload, None)->Ok_0),
            ],
        ),
{
    reveal_with_fuel(encoded, 2);
}

/// What a document is decoded to at a type, with as many unfoldings as there may be.
pub open spec fn read(env: SEnv, j: SJson, t: SType, exact: bool) -> Result<SValue, SError> {
    decoded(env, j, t, exact, expansion_limit(env))
}

pub proof fn all_are_decoded(env: SEnv, items: Seq<SJson>, t: SType, exact: bool, done: Seq<SValue>)
    ensures
        decoded_all(env, items, t, exact, done) is Ok <==> forall|i: int|
            0 <= i < items.len() ==> read(env, #[trigger] items[i], t, exact) is Ok,
        decoded_all(env, items, t, exact, done) matches Ok(out) ==> out.len() == done.len()
            + items.len() && out.take(done.len() as int) == done && forall|i: int|
            0 <= i < items.len() ==> read(env, #[trigger] items[i], t, exact) == Ok::<
                SValue,
                SError,
            >(out[done.len() + i]),
    decreases items.len(),
{
    if items.len() > 0 {
        let rest = items.drop_first();
        match read(env, items[0], t, exact) {
            Ok(v) => {
                all_are_decoded(env, rest, t, exact, done.push(v));
                let n = done.len() as int;
                let r = decoded_all(env, items, t, exact, done);
                if r is Ok {
                    let out = r->Ok_0;
                    assert(out.take(n + 1).take(n) =~= out.take(n));
                    assert(done.push(v).take(n) =~= done);
                    assert(out[n] == out.take(n + 1)[n]);
                    assert forall|i: int| 0 <= i < items.len() implies read(
                        env,
                        #[trigger] items[i],
                        t,
                        exact,
                    ) == Ok::<SValue, SError>(out[n + i]) by {
                        if i > 0 {
                            assert(items[i] == rest[i - 1]);
                        }
                    }
                }
                if forall|i: int|
                    0 <= i < items.len() ==> read(env, #[trigger] items[i], t, exact) is Ok {
                    assert forall|i: int| 0 <= i < rest.len() implies read(
                        env,
                        #[trigger] rest[i],
                        t,
                        exact,
                    ) is Ok by {
                        assert(rest[i] == items[i + 1]);
                    }
                }
            },
            Err(_) => {
                assert(read(env, items[0], t, exact) is Err);
            },
        }
    } else {
        assert(done.take(done.len() as int) =~= done);
    }
}

/// A document is decoded to a list exactly where it is an array each of whose elements is decoded at
/// the type of the items: the list has what the elements are decoded to, in their order.
pub proof fn arrays_are_decoded_item_by_item(
    env: SEnv,
    j: SJson,
    item: SType,
    exact: bool,
    fuel: nat,
)
    ensures
        decoded(env, j, SType::List(Box::new(item)), exact, fuel) is Ok <==> j is Array && forall|
            i: int,
        |
            0 <= i < j->Array_0.len() ==> read(env, #[trigger] j->Array_0[i], item, exact) is Ok,
        decoded(env, j, SType::List(Box::new(item)), exact, fuel) matches Ok(v) ==> v is List
            && v->List_0.len() == j->Array_0.len() && forall|i: int|
            0 <= i < j->Array_0.len() ==> read(env, #[trigger] j->Array_0[i], item, exact) == Ok::<
                SValue,
                SError,
            >(v->List_0[i]),
{
    reveal_with_fuel(decoded, 2);
    match j {
        SJson::Array(items) => {
            all_are_decoded(env, items, item, exact, Seq::empty());
        },
        _ => {},
    }
}

proof fn positions_are_decoded(
    env: SEnv,
    items: Seq<SJson>,
    types: Seq<SType>,
    exact: bool,
    done: Seq<SValue>,
)
    requires
        done.len() + items.len() == types.len(),
    ensures
        decoded_positions(env, items, types, exact, done) is Ok <==> forall|i: int|
            0 <= i < items.len() ==> read(env, #[trigger] items[i], types[done.len() + i], exact)
                is Ok,
        decoded_positions(env, items, types, exact, done) matches Ok(out) ==> out.len()
            == types.len() && out.take(done.len() as int) == done && forall|i: int|
            0 <= i < items.len() ==> read(env, #[trigger] items[i], types[done.len() + i], exact)
                == Ok::<SValue, SError>(out[done.len() + i]),
    decreases items.len(),
{
    if items.len() > 0 {
        let rest = items.drop_first();
        let n = done.len() as int;
        match read(env, items[0], types[n], exact) {
            Ok(v) => {
                positions_are_decoded(env, rest, types, exact, done.push(v));
                let r = decoded_positions(env, items, types, exact, done);
                if r is Ok {
                    let out = r->Ok_0;
                    assert(out.take(n + 1).take(n) =~= out.take(n));
                    assert(done.push(v).take(n) =~= done);
                    assert(out[n] == out.take(n + 1)[n]);
                    assert forall|i: int| 0 <= i < items.len() implies read(
                        env,
                        #[trigger] items[i],
                        types[n + i],
                        exact,
                    ) == Ok::<SValue, SError>(out[n + i]) by {
                        if i > 0 {
                            assert(items[i] == rest[i - 1]);
                        }
                    }
                }
                if forall|i: int|
                    0 <= i < items.len() ==> read(env, #[trigger] items[i], types[n + i], exact)
                        is Ok {
                    assert forall|i: int| 0 <= i < rest.len() implies read(
                        env,
                        #[trigger] rest[i],
                        types[n + 1 + i],
                        exact,
                    ) is Ok by {
                        assert(rest[i] == items[i + 1]);
                        assert(read(env, items[i + 1], types[n + (i + 1)], exact) is Ok);
                    }
                }
            },
            Err(_) => {
                assert(read(env, items[0], types[n + 0], exact) is Err);
            },
        }
    } else {
        assert(done.take(done.len() as int) =~= done);
    }
}

/// A document is decoded to a product exactly where it is an array with as many elements as there
/// are positions, each decoded at the type of its position.
pub proof fn arrays_are_decoded_position_by_position(
    env: SEnv,
    j: SJson,
    types: Seq<SType>,
    exact: bool,
    fuel: nat,
)
    ensures
        decoded(env, j, SType::Product(types), exact, fuel) is Ok <==> j is Array
            && j->Array_0.len() == types.len() && forall|i: int|
            0 <= i < j->Array_0.len() ==> read(env, #[trigger] j->Array_0[i], types[i], exact)
                is Ok,
        decoded(env, j, SType::Product(types), exact, fuel) matches Ok(v) ==> v is Product
            && v->Product_0.len() == types.len() && forall|i: int|
            0 <= i < j->Array_0.len() ==> read(env, #[trigger] j->Array_0[i], types[i], exact)
                == Ok::<SValue, SError>(v->Product_0[i]),
{
    reveal_with_fuel(decoded, 2);
    match j {
        SJson::Array(items) => {
            if items.len() == types.len() {
                positions_are_decoded(env, items, types, exact, Seq::empty());
            }
        },
        _ => {},
    }
}

proof fn members_are_decoded(
    env: SEnv,
    o: Seq<(Seq<char>, SJson)>,
    t: SType,
    exact: bool,
    done: Seq<(SValue, SValue)>,
)
    ensures
        decoded_members(env, o, t, exact, done) is Ok <==> forall|i: int|
            0 <= i < o.len() ==> read(env, (#[trigger] o[i]).1, t, exact) is Ok,
        decoded_members(env, o, t, exact, done) matches Ok(out) ==> out.len() == done.len()
            + o.len() && out.take(done.len() as int) == done && forall|i: int|
            0 <= i < o.len() ==> out[done.len() + i] == (
                SValue::Str((#[trigger] o[i]).0),
                read(env, o[i].1, t, exact)->Ok_0,
            ),
    decreases o.len(),
{
    if o.len() > 0 {
        let rest = o.drop_first();
        match read(env, o[0].1, t, exact) {
            Ok(v) => {
                let e = (SValue::Str(o[0].0), v);
                members_are_decoded(env, rest, t, exact, done.push(e));
                let n = done.len() as int;
                let r = decoded_members(env, o, t, exact, done);
                if r is Ok {
                    let out = r->Ok_0;
                    assert(out.take(n + 1).take(n) =~= out.take(n));
                    assert(done.push(e).take(n) =~= done);
                    assert(out[n] == out.take(n + 1)[n]);
                    assert forall|i: int| 0 <= i < o.len() implies out[n + i] == (
                        SValue::Str((#[trigger] o[i]).0),
                        read(env, o[i].1, t, exact)->Ok_0,
                    ) && read(env, o[i].1, t, exact) is Ok by {
                        if i > 0 {
                            assert(o[i] == rest[i - 1]);
                        }
                    }
                }
                if forall|i: int| 0 <= i < o.len() ==> read(env, (#[trigger] o[i]).1, t, exact) is Ok {
                    assert forall|i: int| 0 <= i < rest.len() implies read(
                        env,
                        (#[trigger] rest[i]).1,
                        t,
                        exact,
                    ) is Ok by {
                        assert(rest[i] == o[i + 1]);
                    }
                }
            },
            Err(_) => {
                assert(read(env, o[0].1, t, exact) is Err);
            },
        }
    } else {
        assert(done.take(done.len() as int) =~= done);
    }
}

/// A document is decoded to a map with text keys exactly where it is an object each of whose members
/// is decoded at the type of the values: the map has an entry for each member, in their order.
pub proof fn objects_are_decoded_member_by_member(
    env: SEnv,
    j: SJson,
    item: SType,
    exact: bool,
    fuel: nat,
)
    ensures
        decoded(
            env,
            j,
            SType::MapOf(Box::new(SType::String), Box::new(item)),
            exact,
            fuel,
        ) is Ok <==> j is Object && forall|i: int|
            0 <= i < j->Object_0.len() ==> read(env, (#[trigger] j->Object_0[i]).1, item, exact)
                is Ok,
        decoded(
            env,
            j,
            SType::MapOf(Box::new(SType::String), Box::new(item)),
            exact,
            fuel,
        ) matches Ok(v) ==> v is Typed && v->Typed_1 == SType::MapOf(
            Box::new(SType::String),
            Box::new(item),
        ) && *v->Typed_0 is MapOf && v->Typed_0->MapOf_0.len() == j->Object_0.len() && forall|
            i: int,
        |
            0 <= i < j->Object_0.len() ==> v->Typed_0->MapOf_0[i] == (
                SValue::Str((#[trigger] j->Object_0[i]).0),
                read(env, j->Object_0[i].1, item, exact)->Ok_0,
            ),
{
    reveal_with_fuel(decoded, 2);
    match j {
        SJson::Object(o) => {
            members_are_decoded(env, o, item, exact, Seq::empty());
        },
        _ => {},
    }
}

pub proof fn index_is_the_first(o: Seq<(Seq<char>, SJson)>, name: Seq<char>, i: nat)
    requires
        i <= o.len(),
    ensures
        i <= member_index(o, name, i) <= o.len(),
        member_index(o, name, i) < o.len() ==> o[member_index(o, name, i) as int].0 == name,
        keyed(o, name, i) == if member_index(o, name, i) < o.len() {
            Some(o[member_index(o, name, i) as int].1)
        } else {
            None
        },
    decreases o.len() - i,
{
    if i < o.len() && o[i as int].0 != name {
        index_is_the_first(o, name, i + 1);
    }
}

/// Whether an object has a member under the name of a field that is decoded at its type.
pub open spec fn field_is_read(
    env: SEnv,
    o: Seq<(Seq<char>, SJson)>,
    f: (Seq<char>, SType),
    exact: bool,
) -> bool {
    keyed(o, f.0, 0) is Some && read(env, keyed(o, f.0, 0)->Some_0, f.1, exact) is Ok
}

proof fn fields_are_decoded(
    env: SEnv,
    o: Seq<(Seq<char>, SJson)>,
    fields: Seq<(Seq<char>, SType)>,
    exact: bool,
    ty: SType,
    done: Seq<(Seq<char>, SValue)>,
)
    requires
        ascends(done),
    ensures
        decoded_fields(env, o, fields, exact, ty, done) is Ok <==> forall|i: int|
            0 <= i < fields.len() ==> field_is_read(env, o, #[trigger] fields[i], exact),
        decoded_fields(env, o, fields, exact, ty, done) matches Ok(out) ==> ascends(out) && (forall|
            i: int,
        |
            0 <= i < fields.len() && last_of_name(fields, i) ==> keyed(
                out,
                (#[trigger] fields[i]).0,
                0,
            ) == Some(read(env, keyed(o, fields[i].0, 0)->Some_0, fields[i].1, exact)->Ok_0)) && (
        forall|name: Seq<char>|
            !has_name(fields, name) ==> #[trigger] keyed(out, name, 0) == keyed(done, name, 0)),
    decreases fields.len(),
{
    if fields.len() > 0 {
        let rest = fields.drop_first();
        let name = fields[0].0;
        index_is_the_first(o, name, 0);
        if field_is_read(env, o, fields[0], exact) {
            let v = read(env, keyed(o, name, 0)->Some_0, fields[0].1, exact)->Ok_0;
            putting_a_member_binds_its_name(done, name, v);
            let next = with_member(done, name, v);
            fields_are_decoded(env, o, rest, exact, ty, next);
            let r = decoded_fields(env, o, fields, exact, ty, done);
            assert(r == decoded_fields(env, o, rest, exact, ty, next));
            if r is Ok {
                let out = r->Ok_0;
                assert forall|i: int| 0 <= i < fields.len() implies field_is_read(
                    env,
                    o,
                    #[trigger] fields[i],
                    exact,
                ) by {
                    if i > 0 {
                        assert(fields[i] == rest[i - 1]);
                    }
                }
                assert forall|i: int| 0 <= i < fields.len() && last_of_name(fields, i) implies keyed(
                    out,
                    (#[trigger] fields[i]).0,
                    0,
                ) == Some(read(env, keyed(o, fields[i].0, 0)->Some_0, fields[i].1, exact)->Ok_0) by {
                    if i > 0 {
                        assert(fields[i] == rest[i - 1]);
                        assert forall|k: int| i - 1 < k < rest.len() implies (#[trigger] rest[k]).0
                            != rest[i - 1].0 by {
                            assert(rest[k] == fields[k + 1]);
                        }
                        assert(last_of_name(rest, i - 1));
                    } else {
                        if has_name(rest, name) {
                            let k = choose|k: int|
                                0 <= k < rest.len() && (#[trigger] rest[k]).0 == name;
                            assert(fields[k + 1].0 == name);
                        }
                        assert(keyed(out, name, 0) == keyed(next, name, 0));
                    }
                }
                assert forall|other: Seq<char>| !has_name(fields, other) implies #[trigger] keyed(
                    out,
                    other,
                    0,
                ) == keyed(done, other, 0) by {
                    assert(fields[0].0 != other);
                    if has_name(rest, other) {
                        let k = choose|k: int|
                            0 <= k < rest.len() && (#[trigger] rest[k]).0 == other;
                        assert(fields[k + 1].0 == other);
                    }
                    assert(keyed(next, other, 0) == keyed(done, other, 0));
                }
            }
            if forall|i: int|
                0 <= i < fields.len() ==> field_is_read(env, o, #[trigger] fields[i], exact) {
                assert forall|i: int| 0 <= i < rest.len() implies field_is_read(
                    env,
                    o,
                    #[trigger] rest[i],
                    exact,
                ) by {
                    assert(rest[i] == fields[i + 1]);
                }
            }
        } else {
            assert(!field_is_read(env, o, fields[0], exact));
        }
    }
}

/// A document is decoded to a record exactly where it is an object with a member for each field,
/// decoded at the type of the field, and where it is to be exact, with no more members than fields.
/// The record binds the name of each field to what its member is decoded to, and no other name.
pub proof fn objects_are_decoded_field_by_field(
    env: SEnv,
    j: SJson,
    fields: Seq<(Seq<char>, SType)>,
    exact: bool,
    fuel: nat,
)
    ensures
        decoded(env, j, SType::Record(fields), exact, fuel) is Ok <==> j is Object && (exact
            ==> j->Object_0.len() == fields.len()) && forall|i: int|
            0 <= i < fields.len() ==> field_is_read(env, j->Object_0, #[trigger] fields[i], exact),
        decoded(env, j, SType::Record(fields), exact, fuel) matches Ok(v) ==> v is Record
            && ascends(v->Record_0) && (forall|i: int|
            0 <= i < fields.len() && last_of_name(fields, i) ==> keyed(
                v->Record_0,
                (#[trigger] fields[i]).0,
                0,
            ) == Some(
                read(env, keyed(j->Object_0, fields[i].0, 0)->Some_0, fields[i].1, exact)->Ok_0,
            )) && (forall|name: Seq<char>|
            (#[trigger] keyed(v->Record_0, name, 0)) is Some ==> has_name(fields, name)),
{
    reveal_with_fuel(decoded, 2);
    match j {
        SJson::Object(o) => {
            let none: Seq<(Seq<char>, SValue)> = Seq::empty();
            let ty = SType::Record(fields);
            fields_are_decoded(env, o, fields, exact, ty, none);
            if decoded_fields(env, o, fields, exact, ty, none) is Ok {
                let out = decoded_fields(env, o, fields, exact, ty, none)->Ok_0;
                assert forall|name: Seq<char>| (#[trigger] keyed(out, name, 0)) is Some implies has_name(
                    fields,
                    name,
                ) by {
                    assert(keyed(none, name, 0) is None);
                }
            }
        },
        _ => {},
    }
}

/// Scalars are decoded only at their own types, and to what the document holds.
pub proof fn scalars_are_decoded_as_they_are(env: SEnv, j: SJson, exact: bool, fuel: nat)
    ensures
        decoded(env, j, SType::Unit, exact, fuel) is Ok <==> j is Null,
        decoded(env, j, SType::Unit, exact, fuel) matches Ok(v) ==> v is Unit,
        decoded(env, j, SType::Bool, exact, fuel) is Ok <==> j is Bool,
        decoded(env, j, SType::Bool, exact, fuel) matches Ok(v) ==> v == SValue::Bool(j->Bool_0),
        decoded(env, j, SType::String, exact, fuel) is Ok <==> j is Str,
        decoded(env, j, SType::String, exact, fuel) matches Ok(v) ==> v == SValue::Str(j->Str_0),
        decoded(env, j, SType::Int, exact, fuel) is Ok ==> j is Number,
        j matches SJson::Number(SNumber::PosInt(n)) ==> (if n <= i64::MAX {
            decoded(env, j, SType::Int, exact, fuel) == Ok::<SValue, SError>(SValue::Int(n as i64))
        } else {
            decoded(env, j, SType::Int, exact, fuel) is Err
        }),
        j matches SJson::Number(SNumber::NegInt(n)) ==> decoded(env, j, SType::Int, exact, fuel)
            == Ok::<SValue, SError>(SValue::Int(n)),
        decoded(env, j, SType::Float, exact, fuel) is Ok <==> j is Number,
        j matches SJson::Number(SNumber::Float(f)) ==> decoded(env, j, SType::Float, exact, fuel)
            == Ok::<SValue, SError>(SValue::Float(f)),
        decoded(env, j, SType::JsonValue, exact, fuel) == Ok::<SValue, SError>(
            SValue::JsonValue(j),
        ),
{
    reveal_with_fuel(decoded, 2);
}

/// Whether what a value is shows its type: the annotation of a nominal type, or the owner of a
/// constructor of an algebraic one.
pub open spec fn shows_type(v: SValue, t: SType) -> bool {
    match v {
        SValue::Typed(_, evidence) => evidence == t,
        SValue::Adt(owner, _, _) => owner == t,
        _ => false,
    }
}

/// What is decoded at a declared type shows that type. At a nominal type it is what the document is
/// decoded to at its body; at an algebraic type it has the constructor that the document names, with
/// the payload that the document holds.
pub proof fn declared_types_are_decoded_by_their_bodies(
    env: SEnv,
    j: SJson,
    name: Seq<char>,
    args: Seq<SType>,
    exact: bool,
    fuel: nat,
)
    ensures
        decoded(env, j, SType::Named(name, args), exact, fuel) matches Ok(v) ==> env.decl(name)
            is Some && shows_type(v, SType::Named(name, args)) && (env.decl(
            name,
        )->Some_0.body matches SDeclBody::Nominal(body) ==> fuel > 0 && v is Typed && decoded(
            env,
            j,
            apply(body, bound_params(env.decl(name)->Some_0.params, args)),
            exact,
            (fuel - 1) as nat,
        ) == Ok::<SValue, SError>(*v->Typed_0)) && (env.decl(
            name,
        )->Some_0.body matches SDeclBody::Adt(constructors) ==> v is Adt && j is Object
            && j->Object_0.len() == 2 && keyed(j->Object_0, "constructor"@, 0) == Some(
            SJson::Str(v->Adt_1.name),
        ) && keyed(j->Object_0, "value"@, 0) is Some && exists|k: int|
            0 <= k < constructors.len() && (#[trigger] constructors[k]).id == v->Adt_1 && read(
                env,
                keyed(j->Object_0, "value"@, 0)->Some_0,
                apply(
                    constructors[k].payload,
                    bound_params(env.decl(name)->Some_0.params, args),
                ),
                exact,
            ) == Ok::<SValue, SError>(*v->Adt_2)),
{
    reveal_with_fuel(decoded, 2);
    reveal(constructor_payload);
    match j {
        SJson::Object(o) => {
            index_is_the_first(o, "constructor"@, 0);
            index_is_the_first(o, "value"@, 0);
            if env.decl(name) is Some {
                match env.decl(name)->Some_0.body {
                    SDeclBody::Adt(constructors) => {
                        let at = member_index(o, "constructor"@, 0);
                        if at < o.len() && o[at as int].1 is Str {
                            named_is_among(constructors, o[at as int].1->Str_0, 0);
                        }
                    },
                    _ => {},
                }
            }
        },
        _ => {},
    }
}

proof fn named_is_among(items: Seq<crate::ast::SConstructor>, name: Seq<char>, i: nat)
    ensures
        crate::type_rules::constructor_named(items, name, i) matches Some(c) ==> c.id.name == name
            && exists|k: int| i <= k < items.len() && #[trigger] items[k] == c,
    decreases items.len() - i,
{
    if i < items.len() && items[i as int].id.name != name {
        named_is_among(items, name, i + 1);
    }
}

} // verus!
