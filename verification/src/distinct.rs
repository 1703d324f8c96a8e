//! Different types have different descriptors: what an identity is a digest of tells types apart.

use vstd::prelude::*;

use crate::concrete::{SConcrete, SNamedBody};
use crate::descriptors::{
    body_descriptor, constructor_descriptors, descriptor, descriptors, field_descriptors,
    record_descriptor, text_json,
};
use crate::identity::{digest_text, sha256_hex, type_id, type_identity};
use crate::json::{member_index, SJson};
use crate::wire::{collected_members, json_bytes, wired, wired_all, wired_members};

verus! {

broadcast use vstd::seq_lib::group_seq_properties;

/// Whether no nominal type inside a type is another name for a bare record. Such a type has the
/// descriptor of the nominal type with the fields of that record.
pub open spec fn told_apart(t: SConcrete) -> bool
    decreases t, 1nat,
{
    match t {
        SConcrete::Named(_, arguments, body) => all_told_apart(arguments) && match body {
            SNamedBody::Fields(fields) => parts_told_apart(fields),
            SNamedBody::Alias(inner) => !(*inner is Record) && told_apart(*inner),
        },
        SConcrete::Adt(_, arguments, constructors) => all_told_apart(arguments)
            && parts_told_apart(constructors),
        SConcrete::List(item) => told_apart(*item),
        SConcrete::SetOf(item) => told_apart(*item),
        SConcrete::MapOf(key, value) => told_apart(*key) && told_apart(*value),
        SConcrete::Record(fields) => parts_told_apart(fields),
        SConcrete::Product(items) => all_told_apart(items),
        _ => true,
    }
}

pub open spec fn all_told_apart(items: Seq<SConcrete>) -> bool
    decreases items, 0nat,
{
    forall|i: int| 0 <= i < items.len() ==> told_apart(#[trigger] items[i])
}

pub open spec fn parts_told_apart(items: Seq<(Seq<char>, SConcrete)>) -> bool
    decreases items, 0nat,
{
    forall|i: int| 0 <= i < items.len() ==> told_apart((#[trigger] items[i]).1)
}

/// The word that says of which kind a descriptor is.
pub open spec fn kind_word(t: SConcrete) -> Seq<char> {
    match t {
        SConcrete::Named(_, _, _) => "named"@,
        SConcrete::Adt(_, _, _) => "adt"@,
        SConcrete::List(_) => "list"@,
        SConcrete::SetOf(_) => "set"@,
        SConcrete::MapOf(_, _) => "map"@,
        SConcrete::Record(_) => "record"@,
        SConcrete::Product(_) => "product"@,
        _ => "primitive"@,
    }
}

proof fn kinds_differ()
    ensures
        "primitive"@.len() == 9,
        "named"@.len() == 5,
        "adt"@[0] == 'a' && "adt"@.len() == 3,
        "list"@.len() == 4,
        "set"@[0] == 's' && "set"@.len() == 3,
        "map"@[0] == 'm' && "map"@.len() == 3,
        "record"@.len() == 6,
        "product"@.len() == 7,
        "JsonValue"@.len() == 9,
        "Unit"@[0] == 'U' && "Unit"@.len() == 4,
        "Bool"@[0] == 'B' && "Bool"@.len() == 4,
        "Int"@.len() == 3,
        "Float"@.len() == 5,
        "String"@.len() == 6,
{
    reveal_strlit("primitive");
    reveal_strlit("named");
    reveal_strlit("adt");
    reveal_strlit("list");
    reveal_strlit("set");
    reveal_strlit("map");
    reveal_strlit("record");
    reveal_strlit("product");
    reveal_strlit("JsonValue");
    reveal_strlit("Unit");
    reveal_strlit("Bool");
    reveal_strlit("Int");
    reveal_strlit("Float");
    reveal_strlit("String");
}

proof fn kind_is_first(t: SConcrete)
    ensures
        descriptor(t) is Object,
        descriptor(t)->Object_0.len() >= 2,
        descriptor(t)->Object_0[0] == ("kind"@, text_json(kind_word(t))),
{
    match t {
        SConcrete::Record(fields) => {
            assert(descriptor(t) == record_descriptor(fields));
        },
        _ => {},
    }
}

proof fn items_agree(a: Seq<SConcrete>, b: Seq<SConcrete>)
    requires
        all_told_apart(a),
        all_told_apart(b),
        descriptors(a) == descriptors(b),
    ensures
        a == b,
    decreases a, 0nat,
{
    assert(descriptors(a).len() == a.len() && descriptors(b).len() == b.len());
    assert forall|i: int| 0 <= i < a.len() implies a[i] == b[i] by {
        assert(descriptors(a)[i] == descriptor(a[i]));
        assert(descriptors(b)[i] == descriptor(b[i]));
        descriptors_tell_types_apart(a[i], b[i]);
    }
    assert(a =~= b);
}

proof fn fields_agree(a: Seq<(Seq<char>, SConcrete)>, b: Seq<(Seq<char>, SConcrete)>)
    requires
        parts_told_apart(a),
        parts_told_apart(b),
        field_descriptors(a) == field_descriptors(b),
    ensures
        a == b,
    decreases a, 0nat,
{
    assert(field_descriptors(a).len() == a.len() && field_descriptors(b).len() == b.len());
    assert forall|i: int| 0 <= i < a.len() implies a[i] == b[i] by {
        let x = field_descriptors(a)[i]->Object_0;
        let y = field_descriptors(b)[i]->Object_0;
        assert(x[0].1 == text_json(a[i].0) && x[1].1 == descriptor(a[i].1));
        assert(y[0].1 == text_json(b[i].0) && y[1].1 == descriptor(b[i].1));
        descriptors_tell_types_apart(a[i].1, b[i].1);
    }
    assert(a =~= b);
}

proof fn constructors_agree(a: Seq<(Seq<char>, SConcrete)>, b: Seq<(Seq<char>, SConcrete)>)
    requires
        parts_told_apart(a),
        parts_told_apart(b),
        constructor_descriptors(a) == constructor_descriptors(b),
    ensures
        a == b,
    decreases a, 0nat,
{
    assert(constructor_descriptors(a).len() == a.len());
    assert(constructor_descriptors(b).len() == b.len());
    assert forall|i: int| 0 <= i < a.len() implies a[i] == b[i] by {
        let x = constructor_descriptors(a)[i]->Object_0;
        let y = constructor_descriptors(b)[i]->Object_0;
        assert(x[0].1 == text_json(a[i].0) && x[1].1 == descriptor(a[i].1));
        assert(y[0].1 == text_json(b[i].0) && y[1].1 == descriptor(b[i].1));
        descriptors_tell_types_apart(a[i].1, b[i].1);
    }
    assert(a =~= b);
}

proof fn records_agree(a: Seq<(Seq<char>, SConcrete)>, b: Seq<(Seq<char>, SConcrete)>)
    requires
        parts_told_apart(a),
        parts_told_apart(b),
        record_descriptor(a) == record_descriptor(b),
    ensures
        a == b,
    decreases a, 1nat,
{
    let x = record_descriptor(a)->Object_0;
    let y = record_descriptor(b)->Object_0;
    assert(x[1].1 == SJson::Array(field_descriptors(a)));
    assert(y[1].1 == SJson::Array(field_descriptors(b)));
    fields_agree(a, b);
}

/// Types with one descriptor are one type: a different name, part or argument, though it stands
/// for nothing in the body, gives a different descriptor.
pub proof fn descriptors_tell_types_apart(a: SConcrete, b: SConcrete)
    requires
        told_apart(a),
        told_apart(b),
        descriptor(a) == descriptor(b),
    ensures
        a == b,
    decreases a, 2nat,
{
    kinds_differ();
    kind_is_first(a);
    kind_is_first(b);
    assert(kind_word(a) == kind_word(b));
    let x = descriptor(a)->Object_0;
    let y = descriptor(b)->Object_0;
    match (a, b) {
        (SConcrete::Named(n, s, body), SConcrete::Named(m, t, other)) => {
            assert(x[1].1 == text_json(n) && y[1].1 == text_json(m));
            assert(x[2].1 == SJson::Array(descriptors(s)));
            assert(y[2].1 == SJson::Array(descriptors(t)));
            assert(x[3].1 == body_descriptor(body) && y[3].1 == body_descriptor(other));
            items_agree(s, t);
            bodies_agree(body, other);
        },
        (SConcrete::Adt(n, s, c), SConcrete::Adt(m, t, d)) => {
            assert(x[1].1 == text_json(n) && y[1].1 == text_json(m));
            assert(x[2].1 == SJson::Array(descriptors(s)));
            assert(y[2].1 == SJson::Array(descriptors(t)));
            assert(x[3].1 == SJson::Array(constructor_descriptors(c)));
            assert(y[3].1 == SJson::Array(constructor_descriptors(d)));
            items_agree(s, t);
            constructors_agree(c, d);
        },
        (SConcrete::List(s), SConcrete::List(t)) => {
            assert(x[1].1 == descriptor(*s) && y[1].1 == descriptor(*t));
            descriptors_tell_types_apart(*s, *t);
        },
        (SConcrete::SetOf(s), SConcrete::SetOf(t)) => {
            assert(x[1].1 == descriptor(*s) && y[1].1 == descriptor(*t));
            descriptors_tell_types_apart(*s, *t);
        },
        (SConcrete::MapOf(s, u), SConcrete::MapOf(t, v)) => {
            assert(x[1].1 == descriptor(*s) && y[1].1 == descriptor(*t));
            assert(x[2].1 == descriptor(*u) && y[2].1 == descriptor(*v));
            descriptors_tell_types_apart(*s, *t);
            descriptors_tell_types_apart(*u, *v);
        },
        (SConcrete::Record(s), SConcrete::Record(t)) => {
            records_agree(s, t);
        },
        (SConcrete::Product(s), SConcrete::Product(t)) => {
            assert(x[1].1 == SJson::Array(descriptors(s)));
            assert(y[1].1 == SJson::Array(descriptors(t)));
            items_agree(s, t);
        },
        _ => {
            assert(x[1] == y[1]);
        },
    }
}

proof fn bodies_agree(a: SNamedBody, b: SNamedBody)
    requires
        body_descriptor(a) == body_descriptor(b),
        match a {
            SNamedBody::Fields(fields) => parts_told_apart(fields),
            SNamedBody::Alias(inner) => !(*inner is Record) && told_apart(*inner),
        },
        match b {
            SNamedBody::Fields(fields) => parts_told_apart(fields),
            SNamedBody::Alias(inner) => !(*inner is Record) && told_apart(*inner),
        },
    ensures
        a == b,
    decreases a, 3nat,
{
    kinds_differ();
    match (a, b) {
        (SNamedBody::Fields(s), SNamedBody::Fields(t)) => {
            records_agree(s, t);
        },
        (SNamedBody::Alias(s), SNamedBody::Alias(t)) => {
            descriptors_tell_types_apart(*s, *t);
        },
        (SNamedBody::Fields(s), SNamedBody::Alias(t)) => {
            kind_is_first(*t);
            assert(record_descriptor(s)->Object_0[0] == ("kind"@, text_json("record"@)));
        },
        (SNamedBody::Alias(s), SNamedBody::Fields(t)) => {
            kind_is_first(*s);
            assert(record_descriptor(t)->Object_0[0] == ("kind"@, text_json("record"@)));
        },
    }
}

proof fn absent_key(members: Seq<(Seq<char>, SJson)>, key: Seq<char>, i: nat)
    requires
        i <= members.len(),
        forall|j: int| 0 <= j < members.len() ==> (#[trigger] members[j]).0 != key,
    ensures
        member_index(members, key, i) == members.len(),
    decreases members.len() - i,
{
    if i < members.len() {
        absent_key(members, key, i + 1);
    }
}

pub open spec fn keys_differ(members: Seq<(Seq<char>, SJson)>) -> bool {
    forall|i: int, j: int|
        0 <= i < j < members.len() ==> (#[trigger] members[i]).0 != (#[trigger] members[j]).0
}

proof fn different_keys_stay(members: Seq<(Seq<char>, SJson)>)
    requires
        keys_differ(members),
    ensures
        collected_members(members) == members,
    decreases members.len(),
{
    if members.len() > 0 {
        let rest = members.drop_last();
        different_keys_stay(rest);
        assert forall|j: int| 0 <= j < rest.len() implies (#[trigger] rest[j]).0
            != members.last().0 by {
            assert(members[j].0 != members[members.len() - 1].0);
        }
        absent_key(rest, members.last().0, 0);
        assert(rest.push(members.last()) =~= members);
    } else {
        assert(collected_members(members) =~= members);
    }
}

/// Whether the crate that writes documents holds a document as it is.
pub open spec fn held(j: SJson) -> bool {
    wired(j) == j
}

proof fn object_is_held(members: Seq<(Seq<char>, SJson)>)
    requires
        keys_differ(members),
        forall|i: int| 0 <= i < members.len() ==> held((#[trigger] members[i]).1),
    ensures
        held(SJson::Object(members)),
{
    assert(wired_members(members) =~= members);
    different_keys_stay(members);
}

proof fn array_is_held(items: Seq<SJson>)
    requires
        forall|i: int| 0 <= i < items.len() ==> held(#[trigger] items[i]),
    ensures
        held(SJson::Array(items)),
{
    assert(wired_all(items) =~= items);
}

proof fn keys_of_descriptors()
    ensures
        "kind"@[0] == 'k' && "kind"@.len() == 4,
        "name"@[0] == 'n' && "name"@.len() == 4,
        "type"@[0] == 't' && "type"@.len() == 4,
        "item"@[0] == 'i' && "item"@.len() == 4,
        "body"@[0] == 'b' && "body"@.len() == 4,
        "items"@.len() == 5,
        "key"@.len() == 3,
        "value"@.len() == 5,
        "fields"@.len() == 6,
        "payload"@.len() == 7,
        "arguments"@.len() == 9,
        "constructors"@.len() == 12,
        "domain"@.len() == 6,
        "version"@.len() == 7,
        "descriptor"@.len() == 10,
{
    reveal_strlit("kind");
    reveal_strlit("name");
    reveal_strlit("type");
    reveal_strlit("item");
    reveal_strlit("body");
    reveal_strlit("items");
    reveal_strlit("key");
    reveal_strlit("value");
    reveal_strlit("fields");
    reveal_strlit("payload");
    reveal_strlit("arguments");
    reveal_strlit("constructors");
    reveal_strlit("domain");
    reveal_strlit("version");
    reveal_strlit("descriptor");
}

proof fn descriptors_are_held(items: Seq<SConcrete>)
    ensures
        held(SJson::Array(descriptors(items))),
    decreases items, 0nat,
{
    assert forall|i: int| 0 <= i < descriptors(items).len() implies held(
        #[trigger] descriptors(items)[i],
    ) by {
        descriptor_is_held(items[i]);
    }
    array_is_held(descriptors(items));
}

proof fn field_descriptors_are_held(items: Seq<(Seq<char>, SConcrete)>)
    ensures
        held(SJson::Array(field_descriptors(items))),
    decreases items, 0nat,
{
    keys_of_descriptors();
    assert forall|i: int| 0 <= i < field_descriptors(items).len() implies held(
        #[trigger] field_descriptors(items)[i],
    ) by {
        descriptor_is_held(items[i].1);
        object_is_held(field_descriptors(items)[i]->Object_0);
    }
    array_is_held(field_descriptors(items));
}

proof fn constructor_descriptors_are_held(items: Seq<(Seq<char>, SConcrete)>)
    ensures
        held(SJson::Array(constructor_descriptors(items))),
    decreases items, 0nat,
{
    keys_of_descriptors();
    assert forall|i: int| 0 <= i < constructor_descriptors(items).len() implies held(
        #[trigger] constructor_descriptors(items)[i],
    ) by {
        descriptor_is_held(items[i].1);
        object_is_held(constructor_descriptors(items)[i]->Object_0);
    }
    array_is_held(constructor_descriptors(items));
}

proof fn record_descriptor_is_held(fields: Seq<(Seq<char>, SConcrete)>)
    ensures
        held(record_descriptor(fields)),
    decreases fields, 1nat,
{
    keys_of_descriptors();
    field_descriptors_are_held(fields);
    object_is_held(record_descriptor(fields)->Object_0);
}

/// A descriptor is written as it is.
pub proof fn descriptor_is_held(t: SConcrete)
    ensures
        held(descriptor(t)),
    decreases t, 2nat,
{
    keys_of_descriptors();
    match t {
        SConcrete::Named(name, arguments, body) => {
            descriptors_are_held(arguments);
            match body {
                SNamedBody::Fields(fields) => {
                    record_descriptor_is_held(fields);
                },
                SNamedBody::Alias(inner) => {
                    descriptor_is_held(*inner);
                },
            }
            assert(held(body_descriptor(body)));
            object_is_held(descriptor(t)->Object_0);
        },
        SConcrete::Adt(_, arguments, constructors) => {
            descriptors_are_held(arguments);
            constructor_descriptors_are_held(constructors);
            object_is_held(descriptor(t)->Object_0);
        },
        SConcrete::List(item) => {
            descriptor_is_held(*item);
            object_is_held(descriptor(t)->Object_0);
        },
        SConcrete::SetOf(item) => {
            descriptor_is_held(*item);
            object_is_held(descriptor(t)->Object_0);
        },
        SConcrete::MapOf(key, value) => {
            descriptor_is_held(*key);
            descriptor_is_held(*value);
            object_is_held(descriptor(t)->Object_0);
        },
        SConcrete::Record(fields) => {
            record_descriptor_is_held(fields);
        },
        SConcrete::Product(items) => {
            descriptors_are_held(items);
            object_is_held(descriptor(t)->Object_0);
        },
        _ => {
            object_is_held(descriptor(t)->Object_0);
        },
    }
}

/// Types have the same identity where they are the same type, whichever environments they were
/// resolved in; and an identity that two different types had would be one digest of two different
/// documents.
pub proof fn identities_tell_types_apart(a: SConcrete, b: SConcrete)
    requires
        told_apart(a),
        told_apart(b),
    ensures
        a == b ==> type_id(a) == type_id(b),
        a != b ==> wired(type_identity(a)) != wired(type_identity(b)),
        a != b && type_id(a) == type_id(b) ==> sha256_hex(json_bytes(type_identity(a)))
            == sha256_hex(json_bytes(type_identity(b))) && type_identity(a) != type_identity(b),
{
    keys_of_descriptors();
    descriptor_is_held(a);
    descriptor_is_held(b);
    let x = type_identity(a)->Object_0;
    let y = type_identity(b)->Object_0;
    object_is_held(x);
    object_is_held(y);
    if a != b && type_identity(a) == type_identity(b) {
        assert(x[2].1 == descriptor(a) && y[2].1 == descriptor(b));
        descriptors_tell_types_apart(a, b);
    }
    if type_id(a) == type_id(b) {
        let s = digest_text(json_bytes(type_identity(a)));
        let t = digest_text(json_bytes(type_identity(b)));
        let n = "sha256:"@.len() as int;
        assert(s.skip(n) =~= sha256_hex(json_bytes(type_identity(a))));
        assert(t.skip(n) =~= sha256_hex(json_bytes(type_identity(b))));
    }
}

} // verus!
