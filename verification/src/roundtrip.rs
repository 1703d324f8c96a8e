//! Descriptors of types read back as the types that they were written for, and documents in
//! canonical form stay as they are.

use vstd::prelude::*;

use crate::concrete::{SConcrete, SNamedBody};
use crate::descriptors::{
    body_descriptor, constructor_descriptors, described, described_all, described_as,
    described_constructors, described_fields, described_list, described_member, descriptor,
    descriptors, field_descriptors, filled, filled_all, filled_members, follows, is_named,
    primitive_named, record_descriptor, string_member, text_json,
};
use crate::error::SError;
use crate::json::{
    all_numeric, canonical, canonical_all, canonical_members, documents_equal_themselves,
    json_equal, member_index, members_numeric, numeric, with_member, SJson,
};
use crate::text::before;

verus! {

broadcast use vstd::seq_lib::group_seq_properties;

/// Whether names stand in their order, each once.
pub open spec fn names_ascend(items: Seq<(Seq<char>, SConcrete)>) -> bool {
    forall|i: int| 0 <= i < items.len() - 1 ==> before((#[trigger] items[i]).0, items[i + 1].0)
}

/// Whether a type is in the form that the compiler gives it: constructors and fields stand in the
/// order of their names, an algebraic type has a constructor, a product has two positions, and the
/// body of a nominal type is a record where it has fields.
pub open spec fn in_form(t: SConcrete) -> bool
    decreases t, 1nat,
{
    match t {
        SConcrete::Named(_, arguments, body) => all_in_form(arguments) && body_in_form(body),
        SConcrete::Adt(_, arguments, constructors) => all_in_form(arguments) && constructors.len()
            > 0 && names_ascend(constructors) && parts_in_form(constructors),
        SConcrete::List(item) => in_form(*item),
        SConcrete::SetOf(item) => in_form(*item),
        SConcrete::MapOf(key, value) => in_form(*key) && in_form(*value),
        SConcrete::Record(fields) => names_ascend(fields) && parts_in_form(fields),
        SConcrete::Product(items) => items.len() >= 2 && all_in_form(items),
        _ => true,
    }
}

pub open spec fn body_in_form(body: SNamedBody) -> bool
    decreases body, 1nat,
{
    match body {
        SNamedBody::Fields(fields) => names_ascend(fields) && parts_in_form(fields),
        SNamedBody::Alias(t) => !(*t is Record) && in_form(*t),
    }
}

pub open spec fn all_in_form(items: Seq<SConcrete>) -> bool
    decreases items, 0nat,
{
    forall|i: int| 0 <= i < items.len() ==> in_form(#[trigger] items[i])
}

pub open spec fn parts_in_form(items: Seq<(Seq<char>, SConcrete)>) -> bool
    decreases items, 0nat,
{
    forall|i: int| 0 <= i < items.len() ==> in_form((#[trigger] items[i]).1)
}

proof fn descriptor_is_numeric(t: SConcrete)
    ensures
        numeric(descriptor(t)),
    decreases t, 1nat,
{
    reveal_with_fuel(descriptor, 2);
    reveal_with_fuel(body_descriptor, 2);
    reveal_with_fuel(record_descriptor, 2);
    reveal_with_fuel(numeric, 4);
    reveal_with_fuel(members_numeric, 3);
    reveal_with_fuel(all_numeric, 3);
    match t {
        SConcrete::Named(_, arguments, body) => {
            descriptors_are_numeric(arguments);
            match body {
                SNamedBody::Fields(fields) => {
                    record_is_numeric(fields);
                },
                SNamedBody::Alias(inner) => {
                    descriptor_is_numeric(*inner);
                },
            }
            assert(numeric(body_descriptor(body)));
            let o = descriptor(t)->Object_0;
            assert forall|i: int| 0 <= i < o.len() implies numeric((#[trigger] o[i]).1) by {
                assert(i == 0 || i == 1 || i == 2 || i == 3);
            }
        },
        SConcrete::Adt(_, arguments, constructors) => {
            descriptors_are_numeric(arguments);
            fields_are_numeric(constructors);
        },
        SConcrete::List(item) => {
            descriptor_is_numeric(*item);
        },
        SConcrete::SetOf(item) => {
            descriptor_is_numeric(*item);
        },
        SConcrete::MapOf(key, value) => {
            descriptor_is_numeric(*key);
            descriptor_is_numeric(*value);
        },
        SConcrete::Record(fields) => {
            record_is_numeric(fields);
        },
        SConcrete::Product(items) => {
            descriptors_are_numeric(items);
        },
        _ => {},
    }
}

proof fn record_is_numeric(fields: Seq<(Seq<char>, SConcrete)>)
    ensures
        numeric(record_descriptor(fields)),
    decreases fields, 1nat,
{
    reveal_with_fuel(numeric, 4);
    reveal_with_fuel(members_numeric, 3);
    reveal_with_fuel(all_numeric, 3);
    fields_are_numeric(fields);
}

proof fn descriptors_are_numeric(items: Seq<SConcrete>)
    ensures
        all_numeric(descriptors(items)),
    decreases items, 0nat,
{
    assert forall|i: int| 0 <= i < descriptors(items).len() implies numeric(
        #[trigger] descriptors(items)[i],
    ) by {
        descriptor_is_numeric(items[i]);
    }
}

proof fn fields_are_numeric(items: Seq<(Seq<char>, SConcrete)>)
    ensures
        all_numeric(field_descriptors(items)),
        all_numeric(constructor_descriptors(items)),
    decreases items, 0nat,
{
    assert forall|i: int| 0 <= i < field_descriptors(items).len() implies numeric(
        #[trigger] field_descriptors(items)[i],
    ) by {
        reveal_with_fuel(numeric, 3);
        descriptor_is_numeric(items[i].1);
    }
    assert forall|i: int| 0 <= i < constructor_descriptors(items).len() implies numeric(
        #[trigger] constructor_descriptors(items)[i],
    ) by {
        reveal_with_fuel(numeric, 3);
        descriptor_is_numeric(items[i].1);
    }
}

/// The words of descriptors differ.
proof fn words()
    ensures
        "kind"@ != "name"@,
        "kind"@ != "type"@,
        "kind"@ != "payload"@,
        "kind"@ != "arguments"@,
        "name"@ != "arguments"@,
        "kind"@ != "constructors"@,
        "name"@ != "constructors"@,
        "arguments"@ != "constructors"@,
        "kind"@ != "body"@,
        "name"@ != "body"@,
        "arguments"@ != "body"@,
        "kind"@ != "item"@,
        "kind"@ != "items"@,
        "kind"@ != "key"@,
        "kind"@ != "value"@,
        "key"@ != "value"@,
        "kind"@ != "fields"@,
        "name"@ != "type"@,
        "name"@ != "payload"@,
        "primitive"@ != "named"@,
        "adt"@ != "primitive"@,
        "adt"@ != "named"@,
        "list"@ != "primitive"@,
        "list"@ != "named"@,
        "list"@ != "adt"@,
        "set"@ != "primitive"@,
        "set"@ != "named"@,
        "set"@ != "adt"@,
        "set"@ != "list"@,
        "map"@ != "primitive"@,
        "map"@ != "named"@,
        "map"@ != "adt"@,
        "map"@ != "list"@,
        "map"@ != "set"@,
        "record"@ != "primitive"@,
        "record"@ != "named"@,
        "record"@ != "adt"@,
        "record"@ != "list"@,
        "record"@ != "set"@,
        "record"@ != "map"@,
        "product"@ != "primitive"@,
        "product"@ != "named"@,
        "product"@ != "adt"@,
        "product"@ != "list"@,
        "product"@ != "set"@,
        "product"@ != "map"@,
        "product"@ != "record"@,
        "product"@ != "union"@,
        "Unit"@ != "JsonValue"@,
        "Bool"@ != "JsonValue"@,
        "Bool"@ != "Unit"@,
        "Int"@ != "JsonValue"@,
        "Int"@ != "Unit"@,
        "Int"@ != "Bool"@,
        "Float"@ != "JsonValue"@,
        "Float"@ != "Unit"@,
        "Float"@ != "Bool"@,
        "Float"@ != "Int"@,
        "String"@ != "JsonValue"@,
        "String"@ != "Unit"@,
        "String"@ != "Bool"@,
        "String"@ != "Int"@,
        "String"@ != "Float"@,
{
    reveal_strlit("kind");
    reveal_strlit("name");
    reveal_strlit("type");
    reveal_strlit("payload");
    reveal_strlit("arguments");
    reveal_strlit("constructors");
    reveal_strlit("body");
    reveal_strlit("item");
    reveal_strlit("items");
    reveal_strlit("key");
    reveal_strlit("value");
    reveal_strlit("fields");
    reveal_strlit("primitive");
    reveal_strlit("named");
    reveal_strlit("adt");
    reveal_strlit("list");
    reveal_strlit("set");
    reveal_strlit("map");
    reveal_strlit("record");
    reveal_strlit("union");
    reveal_strlit("product");
    reveal_strlit("JsonValue");
    reveal_strlit("Unit");
    reveal_strlit("Bool");
    reveal_strlit("Int");
    reveal_strlit("Float");
    reveal_strlit("String");
    assert("kind"@.len() == 4);
    assert("name"@.len() == 4);
    assert("type"@.len() == 4);
    assert("payload"@.len() == 7);
    assert("arguments"@.len() == 9);
    assert("constructors"@.len() == 12);
    assert("body"@.len() == 4);
    assert("item"@.len() == 4);
    assert("items"@.len() == 5);
    assert("key"@.len() == 3);
    assert("value"@.len() == 5);
    assert("fields"@.len() == 6);
    assert("primitive"@.len() == 9);
    assert("named"@.len() == 5);
    assert("adt"@.len() == 3);
    assert("list"@.len() == 4);
    assert("set"@.len() == 3);
    assert("map"@.len() == 3);
    assert("record"@.len() == 6);
    assert("union"@.len() == 5);
    assert("product"@.len() == 7);
    assert("JsonValue"@.len() == 9);
    assert("Unit"@.len() == 4);
    assert("Bool"@.len() == 4);
    assert("Int"@.len() == 3);
    assert("Float"@.len() == 5);
    assert("String"@.len() == 6);
    assert("kind"@[0] != "name"@[0]);
    assert("kind"@[0] != "type"@[0]);
    assert("kind"@[0] != "body"@[0]);
    assert("kind"@[0] != "item"@[0]);
    assert("name"@[0] != "type"@[0]);
    assert("name"@[0] != "body"@[0]);
    assert("set"@[0] != "adt"@[0]);
    assert("map"@[0] != "adt"@[0]);
    assert("map"@[0] != "set"@[0]);
    assert("Bool"@[0] != "Unit"@[0]);
}

#[verifier::spinoff_prover]
#[verifier::rlimit(60)]
proof fn descriptor_is_full(t: SConcrete)
    ensures
        filled(descriptor(t)) == descriptor(t),
    decreases t, 1nat,
{
    words();
    reveal_with_fuel(descriptor, 2);
    reveal_with_fuel(body_descriptor, 2);
    reveal_with_fuel(member_index, 5);
    reveal_with_fuel(filled, 3);
    match descriptor(t) {
        SJson::Object(o) => {
            match t {
                SConcrete::Named(_, arguments, body) => {
                    descriptors_are_full(arguments);
                    match body {
                        SNamedBody::Fields(fields) => {
                            record_is_full(fields);
                        },
                        SNamedBody::Alias(inner) => {
                            descriptor_is_full(*inner);
                        },
                    }
                },
                SConcrete::Adt(_, arguments, constructors) => {
                    descriptors_are_full(arguments);
                    fields_are_full(constructors);
                },
                SConcrete::List(item) => {
                    descriptor_is_full(*item);
                },
                SConcrete::SetOf(item) => {
                    descriptor_is_full(*item);
                },
                SConcrete::MapOf(key, value) => {
                    descriptor_is_full(*key);
                    descriptor_is_full(*value);
                },
                SConcrete::Record(fields) => {
                    record_is_full(fields);
                },
                SConcrete::Product(items) => {
                    descriptors_are_full(items);
                },
                _ => {},
            }
            assert(filled_members(o) =~= o);
        },
        _ => {},
    }
}

proof fn record_is_full(fields: Seq<(Seq<char>, SConcrete)>)
    ensures
        filled(record_descriptor(fields)) == record_descriptor(fields),
    decreases fields, 1nat,
{
    words();
    reveal_with_fuel(member_index, 5);
    reveal_with_fuel(filled, 2);
    fields_are_full(fields);
    match record_descriptor(fields) {
        SJson::Object(o) => {
            assert(filled_members(o) =~= o);
        },
        _ => {},
    }
}

proof fn descriptors_are_full(items: Seq<SConcrete>)
    ensures
        filled_all(descriptors(items)) == descriptors(items),
    decreases items, 0nat,
{
    assert forall|i: int| 0 <= i < items.len() implies filled(#[trigger] descriptors(items)[i])
        == descriptors(items)[i] by {
        descriptor_is_full(items[i]);
    }
    assert(filled_all(descriptors(items)) =~= descriptors(items));
}

proof fn fields_are_full(items: Seq<(Seq<char>, SConcrete)>)
    ensures
        filled_all(field_descriptors(items)) == field_descriptors(items),
        filled_all(constructor_descriptors(items)) == constructor_descriptors(items),
    decreases items, 0nat,
{
    assert forall|i: int| 0 <= i < items.len() implies filled(
        #[trigger] field_descriptors(items)[i],
    ) == field_descriptors(items)[i] by {
        words();
        reveal_with_fuel(member_index, 3);
        reveal_with_fuel(filled, 2);
        descriptor_is_full(items[i].1);
        let o = field_descriptors(items)[i]->Object_0;
        assert(filled_members(o) =~= o);
    }
    assert forall|i: int| 0 <= i < items.len() implies filled(
        #[trigger] constructor_descriptors(items)[i],
    ) == constructor_descriptors(items)[i] by {
        words();
        reveal_with_fuel(member_index, 3);
        reveal_with_fuel(filled, 2);
        descriptor_is_full(items[i].1);
        let o = constructor_descriptors(items)[i]->Object_0;
        assert(filled_members(o) =~= o);
    }
    assert(filled_all(field_descriptors(items)) =~= field_descriptors(items));
    assert(filled_all(constructor_descriptors(items)) =~= constructor_descriptors(items));
}

proof fn descriptor_matches(t: SConcrete)
    ensures
        json_equal(descriptor(t), filled(descriptor(t))),
{
    descriptor_is_full(t);
    descriptor_is_numeric(t);
    documents_equal_themselves(descriptor(t));
}

proof fn all_read_back(items: Seq<SConcrete>, k: int)
    requires
        0 <= k <= items.len(),
        all_in_form(items),
    ensures
        described_all(descriptors(items).skip(k), items.take(k)) == Ok::<Seq<SConcrete>, SError>(
            items,
        ),
    decreases items, 0nat, items.len() - k,
{
    let all = descriptors(items);
    assert(all.len() == items.len());
    if k == items.len() {
        assert(all.skip(k) =~= Seq::empty());
        assert(items.take(k) =~= items);
    } else {
        assert(in_form(items[k]));
        descriptors_read_back(items[k]);
        assert(all.skip(k)[0] == descriptor(items[k]));
        assert(all.skip(k).drop_first() =~= all.skip(k + 1));
        assert(items.take(k).push(items[k]) =~= items.take(k + 1));
        all_read_back(items, k + 1);
    }
}

proof fn constructors_read_back(items: Seq<(Seq<char>, SConcrete)>, k: int)
    requires
        0 <= k <= items.len(),
        parts_in_form(items),
        names_ascend(items),
    ensures
        described_constructors(constructor_descriptors(items).skip(k), items.take(k)) == Ok::<
            Seq<(Seq<char>, SConcrete)>,
            SError,
        >(items),
    decreases items, 0nat, items.len() - k,
{
    let all = constructor_descriptors(items);
    assert(all.len() == items.len());
    if k == items.len() {
        assert(all.skip(k) =~= Seq::empty());
        assert(items.take(k) =~= items);
    } else {
        assert(in_form(items[k].1));
        descriptors_read_back(items[k].1);
        words();
        reveal_with_fuel(member_index, 3);
        reveal_with_fuel(described_constructors, 2);
        reveal_with_fuel(described_fields, 2);
        reveal_with_fuel(described_member, 2);
        assert(all.skip(k)[0] == all[k]);
        let o = all[k]->Object_0;
        assert(o[0] == ("name"@, text_json(items[k].0)));
        assert(o[1] == ("payload"@, descriptor(items[k].1)));
        assert(member_index(o, "name"@, 0) == 0);
        assert(member_index(o, "payload"@, 0) == 1);
        if k > 0 {
            assert(items.take(k).last() == items[k - 1]);
            assert(before(items[k - 1].0, items[k - 1 + 1].0));
        }
        assert(follows(items.take(k), items[k].0));
        assert(all.skip(k).drop_first() =~= all.skip(k + 1));
        assert(items.take(k).push(items[k]) =~= items.take(k + 1));
        constructors_read_back(items, k + 1);
    }
}

proof fn fields_read_back(items: Seq<(Seq<char>, SConcrete)>, k: int)
    requires
        0 <= k <= items.len(),
        parts_in_form(items),
        names_ascend(items),
    ensures
        described_fields(field_descriptors(items).skip(k), items.take(k)) == Ok::<
            Seq<(Seq<char>, SConcrete)>,
            SError,
        >(items),
    decreases items, 0nat, items.len() - k,
{
    let all = field_descriptors(items);
    assert(all.len() == items.len());
    if k == items.len() {
        assert(all.skip(k) =~= Seq::empty());
        assert(items.take(k) =~= items);
    } else {
        assert(in_form(items[k].1));
        descriptors_read_back(items[k].1);
        words();
        reveal_with_fuel(member_index, 3);
        reveal_with_fuel(described_constructors, 2);
        reveal_with_fuel(described_fields, 2);
        reveal_with_fuel(described_member, 2);
        assert(all.skip(k)[0] == all[k]);
        let o = all[k]->Object_0;
        assert(o[0] == ("name"@, text_json(items[k].0)));
        assert(o[1] == ("type"@, descriptor(items[k].1)));
        assert(member_index(o, "name"@, 0) == 0);
        assert(member_index(o, "type"@, 0) == 1);
        if k > 0 {
            assert(items.take(k).last() == items[k - 1]);
            assert(before(items[k - 1].0, items[k - 1 + 1].0));
        }
        assert(follows(items.take(k), items[k].0));
        assert(all.skip(k).drop_first() =~= all.skip(k + 1));
        assert(items.take(k).push(items[k]) =~= items.take(k + 1));
        fields_read_back(items, k + 1);
    }
}

proof fn record_reads_back(fields: Seq<(Seq<char>, SConcrete)>)
    requires
        parts_in_form(fields),
        names_ascend(fields),
    ensures
        described(record_descriptor(fields)) == Ok::<SConcrete, SError>(SConcrete::Record(fields)),
    decreases fields, 1nat, 0nat,
{
    words();
    reveal_with_fuel(member_index, 3);
    let o = record_descriptor(fields)->Object_0;
    fields_read_back(fields, 0);
    assert(field_descriptors(fields).skip(0) =~= field_descriptors(fields));
    assert(fields.take(0) =~= Seq::empty());
    assert(member_index(o, "kind"@, 0) == 0);
    assert(member_index(o, "fields"@, 0) == 1);
    descriptor_matches(SConcrete::Record(fields));
    assert(described_as("record"@, o) == Ok::<SConcrete, SError>(SConcrete::Record(fields)));
}

/// Reading the descriptor of a type gives back the type.
pub proof fn descriptors_read_back(t: SConcrete)
    requires
        in_form(t),
    ensures
        described(descriptor(t)) == Ok::<SConcrete, SError>(t),
    decreases t, 1nat, 0nat,
{
    words();
    reveal_with_fuel(descriptor, 2);
    reveal_with_fuel(body_descriptor, 2);
    reveal_with_fuel(in_form, 2);
    reveal_with_fuel(body_in_form, 2);
    reveal_with_fuel(described_member, 2);
    reveal_with_fuel(described_list, 2);
    reveal_with_fuel(member_index, 5);
    descriptor_matches(t);
    let o = descriptor(t)->Object_0;
    assert(member_index(o, "kind"@, 0) == 0);
    match t {
        SConcrete::Named(name, arguments, body) => {
            all_read_back(arguments, 0);
            assert(descriptors(arguments).skip(0) =~= descriptors(arguments));
            assert(arguments.take(0) =~= Seq::empty());
            assert(member_index(o, "name"@, 0) == 1);
            assert(member_index(o, "arguments"@, 0) == 2);
            assert(member_index(o, "body"@, 0) == 3);
            match body {
                SNamedBody::Fields(fields) => {
                    record_reads_back(fields);
                },
                SNamedBody::Alias(inner) => {
                    descriptors_read_back(*inner);
                },
            }
            assert(described_as("named"@, o) == Ok::<SConcrete, SError>(t));
        },
        SConcrete::Adt(name, arguments, constructors) => {
            all_read_back(arguments, 0);
            assert(descriptors(arguments).skip(0) =~= descriptors(arguments));
            assert(arguments.take(0) =~= Seq::empty());
            constructors_read_back(constructors, 0);
            assert(constructor_descriptors(constructors).skip(0) =~= constructor_descriptors(
                constructors,
            ));
            assert(constructors.take(0) =~= Seq::empty());
            assert(member_index(o, "name"@, 0) == 1);
            assert(member_index(o, "arguments"@, 0) == 2);
            assert(member_index(o, "constructors"@, 0) == 3);
            assert(described_as("adt"@, o) == Ok::<SConcrete, SError>(t));
        },
        SConcrete::List(item) => {
            descriptors_read_back(*item);
            assert(member_index(o, "item"@, 0) == 1);
            assert(described_as("list"@, o) == Ok::<SConcrete, SError>(t));
        },
        SConcrete::SetOf(item) => {
            descriptors_read_back(*item);
            assert(member_index(o, "item"@, 0) == 1);
            assert(described_as("set"@, o) == Ok::<SConcrete, SError>(t));
        },
        SConcrete::MapOf(key, value) => {
            descriptors_read_back(*key);
            descriptors_read_back(*value);
            assert(member_index(o, "key"@, 0) == 1);
            assert(member_index(o, "value"@, 0) == 2);
            assert(described_as("map"@, o) == Ok::<SConcrete, SError>(t));
        },
        SConcrete::Record(fields) => {
            record_reads_back(fields);
        },
        SConcrete::Product(items) => {
            all_read_back(items, 0);
            assert(descriptors(items).skip(0) =~= descriptors(items));
            assert(items.take(0) =~= Seq::empty());
            assert(member_index(o, "items"@, 0) == 1);
            assert(described_as("product"@, o) == Ok::<SConcrete, SError>(t));
        },
        _ => {
            assert(member_index(o, "name"@, 0) == 1);
        },
    }
}

/// A document that is read as a type is the descriptor of that type, up to the order of members and
/// to nominal types that are left without a body.
pub proof fn only_descriptors_are_read(j: SJson)
    ensures
        described(j) is Ok ==> json_equal(descriptor(described(j)->Ok_0), filled(j)),
{
}

/// Whether keys stand in their order, each once.
pub open spec fn keys_ascend(members: Seq<(Seq<char>, SJson)>) -> bool {
    forall|i: int, k: int|
        0 <= i < k < members.len() ==> before(#[trigger] members[i].0, #[trigger] members[k].0)
}

/// Whether the values of members are in canonical form.
pub open spec fn values_canonical(members: Seq<(Seq<char>, SJson)>) -> bool {
    forall|i: int|
        0 <= i < members.len() ==> canonical((#[trigger] members[i]).1) == members[i].1
}

/// A member finds its place among members in order, and the others stay in order.
pub proof fn placing_keeps_keys_ascending(
    members: Seq<(Seq<char>, SJson)>,
    key: Seq<char>,
    v: SJson,
)
    requires
        keys_ascend(members),
    ensures
        keys_ascend(with_member(members, key, v)),
        forall|i: int|
            0 <= i < with_member(members, key, v).len() ==> (#[trigger] with_member(
                members,
                key,
                v,
            )[i]) == (key, v) || members.contains(with_member(members, key, v)[i]),
    decreases members.len(),
{
    let made = with_member(members, key, v);
    if members.len() > 0 {
        let rest = members.drop_last();
        let last = members.last();
        assert forall|i: int, k: int| 0 <= i < k < rest.len() implies before(
            #[trigger] rest[i].0,
            #[trigger] rest[k].0,
        ) by {
            assert(rest[i] == members[i] && rest[k] == members[k]);
        }
        if last.0 == key {
            assert forall|i: int, k: int| 0 <= i < k < made.len() implies before(
                #[trigger] made[i].0,
                #[trigger] made[k].0,
            ) by {
                assert(made[i].0 == members[i].0 && made[k].0 == members[k].0);
            }
            assert forall|i: int| 0 <= i < made.len() implies (#[trigger] made[i]) == (key, v)
                || members.contains(made[i]) by {
                if i < members.len() - 1 {
                    assert(made[i] == members[i]);
                }
            }
        } else if before(key, last.0) {
            placing_keeps_keys_ascending(rest, key, v);
            let inner = with_member(rest, key, v);
            assert forall|i: int, k: int| 0 <= i < k < made.len() implies before(
                #[trigger] made[i].0,
                #[trigger] made[k].0,
            ) by {
                if k < inner.len() {
                    assert(made[i] == inner[i] && made[k] == inner[k]);
                } else {
                    assert(made[i] == inner[i]);
                    if inner[i] != (key, v) {
                        assert(rest.contains(inner[i]));
                        let m = choose|m: int| 0 <= m < rest.len() && rest[m] == inner[i];
                        assert(members[m] == inner[i]);
                        assert(before(members[m].0, members[members.len() - 1].0));
                    }
                }
            }
            assert forall|i: int| 0 <= i < made.len() implies (#[trigger] made[i]) == (key, v)
                || members.contains(made[i]) by {
                if i < inner.len() {
                    assert(made[i] == inner[i]);
                    if inner[i] != (key, v) {
                        let m = choose|m: int| 0 <= m < rest.len() && rest[m] == inner[i];
                        assert(members[m] == inner[i]);
                    }
                } else {
                    assert(made[i] == members[members.len() - 1]);
                }
            }
        } else {
            crate::text::before_is_total(key, last.0);
            assert forall|i: int, k: int| 0 <= i < k < made.len() implies before(
                #[trigger] made[i].0,
                #[trigger] made[k].0,
            ) by {
                assert(made[i] == members[i]);
                if k < members.len() {
                    assert(made[k] == members[k]);
                } else if i < members.len() - 1 {
                    assert(before(members[i].0, members[members.len() - 1].0));
                    crate::text::before_is_transitive(members[i].0, last.0, key);
                }
            }
            assert forall|i: int| 0 <= i < made.len() implies (#[trigger] made[i]) == (key, v)
                || members.contains(made[i]) by {
                if i < members.len() {
                    assert(made[i] == members[i]);
                }
            }
        }
    }
}

proof fn ordered_members_stay(members: Seq<(Seq<char>, SJson)>)
    requires
        keys_ascend(members),
        values_canonical(members),
    ensures
        canonical_members(members) == members,
    decreases members.len(),
{
    if members.len() > 0 {
        let rest = members.drop_last();
        let last = members.last();
        assert forall|i: int, k: int| 0 <= i < k < rest.len() implies before(
            #[trigger] rest[i].0,
            #[trigger] rest[k].0,
        ) by {
            assert(rest[i] == members[i] && rest[k] == members[k]);
        }
        assert forall|i: int| 0 <= i < rest.len() implies canonical((#[trigger] rest[i]).1)
            == rest[i].1 by {
            assert(rest[i] == members[i]);
        }
        ordered_members_stay(rest);
        assert(canonical(members[members.len() - 1].1) == last.1);
        if rest.len() > 0 {
            assert(rest.last() == members[members.len() - 2]);
            assert(before(members[members.len() - 2].0, members[members.len() - 1].0));
            crate::text::before_is_total(rest.last().0, last.0);
        }
        assert(rest.push(last) =~= members);
    }
}

/// A canonical document has the members of its objects in the order of their keys, each key once,
/// and making it canonical again changes nothing.
pub proof fn canonical_form_is_stable(j: SJson)
    ensures
        canonical(canonical(j)) == canonical(j),
        j is Object ==> keys_ascend(canonical(j)->Object_0),
    decreases j, 1nat,
{
    match j {
        SJson::Array(items) => {
            canonical_items_are_stable(items);
        },
        SJson::Object(members) => {
            canonical_members_are_stable(members);
            ordered_members_stay(canonical_members(members));
        },
        _ => {},
    }
}

proof fn canonical_items_are_stable(items: Seq<SJson>)
    ensures
        canonical_all(canonical_all(items)) == canonical_all(items),
    decreases items, 0nat,
{
    if items.len() > 0 {
        canonical_items_are_stable(items.drop_last());
        canonical_form_is_stable(items.last());
        let made = canonical_all(items);
        assert(made.drop_last() =~= canonical_all(items.drop_last()));
        assert(made.last() == canonical(items.last()));
    }
}

proof fn canonical_members_are_stable(members: Seq<(Seq<char>, SJson)>)
    ensures
        keys_ascend(canonical_members(members)),
        values_canonical(canonical_members(members)),
    decreases members, 0nat,
{
    if members.len() > 0 {
        let rest = canonical_members(members.drop_last());
        let key = members.last().0;
        let v = canonical(members.last().1);
        canonical_members_are_stable(members.drop_last());
        canonical_form_is_stable(members.last().1);
        placing_keeps_keys_ascending(rest, key, v);
        let made = with_member(rest, key, v);
        assert forall|i: int| 0 <= i < made.len() implies canonical((#[trigger] made[i]).1)
            == made[i].1 by {
            if made[i] != (key, v) {
                assert(rest.contains(made[i]));
                let m = choose|m: int| 0 <= m < rest.len() && rest[m] == made[i];
                assert(canonical(rest[m].1) == rest[m].1);
            }
        }
    }
}

} // verus!
