//! Semantic descriptors: the JSON form of a closed type, and its reading back. What is read must be
//! in the form that is written, so that arbitrary documents never become types.

use vstd::prelude::*;

use crate::concrete::{
    concrete_fields_view, concretes_view, constructors_view, ConcreteConstructor,
    ConcreteNamedBody, ConcreteType, SConcrete, SNamedBody,
};
use crate::error::{MagError, SError};
use crate::json::{
    equal_json, find_member, json_equal, jsons_view, member_index, members_view, place_member,
    placed_member, Json, SJson,
};
use crate::resolve::{concrete_result, type_error};
use crate::text::{before, cat2, comes_before, quoted, quoted_text, same};

verus! {

broadcast use vstd::seq_lib::group_seq_properties;

pub open spec fn text_json(s: Seq<char>) -> SJson {
    SJson::Str(s)
}

pub open spec fn primitive(name: Seq<char>) -> SJson {
    SJson::Object(seq![("kind"@, text_json("primitive"@)), ("name"@, text_json(name))])
}

/// The descriptor of a closed type.
pub open spec fn descriptor(t: SConcrete) -> SJson
    decreases t, 1nat,
{
    match t {
        SConcrete::JsonValue => primitive("JsonValue"@),
        SConcrete::Unit => primitive("Unit"@),
        SConcrete::Bool => primitive("Bool"@),
        SConcrete::Int => primitive("Int"@),
        SConcrete::Float => primitive("Float"@),
        SConcrete::String => primitive("String"@),
        SConcrete::Named(name, arguments, body) => SJson::Object(
            seq![
                ("kind"@, text_json("named"@)),
                ("name"@, text_json(name)),
                ("arguments"@, SJson::Array(descriptors(arguments))),
                ("body"@, body_descriptor(body)),
            ],
        ),
        SConcrete::Adt(name, arguments, constructors) => SJson::Object(
            seq![
                ("kind"@, text_json("adt"@)),
                ("name"@, text_json(name)),
                ("arguments"@, SJson::Array(descriptors(arguments))),
                ("constructors"@, SJson::Array(constructor_descriptors(constructors))),
            ],
        ),
        SConcrete::List(item) => SJson::Object(
            seq![("kind"@, text_json("list"@)), ("item"@, descriptor(*item))],
        ),
        SConcrete::SetOf(item) => SJson::Object(
            seq![("kind"@, text_json("set"@)), ("item"@, descriptor(*item))],
        ),
        SConcrete::MapOf(key, value) => SJson::Object(
            seq![
                ("kind"@, text_json("map"@)),
                ("key"@, descriptor(*key)),
                ("value"@, descriptor(*value)),
            ],
        ),
        SConcrete::Record(fields) => record_descriptor(fields),
        SConcrete::Product(items) => SJson::Object(
            seq![("kind"@, text_json("product"@)), ("items"@, SJson::Array(descriptors(items)))],
        ),
    }
}

pub open spec fn body_descriptor(body: SNamedBody) -> SJson
    decreases body, 1nat,
{
    match body {
        SNamedBody::Fields(fields) => record_descriptor(fields),
        SNamedBody::Alias(t) => descriptor(*t),
    }
}

pub open spec fn record_descriptor(fields: Seq<(Seq<char>, SConcrete)>) -> SJson
    decreases fields, 1nat,
{
    SJson::Object(
        seq![
            ("kind"@, text_json("record"@)),
            ("fields"@, SJson::Array(field_descriptors(fields))),
        ],
    )
}

pub open spec fn descriptors(items: Seq<SConcrete>) -> Seq<SJson>
    decreases items, 0nat,
{
    Seq::new(
        items.len(),
        |i: int|
            if 0 <= i < items.len() {
                descriptor(items[i])
            } else {
                arbitrary()
            },
    )
}

pub open spec fn field_descriptors(fields: Seq<(Seq<char>, SConcrete)>) -> Seq<SJson>
    decreases fields, 0nat,
{
    Seq::new(
        fields.len(),
        |i: int|
            if 0 <= i < fields.len() {
                SJson::Object(
                    seq![("name"@, text_json(fields[i].0)), ("type"@, descriptor(fields[i].1))],
                )
            } else {
                arbitrary()
            },
    )
}

pub open spec fn constructor_descriptors(items: Seq<(Seq<char>, SConcrete)>) -> Seq<SJson>
    decreases items, 0nat,
{
    Seq::new(
        items.len(),
        |i: int|
            if 0 <= i < items.len() {
                SJson::Object(
                    seq![("name"@, text_json(items[i].0)), ("payload"@, descriptor(items[i].1))],
                )
            } else {
                arbitrary()
            },
    )
}

pub(crate) fn string_json(s: &str) -> (r: Json)
    ensures
        r@ == text_json(s@),
{
    Json::Str(s.to_owned())
}

pub(crate) fn array_json(items: Vec<Json>) -> (r: Json)
    ensures
        r@ == SJson::Array(jsons_view(items@)),
{
    Json::Array(items)
}

pub(crate) fn object2(a: &str, x: Json, b: &str, y: Json) -> (r: Json)
    ensures
        r@ == SJson::Object(seq![(a@, x@), (b@, y@)]),
{
    let members = vec![(a.to_owned(), x), (b.to_owned(), y)];
    assert(members_view(members@) =~= seq![(a@, x@), (b@, y@)]);
    Json::Object(members)
}

pub(crate) fn object3(a: &str, x: Json, b: &str, y: Json, c: &str, z: Json) -> (r: Json)
    ensures
        r@ == SJson::Object(seq![(a@, x@), (b@, y@), (c@, z@)]),
{
    let members = vec![(a.to_owned(), x), (b.to_owned(), y), (c.to_owned(), z)];
    assert(members_view(members@) =~= seq![(a@, x@), (b@, y@), (c@, z@)]);
    Json::Object(members)
}

fn object4(a: &str, x: Json, b: &str, y: Json, c: &str, z: Json, d: &str, w: Json) -> (r: Json)
    ensures
        r@ == SJson::Object(seq![(a@, x@), (b@, y@), (c@, z@), (d@, w@)]),
{
    let members = vec![(a.to_owned(), x), (b.to_owned(), y), (c.to_owned(), z), (d.to_owned(), w)];
    assert(members_view(members@) =~= seq![(a@, x@), (b@, y@), (c@, z@), (d@, w@)]);
    Json::Object(members)
}

fn primitive_json(name: &str) -> (r: Json)
    ensures
        r@ == primitive(name@),
{
    object2("kind", string_json("primitive"), "name", string_json(name))
}

pub fn concrete_type_to_json(ty: &ConcreteType) -> (r: Json)
    ensures
        r@ == descriptor(ty@),
    decreases ty, 1nat,
{
    match ty {
        ConcreteType::JsonValue => primitive_json("JsonValue"),
        ConcreteType::Unit => primitive_json("Unit"),
        ConcreteType::Bool => primitive_json("Bool"),
        ConcreteType::Int => primitive_json("Int"),
        ConcreteType::Float => primitive_json("Float"),
        ConcreteType::String => primitive_json("String"),
        ConcreteType::Named { name, arguments, body } => object4(
            "kind",
            string_json("named"),
            "name",
            string_json(name),
            "arguments",
            array_json(types_to_json(arguments)),
            "body",
            body_to_json(body),
        ),
        ConcreteType::Adt { name, arguments, constructors } => object4(
            "kind",
            string_json("adt"),
            "name",
            string_json(name),
            "arguments",
            array_json(types_to_json(arguments)),
            "constructors",
            array_json(constructors_to_json(constructors)),
        ),
        ConcreteType::List { item } => object2(
            "kind",
            string_json("list"),
            "item",
            concrete_type_to_json(item),
        ),
        ConcreteType::SetOf { item } => object2(
            "kind",
            string_json("set"),
            "item",
            concrete_type_to_json(item),
        ),
        ConcreteType::MapOf { key, value } => object3(
            "kind",
            string_json("map"),
            "key",
            concrete_type_to_json(key),
            "value",
            concrete_type_to_json(value),
        ),
        ConcreteType::Record { fields } => record_to_json(fields),
        ConcreteType::Product { items } => object2(
            "kind",
            string_json("product"),
            "items",
            array_json(types_to_json(items)),
        ),
    }
}

fn body_to_json(body: &ConcreteNamedBody) -> (r: Json)
    ensures
        r@ == body_descriptor(body.model()),
    decreases body, 1nat,
{
    match body {
        ConcreteNamedBody::Fields { fields } => record_to_json(fields),
        ConcreteNamedBody::Alias { ty } => concrete_type_to_json(ty),
    }
}

fn record_to_json(fields: &Vec<(String, ConcreteType)>) -> (r: Json)
    ensures
        r@ == record_descriptor(concrete_fields_view(fields@)),
    decreases fields, 1nat,
{
    object2("kind", string_json("record"), "fields", array_json(fields_to_json(fields)))
}

fn types_to_json(items: &Vec<ConcreteType>) -> (r: Vec<Json>)
    ensures
        jsons_view(r@) == descriptors(concretes_view(items@)),
    decreases items, 0nat,
{
    let ghost all = concretes_view(items@);
    let mut r: Vec<Json> = Vec::new();
    let mut i: usize = 0;
    assert(all.len() == items@.len());
    while i < items.len()
        invariant
            i <= items.len(),
            r.len() == i,
            all == concretes_view(items@),
            all.len() == items@.len(),
            forall|j: int| 0 <= j < i ==> (#[trigger] r@[j])@ == descriptor(all[j]),
        decreases items.len() - i,
    {
        assert(all[i as int] == items@[i as int]@);
        r.push(concrete_type_to_json(&items[i]));
        i = i + 1;
    }
    assert(jsons_view(r@) =~= descriptors(all));
    r
}

fn fields_to_json(items: &Vec<(String, ConcreteType)>) -> (r: Vec<Json>)
    ensures
        jsons_view(r@) == field_descriptors(concrete_fields_view(items@)),
    decreases items, 0nat,
{
    let ghost all = concrete_fields_view(items@);
    let mut r: Vec<Json> = Vec::new();
    let mut i: usize = 0;
    assert(all.len() == items@.len());
    while i < items.len()
        invariant
            i <= items.len(),
            r.len() == i,
            all == concrete_fields_view(items@),
            all.len() == items@.len(),
            forall|j: int|
                0 <= j < i ==> (#[trigger] r@[j])@ == SJson::Object(
                    seq![("name"@, text_json(all[j].0)), ("type"@, descriptor(all[j].1))],
                ),
        decreases items.len() - i,
    {
        assert(all[i as int] == (items@[i as int].0@, items@[i as int].1@));
        r.push(
            object2(
                "name",
                string_json(&items[i].0),
                "type",
                concrete_type_to_json(&items[i].1),
            ),
        );
        i = i + 1;
    }
    assert(jsons_view(r@) =~= field_descriptors(all));
    r
}

fn constructors_to_json(items: &Vec<ConcreteConstructor>) -> (r: Vec<Json>)
    ensures
        jsons_view(r@) == constructor_descriptors(constructors_view(items@)),
    decreases items, 0nat,
{
    let ghost all = constructors_view(items@);
    let mut r: Vec<Json> = Vec::new();
    let mut i: usize = 0;
    assert(all.len() == items@.len());
    while i < items.len()
        invariant
            i <= items.len(),
            r.len() == i,
            all == constructors_view(items@),
            all.len() == items@.len(),
            forall|j: int|
                0 <= j < i ==> (#[trigger] r@[j])@ == SJson::Object(
                    seq![("name"@, text_json(all[j].0)), ("payload"@, descriptor(all[j].1))],
                ),
        decreases items.len() - i,
    {
        assert(all[i as int] == (items@[i as int].name@, items@[i as int].payload@));
        r.push(
            object2(
                "name",
                string_json(&items[i].name),
                "payload",
                concrete_type_to_json(&items[i].payload),
            ),
        );
        i = i + 1;
    }
    assert(jsons_view(r@) =~= constructor_descriptors(all));
    r
}

/// The string under a key.
pub open spec fn string_member(o: Seq<(Seq<char>, SJson)>, key: Seq<char>) -> Result<
    Seq<char>,
    SError,
> {
    let i = member_index(o, key, 0);
    if i < o.len() {
        match o[i as int].1 {
            SJson::Str(s) => Ok(s),
            _ => type_error("semantic descriptor needs string "@ + key),
        }
    } else {
        type_error("semantic descriptor needs string "@ + key)
    }
}

fn string_field<'a>(o: &'a Vec<(String, Json)>, key: &str) -> (r: Result<&'a str, MagError>)
    ensures
        match r {
            Ok(s) => string_member(members_view(o@), key@) == Ok::<Seq<char>, SError>(s@),
            Err(e) => string_member(members_view(o@), key@) == Err::<Seq<char>, SError>(e@),
        },
{
    let i = find_member(o, key);
    assert(members_view(o@).len() == o@.len());
    if i < o.len() {
        assert(members_view(o@)[i as int].1 == o@[i as int].1@);
        match &o[i].1 {
            Json::Str(s) => {
                return Ok(s.as_str());
            },
            _ => {},
        }
    }
    Err(MagError::Type(cat2("semantic descriptor needs string ", key)))
}

pub open spec fn primitive_named(name: Seq<char>) -> Result<SConcrete, SError> {
    if name == "JsonValue"@ {
        Ok(SConcrete::JsonValue)
    } else if name == "Unit"@ {
        Ok(SConcrete::Unit)
    } else if name == "Bool"@ {
        Ok(SConcrete::Bool)
    } else if name == "Int"@ {
        Ok(SConcrete::Int)
    } else if name == "Float"@ {
        Ok(SConcrete::Float)
    } else if name == "String"@ {
        Ok(SConcrete::String)
    } else {
        type_error("unknown semantic primitive "@ + quoted_text(name))
    }
}

/// A document in which every nominal type without a body has that of the unit type.
pub open spec fn filled(j: SJson) -> SJson
    decreases j, 1nat,
{
    match j {
        SJson::Array(items) => SJson::Array(filled_all(items)),
        SJson::Object(members) => {
            let inner = filled_members(members);
            if is_named(inner) && member_index(inner, "body"@, 0) >= inner.len() {
                SJson::Object(placed_member(inner, "body"@, primitive("Unit"@)))
            } else {
                SJson::Object(inner)
            }
        },
        _ => j,
    }
}

pub open spec fn is_named(o: Seq<(Seq<char>, SJson)>) -> bool {
    let i = member_index(o, "kind"@, 0);
    i < o.len() && o[i as int].1 == SJson::Str("named"@)
}

pub open spec fn filled_all(items: Seq<SJson>) -> Seq<SJson>
    decreases items, 0nat,
{
    Seq::new(
        items.len(),
        |i: int|
            if 0 <= i < items.len() {
                filled(items[i])
            } else {
                arbitrary()
            },
    )
}

pub open spec fn filled_members(members: Seq<(Seq<char>, SJson)>) -> Seq<(Seq<char>, SJson)>
    decreases members, 0nat,
{
    Seq::new(
        members.len(),
        |i: int|
            if 0 <= i < members.len() {
                (members[i].0, filled(members[i].1))
            } else {
                arbitrary()
            },
    )
}

fn fill_missing_named_bodies(j: &Json) -> (r: Json)
    ensures
        r@ == filled(j@),
    decreases j, 1nat,
{
    match j {
        Json::Array(items) => array_json(fill_all(items)),
        Json::Object(members) => {
            let mut inner = fill_members(members);
            let named = has_named_kind(&inner);
            assert(members_view(inner@).len() == inner@.len());
            if named && find_member(&inner, "body") >= inner.len() {
                place_member(&mut inner, "body".to_owned(), primitive_json("Unit"));
            }
            let r = Json::Object(inner);
            assert(r@ == SJson::Object(members_view(inner@)));
            r
        },
        _ => j.clone(),
    }
}

fn has_named_kind(o: &Vec<(String, Json)>) -> (r: bool)
    ensures
        r == is_named(members_view(o@)),
{
    let i = find_member(o, "kind");
    assert(members_view(o@).len() == o@.len());
    if i < o.len() {
        assert(members_view(o@)[i as int].1 == o@[i as int].1@);
        match &o[i].1 {
            Json::Str(s) => same(s, "named"),
            _ => false,
        }
    } else {
        false
    }
}

fn fill_all(items: &Vec<Json>) -> (r: Vec<Json>)
    ensures
        jsons_view(r@) == filled_all(jsons_view(items@)),
    decreases items, 0nat,
{
    let ghost all = jsons_view(items@);
    let mut r: Vec<Json> = Vec::new();
    let mut i: usize = 0;
    assert(all.len() == items@.len());
    while i < items.len()
        invariant
            i <= items.len(),
            r.len() == i,
            all == jsons_view(items@),
            all.len() == items@.len(),
            forall|j: int| 0 <= j < i ==> (#[trigger] r@[j])@ == filled(all[j]),
        decreases items.len() - i,
    {
        assert(all[i as int] == items@[i as int]@);
        r.push(fill_missing_named_bodies(&items[i]));
        i = i + 1;
    }
    assert(jsons_view(r@) =~= filled_all(all));
    r
}

fn fill_members(members: &Vec<(String, Json)>) -> (r: Vec<(String, Json)>)
    ensures
        members_view(r@) == filled_members(members_view(members@)),
    decreases members, 0nat,
{
    let ghost all = members_view(members@);
    let mut r: Vec<(String, Json)> = Vec::new();
    let mut i: usize = 0;
    assert(all.len() == members@.len());
    while i < members.len()
        invariant
            i <= members.len(),
            r.len() == i,
            all == members_view(members@),
            all.len() == members@.len(),
            forall|j: int|
                0 <= j < i ==> (#[trigger] r@[j]).0@ == all[j].0 && r@[j].1@ == filled(all[j].1),
        decreases members.len() - i,
    {
        assert(all[i as int] == (members@[i as int].0@, members@[i as int].1@));
        r.push((members[i].0.clone(), fill_missing_named_bodies(&members[i].1)));
        i = i + 1;
    }
    assert(members_view(r@) =~= filled_members(all));
    r
}

/// The type that a document describes.
pub open spec fn described(j: SJson) -> Result<SConcrete, SError>
    decreases j, 1nat,
{
    match j {
        SJson::Object(o) => match string_member(o, "kind"@) {
            Err(e) => Err(e),
            Ok(kind) => match described_as(kind, o) {
                Err(e) => Err(e),
                Ok(t) => if json_equal(descriptor(t), filled(j)) {
                    Ok(t)
                } else {
                    type_error("semantic descriptor is not in canonical compiler form"@)
                },
            },
        },
        _ => type_error("semantic descriptor must be an object"@),
    }
}

pub open spec fn described_as(kind: Seq<char>, o: Seq<(Seq<char>, SJson)>) -> Result<
    SConcrete,
    SError,
>
    decreases o, 1nat,
{
    if kind == "primitive"@ {
        match string_member(o, "name"@) {
            Err(e) => Err(e),
            Ok(name) => primitive_named(name),
        }
    } else if kind == "named"@ {
        match string_member(o, "name"@) {
            Err(e) => Err(e),
            Ok(name) => match described_list(o, "arguments"@) {
                Err(e) => Err(e),
                Ok(arguments) => {
                    let i = member_index(o, "body"@, 0);
                    if 0 <= i < o.len() {
                        match described(o[i as int].1) {
                            Err(e) => Err(e),
                            Ok(t) => Ok(SConcrete::Named(name, arguments, body_of(t))),
                        }
                    } else {
                        Ok(SConcrete::Named(name, arguments, body_of(SConcrete::Unit)))
                    }
                },
            },
        }
    } else if kind == "adt"@ {
        let i = member_index(o, "constructors"@, 0);
        if 0 <= i < o.len() && o[i as int].1 is Array {
            match described_constructors(o[i as int].1->Array_0, Seq::empty()) {
                Err(e) => Err(e),
                Ok(constructors) => if constructors.len() == 0 {
                    type_error("ADT descriptor needs constructors"@)
                } else {
                    match string_member(o, "name"@) {
                        Err(e) => Err(e),
                        Ok(name) => match described_list(o, "arguments"@) {
                            Err(e) => Err(e),
                            Ok(arguments) => Ok(SConcrete::Adt(name, arguments, constructors)),
                        },
                    }
                },
            }
        } else {
            type_error("ADT semantic descriptor needs constructors"@)
        }
    } else if kind == "list"@ {
        match described_member(o, "item"@, "list semantic descriptor needs item"@) {
            Err(e) => Err(e),
            Ok(t) => Ok(SConcrete::List(Box::new(t))),
        }
    } else if kind == "set"@ {
        match described_member(o, "item"@, "set semantic descriptor needs item"@) {
            Err(e) => Err(e),
            Ok(t) => Ok(SConcrete::SetOf(Box::new(t))),
        }
    } else if kind == "map"@ {
        match described_member(o, "key"@, "map semantic descriptor needs key"@) {
            Err(e) => Err(e),
            Ok(key) => match described_member(
                o,
                "value"@,
                "map semantic descriptor needs value"@,
            ) {
                Err(e) => Err(e),
                Ok(value) => Ok(SConcrete::MapOf(Box::new(key), Box::new(value))),
            },
        }
    } else if kind == "record"@ {
        let i = member_index(o, "fields"@, 0);
        if 0 <= i < o.len() && o[i as int].1 is Array {
            match described_fields(o[i as int].1->Array_0, Seq::empty()) {
                Err(e) => Err(e),
                Ok(fields) => Ok(SConcrete::Record(fields)),
            }
        } else {
            type_error("record semantic descriptor needs fields"@)
        }
    } else if kind == "union"@ {
        type_error("structural union semantic descriptors are unsupported; declare an ADT"@)
    } else if kind == "product"@ {
        match described_list(o, "items"@) {
            Err(e) => Err(e),
            Ok(items) => if items.len() < 2 {
                type_error("product semantic descriptor needs at least two items"@)
            } else {
                Ok(SConcrete::Product(items))
            },
        }
    } else {
        type_error("unknown semantic descriptor kind "@ + quoted_text(kind))
    }
}

/// What a nominal type stands for, where its body is a given type.
pub open spec fn body_of(t: SConcrete) -> SNamedBody {
    match t {
        SConcrete::Record(fields) => SNamedBody::Fields(fields),
        _ => SNamedBody::Alias(Box::new(t)),
    }
}

pub open spec fn described_member(
    o: Seq<(Seq<char>, SJson)>,
    key: Seq<char>,
    missing: Seq<char>,
) -> Result<SConcrete, SError>
    decreases o, 0nat,
{
    let i = member_index(o, key, 0);
    if 0 <= i < o.len() {
        described(o[i as int].1)
    } else {
        type_error(missing)
    }
}

pub open spec fn described_list(o: Seq<(Seq<char>, SJson)>, key: Seq<char>) -> Result<
    Seq<SConcrete>,
    SError,
>
    decreases o, 0nat,
{
    let i = member_index(o, key, 0);
    if 0 <= i < o.len() && o[i as int].1 is Array {
        described_all(o[i as int].1->Array_0, Seq::empty())
    } else {
        type_error("semantic descriptor needs list "@ + key)
    }
}

/// The types that some documents describe, from the front, after those read before.
pub open spec fn described_all(items: Seq<SJson>, done: Seq<SConcrete>) -> Result<
    Seq<SConcrete>,
    SError,
>
    decreases items, 0nat,
{
    if items.len() == 0 {
        Ok(done)
    } else {
        match described(items[0]) {
            Err(e) => Err(e),
            Ok(t) => described_all(items.drop_first(), done.push(t)),
        }
    }
}

/// Whether a name comes after the last of those before it.
pub open spec fn follows(done: Seq<(Seq<char>, SConcrete)>, name: Seq<char>) -> bool {
    done.len() == 0 || before(done.last().0, name)
}

pub open spec fn described_constructors(
    items: Seq<SJson>,
    done: Seq<(Seq<char>, SConcrete)>,
) -> Result<Seq<(Seq<char>, SConcrete)>, SError>
    decreases items, 0nat,
{
    if items.len() == 0 {
        Ok(done)
    } else {
        match items[0] {
            SJson::Object(o) => match string_member(o, "name"@) {
                Err(e) => Err(e),
                Ok(name) => if !follows(done, name) {
                    type_error("ADT constructors must be uniquely sorted by name"@)
                } else {
                    match described_member(
                        o,
                        "payload"@,
                        "ADT constructor descriptor needs payload"@,
                    ) {
                        Err(e) => Err(e),
                        Ok(t) => described_constructors(items.drop_first(), done.push((name, t))),
                    }
                },
            },
            _ => type_error("ADT constructor descriptor must be an object"@),
        }
    }
}

pub open spec fn described_fields(items: Seq<SJson>, done: Seq<(Seq<char>, SConcrete)>) -> Result<
    Seq<(Seq<char>, SConcrete)>,
    SError,
>
    decreases items, 0nat,
{
    if items.len() == 0 {
        Ok(done)
    } else {
        match items[0] {
            SJson::Object(o) => match string_member(o, "name"@) {
                Err(e) => Err(e),
                Ok(name) => if !follows(done, name) {
                    type_error("record descriptor fields must be uniquely sorted"@)
                } else {
                    match described_member(o, "type"@, "record descriptor field needs type"@) {
                        Err(e) => Err(e),
                        Ok(t) => described_fields(items.drop_first(), done.push((name, t))),
                    }
                },
            },
            _ => type_error("record descriptor field must be an object"@),
        }
    }
}

/// Reads the descriptor that an artifact holds, before anything is decided by it.
pub fn concrete_type_from_json(j: &Json) -> (r: Result<ConcreteType, MagError>)
    ensures
        concrete_result(r) == described(j@),
    decreases j, 1nat,
{
    match j {
        Json::Object(o) => {
            assert(j@ == SJson::Object(members_view(o@)));
            let kind = string_field(o, "kind")?;
            let t = read_kind(kind, o)?;
            if equal_json(&concrete_type_to_json(&t), &fill_missing_named_bodies(j)) {
                Ok(t)
            } else {
                Err(
                    MagError::Type(
                        "semantic descriptor is not in canonical compiler form".to_owned(),
                    ),
                )
            }
        },
        _ => Err(MagError::Type("semantic descriptor must be an object".to_owned())),
    }
}

fn read_primitive(name: &str) -> (r: Result<ConcreteType, MagError>)
    ensures
        concrete_result(r) == primitive_named(name@),
{
    if same(name, "JsonValue") {
        Ok(ConcreteType::JsonValue)
    } else if same(name, "Unit") {
        Ok(ConcreteType::Unit)
    } else if same(name, "Bool") {
        Ok(ConcreteType::Bool)
    } else if same(name, "Int") {
        Ok(ConcreteType::Int)
    } else if same(name, "Float") {
        Ok(ConcreteType::Float)
    } else if same(name, "String") {
        Ok(ConcreteType::String)
    } else {
        Err(MagError::Type(cat2("unknown semantic primitive ", &quoted(name))))
    }
}

fn make_body(t: ConcreteType) -> (r: ConcreteNamedBody)
    ensures
        r.model() == body_of(t@),
{
    match t {
        ConcreteType::Record { fields } => ConcreteNamedBody::Fields { fields },
        _ => ConcreteNamedBody::Alias { ty: Box::new(t) },
    }
}

fn read_kind(kind: &str, o: &Vec<(String, Json)>) -> (r: Result<ConcreteType, MagError>)
    ensures
        concrete_result(r) == described_as(kind@, members_view(o@)),
    decreases o, 2nat,
{
    assert(members_view(o@).len() == o@.len());
    if same(kind, "primitive") {
        read_primitive(string_field(o, "name")?)
    } else if same(kind, "named") {
        let name = string_field(o, "name")?;
        let arguments = read_list(o, "arguments")?;
        let i = find_member(o, "body");
        let body = if i < o.len() {
            assert(members_view(o@)[i as int].1 == o@[i as int].1@);
            make_body(concrete_type_from_json(&o[i].1)?)
        } else {
            make_body(ConcreteType::Unit)
        };
        let name = name.to_owned();
        let r = ConcreteType::Named { name, arguments, body };
        assert(r@ == SConcrete::Named(name@, concretes_view(arguments@), body.model()));
        Ok(r)
    } else if same(kind, "adt") {
        read_adt(o)
    } else if same(kind, "list") {
        let t = read_member(o, "item", "list semantic descriptor needs item")?;
        Ok(ConcreteType::List { item: Box::new(t) })
    } else if same(kind, "set") {
        let t = read_member(o, "item", "set semantic descriptor needs item")?;
        Ok(ConcreteType::SetOf { item: Box::new(t) })
    } else if same(kind, "map") {
        let key = read_member(o, "key", "map semantic descriptor needs key")?;
        let value = read_member(o, "value", "map semantic descriptor needs value")?;
        Ok(ConcreteType::MapOf { key: Box::new(key), value: Box::new(value) })
    } else if same(kind, "record") {
        let i = find_member(o, "fields");
        if i < o.len() {
            assert(members_view(o@)[i as int].1 == o@[i as int].1@);
            match &o[i].1 {
                Json::Array(items) => {
                    let fields = read_fields(items)?;
                    let r = ConcreteType::Record { fields };
                    assert(r@ == SConcrete::Record(concrete_fields_view(fields@)));
                    return Ok(r);
                },
                _ => {},
            }
        }
        Err(MagError::Type("record semantic descriptor needs fields".to_owned()))
    } else if same(kind, "union") {
        Err(
            MagError::Type(
                "structural union semantic descriptors are unsupported; declare an ADT".to_owned(),
            ),
        )
    } else if same(kind, "product") {
        let items = read_list(o, "items")?;
        assert(concretes_view(items@).len() == items@.len());
        if items.len() < 2 {
            Err(
                MagError::Type(
                    "product semantic descriptor needs at least two items".to_owned(),
                ),
            )
        } else {
            let r = ConcreteType::Product { items };
            assert(r@ == SConcrete::Product(concretes_view(items@)));
            Ok(r)
        }
    } else {
        Err(MagError::Type(cat2("unknown semantic descriptor kind ", &quoted(kind))))
    }
}

fn read_adt(o: &Vec<(String, Json)>) -> (r: Result<ConcreteType, MagError>)
    ensures
        concrete_result(r) == described_as("adt"@, members_view(o@)),
    decreases o, 1nat,
{
    proof {
        reveal_strlit("adt");
        reveal_strlit("primitive");
        reveal_strlit("named");
        assert("adt"@.len() == 3);
        assert("primitive"@.len() == 9);
        assert("named"@.len() == 5);
        assert(members_view(o@).len() == o@.len());
    }
    let i = find_member(o, "constructors");
    if i < o.len() {
        assert(members_view(o@)[i as int].1 == o@[i as int].1@);
        match &o[i].1 {
            Json::Array(items) => {
                let constructors = read_constructors(items)?;
                assert(constructors_view(constructors@).len() == constructors@.len());
                if constructors.len() == 0 {
                    return Err(MagError::Type("ADT descriptor needs constructors".to_owned()));
                }
                let name = string_field(o, "name")?.to_owned();
                let arguments = read_list(o, "arguments")?;
                let r = ConcreteType::Adt { name, arguments, constructors };
                assert(r@ == SConcrete::Adt(
                    name@,
                    concretes_view(arguments@),
                    constructors_view(constructors@),
                ));
                return Ok(r);
            },
            _ => {},
        }
    }
    Err(MagError::Type("ADT semantic descriptor needs constructors".to_owned()))
}

fn read_member(o: &Vec<(String, Json)>, key: &str, missing: &str) -> (r: Result<
    ConcreteType,
    MagError,
>)
    ensures
        concrete_result(r) == described_member(members_view(o@), key@, missing@),
    decreases o, 0nat,
{
    let i = find_member(o, key);
    assert(members_view(o@).len() == o@.len());
    if i < o.len() {
        assert(members_view(o@)[i as int].1 == o@[i as int].1@);
        concrete_type_from_json(&o[i].1)
    } else {
        Err(MagError::Type(missing.to_owned()))
    }
}

pub open spec fn concretes_result(r: Result<Vec<ConcreteType>, MagError>) -> Result<
    Seq<SConcrete>,
    SError,
> {
    match r {
        Ok(t) => Ok(concretes_view(t@)),
        Err(e) => Err(e@),
    }
}

fn read_list(o: &Vec<(String, Json)>, key: &str) -> (r: Result<Vec<ConcreteType>, MagError>)
    ensures
        concretes_result(r) == described_list(members_view(o@), key@),
    decreases o, 0nat,
{
    let i = find_member(o, key);
    assert(members_view(o@).len() == o@.len());
    if i < o.len() {
        assert(members_view(o@)[i as int].1 == o@[i as int].1@);
        match &o[i].1 {
            Json::Array(items) => {
                return read_all(items);
            },
            _ => {},
        }
    }
    Err(MagError::Type(cat2("semantic descriptor needs list ", key)))
}

fn read_all(items: &Vec<Json>) -> (r: Result<Vec<ConcreteType>, MagError>)
    ensures
        concretes_result(r) == described_all(jsons_view(items@), Seq::empty()),
    decreases items, 0nat,
{
    let ghost all = jsons_view(items@);
    let ghost whole = described_all(all, Seq::empty());
    let mut done: Vec<ConcreteType> = Vec::new();
    let mut i: usize = 0;
    proof {
        assert(all.len() == items@.len());
        assert(all.skip(0) =~= all);
        assert(concretes_view(done@) =~= Seq::empty());
    }
    while i < items.len()
        invariant
            i <= items.len(),
            all == jsons_view(items@),
            all.len() == items@.len(),
            whole == described_all(all, Seq::empty()),
            whole == described_all(all.skip(i as int), concretes_view(done@)),
        decreases items.len() - i,
    {
        let ghost so_far = concretes_view(done@);
        proof {
            assert(all.skip(i as int)[0] == items@[i as int]@);
            assert(all.skip(i as int).drop_first() =~= all.skip(i + 1));
        }
        let t = concrete_type_from_json(&items[i])?;
        done.push(t);
        assert(concretes_view(done@) =~= so_far.push(t@));
        i = i + 1;
    }
    Ok(done)
}

pub open spec fn constructors_result(r: Result<Vec<ConcreteConstructor>, MagError>) -> Result<
    Seq<(Seq<char>, SConcrete)>,
    SError,
> {
    match r {
        Ok(t) => Ok(constructors_view(t@)),
        Err(e) => Err(e@),
    }
}

fn read_constructors(items: &Vec<Json>) -> (r: Result<Vec<ConcreteConstructor>, MagError>)
    ensures
        constructors_result(r) == described_constructors(jsons_view(items@), Seq::empty()),
    decreases items, 0nat,
{
    let ghost all = jsons_view(items@);
    let ghost whole = described_constructors(all, Seq::empty());
    let mut done: Vec<ConcreteConstructor> = Vec::new();
    let mut i: usize = 0;
    proof {
        assert(all.len() == items@.len());
        assert(all.skip(0) =~= all);
        assert(constructors_view(done@) =~= Seq::empty());
    }
    while i < items.len()
        invariant
            i <= items.len(),
            done@.len() == i,
            constructors_view(done@).len() == i,
            all == jsons_view(items@),
            all.len() == items@.len(),
            whole == described_constructors(all, Seq::empty()),
            whole == described_constructors(all.skip(i as int), constructors_view(done@)),
        decreases items.len() - i,
    {
        let ghost so_far = constructors_view(done@);
        proof {
            assert(all.skip(i as int)[0] == items@[i as int]@);
            assert(all.skip(i as int).drop_first() =~= all.skip(i + 1));
        }
        match &items[i] {
            Json::Object(o) => {
                assert(items@[i as int]@ == SJson::Object(members_view(o@)));
                let name = string_field(o, "name")?;
                if i > 0 {
                    assert(so_far.last() == (done@[i - 1].name@, done@[i - 1].payload@));
                }
                if i > 0 && !comes_before(&done[i - 1].name, name) {
                    return Err(
                        MagError::Type(
                            "ADT constructors must be uniquely sorted by name".to_owned(),
                        ),
                    );
                }
                let payload = read_member(
                    o,
                    "payload",
                    "ADT constructor descriptor needs payload",
                )?;
                let c = ConcreteConstructor { name: name.to_owned(), payload };
                done.push(c);
                assert(constructors_view(done@) =~= so_far.push((name@, payload@)));
            },
            _ => {
                return Err(
                    MagError::Type("ADT constructor descriptor must be an object".to_owned()),
                );
            },
        }
        i = i + 1;
    }
    Ok(done)
}

pub open spec fn concrete_fields_result(r: Result<Vec<(String, ConcreteType)>, MagError>) -> Result<
    Seq<(Seq<char>, SConcrete)>,
    SError,
> {
    match r {
        Ok(t) => Ok(concrete_fields_view(t@)),
        Err(e) => Err(e@),
    }
}

fn read_fields(items: &Vec<Json>) -> (r: Result<Vec<(String, ConcreteType)>, MagError>)
    ensures
        concrete_fields_result(r) == described_fields(jsons_view(items@), Seq::empty()),
    decreases items, 0nat,
{
    let ghost all = jsons_view(items@);
    let ghost whole = described_fields(all, Seq::empty());
    let mut done: Vec<(String, ConcreteType)> = Vec::new();
    let mut i: usize = 0;
    proof {
        assert(all.len() == items@.len());
        assert(all.skip(0) =~= all);
        assert(concrete_fields_view(done@) =~= Seq::empty());
    }
    while i < items.len()
        invariant
            i <= items.len(),
            done@.len() == i,
            concrete_fields_view(done@).len() == i,
            all == jsons_view(items@),
            all.len() == items@.len(),
            whole == described_fields(all, Seq::empty()),
            whole == described_fields(all.skip(i as int), concrete_fields_view(done@)),
        decreases items.len() - i,
    {
        let ghost so_far = concrete_fields_view(done@);
        proof {
            assert(all.skip(i as int)[0] == items@[i as int]@);
            assert(all.skip(i as int).drop_first() =~= all.skip(i + 1));
        }
        match &items[i] {
            Json::Object(o) => {
                assert(items@[i as int]@ == SJson::Object(members_view(o@)));
                let name = string_field(o, "name")?;
                if i > 0 {
                    assert(so_far.last() == (done@[i - 1].0@, done@[i - 1].1@));
                }
                if i > 0 && !comes_before(&done[i - 1].0, name) {
                    return Err(
                        MagError::Type(
                            "record descriptor fields must be uniquely sorted".to_owned(),
                        ),
                    );
                }
                let t = read_member(o, "type", "record descriptor field needs type")?;
                let ghost entry = (name@, t@);
                done.push((name.to_owned(), t));
                assert(concrete_fields_view(done@) =~= so_far.push(entry));
            },
            _ => {
                return Err(
                    MagError::Type("record descriptor field must be an object".to_owned()),
                );
            },
        }
        i = i + 1;
    }
    Ok(done)
}

} // verus!
