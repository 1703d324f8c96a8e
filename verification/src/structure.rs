//! The text of a closed type with all that it is made of, as messages about two closed types that
//! do not fit show it.

use vstd::prelude::*;

use crate::concrete::{
    concrete_fields_view, concretes_view, constructors_view, ConcreteConstructor,
    ConcreteNamedBody, ConcreteType, SConcrete, SNamedBody,
};
use crate::text::{cat2, cat3, cat4, cat5, join, joined, quoted, quoted_text, strings};

verus! {

broadcast use vstd::seq_lib::group_seq_properties;

/// The text of a closed type: the word of its kind, and its parts with their names.
pub open spec fn structure_text(t: SConcrete) -> Seq<char>
    decreases t, 1nat,
{
    match t {
        SConcrete::JsonValue => "JsonValue"@,
        SConcrete::Unit => "Unit"@,
        SConcrete::Bool => "Bool"@,
        SConcrete::Int => "Int"@,
        SConcrete::Float => "Float"@,
        SConcrete::String => "String"@,
        SConcrete::Named(name, arguments, body) => "Named { name: "@ + quoted_text(name)
            + ", arguments: ["@ + joined(structure_texts(arguments), ", "@) + "], body: "@
            + body_text(body) + " }"@,
        SConcrete::Adt(name, arguments, constructors) => "Adt { name: "@ + quoted_text(name)
            + ", arguments: ["@ + joined(structure_texts(arguments), ", "@)
            + "], constructors: ["@ + joined(constructor_texts(constructors), ", "@) + "] }"@,
        SConcrete::List(item) => "List { item: "@ + structure_text(*item) + " }"@,
        SConcrete::SetOf(item) => "Set { item: "@ + structure_text(*item) + " }"@,
        SConcrete::MapOf(key, value) => "Map { key: "@ + structure_text(*key) + ", value: "@
            + structure_text(*value) + " }"@,
        SConcrete::Record(fields) => "Record { fields: {"@ + joined(entry_texts(fields), ", "@)
            + "} }"@,
        SConcrete::Product(items) => "Product { items: ["@ + joined(structure_texts(items), ", "@)
            + "] }"@,
    }
}

pub open spec fn body_text(body: SNamedBody) -> Seq<char>
    decreases body, 1nat,
{
    match body {
        SNamedBody::Fields(fields) => "Fields { fields: {"@ + joined(entry_texts(fields), ", "@)
            + "} }"@,
        SNamedBody::Alias(t) => "Alias { ty: "@ + structure_text(*t) + " }"@,
    }
}

pub open spec fn structure_texts(items: Seq<SConcrete>) -> Seq<Seq<char>>
    decreases items, 0nat,
{
    Seq::new(
        items.len(),
        |i: int|
            if 0 <= i < items.len() {
                structure_text(items[i])
            } else {
                arbitrary()
            },
    )
}

pub open spec fn entry_texts(items: Seq<(Seq<char>, SConcrete)>) -> Seq<Seq<char>>
    decreases items, 0nat,
{
    Seq::new(
        items.len(),
        |i: int|
            if 0 <= i < items.len() {
                quoted_text(items[i].0) + ": "@ + structure_text(items[i].1)
            } else {
                arbitrary()
            },
    )
}

pub open spec fn constructor_texts(items: Seq<(Seq<char>, SConcrete)>) -> Seq<Seq<char>>
    decreases items, 0nat,
{
    Seq::new(
        items.len(),
        |i: int|
            if 0 <= i < items.len() {
                "ConcreteConstructor { name: "@ + quoted_text(items[i].0) + ", payload: "@
                    + structure_text(items[i].1) + " }"@
            } else {
                arbitrary()
            },
    )
}

impl ConcreteType {
    /// The text of the type with all that it is made of.
    pub fn structure(&self) -> (r: String)
        ensures
            r@ == structure_text(self@),
        decreases self, 1nat,
    {
        match self {
            ConcreteType::JsonValue => "JsonValue".to_owned(),
            ConcreteType::Unit => "Unit".to_owned(),
            ConcreteType::Bool => "Bool".to_owned(),
            ConcreteType::Int => "Int".to_owned(),
            ConcreteType::Float => "Float".to_owned(),
            ConcreteType::String => "String".to_owned(),
            ConcreteType::Named { name, arguments, body } => {
                let head = cat4(
                    "Named { name: ",
                    &quoted(name),
                    ", arguments: [",
                    &join(&show_structures(arguments), ", "),
                );
                cat4(&head, "], body: ", &body.structure(), " }")
            },
            ConcreteType::Adt { name, arguments, constructors } => {
                let head = cat4(
                    "Adt { name: ",
                    &quoted(name),
                    ", arguments: [",
                    &join(&show_structures(arguments), ", "),
                );
                cat4(
                    &head,
                    "], constructors: [",
                    &join(&show_constructors(constructors), ", "),
                    "] }",
                )
            },
            ConcreteType::List { item } => cat3("List { item: ", &item.structure(), " }"),
            ConcreteType::SetOf { item } => cat3("Set { item: ", &item.structure(), " }"),
            ConcreteType::MapOf { key, value } => cat5(
                "Map { key: ",
                &key.structure(),
                ", value: ",
                &value.structure(),
                " }",
            ),
            ConcreteType::Record { fields } => cat3(
                "Record { fields: {",
                &join(&show_entries(fields), ", "),
                "} }",
            ),
            ConcreteType::Product { items } => cat3(
                "Product { items: [",
                &join(&show_structures(items), ", "),
                "] }",
            ),
        }
    }
}

impl ConcreteNamedBody {
    fn structure(&self) -> (r: String)
        ensures
            r@ == body_text(self@),
        decreases self, 1nat,
    {
        match self {
            ConcreteNamedBody::Fields { fields } => cat3(
                "Fields { fields: {",
                &join(&show_entries(fields), ", "),
                "} }",
            ),
            ConcreteNamedBody::Alias { ty } => cat3("Alias { ty: ", &ty.structure(), " }"),
        }
    }
}

fn show_structures(items: &Vec<ConcreteType>) -> (r: Vec<String>)
    ensures
        strings(r@) == structure_texts(concretes_view(items@)),
    decreases items, 0nat,
{
    let mut r: Vec<String> = Vec::new();
    let mut i: usize = 0;
    while i < items.len()
        invariant
            i <= items.len(),
            r.len() == i,
            forall|j: int| 0 <= j < i ==> (#[trigger] r@[j])@ == structure_text(items@[j]@),
        decreases items.len() - i,
    {
        r.push(items[i].structure());
        i = i + 1;
    }
    assert(strings(r@) =~= structure_texts(concretes_view(items@)));
    r
}

fn show_entries(items: &Vec<(String, ConcreteType)>) -> (r: Vec<String>)
    ensures
        strings(r@) == entry_texts(concrete_fields_view(items@)),
    decreases items, 0nat,
{
    let mut r: Vec<String> = Vec::new();
    let mut i: usize = 0;
    while i < items.len()
        invariant
            i <= items.len(),
            r.len() == i,
            forall|j: int|
                0 <= j < i ==> (#[trigger] r@[j])@ == quoted_text(items@[j].0@) + ": "@
                    + structure_text(items@[j].1@),
        decreases items.len() - i,
    {
        r.push(cat3(&quoted(&items[i].0), ": ", &items[i].1.structure()));
        i = i + 1;
    }
    assert(strings(r@) =~= entry_texts(concrete_fields_view(items@)));
    r
}

fn show_constructors(items: &Vec<ConcreteConstructor>) -> (r: Vec<String>)
    ensures
        strings(r@) == constructor_texts(constructors_view(items@)),
    decreases items, 0nat,
{
    let mut r: Vec<String> = Vec::new();
    let mut i: usize = 0;
    while i < items.len()
        invariant
            i <= items.len(),
            r.len() == i,
            forall|j: int|
                0 <= j < i ==> (#[trigger] r@[j])@ == "ConcreteConstructor { name: "@
                    + quoted_text(items@[j].name@) + ", payload: "@ + structure_text(
                    items@[j].payload@,
                ) + " }"@,
        decreases items.len() - i,
    {
        r.push(
            cat5(
                "ConcreteConstructor { name: ",
                &quoted(&items[i].name),
                ", payload: ",
                &items[i].payload.structure(),
                " }",
            ),
        );
        i = i + 1;
    }
    assert(strings(r@) =~= constructor_texts(constructors_view(items@)));
    r
}

} // verus!
