//! Types: the checker's types, the closed types of runtime descriptors, and the rules by which
//! graph edges supply inputs.

use vstd::prelude::*;

use crate::text::{cat3, cat4, cat5, join, joined, same, strings};

verus! {

/// A type of the language.
#[derive(Debug)]
pub enum MagType {
    Artifact,
    JsonValue,
    TypeDescriptor,
    TypeSchema,
    SemanticTypeId,
    PackedValue,
    HostInputs,
    Never,
    Unit,
    Bool,
    Int,
    Float,
    String,
    Var(String),
    Named(String, Vec<MagType>),
    TypeTag(Box<MagType>),
    List(Box<MagType>),
    SetOf(Box<MagType>),
    EmptyList,
    MapOf(Box<MagType>, Box<MagType>),
    /// The fields in the order of their names.
    Record(Vec<(String, MagType)>),
    Product(Vec<MagType>),
    Function(Vec<MagType>, Box<MagType>),
}

/// The model of a [`MagType`].
#[verifier::ext_equal]
pub enum SType {
    Artifact,
    JsonValue,
    TypeDescriptor,
    TypeSchema,
    SemanticTypeId,
    PackedValue,
    HostInputs,
    Never,
    Unit,
    Bool,
    Int,
    Float,
    String,
    Var(Seq<char>),
    Named(Seq<char>, Seq<SType>),
    TypeTag(Box<SType>),
    List(Box<SType>),
    SetOf(Box<SType>),
    EmptyList,
    MapOf(Box<SType>, Box<SType>),
    Record(Seq<(Seq<char>, SType)>),
    Product(Seq<SType>),
    Function(Seq<SType>, Box<SType>),
}

impl MagType {
    pub open spec fn model(self) -> SType
        decreases self,
    {
        match self {
            MagType::Artifact => SType::Artifact,
            MagType::JsonValue => SType::JsonValue,
            MagType::TypeDescriptor => SType::TypeDescriptor,
            MagType::TypeSchema => SType::TypeSchema,
            MagType::SemanticTypeId => SType::SemanticTypeId,
            MagType::PackedValue => SType::PackedValue,
            MagType::HostInputs => SType::HostInputs,
            MagType::Never => SType::Never,
            MagType::Unit => SType::Unit,
            MagType::Bool => SType::Bool,
            MagType::Int => SType::Int,
            MagType::Float => SType::Float,
            MagType::String => SType::String,
            MagType::EmptyList => SType::EmptyList,
            MagType::Var(n) => SType::Var(n@),
            MagType::Named(n, a) => SType::Named(n@, types_view(a@)),
            MagType::TypeTag(t) => SType::TypeTag(Box::new(t.model())),
            MagType::List(t) => SType::List(Box::new(t.model())),
            MagType::SetOf(t) => SType::SetOf(Box::new(t.model())),
            MagType::MapOf(k, v) => SType::MapOf(Box::new(k.model()), Box::new(v.model())),
            MagType::Record(f) => SType::Record(fields_view(f@)),
            MagType::Product(a) => SType::Product(types_view(a@)),
            MagType::Function(a, r) => SType::Function(types_view(a@), Box::new(r.model())),
        }
    }
}

pub open spec fn types_view(items: Seq<MagType>) -> Seq<SType>
    decreases items,
{
    Seq::new(
        items.len(),
        |i: int|
            if 0 <= i < items.len() {
                items[i].model()
            } else {
                arbitrary()
            },
    )
}

pub open spec fn fields_view(items: Seq<(String, MagType)>) -> Seq<(Seq<char>, SType)>
    decreases items,
{
    Seq::new(
        items.len(),
        |i: int|
            if 0 <= i < items.len() {
                (items[i].0@, items[i].1.model())
            } else {
                arbitrary()
            },
    )
}

impl View for MagType {
    type V = SType;

    open spec fn view(&self) -> SType {
        self.model()
    }
}

impl Clone for MagType {
    fn clone(&self) -> (r: MagType)
        ensures
            r@ == self@,
        decreases self,
    {
        match self {
            MagType::Artifact => MagType::Artifact,
            MagType::JsonValue => MagType::JsonValue,
            MagType::TypeDescriptor => MagType::TypeDescriptor,
            MagType::TypeSchema => MagType::TypeSchema,
            MagType::SemanticTypeId => MagType::SemanticTypeId,
            MagType::PackedValue => MagType::PackedValue,
            MagType::HostInputs => MagType::HostInputs,
            MagType::Never => MagType::Never,
            MagType::Unit => MagType::Unit,
            MagType::Bool => MagType::Bool,
            MagType::Int => MagType::Int,
            MagType::Float => MagType::Float,
            MagType::String => MagType::String,
            MagType::EmptyList => MagType::EmptyList,
            MagType::Var(n) => MagType::Var(n.clone()),
            MagType::Named(n, a) => MagType::Named(n.clone(), clone_types(a)),
            MagType::TypeTag(t) => MagType::TypeTag(Box::new((**t).clone())),
            MagType::List(t) => MagType::List(Box::new((**t).clone())),
            MagType::SetOf(t) => MagType::SetOf(Box::new((**t).clone())),
            MagType::MapOf(k, v) => MagType::MapOf(Box::new((**k).clone()), Box::new((**v).clone())),
            MagType::Record(f) => MagType::Record(clone_fields(f)),
            MagType::Product(a) => MagType::Product(clone_types(a)),
            MagType::Function(a, r) => MagType::Function(clone_types(a), Box::new((**r).clone())),
        }
    }
}

pub fn clone_types(items: &Vec<MagType>) -> (r: Vec<MagType>)
    ensures
        types_view(r@) == types_view(items@),
    decreases items,
{
    let mut r: Vec<MagType> = Vec::new();
    let mut i: usize = 0;
    while i < items.len()
        invariant
            i <= items.len(),
            r.len() == i,
            forall|j: int| 0 <= j < i ==> (#[trigger] r@[j])@ == items@[j]@,
        decreases items.len() - i,
    {
        r.push(items[i].clone());
        i = i + 1;
    }
    assert(types_view(r@) =~= types_view(items@));
    r
}

pub fn clone_fields(items: &Vec<(String, MagType)>) -> (r: Vec<(String, MagType)>)
    ensures
        fields_view(r@) == fields_view(items@),
    decreases items,
{
    let mut r: Vec<(String, MagType)> = Vec::new();
    let mut i: usize = 0;
    while i < items.len()
        invariant
            i <= items.len(),
            r.len() == i,
            forall|j: int|
                0 <= j < i ==> (#[trigger] r@[j]).0@ == items@[j].0@ && r@[j].1@ == items@[j].1@,
        decreases items.len() - i,
    {
        r.push((items[i].0.clone(), items[i].1.clone()));
        i = i + 1;
    }
    assert(fields_view(r@) =~= fields_view(items@));
    r
}

impl MagType {
    /// Whether two types are the same.
    pub fn equals(&self, other: &MagType) -> (r: bool)
        ensures
            r == (self@ == other@),
        decreases self,
    {
        match (self, other) {
            (MagType::Artifact, MagType::Artifact) => true,
            (MagType::JsonValue, MagType::JsonValue) => true,
            (MagType::TypeDescriptor, MagType::TypeDescriptor) => true,
            (MagType::TypeSchema, MagType::TypeSchema) => true,
            (MagType::SemanticTypeId, MagType::SemanticTypeId) => true,
            (MagType::PackedValue, MagType::PackedValue) => true,
            (MagType::HostInputs, MagType::HostInputs) => true,
            (MagType::Never, MagType::Never) => true,
            (MagType::Unit, MagType::Unit) => true,
            (MagType::Bool, MagType::Bool) => true,
            (MagType::Int, MagType::Int) => true,
            (MagType::Float, MagType::Float) => true,
            (MagType::String, MagType::String) => true,
            (MagType::EmptyList, MagType::EmptyList) => true,
            (MagType::Var(a), MagType::Var(b)) => same(a, b),
            (MagType::Named(a, x), MagType::Named(b, y)) => same(a, b) && equal_types(x, y),
            (MagType::TypeTag(a), MagType::TypeTag(b)) => a.equals(b),
            (MagType::List(a), MagType::List(b)) => a.equals(b),
            (MagType::SetOf(a), MagType::SetOf(b)) => a.equals(b),
            (MagType::MapOf(a, x), MagType::MapOf(b, y)) => a.equals(b) && x.equals(y),
            (MagType::Record(a), MagType::Record(b)) => equal_fields(a, b),
            (MagType::Product(a), MagType::Product(b)) => equal_types(a, b),
            (MagType::Function(a, x), MagType::Function(b, y)) => equal_types(a, b) && x.equals(y),
            _ => false,
        }
    }
}

pub fn equal_types(a: &Vec<MagType>, b: &Vec<MagType>) -> (r: bool)
    ensures
        r == (types_view(a@) == types_view(b@)),
    decreases a,
{
    if a.len() != b.len() {
        assert(types_view(a@).len() != types_view(b@).len());
        return false;
    }
    let mut i: usize = 0;
    while i < a.len()
        invariant
            i <= a.len(),
            a.len() == b.len(),
            forall|j: int| 0 <= j < i ==> (#[trigger] a@[j])@ == b@[j]@,
        decreases a.len() - i,
    {
        if !a[i].equals(&b[i]) {
            assert(types_view(a@)[i as int] != types_view(b@)[i as int]);
            return false;
        }
        i = i + 1;
    }
    assert(types_view(a@) =~= types_view(b@));
    true
}

pub fn equal_fields(a: &Vec<(String, MagType)>, b: &Vec<(String, MagType)>) -> (r: bool)
    ensures
        r == (fields_view(a@) == fields_view(b@)),
    decreases a,
{
    if a.len() != b.len() {
        assert(fields_view(a@).len() != fields_view(b@).len());
        return false;
    }
    let mut i: usize = 0;
    while i < a.len()
        invariant
            i <= a.len(),
            a.len() == b.len(),
            forall|j: int|
                0 <= j < i ==> (#[trigger] a@[j]).0@ == b@[j].0@ && a@[j].1@ == b@[j].1@,
        decreases a.len() - i,
    {
        if !same(&a[i].0, &b[i].0) || !a[i].1.equals(&b[i].1) {
            assert(fields_view(a@)[i as int] != fields_view(b@)[i as int]);
            return false;
        }
        i = i + 1;
    }
    assert(fields_view(a@) =~= fields_view(b@));
    true
}

/// The text of a type, as messages show it.
#[verifier::opaque]
pub open spec fn type_text(t: SType) -> Seq<char>
    decreases t,
{
    match t {
        SType::Artifact => "Artifact"@,
        SType::JsonValue => "JsonValue"@,
        SType::TypeDescriptor => "TypeDescriptor"@,
        SType::TypeSchema => "TypeSchema"@,
        SType::SemanticTypeId => "SemanticTypeId"@,
        SType::PackedValue => "PackedValue"@,
        SType::HostInputs => "HostInputs"@,
        SType::Never => "Never"@,
        SType::Unit => "Unit"@,
        SType::Bool => "Bool"@,
        SType::Int => "Int"@,
        SType::Float => "Float"@,
        SType::String => "String"@,
        SType::Var(n) => n,
        SType::Named(n, a) => if a.len() == 0 {
            n
        } else {
            "("@ + n + " "@ + joined(type_texts(a), " "@) + ")"@
        },
        SType::TypeTag(t) => "(TypeTag "@ + type_text(*t) + ")"@,
        SType::List(t) => "(List "@ + type_text(*t) + ")"@,
        SType::SetOf(t) => "(Set "@ + type_text(*t) + ")"@,
        SType::EmptyList => "(List _)"@,
        SType::MapOf(k, v) => "(Map "@ + type_text(*k) + " "@ + type_text(*v) + ")"@,
        SType::Record(f) => "{"@ + joined(field_texts(f), " "@) + "}"@,
        SType::Product(a) => "("@ + joined(type_texts(a), " + "@) + ")"@,
        SType::Function(a, r) => "(Fn "@ + joined(type_texts(a).push(type_text(*r)), " "@) + ")"@,
    }
}

pub open spec fn type_texts(items: Seq<SType>) -> Seq<Seq<char>>
    decreases items,
{
    Seq::new(
        items.len(),
        |i: int|
            if 0 <= i < items.len() {
                type_text(items[i])
            } else {
                arbitrary()
            },
    )
}

pub open spec fn field_texts(items: Seq<(Seq<char>, SType)>) -> Seq<Seq<char>>
    decreases items,
{
    Seq::new(
        items.len(),
        |i: int|
            if 0 <= i < items.len() {
                ":"@ + items[i].0 + " "@ + type_text(items[i].1)
            } else {
                arbitrary()
            },
    )
}

impl MagType {
    /// The text of the type, as messages show it.
    pub fn show(&self) -> (r: String)
        ensures
            r@ == type_text(self@),
        decreases self, 1nat,
    {
        proof {
            reveal(type_text);
        }
        match self {
            MagType::Artifact => "Artifact".to_owned(),
            MagType::JsonValue => "JsonValue".to_owned(),
            MagType::TypeDescriptor => "TypeDescriptor".to_owned(),
            MagType::TypeSchema => "TypeSchema".to_owned(),
            MagType::SemanticTypeId => "SemanticTypeId".to_owned(),
            MagType::PackedValue => "PackedValue".to_owned(),
            MagType::HostInputs => "HostInputs".to_owned(),
            MagType::Never => "Never".to_owned(),
            MagType::Unit => "Unit".to_owned(),
            MagType::Bool => "Bool".to_owned(),
            MagType::Int => "Int".to_owned(),
            MagType::Float => "Float".to_owned(),
            MagType::String => "String".to_owned(),
            MagType::Var(n) => n.clone(),
            MagType::Named(n, a) => {
                assert(types_view(a@).len() == a@.len());
                if a.len() == 0 {
                    n.clone()
                } else {
                    let parts = show_types(a);
                    cat5("(", n, " ", &join(&parts, " "), ")")
                }
            },
            MagType::TypeTag(t) => cat3("(TypeTag ", &t.show(), ")"),
            MagType::List(t) => cat3("(List ", &t.show(), ")"),
            MagType::SetOf(t) => cat3("(Set ", &t.show(), ")"),
            MagType::EmptyList => "(List _)".to_owned(),
            MagType::MapOf(k, v) => cat5("(Map ", &k.show(), " ", &v.show(), ")"),
            MagType::Record(f) => {
                let parts = show_fields(f);
                cat3("{", &join(&parts, " "), "}")
            },
            MagType::Product(a) => {
                let parts = show_types(a);
                cat3("(", &join(&parts, " + "), ")")
            },
            MagType::Function(a, r) => {
                let mut parts = show_types(a);
                let ghost first = strings(parts@);
                let last = r.show();
                parts.push(last);
                proof {
                    assert(strings(parts@) =~= first.push(last@));
                }
                cat3("(Fn ", &join(&parts, " "), ")")
            },
        }
    }
}

pub fn show_types(items: &Vec<MagType>) -> (r: Vec<String>)
    ensures
        strings(r@) == type_texts(types_view(items@)),
    decreases items, 0nat,
{
    proof {
        reveal(type_text);
    }
    let mut r: Vec<String> = Vec::new();
    let mut i: usize = 0;
    while i < items.len()
        invariant
            i <= items.len(),
            r.len() == i,
            forall|j: int| 0 <= j < i ==> (#[trigger] r@[j])@ == type_text(items@[j]@),
        decreases items.len() - i,
    {
        r.push(items[i].show());
        i = i + 1;
    }
    assert(strings(r@) =~= type_texts(types_view(items@)));
    r
}

pub fn show_fields(items: &Vec<(String, MagType)>) -> (r: Vec<String>)
    ensures
        strings(r@) == field_texts(fields_view(items@)),
    decreases items, 0nat,
{
    proof {
        reveal(type_text);
    }
    let mut r: Vec<String> = Vec::new();
    let mut i: usize = 0;
    while i < items.len()
        invariant
            i <= items.len(),
            r.len() == i,
            forall|j: int|
                0 <= j < i ==> (#[trigger] r@[j])@ == ":"@ + items@[j].0@ + " "@ + type_text(
                    items@[j].1@,
                ),
        decreases items.len() - i,
    {
        let part = cat4(":", &items[i].0, " ", &items[i].1.show());
        r.push(part);
        i = i + 1;
    }
    assert(strings(r@) =~= field_texts(fields_view(items@)));
    r
}

} // verus!
